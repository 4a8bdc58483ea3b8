use bfvm::ops::{Inst, InstWithOffset, RawInst};
use bfvm::lexer::parse;
use bfvm::tree::extract_loops;
use bfvm::peephole::optimize_basic;
use bfvm::offsets::{annotate_offset, delay_move_ptr, remove_zero_move_ptr};
use bfvm::addmul::{loop_to_addmul, loop_to_addmul_body};
use bfvm::pipeline::{compile, compile_and_run, CompileError, RunError};
use bfvm::engine::ExecError;

#[test]
fn test_loop_to_addmul() {
    let insts = vec![
        InstWithOffset::AddI(0, 2),
        InstWithOffset::MovePtr(2),
        InstWithOffset::Loop(vec![
            InstWithOffset::AddI(0, 255),
            InstWithOffset::AddI(1, 1),
        ]),
    ];
    assert_eq!(
        loop_to_addmul(&insts),
        vec![
            InstWithOffset::AddI(0, 2),
            InstWithOffset::MovePtr(2),
            InstWithOffset::AddMul(0, 1, 1),
            InstWithOffset::Init(0, 0)
        ]
    );
}

#[test]
fn lexer_keeps_commands_and_drops_the_rest() {
    let ops = parse("a+ b-\n>x<[].,!");
    assert_eq!(
        ops,
        vec![
            RawInst::AddI(1),
            RawInst::AddI(255),
            RawInst::MovePtr(1),
            RawInst::MovePtr(-1),
            RawInst::StartLoop,
            RawInst::EndLoop,
            RawInst::PutChar,
            RawInst::GetChar,
        ]
    );
    assert_eq!(parse(""), vec![]);
}

#[test]
fn tree_builder_nests_loops() {
    let ops = parse("+[>[-]<],");
    let tree = extract_loops(&ops).unwrap();
    assert_eq!(
        tree,
        vec![
            Inst::AddI(1),
            Inst::Loop(vec![
                Inst::MovePtr(1),
                Inst::Loop(vec![Inst::AddI(255)]),
                Inst::MovePtr(-1),
            ]),
            Inst::GetChar,
        ]
    );
}

#[test]
fn tree_builder_counts_leaves_like_the_flat_form() {
    let ops = parse("comment +-[>.<[,]]+");
    let tree = extract_loops(&ops).unwrap();
    fn leaves(t: &[Inst]) -> usize {
        t.iter()
            .map(|i| match i {
                Inst::Loop(l) => leaves(l),
                _ => 1,
            })
            .sum()
    }
    let flat = ops
        .iter()
        .filter(|o| !matches!(o, RawInst::StartLoop | RawInst::EndLoop))
        .count();
    assert_eq!(leaves(&tree), flat);
}

#[test]
fn unmatched_close_fails() {
    assert!(extract_loops(&parse("]")).is_none());
    assert!(extract_loops(&parse("+]")).is_none());
    assert!(extract_loops(&parse("[]]")).is_none());
}

#[test]
fn unmatched_open_fails() {
    assert!(extract_loops(&parse("[")).is_none());
    assert!(extract_loops(&parse("[[]")).is_none());
    assert!(extract_loops(&parse("+[+")).is_none());
}

#[test]
fn compile_reports_unmatched_delimiter() {
    assert_eq!(compile("[["), Err(CompileError::UnmatchedDelimiter));
    assert_eq!(
        compile_and_run("]", vec![], 100),
        Err(RunError::Compile(CompileError::UnmatchedDelimiter))
    );
}

#[test]
fn add_runs_coalesce_modulo_256() {
    let tree = vec![Inst::AddI(3), Inst::AddI(250), Inst::AddI(10)];
    assert_eq!(optimize_basic(&tree), vec![Inst::AddI(7)]);
    let moves = vec![Inst::MovePtr(2), Inst::MovePtr(3), Inst::MovePtr(-1)];
    assert_eq!(optimize_basic(&moves), vec![Inst::MovePtr(4)]);
}

#[test]
fn clear_loop_becomes_set_zero_and_folds_following_adds() {
    let tree = vec![Inst::Loop(vec![Inst::AddI(255)]), Inst::AddI(5)];
    assert_eq!(optimize_basic(&tree), vec![Inst::Init(5)]);
}

#[test]
fn optimize_twice_equals_once() {
    let ops = parse("+++--[>>><+-[-]]<<>,..");
    let tree = extract_loops(&ops).unwrap();
    let once = optimize_basic(&tree);
    let twice = optimize_basic(&once);
    assert_eq!(twice, once);
}

#[test]
fn deferral_annotates_offsets_and_flushes_before_loops() {
    let ops = parse(">+>[-]");
    let tree = extract_loops(&ops).unwrap();
    let annotated = annotate_offset(&optimize_basic(&tree));
    let deferred = delay_move_ptr(&annotated).unwrap();
    let cleaned = remove_zero_move_ptr(&deferred);
    assert_eq!(
        cleaned,
        vec![
            InstWithOffset::AddI(1, 1),
            InstWithOffset::Init(2, 0),
            InstWithOffset::MovePtr(2),
        ]
    );
    let ops = parse(">+>[,]");
    let tree = extract_loops(&ops).unwrap();
    let annotated = annotate_offset(&optimize_basic(&tree));
    let deferred = delay_move_ptr(&annotated).unwrap();
    let cleaned = remove_zero_move_ptr(&deferred);
    assert_eq!(
        cleaned,
        vec![
            InstWithOffset::AddI(1, 1),
            InstWithOffset::MovePtr(2),
            InstWithOffset::Loop(vec![InstWithOffset::GetChar(0)]),
        ]
    );
}

#[test]
fn zero_moves_are_removed() {
    let insts = vec![
        InstWithOffset::MovePtr(0),
        InstWithOffset::Loop(vec![InstWithOffset::MovePtr(0), InstWithOffset::AddI(0, 1)]),
        InstWithOffset::MovePtr(3),
    ];
    assert_eq!(
        remove_zero_move_ptr(&insts),
        vec![
            InstWithOffset::Loop(vec![InstWithOffset::AddI(0, 1)]),
            InstWithOffset::MovePtr(3),
        ]
    );
}

#[test]
fn addmul_body_requires_net_decrement_of_one() {
    // net decrement of two: does not qualify
    let body = vec![InstWithOffset::AddI(0, 254), InstWithOffset::AddI(1, 1)];
    assert!(loop_to_addmul_body(&body).is_none());
    // a pointer move disqualifies
    let body = vec![InstWithOffset::AddI(0, 255), InstWithOffset::MovePtr(1)];
    assert!(loop_to_addmul_body(&body).is_none());
    // split decrements summing to 255 qualify
    let body = vec![
        InstWithOffset::AddI(0, 100),
        InstWithOffset::AddI(2, 3),
        InstWithOffset::AddI(0, 155),
    ];
    assert_eq!(
        loop_to_addmul_body(&body),
        Some(vec![
            InstWithOffset::AddMul(0, 2, 3),
            InstWithOffset::Init(0, 0)
        ])
    );
}

#[test]
fn end_to_end_writes_sixty_four() {
    let out = compile_and_run("++++++++[>++++++++<-]>.", vec![], 100000).unwrap();
    assert_eq!(out, vec![64]);
}

#[test]
fn end_to_end_echoes_one_byte() {
    let out = compile_and_run(",.", vec![42], 100).unwrap();
    assert_eq!(out, vec![42]);
    assert_eq!(
        compile_and_run(",.", vec![], 100),
        Err(RunError::Exec(ExecError::EndOfInput))
    );
}

#[test]
fn empty_loop_on_zero_cell_terminates_at_once() {
    let out = compile_and_run("[]", vec![], 0).unwrap();
    assert_eq!(out, vec![]);
}

#[test]
fn empty_loop_on_nonzero_cell_exhausts_the_budget() {
    assert_eq!(
        compile_and_run("+[]", vec![], 1000),
        Err(RunError::Exec(ExecError::StepLimit))
    );
}

#[test]
fn moving_left_of_the_tape_is_a_hard_fault() {
    assert_eq!(
        compile_and_run("<.", vec![], 100),
        Err(RunError::Exec(ExecError::PointerOutOfRange))
    );
}

#[test]
fn deferral_reports_offsets_out_of_machine_range() {
    let insts = vec![
        InstWithOffset::MovePtr(isize::MAX),
        InstWithOffset::MovePtr(1),
    ];
    assert!(delay_move_ptr(&insts).is_none());
    let insts = vec![
        InstWithOffset::MovePtr(1),
        InstWithOffset::AddI(isize::MAX, 5),
    ];
    assert!(delay_move_ptr(&insts).is_none());
    let insts = vec![
        InstWithOffset::MovePtr(-1),
        InstWithOffset::MovePtr(1),
        InstWithOffset::AddI(0, 5),
    ];
    assert_eq!(
        delay_move_ptr(&insts),
        Some(vec![InstWithOffset::AddI(0, 5)])
    );
}
