//! The whole pipeline: source text to flat operations, to a loop tree, to
//! the optimized offset form, and the single compile-and-run entry point.

use vstd::prelude::*;
use crate::ops::{InstWithOffset, SpecInst, SpecOffInst, insts_view, offs_view};
use crate::lexer::{lex, parse};
use crate::tree::{balanced, build, extract_loops, lemma_build_some_iff_balanced};
use crate::peephole::{opt_seq, optimize_basic};
use crate::offsets::{
    ann_seq,
    delay_from,
    delay_ok_from,
    rz_seq,
    annotate_offset,
    delay_move_ptr,
    remove_zero_move_ptr,
};
use crate::addmul::{lam_seq, loop_to_addmul};
use crate::engine::{exec, run_seq, RunResult, ExecError, init_machine};

verus! {

/// Why compilation failed.
#[derive(Clone, Copy, Debug, PartialEq, Eq, Structural)]
pub enum CompileError {
    /// A loop delimiter has no partner: a structural failure.
    UnmatchedDelimiter,
    /// A deferred pointer offset left the machine's range.
    OffsetOverflow,
}

/// Everything that can stop a program short of a normal finish.
#[derive(Clone, Copy, Debug, PartialEq, Eq, Structural)]
pub enum RunError {
    Compile(CompileError),
    Exec(ExecError),
}

/// The offset form the pipeline hands the engine, when the source compiles:
/// lex, build the tree, coalesce, annotate, defer moves, drop zero moves,
/// strength-reduce.
pub open spec fn compiled(src: Seq<char>) -> Option<Seq<SpecOffInst>> {
    match build(lex(src)) {
        Some(t) => {
            let annotated = ann_seq(opt_seq(t));
            if delay_ok_from(annotated, 0) {
                Some(lam_seq(rz_seq(delay_from(annotated, 0))))
            } else {
                None
            }
        },
        None => None,
    }
}

/// Compiles source text through every stage of the pipeline.
pub fn compile(code: &str) -> (r: Result<Vec<InstWithOffset>, CompileError>)
    ensures
        (r is Ok) <==> (compiled(code@) is Some),
        r matches Ok(v) ==> compiled(code@) == Some(offs_view(v@)),
        (r == Err::<Vec<InstWithOffset>, CompileError>(CompileError::UnmatchedDelimiter)) <==> !balanced(
            lex(code@),
        ),
{
    let raw = parse(code);
    proof {
        lemma_build_some_iff_balanced(lex(code@));
    }
    let tree = match extract_loops(&raw) {
        Some(t) => t,
        None => {
            return Err(CompileError::UnmatchedDelimiter);
        },
    };
    let coalesced = optimize_basic(&tree);
    let annotated = annotate_offset(&coalesced);
    let deferred = match delay_move_ptr(&annotated) {
        Some(d) => d,
        None => {
            return Err(CompileError::OffsetOverflow);
        },
    };
    let cleaned = remove_zero_move_ptr(&deferred);
    let reduced = loop_to_addmul(&cleaned);
    Ok(reduced)
}

/// Compiles and runs a source program over the given input, with the given
/// budget of loop iterations. Returns the output the program wrote, the
/// compilation failure, or the error that stopped execution.
pub fn compile_and_run(code: &str, input: Vec<u8>, fuel: u64) -> (r: Result<Vec<u8>, RunError>)
    ensures
        (r == Err::<Vec<u8>, RunError>(RunError::Compile(CompileError::UnmatchedDelimiter)))
            <==> !balanced(lex(code@)),
        (r is Err && r->Err_0 is Compile) <==> compiled(code@) is None,
        compiled(code@) matches Some(p) ==> match run_seq(p, init_machine(input@), fuel as nat) {
            RunResult::Done(ms) => r matches Ok(out) && out@ == ms.output,
            RunResult::Fail(e) => r == Err::<Vec<u8>, RunError>(RunError::Exec(e)),
        },
{
    let prog = match compile(code) {
        Ok(p) => p,
        Err(e) => {
            return Err(RunError::Compile(e));
        },
    };
    match exec(&prog, input, fuel) {
        Ok(out) => Ok(out),
        Err(e) => Err(RunError::Exec(e)),
    }
}

} // verus!
