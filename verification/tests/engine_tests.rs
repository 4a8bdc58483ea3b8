use bfvm::engine::{exec, exec_body, Machine};
use bfvm::memory::Memory;
use bfvm::ops::InstWithOffset;

#[test]
fn memory_grows_on_write_past_the_end() {
    let mut mem = Memory::new();
    mem.write(40000, 7);
    assert_eq!(mem.read(40000), 7);
    for i in [29999usize, 30000, 35000, 39999, 40001, 59999, 100000] {
        assert_eq!(mem.read(i), 0);
    }
}

#[test]
fn memory_reads_zero_beyond_allocation_and_keeps_values() {
    let mut mem = Memory::new();
    mem.write(0, 200);
    mem.write(29999, 1);
    assert_eq!(mem.read(0), 200);
    assert_eq!(mem.read(29999), 1);
    assert_eq!(mem.read(1_000_000), 0);
}

#[test]
fn clear_loop_and_set_zero_leave_the_same_state_for_every_start() {
    for v in 0..=255u8 {
        let naive = vec![
            InstWithOffset::Init(0, v),
            InstWithOffset::Loop(vec![InstWithOffset::AddI(0, 255)]),
        ];
        let reduced = vec![InstWithOffset::Init(0, v), InstWithOffset::Init(0, 0)];
        let mut m1 = Machine::start(vec![]);
        assert!(exec_body(&naive, &mut m1, 1000).is_ok());
        let mut m2 = Machine::start(vec![]);
        assert!(exec_body(&reduced, &mut m2, 1000).is_ok());
        assert_eq!(m1.mem.read(0), 0);
        assert_eq!(m2.mem.read(0), 0);
        assert_eq!(m1.ptr, m2.ptr);
    }
}

#[test]
fn multiply_loop_and_reduced_form_leave_identical_tapes_for_every_start() {
    for v in 0..=255u8 {
        let naive = vec![
            InstWithOffset::Init(0, v),
            InstWithOffset::Loop(vec![
                InstWithOffset::AddI(0, 255),
                InstWithOffset::AddI(1, 2),
                InstWithOffset::AddI(3, 5),
            ]),
        ];
        let reduced = vec![
            InstWithOffset::Init(0, v),
            InstWithOffset::AddMul(0, 1, 2),
            InstWithOffset::AddMul(0, 3, 5),
            InstWithOffset::Init(0, 0),
        ];
        let mut m1 = Machine::start(vec![]);
        assert!(exec_body(&naive, &mut m1, 1000).is_ok());
        let mut m2 = Machine::start(vec![]);
        assert!(exec_body(&reduced, &mut m2, 1000).is_ok());
        for i in 0..8usize {
            assert_eq!(m1.mem.read(i), m2.mem.read(i));
        }
        assert_eq!(m1.mem.read(0), 0);
        assert_eq!(m1.mem.read(1), v.wrapping_mul(2));
        assert_eq!(m1.mem.read(3), v.wrapping_mul(5));
    }
}

#[test]
fn exec_runs_reads_and_writes_in_order() {
    let prog = vec![
        InstWithOffset::GetChar(0),
        InstWithOffset::GetChar(1),
        InstWithOffset::PutChar(1),
        InstWithOffset::PutChar(0),
    ];
    let out = exec(&prog, vec![10, 20], 0).unwrap();
    assert_eq!(out, vec![20, 10]);
}

#[test]
fn add_wraps_modulo_256() {
    let prog = vec![
        InstWithOffset::Init(0, 200),
        InstWithOffset::AddI(0, 100),
        InstWithOffset::PutChar(0),
    ];
    let out = exec(&prog, vec![], 0).unwrap();
    assert_eq!(out, vec![44]);
}
