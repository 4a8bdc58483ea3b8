//! The execution engine: a depth-first tree walk of the final offset form
//! against the growable tape, with two's-complement wraparound on 8-bit
//! cells. Input is consumed from a byte sequence and output appended to one.
//!
//! Pointer policy (fixed by design): an address that leaves the machine's
//! range — a negative address, one past `usize::MAX`, or one that leaves no
//! room for the tape to hold it — is a hard fault reported as an error,
//! never wraparound. The engine takes an explicit budget of loop iterations
//! and reports exhaustion, so that a non-terminating program can be bounded
//! by the caller; every other operation is free of charge.

use vstd::prelude::*;
use crate::ops::{InstWithOffset, SpecOffInst, off_view, offs_view, lemma_offs_view};
use crate::memory::{Memory, mem_read, mem_write, init_tape, lemma_mem_write_read};
use crate::peephole::wadd;
use crate::addmul::{all_adds, base_sum, qualifies, mul_ops, rewritten};

verus! {

/// Why execution stopped before the program's end.
#[derive(Clone, Copy, Debug, PartialEq, Eq, Structural)]
pub enum ExecError {
    /// A read was requested and the input was exhausted.
    EndOfInput,
    /// The data pointer or an addressed cell left the machine's range.
    PointerOutOfRange,
    /// The loop-iteration budget ran out.
    StepLimit,
}

/// Multiplication of cell amounts, wrapping modulo 256.
pub open spec fn wmul(a: u8, b: u8) -> u8 {
    ((a as int * b as int) % 256) as u8
}

/// The whole state of a running machine: tape, data pointer, input still to
/// be read, and output written so far.
#[verifier::ext_equal]
pub struct MachineSpec {
    pub mem: Seq<u8>,
    pub ptr: nat,
    pub input: Seq<u8>,
    pub output: Seq<u8>,
}

/// The state a program starts in: a fresh tape, the pointer at zero, the
/// given input, and no output.
pub open spec fn init_machine(input: Seq<u8>) -> MachineSpec {
    MachineSpec { mem: init_tape(), ptr: 0, input, output: Seq::empty() }
}

/// How one run ends: a final state, or the error that stopped it.
pub enum RunResult {
    Done(MachineSpec),
    Fail(ExecError),
}

/// Whether a cell address is usable: within the machine's range, with room
/// for the tape to hold it.
pub open spec fn addr_ok(ptr: nat, o: int) -> bool {
    0 <= ptr + o < usize::MAX
}

/// One operation against a machine state. `fuel` bounds loop iterations.
pub open spec fn run_inst(i: SpecOffInst, m: MachineSpec, fuel: nat) -> RunResult
    decreases fuel, i, 0int,
{
    match i {
        SpecOffInst::AddI(o, x) => if addr_ok(m.ptr, o) {
            RunResult::Done(
                MachineSpec {
                    mem: mem_write(m.mem, m.ptr + o, wadd(mem_read(m.mem, m.ptr + o), x)),
                    ..m
                },
            )
        } else {
            RunResult::Fail(ExecError::PointerOutOfRange)
        },
        SpecOffInst::MovePtr(x) => if 0 <= m.ptr + x <= usize::MAX {
            RunResult::Done(MachineSpec { ptr: (m.ptr + x) as nat, ..m })
        } else {
            RunResult::Fail(ExecError::PointerOutOfRange)
        },
        SpecOffInst::Init(o, x) => if addr_ok(m.ptr, o) {
            RunResult::Done(MachineSpec { mem: mem_write(m.mem, m.ptr + o, x), ..m })
        } else {
            RunResult::Fail(ExecError::PointerOutOfRange)
        },
        SpecOffInst::AddMul(o1, o2, x) => if addr_ok(m.ptr, o1) && addr_ok(m.ptr, o2) {
            RunResult::Done(
                MachineSpec {
                    mem: mem_write(
                        m.mem,
                        m.ptr + o2,
                        wadd(mem_read(m.mem, m.ptr + o2), wmul(mem_read(m.mem, m.ptr + o1), x)),
                    ),
                    ..m
                },
            )
        } else {
            RunResult::Fail(ExecError::PointerOutOfRange)
        },
        SpecOffInst::GetChar(o) => if !addr_ok(m.ptr, o) {
            RunResult::Fail(ExecError::PointerOutOfRange)
        } else if m.input.len() == 0 {
            RunResult::Fail(ExecError::EndOfInput)
        } else {
            RunResult::Done(
                MachineSpec {
                    mem: mem_write(m.mem, m.ptr + o, m.input[0]),
                    input: m.input.drop_first(),
                    ..m
                },
            )
        },
        SpecOffInst::PutChar(o) => if addr_ok(m.ptr, o) {
            RunResult::Done(
                MachineSpec { output: m.output.push(mem_read(m.mem, m.ptr + o)), ..m },
            )
        } else {
            RunResult::Fail(ExecError::PointerOutOfRange)
        },
        SpecOffInst::Loop(l) => run_loop(l, m, fuel),
    }
}

/// A sequence of operations, each against the state the one before left.
pub open spec fn run_seq(s: Seq<SpecOffInst>, m: MachineSpec, fuel: nat) -> RunResult
    decreases fuel, s, 1int,
{
    if s.len() == 0 {
        RunResult::Done(m)
    } else {
        match run_inst(s[0], m, fuel) {
            RunResult::Done(m2) => run_seq(s.drop_first(), m2, fuel),
            RunResult::Fail(e) => RunResult::Fail(e),
        }
    }
}

/// A loop: the body runs while the cell under the pointer is non-zero.
/// Each iteration costs one unit of budget, charged before the body runs;
/// the test itself is free, so a loop over a zero cell always finishes.
pub open spec fn run_loop(l: Seq<SpecOffInst>, m: MachineSpec, fuel: nat) -> RunResult
    decreases fuel, l, 2int,
{
    if mem_read(m.mem, m.ptr as int) == 0 {
        RunResult::Done(m)
    } else if fuel == 0 {
        RunResult::Fail(ExecError::StepLimit)
    } else {
        match run_seq(l, m, (fuel - 1) as nat) {
            RunResult::Done(m2) => run_loop(l, m2, (fuel - 1) as nat),
            RunResult::Fail(e) => RunResult::Fail(e),
        }
    }
}

/// A running machine: the tape, the data pointer, the input with a read
/// position, and the output written so far.
pub struct Machine {
    pub mem: Memory,
    pub ptr: usize,
    pub input: Vec<u8>,
    pub in_pos: usize,
    pub output: Vec<u8>,
}

impl View for Machine {
    type V = MachineSpec;

    open spec fn view(&self) -> MachineSpec {
        MachineSpec {
            mem: self.mem@,
            ptr: self.ptr as nat,
            input: self.input@.skip(self.in_pos as int),
            output: self.output@,
        }
    }
}

impl Machine {
    /// The read position never passes the end of the input.
    pub open spec fn wf(&self) -> bool {
        self.in_pos <= self.input@.len()
    }

    /// A machine ready to run on the given input.
    pub fn start(input: Vec<u8>) -> (m: Machine)
        ensures
            m.wf(),
            m@ == init_machine(input@),
    {
        let m = Machine {
            mem: Memory::new(),
            ptr: 0,
            input,
            in_pos: 0,
            output: Vec::new(),
        };
        proof {
            assert(m@.input =~= m.input@);
            assert(m@ =~= init_machine(m.input@));
        }
        m
    }
}

/// One operation against the machine. The result and the machine's new
/// state are exactly what `run_inst` gives on the old state.
fn exec_inst(inst: &InstWithOffset, m: &mut Machine, fuel: u64) -> (r: Result<(), ExecError>)
    requires
        old(m).wf(),
    ensures
        final(m).wf(),
        match run_inst(off_view(*inst), old(m)@, fuel as nat) {
            RunResult::Done(ms) => r is Ok && final(m)@ == ms,
            RunResult::Fail(e) => r == Err::<(), ExecError>(e),
        },
    decreases fuel, inst, 0int,
{
    match inst {
        InstWithOffset::AddI(o, x) => {
            match m.ptr.checked_add_signed(*o) {
                Some(idx) => {
                    if idx == usize::MAX {
                        return Err(ExecError::PointerOutOfRange);
                    }
                    let cur = m.mem.read(idx);
                    m.mem.write(idx, cur.wrapping_add(*x));
                    proof {
                        assert(m@ =~= run_done_state(run_inst(off_view(*inst), old(m)@, fuel as nat)));
                    }
                    Ok(())
                },
                None => Err(ExecError::PointerOutOfRange),
            }
        },
        InstWithOffset::MovePtr(x) => {
            match m.ptr.checked_add_signed(*x) {
                Some(np) => {
                    m.ptr = np;
                    proof {
                        assert(m@ =~= run_done_state(run_inst(off_view(*inst), old(m)@, fuel as nat)));
                    }
                    Ok(())
                },
                None => Err(ExecError::PointerOutOfRange),
            }
        },
        InstWithOffset::Init(o, x) => {
            match m.ptr.checked_add_signed(*o) {
                Some(idx) => {
                    if idx == usize::MAX {
                        return Err(ExecError::PointerOutOfRange);
                    }
                    m.mem.write(idx, *x);
                    proof {
                        assert(m@ =~= run_done_state(run_inst(off_view(*inst), old(m)@, fuel as nat)));
                    }
                    Ok(())
                },
                None => Err(ExecError::PointerOutOfRange),
            }
        },
        InstWithOffset::AddMul(o1, o2, x) => {
            let idx1 = match m.ptr.checked_add_signed(*o1) {
                Some(idx1) => idx1,
                None => {
                    return Err(ExecError::PointerOutOfRange);
                },
            };
            if idx1 == usize::MAX {
                return Err(ExecError::PointerOutOfRange);
            }
            match m.ptr.checked_add_signed(*o2) {
                Some(idx2) => {
                    if idx2 == usize::MAX {
                        return Err(ExecError::PointerOutOfRange);
                    }
                    let src = m.mem.read(idx1);
                    let dst = m.mem.read(idx2);
                    m.mem.write(idx2, dst.wrapping_add(src.wrapping_mul(*x)));
                    proof {
                        assert(m@ =~= run_done_state(run_inst(off_view(*inst), old(m)@, fuel as nat)));
                    }
                    Ok(())
                },
                None => Err(ExecError::PointerOutOfRange),
            }
        },
        InstWithOffset::GetChar(o) => {
            match m.ptr.checked_add_signed(*o) {
                Some(idx) => {
                    if idx == usize::MAX {
                        return Err(ExecError::PointerOutOfRange);
                    }
                    if m.in_pos < m.input.len() {
                        let b = m.input[m.in_pos];
                        m.in_pos = m.in_pos + 1;
                        m.mem.write(idx, b);
                        proof {
                            assert(old(m)@.input[0] == b);
                            assert(m@.input =~= old(m)@.input.drop_first());
                            assert(m@ =~= run_done_state(
                                run_inst(off_view(*inst), old(m)@, fuel as nat),
                            ));
                        }
                        Ok(())
                    } else {
                        proof {
                            assert(old(m)@.input.len() == 0);
                        }
                        Err(ExecError::EndOfInput)
                    }
                },
                None => Err(ExecError::PointerOutOfRange),
            }
        },
        InstWithOffset::PutChar(o) => {
            match m.ptr.checked_add_signed(*o) {
                Some(idx) => {
                    if idx == usize::MAX {
                        return Err(ExecError::PointerOutOfRange);
                    }
                    let b = m.mem.read(idx);
                    m.output.push(b);
                    proof {
                        assert(m@ =~= run_done_state(run_inst(off_view(*inst), old(m)@, fuel as nat)));
                    }
                    Ok(())
                },
                None => Err(ExecError::PointerOutOfRange),
            }
        },
        InstWithOffset::Loop(l) => {
            proof {
                assert(decreases_to!(*inst => l@));
            }
            exec_loop(l, m, fuel)
        },
    }
}

/// The final state a finished run carries (ghost bookkeeping helper).
pub open spec fn run_done_state(r: RunResult) -> MachineSpec
    recommends
        r is Done,
{
    r->Done_0
}

/// A loop against the machine: the body runs while the cell under the
/// pointer is non-zero, one unit of budget per iteration.
fn exec_loop(l: &Vec<InstWithOffset>, m: &mut Machine, fuel: u64) -> (r: Result<(), ExecError>)
    requires
        old(m).wf(),
    ensures
        final(m).wf(),
        match run_loop(offs_view(l@), old(m)@, fuel as nat) {
            RunResult::Done(ms) => r is Ok && final(m)@ == ms,
            RunResult::Fail(e) => r == Err::<(), ExecError>(e),
        },
    decreases fuel, l@, 2int,
{
    let mut f = fuel;
    let mut c = m.mem.read(m.ptr);
    while c != 0
        invariant
            m.wf(),
            f <= fuel,
            c == mem_read(m@.mem, m@.ptr as int),
            run_loop(offs_view(l@), old(m)@, fuel as nat) == run_loop(offs_view(l@), m@, f as nat),
        decreases f,
    {
        if f == 0 {
            return Err(ExecError::StepLimit);
        }
        f = f - 1;
        let ghost pre = m@;
        match exec_body(l, m, f) {
            Ok(()) => {
                proof {
                    assert(run_loop(offs_view(l@), pre, (f + 1) as nat) == run_loop(
                        offs_view(l@),
                        m@,
                        f as nat,
                    ));
                }
            },
            Err(e) => {
                proof {
                    assert(run_loop(offs_view(l@), pre, (f + 1) as nat) == RunResult::Fail(e));
                }
                return Err(e);
            },
        }
        c = m.mem.read(m.ptr);
    }
    Ok(())
}

/// A sequence of operations against the machine, in order. The result and
/// the machine's new state are exactly what `run_seq` gives.
pub fn exec_body(insts: &Vec<InstWithOffset>, m: &mut Machine, fuel: u64) -> (r: Result<
    (),
    ExecError,
>)
    requires
        old(m).wf(),
    ensures
        final(m).wf(),
        match run_seq(offs_view(insts@), old(m)@, fuel as nat) {
            RunResult::Done(ms) => r is Ok && final(m)@ == ms,
            RunResult::Fail(e) => r == Err::<(), ExecError>(e),
        },
    decreases fuel, insts@, 1int,
{
    let ghost full = offs_view(insts@);
    let mut i: usize = 0;
    proof {
        lemma_offs_view(insts@);
        assert(full.skip(0) =~= full);
    }
    while i < insts.len()
        invariant
            old(m).wf(),
            m.wf(),
            i <= insts@.len(),
            full == offs_view(insts@),
            full.len() == insts@.len(),
            run_seq(full, old(m)@, fuel as nat) == run_seq(
                full.skip(i as int),
                m@,
                fuel as nat,
            ),
        decreases insts@.len() - i,
    {
        let ghost rest = full.skip(i as int);
        let ghost pre = m@;
        proof {
            lemma_offs_view(insts@);
            assert(rest[0] == off_view(insts@[i as int]));
            assert(rest.drop_first() =~= full.skip(i as int + 1));
        }
        match exec_inst(&insts[i], m, fuel) {
            Ok(()) => {
                proof {
                    assert(run_seq(rest, pre, fuel as nat) == run_seq(
                        rest.drop_first(),
                        m@,
                        fuel as nat,
                    ));
                }
            },
            Err(e) => {
                proof {
                    assert(run_seq(rest, pre, fuel as nat) == RunResult::Fail(e));
                }
                return Err(e);
            },
        }
        i = i + 1;
    }
    proof {
        assert(full.skip(i as int) =~= Seq::<SpecOffInst>::empty());
    }
    Ok(())
}

/// The clear-loop law: a loop whose body is the single decrement, run with
/// a budget of at least the counter's value, finishes and leaves the cell
/// under the pointer at zero and everything else — pointer, input, output,
/// and every other cell as read — unchanged. That is exactly the effect of
/// the explicit set-to-zero the peephole pass rewrites such a loop to, which
/// the second conclusion states for every budget, including zero: the
/// rewritten form no longer depends on the starting value of the cell.
pub proof fn lemma_clear_loop_equiv(m: MachineSpec, fuel: nat)
    requires
        addr_ok(m.ptr, 0),
        m.mem.len() <= usize::MAX,
        fuel >= mem_read(m.mem, m.ptr as int),
    ensures
        run_inst(SpecOffInst::Loop(seq![SpecOffInst::AddI(0, 255)]), m, fuel) matches RunResult::Done(m1)
            && m1.ptr == m.ptr
            && m1.input == m.input
            && m1.output == m.output
            && forall|j: int|
                mem_read(m1.mem, j) == mem_read(mem_write(m.mem, m.ptr as int, 0), j),
        run_inst(SpecOffInst::Init(0, 0), m, fuel) == RunResult::Done(
            MachineSpec { mem: mem_write(m.mem, m.ptr as int, 0), ..m },
        ),
    decreases mem_read(m.mem, m.ptr as int),
{
    let l = seq![SpecOffInst::AddI(0, 255)];
    let n = mem_read(m.mem, m.ptr as int);
    lemma_mem_write_read(m.mem, m.ptr as int, 0);
    if n == 0 {
        assert(run_loop(l, m, fuel) == RunResult::Done(m));
    } else {
        let stepped = MachineSpec {
            mem: mem_write(m.mem, m.ptr as int, wadd(mem_read(m.mem, m.ptr as int), 255)),
            ..m
        };
        lemma_mem_write_read(m.mem, m.ptr as int, wadd(n, 255));
        assert(wadd(n, 255) == n - 1);
        assert(l[0] == SpecOffInst::AddI(0, 255));
        assert(run_inst(l[0], m, (fuel - 1) as nat) == RunResult::Done(
            MachineSpec {
                mem: mem_write(m.mem, m.ptr + 0int, wadd(mem_read(m.mem, m.ptr + 0int), 255)),
                ..m
            },
        ));
        assert(mem_write(m.mem, m.ptr + 0int, wadd(mem_read(m.mem, m.ptr + 0int), 255))
            == stepped.mem);
        assert(run_inst(l[0], m, (fuel - 1) as nat) == RunResult::Done(stepped));
        assert(l.drop_first() =~= Seq::<SpecOffInst>::empty());
        assert(run_seq(Seq::<SpecOffInst>::empty(), stepped, (fuel - 1) as nat)
            == RunResult::Done(stepped));
        assert(run_seq(l, m, (fuel - 1) as nat) == RunResult::Done(stepped));
        assert(mem_read(stepped.mem, stepped.ptr as int) == n - 1);
        lemma_clear_loop_equiv(stepped, (fuel - 1) as nat);
        lemma_mem_write_read(stepped.mem, stepped.ptr as int, 0);
        assert(run_loop(l, m, fuel) == run_loop(l, stepped, (fuel - 1) as nat));
    }
}

/// Runs a compiled program on a fresh machine over the given input, with the
/// given budget of loop iterations. Returns the output written, or the error
/// that stopped execution.
pub fn exec(insts: &Vec<InstWithOffset>, input: Vec<u8>, fuel: u64) -> (r: Result<
    Vec<u8>,
    ExecError,
>)
    ensures
        match run_seq(offs_view(insts@), init_machine(input@), fuel as nat) {
            RunResult::Done(ms) => r matches Ok(out) && out@ == ms.output,
            RunResult::Fail(e) => r == Err::<Vec<u8>, ExecError>(e),
        },
{
    let ghost input0 = input@;
    let mut m = Machine::start(input);
    match exec_body(insts, &mut m, fuel) {
        Ok(()) => Ok(m.output),
        Err(e) => Err(e),
    }
}

/// Running a concatenation runs the first part, then the second from where
/// the first left off.
proof fn lemma_run_seq_concat(a: Seq<SpecOffInst>, b: Seq<SpecOffInst>, m: MachineSpec, fuel: nat)
    ensures
        run_seq(a + b, m, fuel) == match run_seq(a, m, fuel) {
            RunResult::Done(m1) => run_seq(b, m1, fuel),
            RunResult::Fail(e) => RunResult::Fail(e),
        },
    decreases a.len(),
{
    if a.len() == 0 {
        assert(a + b =~= b);
    } else {
        assert((a + b)[0] == a[0]);
        assert((a + b).len() > 0);
        assert((a + b).drop_first() =~= a.drop_first() + b);
        match run_inst(a[0], m, fuel) {
            RunResult::Done(m1) => {
                lemma_run_seq_concat(a.drop_first(), b, m1, fuel);
            },
            RunResult::Fail(_) => {},
        }
    }
}

/// The net amount the additions of a body add at the given offset.
pub open spec fn dsum(body: Seq<SpecOffInst>, o: int) -> int
    decreases body.len(),
{
    if body.len() == 0 {
        0
    } else {
        dsum(body.drop_last(), o) + (match body.last() {
            SpecOffInst::AddI(o2, x) => if o2 == o {
                x as int
            } else {
                0
            },
            _ => 0,
        })
    }
}

/// Every addition in the body names a usable address from the pointer.
pub open spec fn addrs_ok(body: Seq<SpecOffInst>, ptr: nat) -> bool {
    forall|j: int|
        0 <= j < body.len() ==> (#[trigger] body[j] matches SpecOffInst::AddI(o, _) ==> addr_ok(
            ptr,
            o,
        ))
}

proof fn lemma_dsum_cons(body: Seq<SpecOffInst>, o: int)
    requires
        body.len() > 0,
    ensures
        dsum(body, o) == (match body[0] {
            SpecOffInst::AddI(o2, x) => if o2 == o {
                x as int
            } else {
                0
            },
            _ => 0,
        }) + dsum(body.drop_first(), o),
    decreases body.len(),
{
    if body.len() == 1 {
        assert(body.drop_first() =~= Seq::<SpecOffInst>::empty());
        assert(body.drop_last() =~= Seq::<SpecOffInst>::empty());
        assert(body.last() == body[0]);
    } else {
        let p = body.drop_last();
        lemma_dsum_cons(p, o);
        assert(p[0] == body[0]);
        assert(body.drop_first().drop_last() =~= p.drop_first());
        assert(body.drop_first().last() == body.last());
    }
}

/// `((a mod 256) + b) mod 256 == (a + b) mod 256`.
proof fn lemma_mod_add_left(a: int, b: int)
    ensures
        ((a % 256) + b) % 256 == (a + b) % 256,
{
    vstd::arithmetic::div_mod::lemma_add_mod_noop(a % 256, b, 256);
    vstd::arithmetic::div_mod::lemma_mod_twice(a, 256);
    vstd::arithmetic::div_mod::lemma_add_mod_noop(a, b, 256);
}

/// One pass over a body of additions only: it always finishes, touches
/// neither pointer nor input nor output, and raises each cell by the body's
/// net amount at that cell's offset, modulo 256.
proof fn lemma_run_adds(body: Seq<SpecOffInst>, m: MachineSpec, fuel: nat)
    requires
        all_adds(body),
        addrs_ok(body, m.ptr),
        m.mem.len() <= usize::MAX,
    ensures
        run_seq(body, m, fuel) matches RunResult::Done(m1)
            && m1.ptr == m.ptr
            && m1.input == m.input
            && m1.output == m.output
            && m1.mem.len() <= usize::MAX
            && forall|a: int|
                mem_read(m1.mem, a) == (((mem_read(m.mem, a) + dsum(body, a - m.ptr))
                    % 256) as u8),
    decreases body.len(),
{
    if body.len() == 0 {
        assert forall|a: int|
            mem_read(m.mem, a) == (((mem_read(m.mem, a) + dsum(body, a - m.ptr)) % 256) as u8) by {
            assert(dsum(body, a - m.ptr) == 0);
        }
    } else {
        match body[0] {
            SpecOffInst::AddI(o0, x0) => {
                assert(addr_ok(m.ptr, o0));
                let v0 = mem_read(m.mem, m.ptr + o0);
                let mp = MachineSpec {
                    mem: mem_write(m.mem, m.ptr + o0, wadd(mem_read(m.mem, m.ptr + o0), x0)),
                    ..m
                };
                assert(run_inst(body[0], m, fuel) == RunResult::Done(mp));
                lemma_mem_write_read(m.mem, m.ptr + o0, wadd(v0, x0));
                let rest = body.drop_first();
                assert(all_adds(rest) && addrs_ok(rest, m.ptr)) by {
                    assert(forall|j: int| 0 <= j < rest.len() ==> rest[j] == body[j + 1]);
                }
                lemma_run_adds(rest, mp, fuel);
                let m1 = run_done_state(run_seq(rest, mp, fuel));
                assert forall|a: int|
                    mem_read(m1.mem, a) == (((mem_read(m.mem, a) + dsum(body, a - m.ptr))
                        % 256) as u8) by {
                    lemma_dsum_cons(body, a - m.ptr);
                    let v = mem_read(m.mem, a) as int;
                    let dr = dsum(rest, a - m.ptr);
                    if a == m.ptr + o0 {
                        assert(mem_read(mp.mem, a) == wadd(v0, x0));
                        assert(wadd(v0, x0) == (v + x0) % 256);
                        lemma_mod_add_left(v + x0, dr);
                    } else {
                        assert(mem_read(mp.mem, a) == mem_read(m.mem, a));
                    }
                }
            },
            _ => {
                assert(false);
            },
        }
    }
}

/// The counter's net decrement, as the reduction pass measures it, is the
/// body's net amount at offset zero, modulo 256.
proof fn lemma_base_sum_is_dsum(body: Seq<SpecOffInst>)
    ensures
        base_sum(body) == dsum(body, 0) % 256,
    decreases body.len(),
{
    if body.len() > 0 {
        let p = body.drop_last();
        lemma_base_sum_is_dsum(p);
        lemma_mod_add_left(dsum(p, 0), (match body.last() {
            SpecOffInst::AddI(o, x) => if o == 0 {
                x as int
            } else {
                0
            },
            _ => 0,
        }));
    }
}

/// A qualifying multiply-loop, run with a budget of at least the counter's
/// value, finishes and leaves the counter at zero and every other cell
/// raised by counter times the body's net amount at that cell's offset —
/// pointer, input and output untouched.
pub proof fn lemma_multiply_loop_runs(body: Seq<SpecOffInst>, m: MachineSpec, fuel: nat)
    requires
        qualifies(body),
        addrs_ok(body, m.ptr),
        addr_ok(m.ptr, 0),
        m.mem.len() <= usize::MAX,
        fuel >= mem_read(m.mem, m.ptr as int),
    ensures
        run_inst(SpecOffInst::Loop(body), m, fuel) matches RunResult::Done(m1)
            && m1.ptr == m.ptr
            && m1.input == m.input
            && m1.output == m.output
            && forall|a: int|
                mem_read(m1.mem, a) == if a == m.ptr as int {
                    0u8
                } else {
                    (((mem_read(m.mem, a) + mem_read(m.mem, m.ptr as int) * dsum(
                        body,
                        a - m.ptr,
                    )) % 256) as u8)
                },
    decreases mem_read(m.mem, m.ptr as int),
{
    let n = mem_read(m.mem, m.ptr as int) as int;
    if n == 0 {
        assert(run_loop(body, m, fuel) == RunResult::Done(m));
        assert forall|a: int|
            a != m.ptr as int implies mem_read(m.mem, a) == (((mem_read(m.mem, a) + 0 * dsum(
                body,
                a - m.ptr,
            )) % 256) as u8) by {
            assert(0 * dsum(body, a - m.ptr) == 0) by (nonlinear_arith);
        }
    } else {
        let f1 = (fuel - 1) as nat;
        lemma_run_adds(body, m, f1);
        let mp = run_done_state(run_seq(body, m, f1));
        lemma_base_sum_is_dsum(body);
        let d0 = dsum(body, 0);
        assert(base_sum(body) == 255);
        assert(mem_read(mp.mem, mp.ptr as int) == (((n + d0) % 256) as u8));
        assert((n + d0) % 256 == n - 1) by {
            lemma_mod_add_left(d0, n);
            assert((d0 + n) % 256 == (255 + n) % 256);
        }
        assert(fuel >= 1);
        lemma_multiply_loop_runs(body, mp, f1);
        assert(run_loop(body, m, fuel) == run_loop(body, mp, f1));
        let m1 = run_done_state(run_loop(body, mp, f1));
        assert forall|a: int|
            a != m.ptr as int implies mem_read(m1.mem, a) == (((mem_read(m.mem, a) + n * dsum(
                body,
                a - m.ptr,
            )) % 256) as u8) by {
            let v = mem_read(m.mem, a) as int;
            let d = dsum(body, a - m.ptr);
            assert(mem_read(mp.mem, a) == (((v + d) % 256) as u8));
            assert(mem_read(m1.mem, a) == ((((v + d) % 256 + (n - 1) * d) % 256) as u8));
            assert((n - 1) * d == n * d - d) by (nonlinear_arith);
            lemma_mod_add_left(v + d, n * d - d);
        }
    }
}

/// Running the multiply-accumulates of a body: the counter is untouched and
/// every other cell is raised by counter times the body's net amount at its
/// offset — with no iteration, whatever the budget.
proof fn lemma_run_muls(body: Seq<SpecOffInst>, m: MachineSpec, fuel: nat)
    requires
        addrs_ok(body, m.ptr),
        addr_ok(m.ptr, 0),
        m.mem.len() <= usize::MAX,
    ensures
        run_seq(mul_ops(body), m, fuel) matches RunResult::Done(mm)
            && mm.ptr == m.ptr
            && mm.input == m.input
            && mm.output == m.output
            && mm.mem.len() <= usize::MAX
            && mem_read(mm.mem, m.ptr as int) == mem_read(m.mem, m.ptr as int)
            && forall|a: int|
                a != m.ptr as int ==> mem_read(mm.mem, a) == (((mem_read(m.mem, a) + mem_read(
                    m.mem,
                    m.ptr as int,
                ) * dsum(body, a - m.ptr)) % 256) as u8),
    decreases body.len(),
{
    let n = mem_read(m.mem, m.ptr as int) as int;
    if body.len() == 0 {
        assert(mul_ops(body) =~= Seq::<SpecOffInst>::empty());
        assert forall|a: int|
            a != m.ptr as int implies mem_read(m.mem, a) == (((mem_read(m.mem, a) + n * dsum(
                body,
                a - m.ptr,
            )) % 256) as u8) by {
            assert(dsum(body, a - m.ptr) == 0);
            assert(n * 0 == 0) by (nonlinear_arith);
        }
    } else {
        let p = body.drop_last();
        assert(addrs_ok(p, m.ptr)) by {
            assert(forall|j: int| 0 <= j < p.len() ==> p[j] == body[j]);
        }
        lemma_run_muls(p, m, fuel);
        let mi = run_done_state(run_seq(mul_ops(p), m, fuel));
        let piece = match body.last() {
            SpecOffInst::AddI(o, x) => if o != 0 {
                seq![SpecOffInst::AddMul(0, o, x)]
            } else {
                Seq::<SpecOffInst>::empty()
            },
            _ => Seq::<SpecOffInst>::empty(),
        };
        assert(mul_ops(body) == mul_ops(p) + piece);
        lemma_run_seq_concat(mul_ops(p), piece, m, fuel);
        if piece.len() == 0 {
            assert(run_seq(piece, mi, fuel) == RunResult::Done(mi));
            assert forall|a: int|
                a != m.ptr as int implies mem_read(mi.mem, a) == (((mem_read(m.mem, a) + n * dsum(
                    body,
                    a - m.ptr,
                )) % 256) as u8) by {
                assert(dsum(body, a - m.ptr) == dsum(p, a - m.ptr));
            }
        } else {
            let o = body.last()->AddI_0;
            let x = body.last()->AddI_1;
            assert(body[body.len() - 1] matches SpecOffInst::AddI(oo, _) ==> addr_ok(m.ptr, oo));
            assert(addr_ok(m.ptr, o));
            assert(piece[0] == SpecOffInst::AddMul(0, o, x));
            let src = mem_read(mi.mem, m.ptr + 0int);
            let dst = mem_read(mi.mem, m.ptr + o);
            let mw = MachineSpec {
                mem: mem_write(mi.mem, m.ptr + o, wadd(dst, wmul(src, x))),
                ..mi
            };
            assert(run_inst(piece[0], mi, fuel) == RunResult::Done(mw));
            assert(piece.drop_first() =~= Seq::<SpecOffInst>::empty());
            assert(run_seq(piece.drop_first(), mw, fuel) == RunResult::Done(mw));
            assert(run_seq(piece, mi, fuel) == RunResult::Done(mw));
            lemma_mem_write_read(mi.mem, m.ptr + o, wadd(dst, wmul(src, x)));
            assert(src as int == n);
            assert forall|a: int|
                a != m.ptr as int implies mem_read(mw.mem, a) == (((mem_read(m.mem, a) + n * dsum(
                    body,
                    a - m.ptr,
                )) % 256) as u8) by {
                let v = mem_read(m.mem, a) as int;
                let dp = dsum(p, a - m.ptr);
                if a == m.ptr + o {
                    assert(dsum(body, a - m.ptr) == dp + x);
                    assert(dst as int == (v + n * dp) % 256);
                    assert(wmul(src, x) as int == (n * x) % 256);
                    assert(((v + n * dp) % 256 + (n * x) % 256) % 256 == (v + n * (dp + x))
                        % 256) by {
                        assert(n * (dp + x) == n * dp + n * x) by (nonlinear_arith);
                        vstd::arithmetic::div_mod::lemma_add_mod_noop(v + n * dp, n * x, 256);
                        vstd::arithmetic::div_mod::lemma_add_mod_noop(v, n * dp, 256);
                        lemma_mod_add_left(v + n * dp + n * x, 0);
                    };
                } else {
                    assert(dsum(body, a - m.ptr) == dp);
                    assert(mem_read(mw.mem, a) == mem_read(mi.mem, a));
                }
            }
        }
    }
}

/// The strength-reduction law: for every starting value of the counter, a
/// qualifying multiply-loop and the multiply-accumulate form it is rewritten
/// to end in the same state — same tape as read at every address, same
/// pointer, same input and output — though the loop takes one unit of budget
/// per unit of the counter and the rewritten form none at all.
pub proof fn lemma_multiply_loop_reduction_equiv(body: Seq<SpecOffInst>, m: MachineSpec, fuel: nat)
    requires
        qualifies(body),
        addrs_ok(body, m.ptr),
        addr_ok(m.ptr, 0),
        m.mem.len() <= usize::MAX,
        fuel >= mem_read(m.mem, m.ptr as int),
    ensures
        run_inst(SpecOffInst::Loop(body), m, fuel) matches RunResult::Done(m1) && (run_seq(
            rewritten(body),
            m,
            fuel,
        ) matches RunResult::Done(m2) && m1.ptr == m2.ptr && m1.input == m2.input && m1.output
            == m2.output && forall|a: int| mem_read(m1.mem, a) == mem_read(m2.mem, a)),
{
    lemma_multiply_loop_runs(body, m, fuel);
    lemma_run_muls(body, m, fuel);
    let mm = run_done_state(run_seq(mul_ops(body), m, fuel));
    assert(rewritten(body) =~= mul_ops(body) + seq![SpecOffInst::Init(0, 0)]);
    lemma_run_seq_concat(mul_ops(body), seq![SpecOffInst::Init(0, 0)], m, fuel);
    let mz = MachineSpec { mem: mem_write(mm.mem, mm.ptr + 0int, 0), ..mm };
    assert(seq![SpecOffInst::Init(0, 0)][0] == SpecOffInst::Init(0, 0));
    assert(mm.ptr == m.ptr);
    assert(addr_ok(mm.ptr, 0));
    assert(run_inst(seq![SpecOffInst::Init(0, 0)][0], mm, fuel) == RunResult::Done(mz));
    assert(seq![SpecOffInst::Init(0, 0)].drop_first() =~= Seq::<SpecOffInst>::empty());
    assert(run_seq(Seq::<SpecOffInst>::empty(), mz, fuel) == RunResult::Done(mz));
    assert(run_seq(seq![SpecOffInst::Init(0, 0)], mm, fuel) == RunResult::Done(mz));
    lemma_mem_write_read(mm.mem, m.ptr as int, 0);
    let m1 = run_done_state(run_inst(SpecOffInst::Loop(body), m, fuel));
    assert forall|a: int| mem_read(m1.mem, a) == mem_read(mz.mem, a) by {}
}

} // verus!
