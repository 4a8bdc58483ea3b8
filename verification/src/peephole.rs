//! Peephole optimization over the tree form, bottom-up: runs of additions
//! coalesce modulo 256 (folding into a preceding set-to-value as well), runs
//! of pointer moves coalesce when the sum stays within the machine's range,
//! and a loop whose optimized body is a single decrement becomes an explicit
//! set-to-zero.

use vstd::prelude::*;
use crate::ops::{Inst, SpecInst, inst_view, insts_view, lemma_insts_view, lemma_insts_view_push, lemma_insts_view_take_push};

verus! {

/// Addition of cell amounts, wrapping modulo 256.
pub open spec fn wadd(a: u8, b: u8) -> u8 {
    ((a + b) % 256) as u8
}

/// Whether a pointer displacement is representable on this machine.
pub open spec fn fits_isize(d: int) -> bool {
    isize::MIN <= d <= isize::MAX
}

/// Append one operation to an already optimized prefix, merging with the
/// last operation where the rewrite rules allow.
pub open spec fn opt_push(acc: Seq<SpecInst>, i: SpecInst) -> Seq<SpecInst>
    decreases i, 0int,
{
    match i {
        SpecInst::AddI(x) => if acc.len() > 0 && acc.last() is AddI {
            acc.update(acc.len() - 1, SpecInst::AddI(wadd(acc.last()->AddI_0, x)))
        } else if acc.len() > 0 && acc.last() is Init {
            acc.update(acc.len() - 1, SpecInst::Init(wadd(acc.last()->Init_0, x)))
        } else {
            acc.push(SpecInst::AddI(x))
        },
        SpecInst::MovePtr(x) => if acc.len() > 0 && acc.last() is MovePtr && fits_isize(
            acc.last()->MovePtr_0 + x,
        ) {
            acc.update(acc.len() - 1, SpecInst::MovePtr(acc.last()->MovePtr_0 + x))
        } else {
            acc.push(SpecInst::MovePtr(x))
        },
        SpecInst::Loop(l) => {
            let b = opt_seq(l);
            if b == seq![SpecInst::AddI(255)] {
                acc.push(SpecInst::Init(0))
            } else {
                acc.push(SpecInst::Loop(b))
            }
        },
        _ => acc.push(i),
    }
}

/// The optimized form of a sequence: each operation appended in turn to the
/// optimized prefix, loop bodies rewritten first.
pub open spec fn opt_seq(s: Seq<SpecInst>) -> Seq<SpecInst>
    decreases s, 1int,
{
    if s.len() == 0 {
        Seq::empty()
    } else {
        opt_push(opt_seq(s.drop_last()), s.last())
    }
}

/// One pass of peephole rewriting over a sequence of tree operations,
/// recursing into loop bodies first.
pub fn optimize_basic(insts: &Vec<Inst>) -> (r: Vec<Inst>)
    ensures
        insts_view(r@) == opt_seq(insts_view(insts@)),
    decreases insts@,
{
    let mut result: Vec<Inst> = Vec::new();
    let mut i: usize = 0;
    proof {
        assert(insts@.subrange(0, 0) =~= Seq::<Inst>::empty());
    }
    while i < insts.len()
        invariant
            i <= insts@.len(),
            insts_view(result@) == opt_seq(insts_view(insts@.subrange(0, i as int))),
        decreases insts@.len() - i,
    {
        let ghost r0 = result@;
        let ghost pfx = insts_view(insts@.subrange(0, i as int));
        proof {
            lemma_insts_view(r0);
            lemma_insts_view_take_push(insts@, i as int);
            assert(insts_view(insts@.subrange(0, i as int + 1)).drop_last() =~= pfx);
        }
        match &insts[i] {
            Inst::AddI(x) => {
                match result.pop() {
                    Some(Inst::AddI(y)) => {
                        result.push(Inst::AddI(y.wrapping_add(*x)));
                        proof {
                            lemma_pop_push_is_update(r0, result@, SpecInst::AddI(wadd(y, *x)));
                        }
                    },
                    Some(Inst::Init(y)) => {
                        result.push(Inst::Init(y.wrapping_add(*x)));
                        proof {
                            lemma_pop_push_is_update(r0, result@, SpecInst::Init(wadd(y, *x)));
                        }
                    },
                    Some(other) => {
                        result.push(other);
                        proof {
                            assert(result@ =~= r0);
                        }
                        result.push(Inst::AddI(*x));
                        proof {
                            lemma_insts_view_push(r0, Inst::AddI(*x));
                        }
                    },
                    None => {
                        result.push(Inst::AddI(*x));
                        proof {
                            lemma_insts_view_push(r0, Inst::AddI(*x));
                        }
                    },
                }
            },
            Inst::MovePtr(x) => {
                match result.pop() {
                    Some(Inst::MovePtr(y)) => {
                        match y.checked_add(*x) {
                            Some(s) => {
                                result.push(Inst::MovePtr(s));
                                proof {
                                    lemma_pop_push_is_update(
                                        r0,
                                        result@,
                                        SpecInst::MovePtr(y + *x),
                                    );
                                }
                            },
                            None => {
                                result.push(Inst::MovePtr(y));
                                proof {
                                    assert(result@ =~= r0);
                                }
                                result.push(Inst::MovePtr(*x));
                                proof {
                                    lemma_insts_view_push(r0, Inst::MovePtr(*x));
                                }
                            },
                        }
                    },
                    Some(other) => {
                        result.push(other);
                        proof {
                            assert(result@ =~= r0);
                        }
                        result.push(Inst::MovePtr(*x));
                        proof {
                            lemma_insts_view_push(r0, Inst::MovePtr(*x));
                        }
                    },
                    None => {
                        result.push(Inst::MovePtr(*x));
                        proof {
                            lemma_insts_view_push(r0, Inst::MovePtr(*x));
                        }
                    },
                }
            },
            Inst::Init(x) => {
                result.push(Inst::Init(*x));
                proof {
                    lemma_insts_view_push(r0, Inst::Init(*x));
                }
            },
            Inst::GetChar => {
                result.push(Inst::GetChar);
                proof {
                    lemma_insts_view_push(r0, Inst::GetChar);
                }
            },
            Inst::PutChar => {
                result.push(Inst::PutChar);
                proof {
                    lemma_insts_view_push(r0, Inst::PutChar);
                }
            },
            Inst::Loop(l) => {
                proof {
                    assert(insts@[i as int] == Inst::Loop(*l));
                    assert(decreases_to!(insts@ => l@));
                }
                let b = optimize_basic(l);
                proof {
                    lemma_insts_view(b@);
                }
                let mut is_clear = false;
                if b.len() == 1 {
                    match &b[0] {
                        Inst::AddI(v) => {
                            if *v == 255 {
                                is_clear = true;
                            }
                        },
                        _ => {},
                    }
                }
                if is_clear {
                    proof {
                        assert(insts_view(b@) =~= seq![SpecInst::AddI(255)]);
                    }
                    result.push(Inst::Init(0));
                    proof {
                        lemma_insts_view_push(r0, Inst::Init(0));
                    }
                } else {
                    proof {
                        if insts_view(b@) == seq![SpecInst::AddI(255)] {
                            lemma_insts_view(b@);
                            assert(insts_view(b@).len() == 1);
                            assert(b@.len() == 1);
                            assert(insts_view(b@)[0] == SpecInst::AddI(255));
                            assert(insts_view(b@)[0] == inst_view(b@[0]));
                            assert(inst_view(b@[0]) == SpecInst::AddI(255));
                            match b@[0] {
                                Inst::AddI(v) => {
                                    assert(v == 255);
                                },
                                _ => {},
                            }
                            assert(false);
                        }
                    }
                    result.push(Inst::Loop(b));
                    proof {
                        let x = pushed_of(result@);
                        lemma_insts_view_push(r0, x);
                    }
                }
            },
        }
        proof {
            assert(insts_view(result@) == opt_push(insts_view(r0), inst_view(insts@[i as int])));
            assert(opt_seq(insts_view(insts@.subrange(0, i as int + 1))) == opt_push(
                opt_seq(pfx),
                inst_view(insts@[i as int]),
            ));
        }
        i = i + 1;
    }
    proof {
        assert(insts@.subrange(0, i as int) =~= insts@);
    }
    result
}

/// Popping the last element and pushing a replacement is an update in place.
proof fn lemma_pop_push_is_update(r0: Seq<Inst>, r1: Seq<Inst>, v: SpecInst)
    requires
        r0.len() > 0,
        r1 == r0.drop_last().push(pushed_of(r1)),
        r1.len() == r0.len(),
        inst_view(pushed_of(r1)) == v,
    ensures
        insts_view(r1) =~= insts_view(r0).update(r0.len() - 1, v),
{
    lemma_insts_view(r1);
    lemma_insts_view(r0);
    assert forall|j: int| 0 <= j < r0.len() implies insts_view(r1)[j] == insts_view(r0).update(
        r0.len() - 1,
        v,
    )[j] by {
        if j < r0.len() - 1 {
            assert(r1[j] == r0[j]);
        } else {
            assert(r1[j] == pushed_of(r1));
        }
    }
}

/// The element last pushed onto a non-empty vector (ghost bookkeeping helper).
pub open spec fn pushed_of(r: Seq<Inst>) -> Inst
    recommends
        r.len() > 0,
{
    r.last()
}

/// The sum of a run of additions, modulo 256.
pub open spec fn add_run_sum(s: Seq<SpecInst>) -> int
    decreases s.len(),
{
    if s.len() == 0 {
        0
    } else {
        (add_run_sum(s.drop_last()) + (match s.last() {
            SpecInst::AddI(x) => x as int,
            _ => 0,
        })) % 256
    }
}

/// The coalescing law: a run of additions with amounts `d1 .. dn` rewrites
/// to the single addition of `(d1 + .. + dn) % 256`.
pub proof fn lemma_add_run_coalesces(s: Seq<SpecInst>)
    requires
        s.len() >= 1,
        forall|j: int| 0 <= j < s.len() ==> s[j] is AddI,
    ensures
        opt_seq(s) == seq![SpecInst::AddI(add_run_sum(s) as u8)],
    decreases s.len(),
{
    let p = s.drop_last();
    if s.len() == 1 {
        assert(opt_seq(p) =~= Seq::<SpecInst>::empty());
        assert(add_run_sum(p) == 0);
        assert(s.last() is AddI);
        assert(add_run_sum(s) == s.last()->AddI_0 as int);
        assert(opt_seq(s) == opt_push(opt_seq(p), s.last()));
        assert(opt_seq(s) =~= seq![SpecInst::AddI(add_run_sum(s) as u8)]);
    } else {
        assert(forall|j: int| 0 <= j < p.len() ==> p[j] is AddI);
        lemma_add_run_coalesces(p);
        let acc = seq![SpecInst::AddI(add_run_sum(p) as u8)];
        assert(acc.last() is AddI);
        assert(opt_seq(s) == opt_push(acc, s.last()));
        assert(opt_seq(s) =~= seq![SpecInst::AddI(add_run_sum(s) as u8)]);
    }
}

/// Whether the second operation would coalesce into the first.
pub open spec fn merges(a: SpecInst, b: SpecInst) -> bool {
    ||| (b is AddI && (a is AddI || a is Init))
    ||| (b is MovePtr && a is MovePtr && fits_isize(a->MovePtr_0 + b->MovePtr_0))
}

/// Whether one operation is in rewritten form: a loop's body is normalized
/// and is not the single decrement; anything else always is.
pub open spec fn norm_one(i: SpecInst) -> bool
    decreases i, 0int,
{
    match i {
        SpecInst::Loop(l) => normalized(l) && l != seq![SpecInst::AddI(255)],
        _ => true,
    }
}

/// Whether no rewrite applies anywhere in the sequence: no two adjacent
/// operations coalesce, and every loop is in rewritten form.
pub open spec fn normalized(s: Seq<SpecInst>) -> bool
    decreases s, 1int,
{
    if s.len() == 0 {
        true
    } else {
        norm_one(s[0]) && (s.len() >= 2 ==> !merges(s[0], s[1])) && normalized(s.drop_first())
    }
}

proof fn lemma_norm_at(s: Seq<SpecInst>, j: int)
    requires
        normalized(s),
        0 <= j < s.len(),
    ensures
        norm_one(s[j]),
        j < s.len() - 1 ==> !merges(s[j], s[j + 1]),
    decreases s.len(),
{
    if j > 0 {
        lemma_norm_at(s.drop_first(), j - 1);
    }
}

proof fn lemma_norm_drop_last(s: Seq<SpecInst>)
    requires
        normalized(s),
        s.len() >= 1,
    ensures
        normalized(s.drop_last()),
    decreases s.len(),
{
    if s.len() >= 2 {
        lemma_norm_drop_last(s.drop_first());
        assert(s.drop_first().drop_last() =~= s.drop_last().drop_first());
        assert(s.drop_last()[0] == s[0]);
        if s.len() >= 3 {
            assert(s.drop_last()[1] == s[1]);
        }
    } else {
        assert(s.drop_last() =~= Seq::<SpecInst>::empty());
    }
}

proof fn lemma_opt_fixpoint_one(i: SpecInst)
    requires
        norm_one(i),
    ensures
        i matches SpecInst::Loop(l) ==> opt_seq(l) == l,
    decreases i, 0int,
{
    match i {
        SpecInst::Loop(l) => {
            lemma_optimize_fixpoint(l);
        },
        _ => {},
    }
}

/// One half of idempotence: the peephole pass is the identity on any
/// sequence in normal form — in particular on anything it has itself
/// produced while no coalescing was cut short by the machine's range. (A
/// pointer-move merge that the range check refuses can leave two adjacent
/// moves whose sum a later pass could take; on such output a second pass is
/// not the identity, so the law carries the normal-form premise.)
pub proof fn lemma_optimize_fixpoint(s: Seq<SpecInst>)
    requires
        normalized(s),
    ensures
        opt_seq(s) == s,
    decreases s, 1int,
{
    if s.len() > 0 {
        let p = s.drop_last();
        lemma_norm_drop_last(s);
        lemma_optimize_fixpoint(p);
        lemma_norm_at(s, s.len() - 1);
        if s.len() >= 2 {
            lemma_norm_at(s, s.len() - 2);
            assert(!merges(s[s.len() - 2], s.last()));
            assert(p.last() == s[s.len() - 2]);
        }
        lemma_opt_fixpoint_one(s.last());
        match s.last() {
            SpecInst::Loop(l) => {
                assert(opt_push(p, s.last()) == p.push(s.last()));
            },
            _ => {},
        }
        assert(opt_push(p, s.last()) =~= s);
    } else {
        assert(opt_seq(s) =~= s);
    }
}

/// Whether the second operation would coalesce into the first under some
/// machine range or other: the shape alone, with no range check.
pub open spec fn merges_shape(a: SpecInst, b: SpecInst) -> bool {
    ||| (b is AddI && (a is AddI || a is Init))
    ||| (b is MovePtr && a is MovePtr)
}

/// Whether one operation is in strict rewritten form: a loop's body is in
/// strict normal form and is not the single decrement.
pub open spec fn norm_strong_one(i: SpecInst) -> bool
    decreases i, 0int,
{
    match i {
        SpecInst::Loop(l) => norm_strong(l) && l != seq![SpecInst::AddI(255)],
        _ => true,
    }
}

/// Strict normal form: no two adjacent operations even have coalescible
/// shape, and every loop is in strict rewritten form.
pub open spec fn norm_strong(s: Seq<SpecInst>) -> bool
    decreases s, 1int,
{
    if s.len() == 0 {
        true
    } else {
        norm_strong_one(s[0]) && (s.len() >= 2 ==> !merges_shape(s[0], s[1])) && norm_strong(
            s.drop_first(),
        )
    }
}

/// Whether a pass over the sequence refuses no pointer-move merge: whenever
/// a move meets a preceding coalesced move, their sum is representable.
pub open spec fn clip_free_push(acc: Seq<SpecInst>, i: SpecInst) -> bool
    decreases i, 0int,
{
    match i {
        SpecInst::MovePtr(x) => acc.len() > 0 && acc.last() is MovePtr ==> fits_isize(
            acc.last()->MovePtr_0 + x,
        ),
        SpecInst::Loop(l) => clip_free(l),
        _ => true,
    }
}

/// Whether the whole pass, on this sequence and every loop body in it,
/// refuses no pointer-move merge.
pub open spec fn clip_free(s: Seq<SpecInst>) -> bool
    decreases s, 1int,
{
    if s.len() == 0 {
        true
    } else {
        clip_free(s.drop_last()) && clip_free_push(opt_seq(s.drop_last()), s.last())
    }
}

/// Strict normal form is normal form.
proof fn lemma_strong_is_normalized(s: Seq<SpecInst>)
    requires
        norm_strong(s),
    ensures
        normalized(s),
    decreases s, 1int,
{
    if s.len() > 0 {
        lemma_strong_one_is_norm_one(s[0]);
        lemma_strong_is_normalized(s.drop_first());
    }
}

proof fn lemma_strong_one_is_norm_one(i: SpecInst)
    requires
        norm_strong_one(i),
    ensures
        norm_one(i),
    decreases i, 0int,
{
    match i {
        SpecInst::Loop(l) => {
            lemma_strong_is_normalized(l);
        },
        _ => {},
    }
}

proof fn lemma_strong_push(acc: Seq<SpecInst>, y: SpecInst)
    requires
        norm_strong(acc),
        norm_strong_one(y),
        acc.len() >= 1 ==> !merges_shape(acc.last(), y),
    ensures
        norm_strong(acc.push(y)),
    decreases acc.len(),
{
    if acc.len() == 0 {
        assert(acc.push(y).drop_first() =~= Seq::<SpecInst>::empty());
        assert(norm_strong(Seq::<SpecInst>::empty()));
        assert(acc.push(y)[0] == y);
    } else {
        assert(acc.push(y)[0] == acc[0]);
        assert(acc.last() == acc[acc.len() - 1]);
        if acc.len() >= 2 {
            assert(acc.drop_first().last() == acc.last());
        }
        assert(acc.push(y)[1] == if acc.len() >= 2 {
            acc[1]
        } else {
            y
        });
        assert(acc.push(y).drop_first() =~= acc.drop_first().push(y));
        lemma_strong_push(acc.drop_first(), y);
    }
}

proof fn lemma_strong_update_last(acc: Seq<SpecInst>, y: SpecInst)
    requires
        norm_strong(acc),
        acc.len() >= 1,
        norm_strong_one(y),
        acc.len() >= 2 ==> !merges_shape(acc[acc.len() - 2], y),
    ensures
        norm_strong(acc.update(acc.len() - 1, y)),
    decreases acc.len(),
{
    let u = acc.update(acc.len() - 1, y);
    if acc.len() == 1 {
        assert(u[0] == y);
        assert(u.drop_first() =~= Seq::<SpecInst>::empty());
        assert(norm_strong(Seq::<SpecInst>::empty()));
    } else {
        assert(u[0] == acc[0]);
        assert(u[1] == if acc.len() == 2 {
            y
        } else {
            acc[1]
        });
        assert(u.drop_first() =~= acc.drop_first().update(acc.drop_first().len() - 1, y));
        lemma_strong_update_last(acc.drop_first(), y);
    }
}

proof fn lemma_opt_strong_one(i: SpecInst)
    requires
        i matches SpecInst::Loop(l) ==> clip_free(l),
    ensures
        i matches SpecInst::Loop(l) ==> norm_strong(opt_seq(l)),
    decreases i, 0int,
{
    match i {
        SpecInst::Loop(l) => {
            lemma_opt_strong(l);
        },
        _ => {},
    }
}

/// A pass that refuses no pointer-move merge leaves its output in strict
/// normal form.
proof fn lemma_opt_strong(s: Seq<SpecInst>)
    requires
        clip_free(s),
    ensures
        norm_strong(opt_seq(s)),
    decreases s, 1int,
{
    if s.len() == 0 {
        assert(opt_seq(s) =~= Seq::<SpecInst>::empty());
        assert(norm_strong(opt_seq(s)));
    } else {
        let p = s.drop_last();
        let acc = opt_seq(p);
        assert(clip_free(p) && clip_free_push(acc, s.last()));
        lemma_opt_strong(p);
        lemma_opt_strong_one(s.last());
        assert(opt_seq(s) == opt_push(acc, s.last()));
        if acc.len() >= 1 {
            assert(acc.last() == acc[acc.len() - 1]);
        }
        match s.last() {
            SpecInst::AddI(x) => {
                if acc.len() > 0 && acc.last() is AddI {
                    if acc.len() >= 2 {
                        lemma_strong_at(acc, acc.len() - 2);
                    }
                    lemma_strong_update_last(acc, SpecInst::AddI(wadd(acc.last()->AddI_0, x)));
                } else if acc.len() > 0 && acc.last() is Init {
                    lemma_strong_update_last(acc, SpecInst::Init(wadd(acc.last()->Init_0, x)));
                } else {
                    lemma_strong_push(acc, SpecInst::AddI(x));
                }
            },
            SpecInst::MovePtr(x) => {
                if acc.len() > 0 && acc.last() is MovePtr && fits_isize(
                    acc.last()->MovePtr_0 + x,
                ) {
                    if acc.len() >= 2 {
                        lemma_strong_at(acc, acc.len() - 2);
                    }
                    lemma_strong_update_last(
                        acc,
                        SpecInst::MovePtr(acc.last()->MovePtr_0 + x),
                    );
                } else {
                    lemma_strong_push(acc, SpecInst::MovePtr(x));
                }
            },
            SpecInst::Loop(_) => {
                let b = opt_seq(s.last()->Loop_0);
                if b == seq![SpecInst::AddI(255)] {
                    lemma_strong_push(acc, SpecInst::Init(0));
                } else {
                    lemma_strong_push(acc, SpecInst::Loop(b));
                }
            },
            _ => {
                lemma_strong_push(acc, s.last());
            },
        }
    }
}

proof fn lemma_strong_at(s: Seq<SpecInst>, j: int)
    requires
        norm_strong(s),
        0 <= j < s.len(),
    ensures
        norm_strong_one(s[j]),
        j < s.len() - 1 ==> !merges_shape(s[j], s[j + 1]),
    decreases s.len(),
{
    if j > 0 {
        lemma_strong_at(s.drop_first(), j - 1);
    }
}

/// The idempotence law: on every sequence where the pass refuses no
/// pointer-move merge against the machine's range, applying the pass twice
/// yields what one application yields. (Where a refused merge leaves two
/// adjacent moves whose sum a later pass can take, a second pass can
/// coalesce further; the premise leaves exactly those inputs out.)
pub proof fn lemma_optimize_idempotent(s: Seq<SpecInst>)
    requires
        clip_free(s),
    ensures
        opt_seq(opt_seq(s)) == opt_seq(s),
{
    lemma_opt_strong(s);
    lemma_strong_is_normalized(opt_seq(s));
    lemma_optimize_fixpoint(opt_seq(s));
}

} // verus!
