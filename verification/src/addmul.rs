//! Multiply-loop strength reduction. A loop whose body is exclusively
//! offset-annotated additions, with the additions at offset zero summing to
//! a net decrement of one (255 modulo 256), runs exactly as many times as
//! the counter cell holds; it is replaced by one multiply-accumulate per
//! other-offset addition followed by an explicit clear of the counter.

use vstd::prelude::*;
use crate::ops::{
    InstWithOffset,
    SpecOffInst,
    off_view,
    offs_view,
    lemma_offs_view,
    lemma_offs_view_concat,
    lemma_offs_view_push,
    lemma_offs_view_take_push,
};

verus! {

/// Whether every operation of a loop body is an offset addition.
pub open spec fn all_adds(s: Seq<SpecOffInst>) -> bool {
    forall|j: int| 0 <= j < s.len() ==> s[j] is AddI
}

/// The net amount the additions at offset zero add to the counter cell,
/// modulo 256.
pub open spec fn base_sum(s: Seq<SpecOffInst>) -> int
    decreases s.len(),
{
    if s.len() == 0 {
        0
    } else {
        (base_sum(s.drop_last()) + (match s.last() {
            SpecOffInst::AddI(o, x) => if o == 0 {
                x as int
            } else {
                0
            },
            _ => 0,
        })) % 256
    }
}

/// A loop body qualifies for strength reduction exactly when it consists of
/// additions only and its offset-zero additions sum to a net decrement of
/// one (255 modulo 256).
pub open spec fn qualifies(s: Seq<SpecOffInst>) -> bool {
    all_adds(s) && base_sum(s) == 255
}

/// One multiply-accumulate per other-offset addition, in body order.
pub open spec fn mul_ops(s: Seq<SpecOffInst>) -> Seq<SpecOffInst>
    decreases s.len(),
{
    if s.len() == 0 {
        Seq::empty()
    } else {
        mul_ops(s.drop_last()) + (match s.last() {
            SpecOffInst::AddI(o, x) => if o != 0 {
                seq![SpecOffInst::AddMul(0, o, x)]
            } else {
                Seq::empty()
            },
            _ => Seq::empty(),
        })
    }
}

/// What a qualifying loop body is rewritten to: the multiply-accumulates,
/// then an explicit clear of the counter cell.
pub open spec fn rewritten(s: Seq<SpecOffInst>) -> Seq<SpecOffInst> {
    mul_ops(s).push(SpecOffInst::Init(0, 0))
}

/// Examines one loop body: returns the strength-reduced body exactly when
/// the body qualifies, and `None` otherwise.
pub fn loop_to_addmul_body(insts: &Vec<InstWithOffset>) -> (r: Option<Vec<InstWithOffset>>)
    ensures
        (r is Some) <==> qualifies(offs_view(insts@)),
        r matches Some(v) ==> offs_view(v@) == rewritten(offs_view(insts@)),
{
    let ghost full = offs_view(insts@);
    let mut result: Vec<InstWithOffset> = Vec::new();
    let mut base_add: u8 = 0;
    let mut i: usize = 0;
    proof {
        lemma_offs_view(insts@);
        assert(offs_view(insts@.subrange(0, 0)) =~= Seq::<SpecOffInst>::empty());
    }
    while i < insts.len()
        invariant
            i <= insts@.len(),
            full == offs_view(insts@),
            full.len() == insts@.len(),
            all_adds(offs_view(insts@.subrange(0, i as int))),
            base_add as int == base_sum(offs_view(insts@.subrange(0, i as int))),
            offs_view(result@) == mul_ops(offs_view(insts@.subrange(0, i as int))),
        decreases insts@.len() - i,
    {
        let ghost r0 = result@;
        let ghost pfx = offs_view(insts@.subrange(0, i as int));
        proof {
            lemma_offs_view(insts@);
            lemma_offs_view_take_push(insts@, i as int);
            assert(offs_view(insts@.subrange(0, i as int + 1)).drop_last() =~= pfx);
        }
        match &insts[i] {
            InstWithOffset::AddI(o, x) => {
                if *o == 0 {
                    base_add = base_add.wrapping_add(*x);
                } else {
                    result.push(InstWithOffset::AddMul(0, *o, *x));
                    proof {
                        lemma_offs_view_push(r0, InstWithOffset::AddMul(0, *o, *x));
                        assert(offs_view(result@) =~= offs_view(r0) + seq![SpecOffInst::AddMul(
                            0,
                            *o as int,
                            *x,
                        )]);
                    }
                }
            },
            _ => {
                proof {
                    assert(full[i as int] == off_view(insts@[i as int]));
                    assert(!(full[i as int] is AddI));
                    assert(!all_adds(full));
                }
                return None;
            },
        }
        proof {
            assert(offs_view(result@) == mul_ops(offs_view(insts@.subrange(0, i as int + 1))));
        }
        i = i + 1;
    }
    proof {
        assert(insts@.subrange(0, i as int) =~= insts@);
    }
    if base_add != 255 {
        return None;
    }
    let ghost r0 = result@;
    result.push(InstWithOffset::Init(0, 0));
    proof {
        lemma_offs_view_push(r0, InstWithOffset::Init(0, 0));
    }
    Some(result)
}

/// What one operation leaves after strength reduction: a qualifying loop is
/// replaced, spliced in place, by its rewritten body; a loop that does not
/// qualify keeps its structure with the body reduced recursively; everything
/// else stays.
pub open spec fn lam_piece(i: SpecOffInst) -> Seq<SpecOffInst>
    decreases i, 0int,
{
    match i {
        SpecOffInst::Loop(l) => if qualifies(l) {
            rewritten(l)
        } else {
            seq![SpecOffInst::Loop(lam_seq(l))]
        },
        _ => seq![i],
    }
}

/// A sequence with every qualifying loop strength-reduced and spliced in
/// place of the loop it came from.
pub open spec fn lam_seq(s: Seq<SpecOffInst>) -> Seq<SpecOffInst>
    decreases s, 1int,
{
    if s.len() == 0 {
        Seq::empty()
    } else {
        lam_seq(s.drop_last()) + lam_piece(s.last())
    }
}

/// Strength-reduces every qualifying multiply-loop in the sequence,
/// recursing into the bodies of loops that do not qualify.
pub fn loop_to_addmul(insts: &Vec<InstWithOffset>) -> (r: Vec<InstWithOffset>)
    ensures
        offs_view(r@) == lam_seq(offs_view(insts@)),
    decreases insts@,
{
    let mut result: Vec<InstWithOffset> = Vec::new();
    let mut i: usize = 0;
    proof {
        assert(offs_view(insts@.subrange(0, 0)) =~= Seq::<SpecOffInst>::empty());
    }
    while i < insts.len()
        invariant
            i <= insts@.len(),
            offs_view(result@) == lam_seq(offs_view(insts@.subrange(0, i as int))),
        decreases insts@.len() - i,
    {
        let ghost r0 = result@;
        let ghost pfx = offs_view(insts@.subrange(0, i as int));
        proof {
            lemma_offs_view_take_push(insts@, i as int);
            assert(offs_view(insts@.subrange(0, i as int + 1)).drop_last() =~= pfx);
        }
        match &insts[i] {
            InstWithOffset::Loop(l) => {
                proof {
                    assert(insts@[i as int] == InstWithOffset::Loop(*l));
                    assert(decreases_to!(insts@ => l@));
                }
                match loop_to_addmul_body(l) {
                    Some(mut b) => {
                        let ghost b0 = b@;
                        result.append(&mut b);
                        proof {
                            lemma_offs_view_concat(r0, b0);
                            assert(offs_view(result@) =~= offs_view(r0) + lam_piece(
                                off_view(insts@[i as int]),
                            ));
                        }
                    },
                    None => {
                        let b = loop_to_addmul(l);
                        result.push(InstWithOffset::Loop(b));
                        proof {
                            let x = result@.last();
                            lemma_offs_view_push(r0, x);
                            assert(offs_view(result@) =~= offs_view(r0) + lam_piece(
                                off_view(insts@[i as int]),
                            ));
                        }
                    },
                }
            },
            InstWithOffset::AddI(o, x) => {
                result.push(InstWithOffset::AddI(*o, *x));
                proof {
                    lemma_offs_view_push(r0, InstWithOffset::AddI(*o, *x));
                }
            },
            InstWithOffset::MovePtr(x) => {
                result.push(InstWithOffset::MovePtr(*x));
                proof {
                    lemma_offs_view_push(r0, InstWithOffset::MovePtr(*x));
                }
            },
            InstWithOffset::Init(o, x) => {
                result.push(InstWithOffset::Init(*o, *x));
                proof {
                    lemma_offs_view_push(r0, InstWithOffset::Init(*o, *x));
                }
            },
            InstWithOffset::AddMul(o1, o2, x) => {
                result.push(InstWithOffset::AddMul(*o1, *o2, *x));
                proof {
                    lemma_offs_view_push(r0, InstWithOffset::AddMul(*o1, *o2, *x));
                }
            },
            InstWithOffset::GetChar(o) => {
                result.push(InstWithOffset::GetChar(*o));
                proof {
                    lemma_offs_view_push(r0, InstWithOffset::GetChar(*o));
                }
            },
            InstWithOffset::PutChar(o) => {
                result.push(InstWithOffset::PutChar(*o));
                proof {
                    lemma_offs_view_push(r0, InstWithOffset::PutChar(*o));
                }
            },
        }
        proof {
            assert(offs_view(result@) =~= offs_view(r0) + lam_piece(off_view(insts@[i as int])));
            assert(offs_view(result@) == lam_seq(pfx) + lam_piece(off_view(insts@[i as int])));
            assert(lam_seq(offs_view(insts@.subrange(0, i as int + 1))) == lam_seq(pfx)
                + lam_piece(off_view(insts@[i as int])));
        }
        i = i + 1;
    }
    proof {
        assert(insts@.subrange(0, i as int) =~= insts@);
    }
    result
}

} // verus!
