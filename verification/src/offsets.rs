//! Offset annotation and pointer-move deferral. Every cell-touching
//! operation is re-expressed as a displacement from a virtual pointer;
//! pointer moves are accumulated and flushed as one consolidated move only
//! at loop entry or sequence end, and moves of zero are removed afterwards.

use vstd::prelude::*;
use crate::ops::{
    Inst,
    InstWithOffset,
    SpecInst,
    SpecOffInst,
    inst_view,
    insts_view,
    off_view,
    offs_view,
    lemma_insts_view,
    lemma_offs_view,
    lemma_insts_view_take_push,
    lemma_offs_view_push,
    lemma_offs_view_take_push,
};
use crate::peephole::fits_isize;

verus! {

/// One tree operation annotated with offset zero from the virtual pointer.
pub open spec fn ann_one(i: SpecInst) -> SpecOffInst
    decreases i, 0int,
{
    match i {
        SpecInst::AddI(x) => SpecOffInst::AddI(0, x),
        SpecInst::MovePtr(x) => SpecOffInst::MovePtr(x),
        SpecInst::Init(x) => SpecOffInst::Init(0, x),
        SpecInst::GetChar => SpecOffInst::GetChar(0),
        SpecInst::PutChar => SpecOffInst::PutChar(0),
        SpecInst::Loop(l) => SpecOffInst::Loop(ann_seq(l)),
    }
}

/// A sequence annotated element by element, loop bodies independently.
pub open spec fn ann_seq(s: Seq<SpecInst>) -> Seq<SpecOffInst>
    decreases s, 1int,
{
    if s.len() == 0 {
        Seq::empty()
    } else {
        ann_seq(s.drop_last()).push(ann_one(s.last()))
    }
}

/// Annotates every operation with offset zero relative to the virtual
/// pointer, recursing into loop bodies independently.
pub fn annotate_offset(insts: &Vec<Inst>) -> (r: Vec<InstWithOffset>)
    ensures
        offs_view(r@) == ann_seq(insts_view(insts@)),
    decreases insts@,
{
    let mut result: Vec<InstWithOffset> = Vec::new();
    let mut i: usize = 0;
    proof {
        assert(insts@.subrange(0, 0) =~= Seq::<Inst>::empty());
    }
    while i < insts.len()
        invariant
            i <= insts@.len(),
            offs_view(result@) == ann_seq(insts_view(insts@.subrange(0, i as int))),
        decreases insts@.len() - i,
    {
        let ghost r0 = result@;
        let ghost pfx = insts_view(insts@.subrange(0, i as int));
        proof {
            lemma_insts_view_take_push(insts@, i as int);
            assert(insts_view(insts@.subrange(0, i as int + 1)).drop_last() =~= pfx);
        }
        match &insts[i] {
            Inst::AddI(x) => {
                result.push(InstWithOffset::AddI(0, *x));
                proof {
                    lemma_offs_view_push(r0, InstWithOffset::AddI(0, *x));
                }
            },
            Inst::MovePtr(x) => {
                result.push(InstWithOffset::MovePtr(*x));
                proof {
                    lemma_offs_view_push(r0, InstWithOffset::MovePtr(*x));
                }
            },
            Inst::Init(x) => {
                result.push(InstWithOffset::Init(0, *x));
                proof {
                    lemma_offs_view_push(r0, InstWithOffset::Init(0, *x));
                }
            },
            Inst::GetChar => {
                result.push(InstWithOffset::GetChar(0));
                proof {
                    lemma_offs_view_push(r0, InstWithOffset::GetChar(0));
                }
            },
            Inst::PutChar => {
                result.push(InstWithOffset::PutChar(0));
                proof {
                    lemma_offs_view_push(r0, InstWithOffset::PutChar(0));
                }
            },
            Inst::Loop(l) => {
                proof {
                    assert(insts@[i as int] == Inst::Loop(*l));
                    assert(decreases_to!(insts@ => l@));
                }
                let b = annotate_offset(l);
                result.push(InstWithOffset::Loop(b));
                proof {
                    let x = result@.last();
                    lemma_offs_view_push(r0, x);
                }
            },
        }
        proof {
            assert(offs_view(result@) == ann_seq(pfx).push(ann_one(inst_view(insts@[i as int]))));
            assert(ann_seq(insts_view(insts@.subrange(0, i as int + 1))) == ann_seq(pfx).push(
                ann_one(inst_view(insts@[i as int])),
            ));
        }
        i = i + 1;
    }
    proof {
        assert(insts@.subrange(0, i as int) =~= insts@);
    }
    result
}

/// The body rewrite a deferred loop node carries.
pub open spec fn delay_body(i: SpecOffInst) -> Seq<SpecOffInst>
    decreases i, 0int,
{
    match i {
        SpecOffInst::Loop(l) => delay_from(l, 0),
        _ => Seq::empty(),
    }
}

/// Pointer-move deferral over a sequence, carrying the offset accumulated
/// since the last flush. A loop is preceded by one consolidated move; a
/// trailing non-zero offset is flushed at sequence end.
pub open spec fn delay_from(s: Seq<SpecOffInst>, acc: int) -> Seq<SpecOffInst>
    decreases s, 1int,
{
    if s.len() == 0 {
        if acc == 0 {
            Seq::empty()
        } else {
            seq![SpecOffInst::MovePtr(acc)]
        }
    } else {
        match s[0] {
            SpecOffInst::AddI(o, x) => seq![SpecOffInst::AddI(o + acc, x)] + delay_from(
                s.drop_first(),
                acc,
            ),
            SpecOffInst::MovePtr(x) => delay_from(s.drop_first(), acc + x),
            SpecOffInst::Init(o, x) => seq![SpecOffInst::Init(o + acc, x)] + delay_from(
                s.drop_first(),
                acc,
            ),
            SpecOffInst::AddMul(o1, o2, x) => seq![SpecOffInst::AddMul(o1 + acc, o2 + acc, x)]
                + delay_from(s.drop_first(), acc),
            SpecOffInst::GetChar(o) => seq![SpecOffInst::GetChar(o + acc)] + delay_from(
                s.drop_first(),
                acc,
            ),
            SpecOffInst::PutChar(o) => seq![SpecOffInst::PutChar(o + acc)] + delay_from(
                s.drop_first(),
                acc,
            ),
            SpecOffInst::Loop(_) => seq![
                SpecOffInst::MovePtr(acc),
                SpecOffInst::Loop(delay_body(s[0])),
            ] + delay_from(s.drop_first(), 0),
        }
    }
}

/// Whether a deferred loop body stays within the machine's offset range.
pub open spec fn delay_ok_body(i: SpecOffInst) -> bool
    decreases i, 0int,
{
    match i {
        SpecOffInst::Loop(l) => delay_ok_from(l, 0),
        _ => true,
    }
}

/// Whether every offset and accumulated displacement met during deferral is
/// representable on this machine.
pub open spec fn delay_ok_from(s: Seq<SpecOffInst>, acc: int) -> bool
    decreases s, 1int,
{
    if s.len() == 0 {
        true
    } else {
        match s[0] {
            SpecOffInst::AddI(o, x) => fits_isize(o + acc) && delay_ok_from(s.drop_first(), acc),
            SpecOffInst::MovePtr(x) => fits_isize(acc + x) && delay_ok_from(
                s.drop_first(),
                acc + x,
            ),
            SpecOffInst::Init(o, x) => fits_isize(o + acc) && delay_ok_from(s.drop_first(), acc),
            SpecOffInst::AddMul(o1, o2, x) => fits_isize(o1 + acc) && fits_isize(o2 + acc)
                && delay_ok_from(s.drop_first(), acc),
            SpecOffInst::GetChar(o) => fits_isize(o + acc) && delay_ok_from(s.drop_first(), acc),
            SpecOffInst::PutChar(o) => fits_isize(o + acc) && delay_ok_from(s.drop_first(), acc),
            SpecOffInst::Loop(_) => delay_ok_body(s[0]) && delay_ok_from(s.drop_first(), 0),
        }
    }
}

/// Defers pointer moves: accumulates them into the offsets of the following
/// operations and emits one consolidated move only before a loop or at the
/// end. Returns `None` exactly when an offset would leave the machine's
/// range; the rewrite itself never fails otherwise.
pub fn delay_move_ptr(insts: &Vec<InstWithOffset>) -> (r: Option<Vec<InstWithOffset>>)
    ensures
        (r is Some) <==> delay_ok_from(offs_view(insts@), 0),
        r matches Some(v) ==> offs_view(v@) == delay_from(offs_view(insts@), 0),
    decreases insts@,
{
    let ghost full = offs_view(insts@);
    let mut result: Vec<InstWithOffset> = Vec::new();
    let mut offset: isize = 0;
    let mut i: usize = 0;
    proof {
        lemma_offs_view(insts@);
        assert(full.skip(0) =~= full);
    }
    while i < insts.len()
        invariant
            i <= insts@.len(),
            full == offs_view(insts@),
            full.len() == insts@.len(),
            delay_ok_from(full, 0) == delay_ok_from(full.skip(i as int), offset as int),
            delay_from(full, 0) == offs_view(result@) + delay_from(
                full.skip(i as int),
                offset as int,
            ),
        decreases insts@.len() - i,
    {
        let ghost r0 = result@;
        let ghost acc0 = offset as int;
        let ghost rest = full.skip(i as int);
        proof {
            lemma_offs_view(insts@);
            assert(rest[0] == off_view(insts@[i as int]));
            assert(rest.drop_first() =~= full.skip(i as int + 1));
        }
        match &insts[i] {
            InstWithOffset::AddI(o, x) => {
                match o.checked_add(offset) {
                    Some(no) => {
                        result.push(InstWithOffset::AddI(no, *x));
                        proof {
                            assert(delay_ok_from(rest, acc0) == delay_ok_from(
                                rest.drop_first(),
                                acc0,
                            ));
                            lemma_offs_view_push(r0, InstWithOffset::AddI(no, *x));
                            assert(offs_view(result@) + delay_from(rest.drop_first(), acc0)
                                =~= offs_view(r0) + delay_from(rest, acc0));
                        }
                    },
                    None => {
                        proof {
                            assert(!delay_ok_from(rest, acc0));
                        }
                        return None;
                    },
                }
            },
            InstWithOffset::MovePtr(x) => {
                match offset.checked_add(*x) {
                    Some(no) => {
                        offset = no;
                        proof {
                            assert(delay_from(rest, acc0) == delay_from(
                                rest.drop_first(),
                                offset as int,
                            ));
                            assert(delay_ok_from(rest, acc0) == delay_ok_from(
                                rest.drop_first(),
                                offset as int,
                            ));
                        }
                    },
                    None => {
                        proof {
                            assert(!delay_ok_from(rest, acc0));
                        }
                        return None;
                    },
                }
            },
            InstWithOffset::Init(o, x) => {
                match o.checked_add(offset) {
                    Some(no) => {
                        result.push(InstWithOffset::Init(no, *x));
                        proof {
                            assert(delay_ok_from(rest, acc0) == delay_ok_from(
                                rest.drop_first(),
                                acc0,
                            ));
                            lemma_offs_view_push(r0, InstWithOffset::Init(no, *x));
                            assert(offs_view(result@) + delay_from(rest.drop_first(), acc0)
                                =~= offs_view(r0) + delay_from(rest, acc0));
                        }
                    },
                    None => {
                        proof {
                            assert(!delay_ok_from(rest, acc0));
                        }
                        return None;
                    },
                }
            },
            InstWithOffset::AddMul(o1, o2, x) => {
                let n1 = match o1.checked_add(offset) {
                    Some(n1) => n1,
                    None => {
                        proof {
                            assert(!delay_ok_from(rest, acc0));
                        }
                        return None;
                    },
                };
                match o2.checked_add(offset) {
                    Some(n2) => {
                        result.push(InstWithOffset::AddMul(n1, n2, *x));
                        proof {
                            assert(delay_ok_from(rest, acc0) == delay_ok_from(
                                rest.drop_first(),
                                acc0,
                            ));
                            lemma_offs_view_push(r0, InstWithOffset::AddMul(n1, n2, *x));
                            assert(offs_view(result@) + delay_from(rest.drop_first(), acc0)
                                =~= offs_view(r0) + delay_from(rest, acc0));
                        }
                    },
                    None => {
                        proof {
                            assert(!delay_ok_from(rest, acc0));
                        }
                        return None;
                    },
                }
            },
            InstWithOffset::GetChar(o) => {
                match o.checked_add(offset) {
                    Some(no) => {
                        result.push(InstWithOffset::GetChar(no));
                        proof {
                            assert(delay_ok_from(rest, acc0) == delay_ok_from(
                                rest.drop_first(),
                                acc0,
                            ));
                            lemma_offs_view_push(r0, InstWithOffset::GetChar(no));
                            assert(offs_view(result@) + delay_from(rest.drop_first(), acc0)
                                =~= offs_view(r0) + delay_from(rest, acc0));
                        }
                    },
                    None => {
                        proof {
                            assert(!delay_ok_from(rest, acc0));
                        }
                        return None;
                    },
                }
            },
            InstWithOffset::PutChar(o) => {
                match o.checked_add(offset) {
                    Some(no) => {
                        result.push(InstWithOffset::PutChar(no));
                        proof {
                            assert(delay_ok_from(rest, acc0) == delay_ok_from(
                                rest.drop_first(),
                                acc0,
                            ));
                            lemma_offs_view_push(r0, InstWithOffset::PutChar(no));
                            assert(offs_view(result@) + delay_from(rest.drop_first(), acc0)
                                =~= offs_view(r0) + delay_from(rest, acc0));
                        }
                    },
                    None => {
                        proof {
                            assert(!delay_ok_from(rest, acc0));
                        }
                        return None;
                    },
                }
            },
            InstWithOffset::Loop(l) => {
                proof {
                    assert(insts@[i as int] == InstWithOffset::Loop(*l));
                    assert(decreases_to!(insts@ => l@));
                }
                result.push(InstWithOffset::MovePtr(offset));
                proof {
                    lemma_offs_view_push(r0, InstWithOffset::MovePtr(offset));
                }
                let ghost r1 = result@;
                match delay_move_ptr(l) {
                    Some(b) => {
                        result.push(InstWithOffset::Loop(b));
                        offset = 0;
                        proof {
                            assert(delay_ok_body(rest[0]));
                            assert(delay_ok_from(rest, acc0) == delay_ok_from(
                                rest.drop_first(),
                                0,
                            ));
                            let x = result@.last();
                            lemma_offs_view_push(r1, x);
                            assert(off_view(x) == SpecOffInst::Loop(delay_body(rest[0])));
                            assert(offs_view(result@) + delay_from(rest.drop_first(), 0)
                                =~= offs_view(r0) + delay_from(rest, acc0));
                        }
                    },
                    None => {
                        proof {
                            assert(rest[0] == off_view(insts@[i as int]));
                            assert(insts@[i as int] == InstWithOffset::Loop(*l));
                            assert(rest[0] == SpecOffInst::Loop(offs_view(l@)));
                            assert(!delay_ok_from(offs_view(l@), 0));
                            assert(!delay_ok_body(rest[0]));
                            assert(!delay_ok_from(rest, acc0));
                        }
                        return None;
                    },
                }
            },
        }
        i = i + 1;
    }
    proof {
        assert(full.skip(i as int) =~= Seq::<SpecOffInst>::empty());
    }
    if offset != 0 {
        let ghost r0 = result@;
        result.push(InstWithOffset::MovePtr(offset));
        proof {
            lemma_offs_view_push(r0, InstWithOffset::MovePtr(offset));
            assert(offs_view(result@) =~= offs_view(r0) + seq![SpecOffInst::MovePtr(
                offset as int,
            )]);
        }
    } else {
        proof {
            assert(offs_view(result@) + Seq::<SpecOffInst>::empty() =~= offs_view(result@));
        }
    }
    Some(result)
}

/// What one deferred operation leaves behind after zero-move cleanup.
pub open spec fn rz_piece(i: SpecOffInst) -> Seq<SpecOffInst>
    decreases i, 0int,
{
    match i {
        SpecOffInst::MovePtr(x) => if x == 0 {
            Seq::empty()
        } else {
            seq![SpecOffInst::MovePtr(x)]
        },
        SpecOffInst::Loop(l) => seq![SpecOffInst::Loop(rz_seq(l))],
        _ => seq![i],
    }
}

/// A sequence with every pointer move of zero displacement removed,
/// recursing into loop bodies.
pub open spec fn rz_seq(s: Seq<SpecOffInst>) -> Seq<SpecOffInst>
    decreases s, 1int,
{
    if s.len() == 0 {
        Seq::empty()
    } else {
        rz_seq(s.drop_last()) + rz_piece(s.last())
    }
}

/// Removes pointer moves with zero net displacement, which deferral leaves
/// behind when a flushed offset happens to be zero.
pub fn remove_zero_move_ptr(insts: &Vec<InstWithOffset>) -> (r: Vec<InstWithOffset>)
    ensures
        offs_view(r@) == rz_seq(offs_view(insts@)),
    decreases insts@,
{
    let mut result: Vec<InstWithOffset> = Vec::new();
    let mut i: usize = 0;
    proof {
        assert(offs_view(insts@.subrange(0, 0)) =~= Seq::<SpecOffInst>::empty());
    }
    while i < insts.len()
        invariant
            i <= insts@.len(),
            offs_view(result@) == rz_seq(offs_view(insts@.subrange(0, i as int))),
        decreases insts@.len() - i,
    {
        let ghost r0 = result@;
        let ghost pfx = offs_view(insts@.subrange(0, i as int));
        proof {
            lemma_offs_view_take_push(insts@, i as int);
            assert(offs_view(insts@.subrange(0, i as int + 1)).drop_last() =~= pfx);
        }
        match &insts[i] {
            InstWithOffset::MovePtr(x) => {
                if *x != 0 {
                    result.push(InstWithOffset::MovePtr(*x));
                    proof {
                        lemma_offs_view_push(r0, InstWithOffset::MovePtr(*x));
                        assert(offs_view(result@) =~= offs_view(r0) + rz_piece(
                            off_view(insts@[i as int]),
                        ));
                    }
                } else {
                    proof {
                        assert(offs_view(result@) =~= offs_view(r0) + rz_piece(
                            off_view(insts@[i as int]),
                        ));
                    }
                }
            },
            InstWithOffset::Loop(l) => {
                proof {
                    assert(insts@[i as int] == InstWithOffset::Loop(*l));
                    assert(decreases_to!(insts@ => l@));
                }
                let b = remove_zero_move_ptr(l);
                result.push(InstWithOffset::Loop(b));
                proof {
                    let x = result@.last();
                    lemma_offs_view_push(r0, x);
                    assert(offs_view(result@) =~= offs_view(r0) + rz_piece(
                        off_view(insts@[i as int]),
                    ));
                }
            },
            InstWithOffset::AddI(o, x) => {
                result.push(InstWithOffset::AddI(*o, *x));
                proof {
                    lemma_offs_view_push(r0, InstWithOffset::AddI(*o, *x));
                    assert(offs_view(result@) =~= offs_view(r0) + rz_piece(
                        off_view(insts@[i as int]),
                    ));
                }
            },
            InstWithOffset::Init(o, x) => {
                result.push(InstWithOffset::Init(*o, *x));
                proof {
                    lemma_offs_view_push(r0, InstWithOffset::Init(*o, *x));
                    assert(offs_view(result@) =~= offs_view(r0) + rz_piece(
                        off_view(insts@[i as int]),
                    ));
                }
            },
            InstWithOffset::AddMul(o1, o2, x) => {
                result.push(InstWithOffset::AddMul(*o1, *o2, *x));
                proof {
                    lemma_offs_view_push(r0, InstWithOffset::AddMul(*o1, *o2, *x));
                    assert(offs_view(result@) =~= offs_view(r0) + rz_piece(
                        off_view(insts@[i as int]),
                    ));
                }
            },
            InstWithOffset::GetChar(o) => {
                result.push(InstWithOffset::GetChar(*o));
                proof {
                    lemma_offs_view_push(r0, InstWithOffset::GetChar(*o));
                    assert(offs_view(result@) =~= offs_view(r0) + rz_piece(
                        off_view(insts@[i as int]),
                    ));
                }
            },
            InstWithOffset::PutChar(o) => {
                result.push(InstWithOffset::PutChar(*o));
                proof {
                    lemma_offs_view_push(r0, InstWithOffset::PutChar(*o));
                    assert(offs_view(result@) =~= offs_view(r0) + rz_piece(
                        off_view(insts@[i as int]),
                    ));
                }
            },
        }
        i = i + 1;
    }
    proof {
        assert(insts@.subrange(0, i as int) =~= insts@);
    }
    result
}

} // verus!
