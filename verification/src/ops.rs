//! The three instruction forms the pipeline passes through, together with
//! their mathematical views.
//!
//! `RawInst` is the flat form produced by the lexer; `Inst` is the tree form
//! produced by the loop builder and rewritten by the peephole pass;
//! `InstWithOffset` is the offset-annotated form executed by the engine.
//! The two recursive forms carry `Vec` bodies in executable code; contracts
//! speak about them through the ghost views `SpecInst` and `SpecOffInst`,
//! whose loop bodies are `Seq`s and whose offsets are unbounded integers.

use vstd::prelude::*;

verus! {

/// A primitive operation, one per recognized source character.
#[derive(Clone, Copy, Debug, PartialEq, Eq, Structural)]
pub enum RawInst {
    /// Add the given amount to the current cell (wrapping modulo 256).
    AddI(u8),
    /// Move the data pointer by the given amount.
    MovePtr(isize),
    /// Read one byte of input into the current cell.
    GetChar,
    /// Write the current cell to the output.
    PutChar,
    /// Open a loop.
    StartLoop,
    /// Close a loop.
    EndLoop,
}

/// A tree operation: the structured form, with loop bodies nested.
#[derive(Debug, PartialEq)]
pub enum Inst {
    /// Add the given amount to the current cell (wrapping modulo 256).
    AddI(u8),
    /// Move the data pointer by the given amount.
    MovePtr(isize),
    /// Set the current cell to the given value.
    Init(u8),
    /// Read one byte of input into the current cell.
    GetChar,
    /// Write the current cell to the output.
    PutChar,
    /// Run the body while the current cell is non-zero.
    Loop(Vec<Inst>),
}

/// An offset-annotated operation: every cell access names its target as a
/// displacement from the current data pointer.
#[derive(Debug, PartialEq)]
pub enum InstWithOffset {
    /// Add the given amount to the cell at the given offset.
    AddI(isize, u8),
    /// Move the data pointer by the given amount.
    MovePtr(isize),
    /// Set the cell at the given offset to the given value.
    Init(isize, u8),
    /// `AddMul(src, dst, k)`: add `cell[src] * k` (wrapping) to `cell[dst]`.
    AddMul(isize, isize, u8),
    /// Read one byte of input into the cell at the given offset.
    GetChar(isize),
    /// Write the cell at the given offset to the output.
    PutChar(isize),
    /// Run the body while the cell under the pointer is non-zero.
    Loop(Vec<InstWithOffset>),
}

/// Ghost view of `Inst`: loop bodies are sequences.
pub enum SpecInst {
    AddI(u8),
    MovePtr(int),
    Init(u8),
    GetChar,
    PutChar,
    Loop(Seq<SpecInst>),
}

/// Ghost view of `InstWithOffset`: offsets are unbounded integers.
pub enum SpecOffInst {
    AddI(int, u8),
    MovePtr(int),
    Init(int, u8),
    AddMul(int, int, u8),
    GetChar(int),
    PutChar(int),
    Loop(Seq<SpecOffInst>),
}

/// The view of one tree operation.
pub open spec fn inst_view(i: Inst) -> SpecInst
    decreases i,
{
    match i {
        Inst::AddI(x) => SpecInst::AddI(x),
        Inst::MovePtr(x) => SpecInst::MovePtr(x as int),
        Inst::Init(x) => SpecInst::Init(x),
        Inst::GetChar => SpecInst::GetChar,
        Inst::PutChar => SpecInst::PutChar,
        Inst::Loop(l) => SpecInst::Loop(insts_view(l@)),
    }
}

/// The view of a sequence of tree operations, element by element.
pub open spec fn insts_view(s: Seq<Inst>) -> Seq<SpecInst>
    decreases s,
{
    if s.len() == 0 {
        Seq::empty()
    } else {
        seq![inst_view(s[0])] + insts_view(s.drop_first())
    }
}

/// `insts_view` maps the sequence element by element.
pub broadcast proof fn lemma_insts_view(s: Seq<Inst>)
    ensures
        (#[trigger] insts_view(s)).len() == s.len(),
        forall|j: int| 0 <= j < s.len() ==> insts_view(s)[j] == inst_view(s[j]),
    decreases s.len(),
{
    if s.len() > 0 {
        lemma_insts_view(s.drop_first());
    }
}

/// The view of one offset-annotated operation.
pub open spec fn off_view(i: InstWithOffset) -> SpecOffInst
    decreases i,
{
    match i {
        InstWithOffset::AddI(o, x) => SpecOffInst::AddI(o as int, x),
        InstWithOffset::MovePtr(x) => SpecOffInst::MovePtr(x as int),
        InstWithOffset::Init(o, x) => SpecOffInst::Init(o as int, x),
        InstWithOffset::AddMul(o1, o2, x) => SpecOffInst::AddMul(o1 as int, o2 as int, x),
        InstWithOffset::GetChar(o) => SpecOffInst::GetChar(o as int),
        InstWithOffset::PutChar(o) => SpecOffInst::PutChar(o as int),
        InstWithOffset::Loop(l) => SpecOffInst::Loop(offs_view(l@)),
    }
}

/// The view of a sequence of offset-annotated operations.
pub open spec fn offs_view(s: Seq<InstWithOffset>) -> Seq<SpecOffInst>
    decreases s,
{
    if s.len() == 0 {
        Seq::empty()
    } else {
        seq![off_view(s[0])] + offs_view(s.drop_first())
    }
}

/// `offs_view` maps the sequence element by element.
pub broadcast proof fn lemma_offs_view(s: Seq<InstWithOffset>)
    ensures
        (#[trigger] offs_view(s)).len() == s.len(),
        forall|j: int| 0 <= j < s.len() ==> offs_view(s)[j] == off_view(s[j]),
    decreases s.len(),
{
    if s.len() > 0 {
        lemma_offs_view(s.drop_first());
    }
}

/// Viewing after a push is pushing the view.
pub proof fn lemma_insts_view_push(s: Seq<Inst>, x: Inst)
    ensures
        insts_view(s.push(x)) =~= insts_view(s).push(inst_view(x)),
{
    lemma_insts_view(s.push(x));
    lemma_insts_view(s);
    assert forall|j: int| 0 <= j < s.len() + 1 implies insts_view(s.push(x))[j] == insts_view(
        s,
    ).push(inst_view(x))[j] by {
        if j < s.len() {
            assert(s.push(x)[j] == s[j]);
        } else {
            assert(s.push(x)[j] == x);
        }
    }
}

/// Viewing after a push is pushing the view.
pub proof fn lemma_offs_view_push(s: Seq<InstWithOffset>, x: InstWithOffset)
    ensures
        offs_view(s.push(x)) =~= offs_view(s).push(off_view(x)),
{
    lemma_offs_view(s.push(x));
    lemma_offs_view(s);
    assert forall|j: int| 0 <= j < s.len() + 1 implies offs_view(s.push(x))[j] == offs_view(
        s,
    ).push(off_view(x))[j] by {
        if j < s.len() {
            assert(s.push(x)[j] == s[j]);
        } else {
            assert(s.push(x)[j] == x);
        }
    }
}

/// Viewing a prefix extended by one element pushes that element's view.
pub proof fn lemma_insts_view_take_push(s: Seq<Inst>, i: int)
    requires
        0 <= i < s.len(),
    ensures
        insts_view(s.subrange(0, i + 1)) =~= insts_view(s.subrange(0, i)).push(inst_view(s[i])),
{
    lemma_insts_view(s.subrange(0, i + 1));
    lemma_insts_view(s.subrange(0, i));
}

/// Viewing a concatenation concatenates the views.
pub proof fn lemma_offs_view_concat(a: Seq<InstWithOffset>, b: Seq<InstWithOffset>)
    ensures
        offs_view(a + b) =~= offs_view(a) + offs_view(b),
{
    lemma_offs_view(a + b);
    lemma_offs_view(a);
    lemma_offs_view(b);
    assert forall|j: int| 0 <= j < a.len() + b.len() implies offs_view(a + b)[j] == (offs_view(a)
        + offs_view(b))[j] by {
        if j < a.len() {
            assert((a + b)[j] == a[j]);
        } else {
            assert((a + b)[j] == b[j - a.len()]);
        }
    }
}

/// Viewing a prefix extended by one element pushes that element's view.
pub proof fn lemma_offs_view_take_push(s: Seq<InstWithOffset>, i: int)
    requires
        0 <= i < s.len(),
    ensures
        offs_view(s.subrange(0, i + 1)) =~= offs_view(s.subrange(0, i)).push(off_view(s[i])),
{
    lemma_offs_view(s.subrange(0, i + 1));
    lemma_offs_view(s.subrange(0, i));
}

} // verus!
