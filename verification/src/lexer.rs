//! Lexical reduction of source text to a flat sequence of primitive
//! operations. Every character other than the eight recognized command
//! characters is discarded; the empty program is valid.

use vstd::prelude::*;
use vstd::string::StrSliceExecFns;
use crate::ops::RawInst;

verus! {

/// The primitive operation a single source character stands for, if any.
pub open spec fn lex_char(c: char) -> Option<RawInst> {
    if c == '+' {
        Some(RawInst::AddI(1))
    } else if c == '-' {
        Some(RawInst::AddI(255))
    } else if c == '>' {
        Some(RawInst::MovePtr(1isize))
    } else if c == '<' {
        Some(RawInst::MovePtr(-1isize))
    } else if c == '[' {
        Some(RawInst::StartLoop)
    } else if c == ']' {
        Some(RawInst::EndLoop)
    } else if c == '.' {
        Some(RawInst::PutChar)
    } else if c == ',' {
        Some(RawInst::GetChar)
    } else {
        None
    }
}

/// Lexing a whole text: the operations of its characters, in order,
/// with unrecognized characters dropped.
pub open spec fn lex(s: Seq<char>) -> Seq<RawInst>
    decreases s.len(),
{
    if s.len() == 0 {
        Seq::empty()
    } else {
        lex(s.drop_last()) + match lex_char(s.last()) {
            Some(op) => seq![op],
            None => Seq::empty(),
        }
    }
}

/// Reduces source text to the flat sequence of its primitive operations.
pub fn parse(code: &str) -> (r: Vec<RawInst>)
    ensures
        r@ == lex(code@),
{
    let n = code.unicode_len();
    let mut r: Vec<RawInst> = Vec::new();
    let mut i: usize = 0;
    while i < n
        invariant
            i <= n,
            n == code@.len(),
            r@ == lex(code@.subrange(0, i as int)),
        decreases n - i,
    {
        let c = code.get_char(i);
        match c {
            '+' => r.push(RawInst::AddI(1)),
            '-' => r.push(RawInst::AddI(255)),
            '>' => r.push(RawInst::MovePtr(1)),
            '<' => r.push(RawInst::MovePtr(-1)),
            '[' => r.push(RawInst::StartLoop),
            ']' => r.push(RawInst::EndLoop),
            '.' => r.push(RawInst::PutChar),
            ',' => r.push(RawInst::GetChar),
            _ => (),
        }
        i = i + 1;
        proof {
            let pre = code@.subrange(0, i as int);
            assert(pre.drop_last() =~= code@.subrange(0, i - 1));
            assert(pre.last() == code@[i - 1]);
        }
    }
    proof {
        assert(code@.subrange(0, n as int) =~= code@);
    }
    r
}

} // verus!
