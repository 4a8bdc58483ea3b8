//! Reconstruction of loop nesting: a flat operation sequence becomes a tree
//! of operations, using a stack of open loop bodies. A loop delimiter with
//! no partner is a hard failure, never a silent partial tree.

use vstd::prelude::*;
use crate::ops::{RawInst, Inst, SpecInst, inst_view, insts_view, lemma_insts_view_push};

verus! {

/// Whether loop delimiters match, scanning left to right with `open`
/// currently unclosed loops.
pub open spec fn bal_from(ops: Seq<RawInst>, open: nat) -> bool
    decreases ops.len(),
{
    if ops.len() == 0 {
        open == 0
    } else {
        match ops[0] {
            RawInst::StartLoop => bal_from(ops.drop_first(), open + 1),
            RawInst::EndLoop => open > 0 && bal_from(ops.drop_first(), (open - 1) as nat),
            _ => bal_from(ops.drop_first(), open),
        }
    }
}

/// Whether every loop delimiter has a partner.
pub open spec fn balanced(ops: Seq<RawInst>) -> bool {
    bal_from(ops, 0)
}

/// Append one operation to the innermost open body.
pub open spec fn push_top(stack: Seq<Seq<SpecInst>>, i: SpecInst) -> Seq<Seq<SpecInst>>
    recommends
        stack.len() >= 1,
{
    stack.update(stack.len() - 1, stack.last().push(i))
}

/// One step of the builder: apply one primitive operation to the stack of
/// open bodies (innermost last). `None` is an unmatched closing delimiter.
pub open spec fn build_step(stack: Seq<Seq<SpecInst>>, op: RawInst) -> Option<Seq<Seq<SpecInst>>>
    recommends
        stack.len() >= 1,
{
    match op {
        RawInst::AddI(x) => Some(push_top(stack, SpecInst::AddI(x))),
        RawInst::MovePtr(x) => Some(push_top(stack, SpecInst::MovePtr(x as int))),
        RawInst::GetChar => Some(push_top(stack, SpecInst::GetChar)),
        RawInst::PutChar => Some(push_top(stack, SpecInst::PutChar)),
        RawInst::StartLoop => Some(stack.push(Seq::empty())),
        RawInst::EndLoop => if stack.len() >= 2 {
            Some(push_top(stack.drop_last(), SpecInst::Loop(stack.last())))
        } else {
            None
        },
    }
}

/// The stack of open bodies left after consuming `ops`, starting from `stack`.
pub open spec fn build_from(ops: Seq<RawInst>, stack: Seq<Seq<SpecInst>>) -> Option<
    Seq<Seq<SpecInst>>,
>
    decreases ops.len(),
{
    if ops.len() == 0 {
        Some(stack)
    } else {
        match build_step(stack, ops[0]) {
            Some(st) => build_from(ops.drop_first(), st),
            None => None,
        }
    }
}

/// The tree of a flat sequence: defined exactly when every delimiter matches.
pub open spec fn build(ops: Seq<RawInst>) -> Option<Seq<SpecInst>> {
    match build_from(ops, seq![Seq::empty()]) {
        Some(stack) => if stack.len() == 1 {
            Some(stack[0])
        } else {
            None
        },
        None => None,
    }
}

/// The builder succeeds exactly on balanced input: an unmatched delimiter in
/// any position is a structural failure.
pub proof fn lemma_build_some_iff_balanced(ops: Seq<RawInst>)
    ensures
        build(ops) is Some <==> balanced(ops),
{
    lemma_build_from_bal(ops, seq![Seq::empty()]);
}

proof fn lemma_build_from_bal(ops: Seq<RawInst>, stack: Seq<Seq<SpecInst>>)
    requires
        stack.len() >= 1,
    ensures
        (build_from(ops, stack) matches Some(st) && st.len() == 1) <==> bal_from(
            ops,
            (stack.len() - 1) as nat,
        ),
    decreases ops.len(),
{
    if ops.len() > 0 {
        match build_step(stack, ops[0]) {
            Some(st) => {
                lemma_build_from_bal(ops.drop_first(), st);
            },
            None => {},
        }
    }
}

/// The view of a stack of open bodies.
pub open spec fn stack_view(s: Seq<Vec<Inst>>) -> Seq<Seq<SpecInst>>
    decreases s.len(),
{
    if s.len() == 0 {
        Seq::empty()
    } else {
        stack_view(s.drop_last()).push(insts_view(s.last()@))
    }
}

proof fn lemma_stack_view_len(s: Seq<Vec<Inst>>)
    ensures
        stack_view(s).len() == s.len(),
    decreases s.len(),
{
    if s.len() > 0 {
        lemma_stack_view_len(s.drop_last());
    }
}

/// Rebuilds the nesting of loops over a flat operation sequence, or reports
/// a structural failure: `None` exactly when a delimiter is unmatched.
pub fn extract_loops(ops: &Vec<RawInst>) -> (r: Option<Vec<Inst>>)
    ensures
        (r is Some) <==> balanced(ops@),
        r matches Some(t) ==> build(ops@) == Some(insts_view(t@)),
{
    let mut cur: Vec<Inst> = Vec::new();
    let mut stack: Vec<Vec<Inst>> = Vec::new();
    let mut i: usize = 0;
    proof {
        lemma_build_some_iff_balanced(ops@);
        assert(stack_view(stack@).push(insts_view(cur@)) =~= seq![Seq::<SpecInst>::empty()]);
        assert(ops@.skip(0) =~= ops@);
    }
    while i < ops.len()
        invariant
            i <= ops@.len(),
            build_from(ops@.skip(i as int), stack_view(stack@).push(insts_view(cur@)))
                == build_from(ops@, seq![Seq::<SpecInst>::empty()]),
            (build(ops@) is Some) <==> balanced(ops@),
        decreases ops@.len() - i,
    {
        let ghost stv = stack_view(stack@);
        let ghost cur0 = cur@;
        let ghost curv = insts_view(cur@);
        let ghost prev = stv.push(curv);
        let ghost rest = ops@.skip(i as int);
        let op = ops[i];
        proof {
            assert(rest[0] == ops@[i as int]);
            assert(rest.drop_first() =~= ops@.skip(i as int + 1));
        }
        match op {
            RawInst::AddI(x) => {
                cur.push(Inst::AddI(x));
                proof {
                    lemma_insts_view_push(cur0, Inst::AddI(x));
                    assert(stv.push(insts_view(cur@)) =~= push_top(prev, SpecInst::AddI(x)));
                }
            },
            RawInst::MovePtr(x) => {
                cur.push(Inst::MovePtr(x));
                proof {
                    lemma_insts_view_push(cur0, Inst::MovePtr(x));
                    assert(stv.push(insts_view(cur@)) =~= push_top(
                        prev,
                        SpecInst::MovePtr(x as int),
                    ));
                }
            },
            RawInst::GetChar => {
                cur.push(Inst::GetChar);
                proof {
                    lemma_insts_view_push(cur0, Inst::GetChar);
                    assert(stv.push(insts_view(cur@)) =~= push_top(prev, SpecInst::GetChar));
                }
            },
            RawInst::PutChar => {
                cur.push(Inst::PutChar);
                proof {
                    lemma_insts_view_push(cur0, Inst::PutChar);
                    assert(stv.push(insts_view(cur@)) =~= push_top(prev, SpecInst::PutChar));
                }
            },
            RawInst::StartLoop => {
                let ghost stk0 = stack@;
                stack.push(cur);
                cur = Vec::new();
                proof {
                    assert(stack@.drop_last() =~= stk0);
                    assert(stack_view(stack@) == stack_view(stk0).push(insts_view(cur0)));
                    assert(insts_view(cur@) =~= Seq::<SpecInst>::empty());
                    assert(stack_view(stack@).push(insts_view(cur@)) =~= prev.push(
                        Seq::<SpecInst>::empty(),
                    ));
                }
            },
            RawInst::EndLoop => {
                let ghost stk0 = stack@;
                proof {
                    lemma_stack_view_len(stk0);
                }
                if stack.is_empty() {
                    proof {
                        assert(prev.len() == 1);
                        assert(build_step(prev, RawInst::EndLoop) is None);
                    }
                    return None;
                }
                match stack.pop() {
                    Some(mut up) => {
                        let ghost up0 = up@;
                        up.push(Inst::Loop(cur));
                        cur = up;
                        proof {
                            assert(up0 == stk0.last()@);
                            assert(stk0.drop_last() =~= stack@);
                            assert(stv == stack_view(stack@).push(insts_view(up0)));
                            let x = cur@.last();
                            assert(cur@ == up0.push(x));
                            assert(inst_view(x) == SpecInst::Loop(curv));
                            lemma_insts_view_push(up0, x);
                            assert(prev.drop_last() =~= stv);
                            assert(prev.last() == curv);
                            assert(stack_view(stack@).push(insts_view(cur@)) =~= push_top(
                                stv,
                                SpecInst::Loop(curv),
                            ));
                        }
                    },
                    None => {
                        proof {
                            assert(false);
                        }
                        return None;
                    },
                }
            },
        }
        i = i + 1;
    }
    proof {
        assert(ops@.skip(i as int) =~= Seq::<RawInst>::empty());
        lemma_stack_view_len(stack@);
    }
    if stack.is_empty() {
        proof {
            assert(stack_view(stack@).push(insts_view(cur@)) =~= seq![insts_view(cur@)]);
        }
        Some(cur)
    } else {
        None
    }
}

/// The number of non-delimiter operations in a flat sequence.
pub open spec fn flat_ops(ops: Seq<RawInst>) -> nat
    decreases ops.len(),
{
    if ops.len() == 0 {
        0
    } else {
        (match ops[0] {
            RawInst::StartLoop => 0nat,
            RawInst::EndLoop => 0nat,
            _ => 1nat,
        }) + flat_ops(ops.drop_first())
    }
}

/// The number of operation leaves one tree operation carries: one for a
/// plain operation, the body's count for a loop (delimiters count nothing).
pub open spec fn leaf_one(i: SpecInst) -> nat
    decreases i, 0int,
{
    match i {
        SpecInst::Loop(l) => tree_leaves(l),
        _ => 1,
    }
}

/// The number of operation leaves in a tree.
pub open spec fn tree_leaves(s: Seq<SpecInst>) -> nat
    decreases s, 1int,
{
    if s.len() == 0 {
        0
    } else {
        leaf_one(s[0]) + tree_leaves(s.drop_first())
    }
}

/// The number of operation leaves across a whole stack of open bodies.
pub open spec fn stack_leaves(st: Seq<Seq<SpecInst>>) -> nat
    decreases st.len(),
{
    if st.len() == 0 {
        0
    } else {
        stack_leaves(st.drop_last()) + tree_leaves(st.last())
    }
}

proof fn lemma_tree_leaves_push(b: Seq<SpecInst>, x: SpecInst)
    ensures
        tree_leaves(b.push(x)) == tree_leaves(b) + leaf_one(x),
    decreases b.len(),
{
    if b.len() == 0 {
        assert(b.push(x).drop_first() =~= Seq::<SpecInst>::empty());
        assert(tree_leaves(Seq::<SpecInst>::empty()) == 0);
        assert(b.push(x)[0] == x);
    } else {
        assert(b.push(x).drop_first() =~= b.drop_first().push(x));
        assert(b.push(x)[0] == b[0]);
        lemma_tree_leaves_push(b.drop_first(), x);
    }
}

proof fn lemma_stack_leaves_push_top(st: Seq<Seq<SpecInst>>, x: SpecInst)
    requires
        st.len() >= 1,
    ensures
        stack_leaves(push_top(st, x)) == stack_leaves(st) + leaf_one(x),
{
    let st2 = push_top(st, x);
    assert(st2.drop_last() =~= st.drop_last());
    assert(st2.last() == st.last().push(x));
    lemma_tree_leaves_push(st.last(), x);
}

proof fn lemma_build_from_leaves(ops: Seq<RawInst>, st: Seq<Seq<SpecInst>>)
    requires
        st.len() >= 1,
    ensures
        build_from(ops, st) matches Some(st2) ==> stack_leaves(st2) == stack_leaves(st)
            + flat_ops(ops),
    decreases ops.len(),
{
    if ops.len() > 0 {
        match build_step(st, ops[0]) {
            Some(st1) => {
                match ops[0] {
                    RawInst::AddI(x) => {
                        lemma_stack_leaves_push_top(st, SpecInst::AddI(x));
                    },
                    RawInst::MovePtr(x) => {
                        lemma_stack_leaves_push_top(st, SpecInst::MovePtr(x as int));
                    },
                    RawInst::GetChar => {
                        lemma_stack_leaves_push_top(st, SpecInst::GetChar);
                    },
                    RawInst::PutChar => {
                        lemma_stack_leaves_push_top(st, SpecInst::PutChar);
                    },
                    RawInst::StartLoop => {
                        assert(st1.drop_last() =~= st);
                        assert(tree_leaves(st1.last()) == 0);
                    },
                    RawInst::EndLoop => {
                        lemma_stack_leaves_push_top(st.drop_last(), SpecInst::Loop(st.last()));
                        assert(leaf_one(SpecInst::Loop(st.last())) == tree_leaves(st.last()));
                    },
                }
                lemma_build_from_leaves(ops.drop_first(), st1);
            },
            None => {},
        }
    }
}

/// The round-trip count law: when the builder succeeds, the tree holds
/// exactly as many operation leaves as the flat sequence had non-delimiter
/// operations.
pub proof fn lemma_tree_leaf_count(ops: Seq<RawInst>)
    requires
        build(ops) is Some,
    ensures
        build(ops) matches Some(t) && tree_leaves(t) == flat_ops(ops),
{
    let init = seq![Seq::<SpecInst>::empty()];
    lemma_build_from_leaves(ops, init);
    assert(init.drop_last() =~= Seq::<Seq<SpecInst>>::empty());
    assert(stack_leaves(Seq::<Seq<SpecInst>>::empty()) == 0);
    assert(tree_leaves(Seq::<SpecInst>::empty()) == 0);
    assert(init.last() =~= Seq::<SpecInst>::empty());
    assert(stack_leaves(init) == 0);
    match build_from(ops, init) {
        Some(st) => {
            assert(st.len() == 1);
            assert(st.drop_last() =~= Seq::<Seq<SpecInst>>::empty());
            assert(stack_leaves(Seq::<Seq<SpecInst>>::empty()) == 0);
            assert(st.last() == st[0]);
            assert(stack_leaves(st) == tree_leaves(st[0]));
        },
        None => {},
    }
}

} // verus!
