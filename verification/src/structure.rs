//! How the variables and the well-formedness of a tree with few operands
//! follow from those of its operands.
use vstd::prelude::*;
use crate::tree::{Tree, Symbol, wf, mentions, mentions_from, arity};

verus! {

/// A tree with at most three operands mentions `x` when its head is the
/// variable `x` or one of its operands mentions `x`.
pub broadcast proof fn lemma_mentions_args<T>(t: Tree<T>, x: Seq<char>)
    requires
        t.args.len() <= 3,
    ensures
        #[trigger] mentions(t, x) <==> (t.head == Symbol::<T>::Var(x) || (t.args.len() >= 1 && mentions(
            t.args[0],
            x,
        )) || (t.args.len() >= 2 && mentions(t.args[1], x)) || (t.args.len() >= 3 && mentions(
            t.args[2],
            x,
        ))),
{
    assert(mentions_from(t.args, 0, x) == (t.args.len() >= 1 && (mentions(t.args[0], x)
        || mentions_from(t.args, 1, x))));
    assert(mentions_from(t.args, 1, x) == (t.args.len() >= 2 && (mentions(t.args[1], x)
        || mentions_from(t.args, 2, x))));
    assert(mentions_from(t.args, 2, x) == (t.args.len() >= 3 && (mentions(t.args[2], x)
        || mentions_from(t.args, 3, x))));
    assert(!mentions_from(t.args, 3, x));
}

/// A tree is well-formed when it has as many operands as its head takes
/// and they are well-formed.
pub broadcast proof fn lemma_wf_args<T>(t: Tree<T>)
    ensures
        #[trigger] wf(t) <==> (t.args.len() == arity(t.head) && (t.args.len() >= 1 ==> wf(
            t.args[0],
        )) && (t.args.len() >= 2 ==> wf(t.args[1])) && (t.args.len() >= 3 ==> wf(t.args[2]))),
{
}

} // verus!
