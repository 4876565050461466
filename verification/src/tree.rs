//! The mathematical model of an expression: a tree of symbols.
use vstd::prelude::*;

verus! {

/// The head of an expression tree: a variable (by its name), a constant, or
/// an operation applied to the subtrees.
pub enum Symbol<T> {
    Var(Seq<char>),
    Const(T),
    Add,
    Subtract,
    Multiply,
    Divide,
    Power,
    Negate,
    Sine,
    Cosine,
    Tangent,
    ArcSine,
    ArcCosine,
    ArcTangent,
    HyperbolicSine,
    HyperbolicCosine,
    HyperbolicTangent,
    Sign,
    AbsoluteValue,
    Exponent,
    SquareRoot,
    NaturalLogarithm,
    CommonLogarithm,
    ImmediateIf,
}

/// An expression: a head symbol applied to an ordered list of operands.
pub struct Tree<T> {
    pub head: Symbol<T>,
    pub args: Seq<Tree<T>>,
}

/// A tree without operands.
pub open spec fn leaf<T>(head: Symbol<T>) -> Tree<T> {
    Tree { head, args: seq![] }
}

/// A tree with one operand.
pub open spec fn node1<T>(head: Symbol<T>, a: Tree<T>) -> Tree<T> {
    Tree { head, args: seq![a] }
}

/// A tree with two operands.
pub open spec fn node2<T>(head: Symbol<T>, a: Tree<T>, b: Tree<T>) -> Tree<T> {
    Tree { head, args: seq![a, b] }
}

/// A tree with three operands.
pub open spec fn node3<T>(head: Symbol<T>, a: Tree<T>, b: Tree<T>, c: Tree<T>) -> Tree<T> {
    Tree { head, args: seq![a, b, c] }
}

/// The number of operands that a symbol takes.
pub open spec fn arity<T>(head: Symbol<T>) -> nat {
    match head {
        Symbol::Var(_) | Symbol::Const(_) => 0,
        Symbol::Add | Symbol::Subtract | Symbol::Multiply | Symbol::Divide | Symbol::Power => 2,
        Symbol::ImmediateIf => 3,
        _ => 1,
    }
}

/// A number for each kind of symbol; symbols without a payload have
/// distinct numbers.
pub open spec fn symbol_code<T>(head: Symbol<T>) -> nat {
    match head {
        Symbol::Var(_) => 0,
        Symbol::Const(_) => 1,
        Symbol::Add => 2,
        Symbol::Subtract => 3,
        Symbol::Multiply => 4,
        Symbol::Divide => 5,
        Symbol::Power => 6,
        Symbol::Negate => 7,
        Symbol::Sine => 8,
        Symbol::Cosine => 9,
        Symbol::Tangent => 10,
        Symbol::ArcSine => 11,
        Symbol::ArcCosine => 12,
        Symbol::ArcTangent => 13,
        Symbol::HyperbolicSine => 14,
        Symbol::HyperbolicCosine => 15,
        Symbol::HyperbolicTangent => 16,
        Symbol::Sign => 17,
        Symbol::AbsoluteValue => 18,
        Symbol::Exponent => 19,
        Symbol::SquareRoot => 20,
        Symbol::NaturalLogarithm => 21,
        Symbol::CommonLogarithm => 22,
        Symbol::ImmediateIf => 23,
    }
}

/// Two symbols without a payload are equal when their codes are.
pub proof fn lemma_symbol_code<T>(a: Symbol<T>, b: Symbol<T>)
    requires
        symbol_code(a) == symbol_code(b),
        !(a is Var),
        !(a is Const),
    ensures
        a == b,
{
}

/// Every node of the tree has exactly as many operands as its symbol takes.
pub open spec fn wf<T>(t: Tree<T>) -> bool
    decreases t,
{
    t.args.len() == arity(t.head) && (t.args.len() >= 1 ==> wf(t.args[0])) && (t.args.len()
        >= 2 ==> wf(t.args[1])) && (t.args.len() >= 3 ==> wf(t.args[2]))
}


/// The variable `x` occurs in the tree.
pub open spec fn mentions<T>(t: Tree<T>, x: Seq<char>) -> bool
    decreases t, 1int,
{
    t.head == Symbol::<T>::Var(x) || mentions_from(t.args, 0, x)
}

/// The variable `x` occurs in one of the trees `args[k..]`.
pub open spec fn mentions_from<T>(args: Seq<Tree<T>>, k: int, x: Seq<char>) -> bool
    decreases args, args.len() - k,
{
    if 0 <= k < args.len() {
        mentions(args[k], x) || mentions_from(args, k + 1, x)
    } else {
        false
    }
}

/// Adds the name to the list unless it is already there.
pub open spec fn add_name(names: Seq<Seq<char>>, n: Seq<char>) -> Seq<Seq<char>> {
    if names.contains(n) {
        names
    } else {
        names.push(n)
    }
}

/// The names of the variables of the tree, appended to `names` in the order
/// of their first occurrence (root first, then operands from left to right),
/// each once.
pub open spec fn collect_names<T>(t: Tree<T>, names: Seq<Seq<char>>) -> Seq<Seq<char>>
    decreases t, 1int,
{
    let here = match t.head {
        Symbol::Var(n) => add_name(names, n),
        _ => names,
    };
    collect_names_from(t.args, 0, here)
}

pub open spec fn collect_names_from<T>(args: Seq<Tree<T>>, k: int, names: Seq<Seq<char>>) -> Seq<
    Seq<char>,
>
    decreases args, args.len() - k,
{
    if 0 <= k < args.len() {
        collect_names_from(args, k + 1, collect_names(args[k], names))
    } else {
        names
    }
}

/// The tree with every occurrence of the variable `name` replaced by `r`.
pub open spec fn substitution<T>(t: Tree<T>, name: Seq<char>, r: Tree<T>) -> Tree<T>
    decreases t,
{
    if t.head == Symbol::<T>::Var(name) {
        r
    } else {
        Tree {
            head: t.head,
            args: Seq::new(
                t.args.len(),
                |i: int|
                    if 0 <= i < t.args.len() {
                        substitution(t.args[i], name, r)
                    } else {
                        r
                    },
            ),
        }
    }
}
} // verus!
