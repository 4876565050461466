//! Algebraic simplification of expression trees: constant folding, like
//! terms, and the identities of `0`, `1` and `-1`.
use vstd::prelude::*;
use crate::scalar::{Scalar, UnaryFunction, BinaryFunction};
use crate::tree::{Symbol, Tree, leaf, node1, node2, node3, arity};
use crate::math_expr::power_tree;
use crate::evaluation::{sign_of, unary_function_of};
use crate::derivative::int_leaf;

verus! {

/// The value of a constant tree.
pub open spec fn const_of<T>(t: Tree<T>) -> Option<T> {
    match t.head {
        Symbol::Const(v) => Some(v),
        _ => None,
    }
}

pub open spec fn int_value<T: Scalar>(n: u8) -> T {
    T::spec_integer(n)
}

/// `-1`, as the negation of `1`.
pub open spec fn minus_one<T: Scalar>() -> T {
    T::spec_unary(UnaryFunction::Negate, T::spec_integer(1))
}

pub open spec fn is_zero<T: Scalar>(v: T) -> bool {
    T::spec_equal(v, T::spec_integer(0))
}

pub open spec fn is_one<T: Scalar>(v: T) -> bool {
    T::spec_equal(v, T::spec_integer(1))
}

pub open spec fn is_minus_one<T: Scalar>(v: T) -> bool {
    T::spec_equal(v, minus_one::<T>())
}

pub open spec fn times<T: Scalar>(x: T, y: T) -> T {
    T::spec_binary(BinaryFunction::Multiply, x, y)
}

pub open spec fn plus<T: Scalar>(x: T, y: T) -> T {
    T::spec_binary(BinaryFunction::Add, x, y)
}

/// The same symbol, with constants compared by numeric equality.
pub open spec fn same_symbol<T: Scalar>(a: Symbol<T>, b: Symbol<T>) -> bool {
    match (a, b) {
        (Symbol::Const(x), Symbol::Const(y)) => T::spec_equal(x, y),
        _ => a == b,
    }
}

/// Two trees are equal node by node, constants compared numerically.
pub open spec fn same_tree<T: Scalar>(a: Tree<T>, b: Tree<T>) -> bool
    decreases a, 1int,
{
    same_symbol(a.head, b.head) && a.args.len() == b.args.len() && same_trees_from(a.args, b.args, 0)
}

pub open spec fn same_trees_from<T: Scalar>(a: Seq<Tree<T>>, b: Seq<Tree<T>>, k: int) -> bool
    decreases a, a.len() - k,
{
    if 0 <= k < a.len() && k < b.len() {
        same_tree(a[k], b[k]) && same_trees_from(a, b, k + 1)
    } else {
        true
    }
}

/// The numeric coefficient of a term and the term without it: `c * t` gives
/// `(c, t)` for a constant `c`, `-t` gives `(-1, t)`, any other `t` gives `(1, t)`.
pub open spec fn coefficient_and_term<T: Scalar>(e: Tree<T>) -> (T, Tree<T>) {
    if e.head is Multiply && e.args.len() == 2 {
        match const_of(e.args[0]) {
            Some(v) => (v, e.args[1]),
            None => (int_value(1), e),
        }
    } else if e.head is Negate && e.args.len() == 1 {
        (minus_one(), e.args[0])
    } else {
        (int_value(1), e)
    }
}

/// `c * t`, written `t` for `1` and `-t` for `-1`.
pub open spec fn scale_term<T: Scalar>(c: T, t: Tree<T>) -> Tree<T> {
    if is_one(c) {
        t
    } else if is_minus_one(c) {
        node1(Symbol::Negate, t)
    } else {
        node2(Symbol::Multiply, leaf(Symbol::Const(c)), t)
    }
}

/// The index of the first term at or after `k` that is the same as `t`.
pub open spec fn find_term<T: Scalar>(terms: Seq<(T, Tree<T>)>, t: Tree<T>, k: int) -> Option<int>
    decreases terms.len() - k,
{
    if 0 <= k < terms.len() {
        if same_tree(terms[k].1, t) {
            Some(k)
        } else {
            find_term(terms, t, k + 1)
        }
    } else {
        None
    }
}

/// Adds `c * t` to the list of terms: to the coefficient of the first equal
/// term, or as a new last term.
pub open spec fn add_term<T: Scalar>(terms: Seq<(T, Tree<T>)>, c: T, t: Tree<T>) -> Seq<(T, Tree<T>)> {
    match find_term(terms, t, 0) {
        Some(k) => terms.update(k, (plus(terms[k].0, c), terms[k].1)),
        None => terms.push((c, t)),
    }
}

/// The addends of `e`, each multiplied by `sign`, gathered into the list of
/// terms and the constant: sums and differences are opened, constants are
/// added up, and like terms share one coefficient.
pub open spec fn collect_addends<T: Scalar>(
    e: Tree<T>,
    sign: T,
    terms: Seq<(T, Tree<T>)>,
    constant: T,
) -> (Seq<(T, Tree<T>)>, T)
    decreases e,
{
    if e.head is Add && e.args.len() == 2 {
        let (terms1, constant1) = collect_addends(e.args[0], sign, terms, constant);
        collect_addends(e.args[1], sign, terms1, constant1)
    } else if e.head is Subtract && e.args.len() == 2 {
        let (terms1, constant1) = collect_addends(e.args[0], sign, terms, constant);
        collect_addends(
            e.args[1],
            T::spec_unary(UnaryFunction::Negate, sign),
            terms1,
            constant1,
        )
    } else if e.head is Const && e.args.len() == 0 {
        (terms, plus(constant, times(sign, e.head->Const_0)))
    } else {
        let (c, t) = coefficient_and_term(e);
        (add_term(terms, times(sign, c), t), constant)
    }
}

/// The sum of the terms from index `k` on, added to `acc` from the left;
/// terms with a zero coefficient are left out.
pub open spec fn sum_terms<T: Scalar>(terms: Seq<(T, Tree<T>)>, k: int, acc: Option<Tree<T>>) -> Option<
    Tree<T>,
>
    decreases terms.len() - k,
{
    if 0 <= k < terms.len() {
        if is_zero(terms[k].0) {
            sum_terms(terms, k + 1, acc)
        } else {
            let term = scale_term(terms[k].0, terms[k].1);
            sum_terms(
                terms,
                k + 1,
                Some(
                    match acc {
                        Some(e) => node2(Symbol::Add, e, term),
                        None => term,
                    },
                ),
            )
        }
    } else {
        acc
    }
}

/// `left + right` (or `left - right`), with like terms combined and the
/// constants added into one constant at the end.
pub open spec fn sum_of<T: Scalar>(left: Tree<T>, right: Tree<T>, subtract: bool) -> Tree<T> {
    let (terms1, constant1) = collect_addends(left, int_value(1), seq![], int_value(0));
    let sign = if subtract {
        minus_one()
    } else {
        int_value(1)
    };
    let (terms, constant) = collect_addends(right, sign, terms1, constant1);
    let result = sum_terms(terms, 0, None);
    let result = if !is_zero(constant) {
        Some(
            match result {
                Some(e) => node2(Symbol::Add, e, leaf(Symbol::Const(constant))),
                None => leaf(Symbol::Const(constant)),
            },
        )
    } else {
        result
    };
    match result {
        Some(e) => e,
        None => int_leaf(0),
    }
}

/// `-operand`: a constant is negated, a double negation cancels.
pub open spec fn negation_of<T: Scalar>(operand: Tree<T>) -> Tree<T> {
    match const_of(operand) {
        Some(v) => leaf(Symbol::Const(T::spec_unary(UnaryFunction::Negate, v))),
        None => if operand.head is Negate && operand.args.len() == 1 {
            operand.args[0]
        } else {
            node1(Symbol::Negate, operand)
        },
    }
}

/// `left * right` with constants folded and `0`, `1`, `-1` applied; a
/// constant factor moves to the left and merges with a coefficient.
pub open spec fn product_of<T: Scalar>(left: Tree<T>, right: Tree<T>) -> Tree<T>
    decreases (if const_of(left) is Some {
        0int
    } else {
        1int
    }),
{
    let lc = const_of(left);
    let rc = const_of(right);
    if lc is Some && rc is Some {
        leaf(Symbol::Const(times(lc->Some_0, rc->Some_0)))
    } else if lc is Some && is_zero(lc->Some_0) {
        int_leaf(0)
    } else if rc is Some && is_zero(rc->Some_0) {
        int_leaf(0)
    } else if lc is Some && is_one(lc->Some_0) {
        right
    } else if rc is Some && is_one(rc->Some_0) {
        left
    } else if lc is Some && is_minus_one(lc->Some_0) {
        negation_of(right)
    } else if rc is Some && is_minus_one(rc->Some_0) {
        negation_of(left)
    } else if lc is Some {
        let (nested, term) = coefficient_and_term(right);
        if is_one(nested) {
            node2(Symbol::Multiply, leaf(Symbol::Const(lc->Some_0)), right)
        } else {
            scale_term(times(lc->Some_0, nested), term)
        }
    } else if rc is Some {
        product_of(leaf(Symbol::Const(rc->Some_0)), left)
    } else {
        node2(Symbol::Multiply, left, right)
    }
}

/// `numerator / denominator` with constants folded, `0 / d = 0`, `e / e = 1`,
/// and division by `1` and `-1` applied.
pub open spec fn quotient_of<T: Scalar>(numerator: Tree<T>, denominator: Tree<T>) -> Tree<T> {
    let nc = const_of(numerator);
    let dc = const_of(denominator);
    if nc is Some && dc is Some {
        leaf(
            Symbol::Const(T::spec_binary(BinaryFunction::Divide, nc->Some_0, dc->Some_0)),
        )
    } else if nc is Some && is_zero(nc->Some_0) {
        int_leaf(0)
    } else if same_tree(numerator, denominator) {
        int_leaf(1)
    } else if dc is Some && is_one(dc->Some_0) {
        numerator
    } else if dc is Some && is_minus_one(dc->Some_0) {
        negation_of(numerator)
    } else {
        node2(Symbol::Divide, numerator, denominator)
    }
}

/// `base ^ exponent` with `e^0 = 1`, `e^1 = e`, `(b^c)^d = b^(c*d)` for
/// constants `c`, `d`, and constant powers folded.
pub open spec fn power_of<T: Scalar>(base: Tree<T>, exponent: Tree<T>) -> Tree<T>
    decreases base,
{
    match const_of(exponent) {
        Some(e) => if is_zero(e) {
            int_leaf(1)
        } else if is_one(e) {
            base
        } else if base.head is Power && base.args.len() == 2 && const_of(base.args[1]) is Some {
            power_of(base.args[0], leaf(Symbol::Const(times(const_of(base.args[1])->Some_0, e))))
        } else if const_of(base) is Some {
            leaf(
                Symbol::Const(T::spec_binary(BinaryFunction::Power, const_of(base)->Some_0, e)),
            )
        } else {
            power_tree(base, exponent)
        },
        None => power_tree(base, exponent),
    }
}

/// A logarithm (`head` with the numeric function `f`): the logarithm of a
/// power brings the exponent out as a factor; constants are folded.
pub open spec fn logarithm_of<T: Scalar>(head: Symbol<T>, f: UnaryFunction, operand: Tree<T>) -> Tree<T> {
    if operand.head is Power && operand.args.len() == 2 {
        product_of(operand.args[1], node1(head, operand.args[0]))
    } else {
        match const_of(operand) {
            Some(v) => leaf(Symbol::Const(T::spec_unary(f, v))),
            None => node1(head, operand),
        }
    }
}

/// A one-operand function of a simplified operand: folded when the operand
/// is a constant.
pub open spec fn function_of<T: Scalar>(head: Symbol<T>, operand: Tree<T>) -> Tree<T> {
    match const_of(operand) {
        Some(v) => leaf(
            Symbol::Const(
                if head is Sign {
                    sign_of(v)
                } else {
                    T::spec_unary(unary_function_of(head)->Some_0, v)
                },
            ),
        ),
        None => node1(head, operand),
    }
}

/// The simplified tree: operands first, then the rules of the node's operation.
/// An `iif` with a constant check becomes the selected branch.
pub open spec fn simplified<T: Scalar>(t: Tree<T>) -> Tree<T>
    decreases t,
{
    if t.args.len() != arity(t.head) {
        t
    } else {
        match t.head {
            Symbol::Var(n) => leaf(Symbol::Var(n)),
            Symbol::Const(c) => leaf(Symbol::Const(c)),
            Symbol::Add => sum_of(simplified(t.args[0]), simplified(t.args[1]), false),
            Symbol::Subtract => sum_of(simplified(t.args[0]), simplified(t.args[1]), true),
            Symbol::Multiply => product_of(simplified(t.args[0]), simplified(t.args[1])),
            Symbol::Divide => quotient_of(simplified(t.args[0]), simplified(t.args[1])),
            Symbol::Power => power_of(simplified(t.args[0]), simplified(t.args[1])),
            Symbol::Negate => negation_of(simplified(t.args[0])),
            Symbol::NaturalLogarithm => logarithm_of(
                Symbol::NaturalLogarithm,
                UnaryFunction::NaturalLogarithm,
                simplified(t.args[0]),
            ),
            Symbol::CommonLogarithm => logarithm_of(
                Symbol::CommonLogarithm,
                UnaryFunction::CommonLogarithm,
                simplified(t.args[0]),
            ),
            Symbol::ImmediateIf => {
                let check = simplified(t.args[0]);
                match const_of(check) {
                    Some(v) => if T::spec_less(v, T::spec_integer(0)) {
                        simplified(t.args[1])
                    } else {
                        simplified(t.args[2])
                    },
                    None => node3(
                        Symbol::ImmediateIf,
                        check,
                        simplified(t.args[1]),
                        simplified(t.args[2]),
                    ),
                }
            },
            _ => function_of(t.head, simplified(t.args[0])),
        }
    }
}

} // verus!
