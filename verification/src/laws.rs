//! Properties of expression trees that hold across operations: which
//! variables an expression can mention after it is transformed, when it has
//! a value, and which operations keep it well-formed.
use vstd::prelude::*;
use crate::evaluation::value_of;
use crate::scalar::Scalar;
use crate::simplification::{int_value, minus_one, is_one, is_minus_one};
use crate::tree::{Tree, Symbol, wf, mentions, mentions_from, collect_names, collect_names_from, substitution, leaf, node1, node2};
use crate::derivative::{derivative, int_leaf};
use crate::math_expr::{power_tree, lemma_power_tree_wf};
use crate::structure::{lemma_mentions_args, lemma_wf_args};
use crate::tree::arity;
use crate::simplification::{
    coefficient_and_term, scale_term, add_term, find_term, collect_addends, sum_terms, sum_of,
    negation_of, product_of, quotient_of, power_of, logarithm_of, simplified, const_of,
};

verus! {

/// A variable of an operand is a variable of the list from any earlier start.
pub proof fn lemma_mentions_from<T>(args: Seq<Tree<T>>, k: int, i: int, x: Seq<char>)
    requires
        0 <= k <= i < args.len(),
        mentions(args[i], x),
    ensures
        mentions_from(args, k, x),
    decreases i - k,
{
    if k < i {
        lemma_mentions_from(args, k + 1, i, x);
    }
}

/// The names that `collect_names` gathers are those already gathered and the
/// variables of the tree.
pub proof fn lemma_collect_names<T>(t: Tree<T>, acc: Seq<Seq<char>>, x: Seq<char>)
    ensures
        collect_names(t, acc).contains(x) <==> (acc.contains(x) || mentions(t, x)),
    decreases t, 1int,
{
    let here = match t.head {
        Symbol::Var(n) => if acc.contains(n) { acc } else { acc.push(n) },
        _ => acc,
    };
    lemma_collect_names_from(t.args, 0, here, x);
    if let Symbol::Var(n) = t.head {
        if !acc.contains(n) {
            assert(here.contains(x) <==> (acc.contains(x) || x == n)) by {
                if x == n {
                    assert(here[acc.len() as int] == n);
                }
                if acc.contains(x) {
                    let j = choose|j: int| 0 <= j < acc.len() && acc[j] == x;
                    assert(here[j] == x);
                }
                if here.contains(x) && x != n {
                    let j = choose|j: int| 0 <= j < here.len() && here[j] == x;
                    assert(acc[j] == x);
                }
            }
        }
    }
}

/// `lemma_collect_names` for the operands from index `k` on.
pub proof fn lemma_collect_names_from<T>(args: Seq<Tree<T>>, k: int, acc: Seq<Seq<char>>, x: Seq<char>)
    ensures
        collect_names_from(args, k, acc).contains(x) <==> (acc.contains(x) || mentions_from(args, k, x)),
    decreases args, args.len() - k,
{
    if 0 <= k < args.len() {
        lemma_collect_names(args[k], acc, x);
        lemma_collect_names_from(args, k + 1, collect_names(args[k], acc), x);
    }
}

/// Replacing a variable by a well-formed tree keeps a tree well-formed.
pub proof fn lemma_substitution_wf<T>(t: Tree<T>, name: Seq<char>, r: Tree<T>)
    requires
        wf(t),
        wf(r),
    ensures
        wf(substitution(t, name, r)),
    decreases t,
{
    if t.head != Symbol::<T>::Var(name) {
        let s = substitution(t, name, r);
        assert forall|i: int| 0 <= i < t.args.len() implies #[trigger] s.args[i] == substitution(
            t.args[i],
            name,
            r,
        ) && wf(s.args[i]) by {
            lemma_substitution_wf(t.args[i], name, r);
        }
    }
}

/// After a variable is replaced, the tree mentions a variable `x` exactly
/// when the tree before the replacement mentions `x` (other than the replaced one) or mentions
/// the replaced variable and the replacement mentions `x`.
pub proof fn lemma_substitution_mentions<T>(t: Tree<T>, name: Seq<char>, r: Tree<T>, x: Seq<char>)
    requires
        wf(t),
    ensures
        mentions(substitution(t, name, r), x) <==> ((x != name && mentions(t, x)) || (mentions(
            t,
            name,
        ) && mentions(r, x))),
    decreases t, 1int,
{
    if t.head == Symbol::<T>::Var(name) {
        assert(t.args.len() == 0);
        assert(!mentions_from(t.args, 0, x));
    } else {
        let s = substitution(t, name, r);
        assert(s.args.len() == t.args.len());
        assert forall|i: int| 0 <= i < t.args.len() implies wf(#[trigger] t.args[i]) by {}
        assert forall|i: int| 0 <= i < t.args.len() implies #[trigger] s.args[i] == substitution(
            t.args[i],
            name,
            r,
        ) by {}
        lemma_substitution_mentions_from(t.args, s.args, 0, name, r, x);
    }
}

/// `lemma_substitution_mentions` for the operands from index `k` on.
pub proof fn lemma_substitution_mentions_from<T>(
    args: Seq<Tree<T>>,
    sargs: Seq<Tree<T>>,
    k: int,
    name: Seq<char>,
    r: Tree<T>,
    x: Seq<char>,
)
    requires
        sargs.len() == args.len(),
        forall|i: int| 0 <= i < args.len() ==> wf(#[trigger] args[i]),
        forall|i: int| 0 <= i < args.len() ==> #[trigger] sargs[i] == substitution(args[i], name, r),
    ensures
        mentions_from(sargs, k, x) <==> ((x != name && mentions_from(args, k, x)) || (
        mentions_from(args, k, name) && mentions(r, x))),
    decreases args, args.len() - k,
{
    if 0 <= k < args.len() {
        lemma_substitution_mentions(args[k], name, r, x);
        lemma_substitution_mentions_from(args, sargs, k + 1, name, r, x);
    }
}

/// A well-formed tree has a value when every variable it mentions has one.
pub proof fn lemma_value_defined<T: Scalar>(t: Tree<T>, env: spec_fn(Seq<char>) -> Option<T>)
    requires
        wf(t),
        forall|x: Seq<char>| mentions(t, x) ==> (#[trigger] env(x)) is Some,
    ensures
        value_of(t, env) is Ok,
    decreases t,
{
    if !(t.head is Var) && !(t.head is Const) {
        assert forall|i: int| 0 <= i < t.args.len() implies value_of(#[trigger] t.args[i], env) is Ok by {
            assert forall|x: Seq<char>| mentions(t.args[i], x) implies (#[trigger] env(x)) is Some by {
                lemma_mentions_from(t.args, 0, i, x);
            }
            lemma_value_defined(t.args[i], env);
        }
    }
}

/// A power mentions only the variables of its base and exponent.
pub proof fn lemma_power_tree_mentions<T: Scalar>(base: Tree<T>, exponent: Tree<T>, x: Seq<char>)
    requires
        exponent.args.len() <= 3,
    ensures
        mentions(power_tree(base, exponent), x) ==> mentions(base, x) || mentions(exponent, x),
{
    broadcast use lemma_mentions_args;

}

/// The derivative of a well-formed tree is well-formed and mentions no
/// variable that the tree does not mention.
pub proof fn lemma_derivative<T: Scalar>(t: Tree<T>, v: Seq<char>, x: Seq<char>)
    requires
        wf(t),
    ensures
        wf(derivative(t, v)),
        mentions(derivative(t, v), x) ==> mentions(t, x),
    decreases t,
{
    broadcast use lemma_mentions_args, lemma_wf_args;

    let two = int_leaf::<T>(2);
    let one = int_leaf::<T>(1);
    assert(wf(two) && wf(one) && !mentions(two, x) && !mentions(one, x));
    if t.args.len() >= 1 {
        lemma_derivative(t.args[0], v, x);
        lemma_power_tree_wf(t.args[0], two);
        lemma_power_tree_mentions(t.args[0], two, x);
    }
    if t.args.len() >= 2 {
        lemma_derivative(t.args[1], v, x);
    }
    if t.args.len() >= 3 {
        lemma_derivative(t.args[2], v, x);
    }
    match t.head {
        Symbol::Power => {
            let base = t.args[0];
            let exponent = t.args[1];
            if let Symbol::Const(c) = exponent.head {
                let lowered = leaf::<T>(
                    Symbol::Const(
                        T::spec_binary(crate::scalar::BinaryFunction::Subtract, c, T::spec_integer(1)),
                    ),
                );
                assert(wf(lowered) && !mentions(lowered, x));
                lemma_power_tree_wf(base, lowered);
                lemma_power_tree_mentions(base, lowered, x);
            }
        },
        Symbol::Tangent => {
            let c = crate::tree::node1(Symbol::Cosine, t.args[0]);
            lemma_power_tree_wf(c, two);
            lemma_power_tree_mentions(c, two, x);
        },
        Symbol::HyperbolicTangent => {
            let c = crate::tree::node1(Symbol::HyperbolicCosine, t.args[0]);
            lemma_power_tree_wf(c, two);
            lemma_power_tree_mentions(c, two, x);
        },
        _ => {},
    }
}

/// The term of `coefficient_and_term` is part of the expression.
pub proof fn lemma_coefficient_and_term<T: Scalar>(e: Tree<T>, x: Seq<char>)
    requires
        wf(e),
    ensures
        wf(coefficient_and_term(e).1),
        mentions(coefficient_and_term(e).1, x) ==> mentions(e, x),
{
    broadcast use lemma_mentions_args, lemma_wf_args;

}

/// Scaling a term keeps its variables and its well-formedness.
pub proof fn lemma_scale_term<T: Scalar>(c: T, t: Tree<T>, x: Seq<char>)
    requires
        wf(t),
    ensures
        wf(scale_term(c, t)),
        mentions(scale_term(c, t), x) ==> mentions(t, x),
{
    broadcast use lemma_mentions_args, lemma_wf_args;

    assert(wf(leaf::<T>(Symbol::Const(c))));
}

/// Every term of the list is well-formed and none mentions `x`.
pub open spec fn terms_clean<T>(terms: Seq<(T, Tree<T>)>, x: Seq<char>) -> bool {
    forall|k: int| 0 <= k < terms.len() ==> wf(#[trigger] terms[k].1) && !mentions(terms[k].1, x)
}

/// `find_term` finds an index of the list.
pub proof fn lemma_find_term<T: Scalar>(terms: Seq<(T, Tree<T>)>, t: Tree<T>, k: int)
    ensures
        find_term(terms, t, k) matches Some(j) ==> 0 <= j < terms.len(),
    decreases terms.len() - k,
{
    if 0 <= k < terms.len() {
        lemma_find_term(terms, t, k + 1);
    }
}

/// Gathering the addends of a clean expression keeps the list clean.
pub proof fn lemma_collect_addends<T: Scalar>(
    e: Tree<T>,
    sign: T,
    terms: Seq<(T, Tree<T>)>,
    constant: T,
    x: Seq<char>,
)
    requires
        wf(e),
        !mentions(e, x),
        terms_clean(terms, x),
    ensures
        terms_clean(collect_addends(e, sign, terms, constant).0, x),
    decreases e,
{
    broadcast use lemma_mentions_args, lemma_wf_args;

    if e.head is Add && e.args.len() == 2 {
        lemma_collect_addends(e.args[0], sign, terms, constant, x);
        let (terms1, constant1) = collect_addends(e.args[0], sign, terms, constant);
        lemma_collect_addends(e.args[1], sign, terms1, constant1, x);
    } else if e.head is Subtract && e.args.len() == 2 {
        lemma_collect_addends(e.args[0], sign, terms, constant, x);
        let (terms1, constant1) = collect_addends(e.args[0], sign, terms, constant);
        lemma_collect_addends(
            e.args[1],
            T::spec_unary(crate::scalar::UnaryFunction::Negate, sign),
            terms1,
            constant1,
            x,
        );
    } else if e.head is Const && e.args.len() == 0 {
    } else {
        let (c, t) = coefficient_and_term(e);
        lemma_coefficient_and_term(e, x);
        let c2 = crate::simplification::times(sign, c);
        lemma_find_term(terms, t, 0);
        let r = add_term(terms, c2, t);
        assert forall|k: int| 0 <= k < r.len() implies wf(#[trigger] r[k].1) && !mentions(r[k].1, x) by {
            match find_term(terms, t, 0) {
                Some(j) => {
                    assert(r[k].1 == terms[k].1);
                },
                None => {
                    if k < terms.len() {
                        assert(r[k].1 == terms[k].1);
                    }
                },
            }
        }
    }
}

/// Summing clean terms onto a clean partial sum gives a clean sum.
pub proof fn lemma_sum_terms<T: Scalar>(terms: Seq<(T, Tree<T>)>, k: int, acc: Option<Tree<T>>, x: Seq<char>)
    requires
        terms_clean(terms, x),
        acc matches Some(e) ==> wf(e) && !mentions(e, x),
    ensures
        sum_terms(terms, k, acc) matches Some(e) ==> wf(e) && !mentions(e, x),
    decreases terms.len() - k,
{
    broadcast use lemma_mentions_args, lemma_wf_args;

    if 0 <= k < terms.len() {
        if crate::simplification::is_zero(terms[k].0) {
            lemma_sum_terms(terms, k + 1, acc, x);
        } else {
            lemma_scale_term(terms[k].0, terms[k].1, x);
            let term = scale_term(terms[k].0, terms[k].1);
            let next = Some(
                match acc {
                    Some(e) => crate::tree::node2(Symbol::Add, e, term),
                    None => term,
                },
            );
            lemma_sum_terms(terms, k + 1, next, x);
        }
    }
}

/// A sum of clean trees is clean.
pub proof fn lemma_sum_of<T: Scalar>(left: Tree<T>, right: Tree<T>, subtract: bool, x: Seq<char>)
    requires
        wf(left),
        wf(right),
    ensures
        wf(sum_of(left, right, subtract)),
        mentions(sum_of(left, right, subtract), x) ==> mentions(left, x) || mentions(right, x),
{
    broadcast use lemma_mentions_args, lemma_wf_args;

    if !mentions(left, x) && !mentions(right, x) {
        clean_sum(left, right, subtract, x);
    } else {
        // well-formedness alone: pick a name that neither side mentions
        let fresh = fresh_name(left, right);
        clean_sum(left, right, subtract, fresh);
    }
}

proof fn clean_sum<T: Scalar>(left: Tree<T>, right: Tree<T>, subtract: bool, x: Seq<char>)
    requires
        wf(left),
        wf(right),
        !mentions(left, x),
        !mentions(right, x),
    ensures
        wf(sum_of(left, right, subtract)),
        !mentions(sum_of(left, right, subtract), x),
{
    broadcast use lemma_mentions_args, lemma_wf_args;

    let empty = Seq::<(T, Tree<T>)>::empty();
    let one = T::spec_integer(1);
    let zero = T::spec_integer(0);
    lemma_collect_addends(left, one, empty, zero, x);
    let (terms1, constant1) = collect_addends(left, one, empty, zero);
    let sign = if subtract {
        crate::simplification::minus_one::<T>()
    } else {
        one
    };
    lemma_collect_addends(right, sign, terms1, constant1, x);
    let (terms, constant) = collect_addends(right, sign, terms1, constant1);
    lemma_sum_terms(terms, 0, None, x);
    assert(wf(leaf::<T>(Symbol::Const(constant))));
    assert(wf(int_leaf::<T>(0)));
}

/// A name that neither tree mentions.
proof fn fresh_name<T>(a: Tree<T>, b: Tree<T>) -> (n: Seq<char>)
    ensures
        !mentions(a, n),
        !mentions(b, n),
{
    let names = collect_names(b, collect_names(a, seq![]));
    let n = Seq::new(longest(names) + 1, |i: int| 'x');
    if mentions(a, n) || mentions(b, n) {
        lemma_collect_names(a, seq![], n);
        lemma_collect_names(b, collect_names(a, seq![]), n);
        let k = choose|k: int| 0 <= k < names.len() && names[k] == n;
        lemma_longest(names, k);
    }
    n
}

/// The length of the longest name of the list.
spec fn longest(names: Seq<Seq<char>>) -> nat
    decreases names.len(),
{
    if names.len() == 0 {
        0
    } else {
        let rest = longest(names.drop_last());
        if names.last().len() > rest {
            names.last().len()
        } else {
            rest
        }
    }
}

proof fn lemma_longest(names: Seq<Seq<char>>, k: int)
    requires
        0 <= k < names.len(),
    ensures
        names[k].len() <= longest(names),
    decreases names.len(),
{
    if k < names.len() - 1 {
        lemma_longest(names.drop_last(), k);
    }
}

/// Negation keeps the variables and the well-formedness.
pub proof fn lemma_negation_of<T: Scalar>(operand: Tree<T>, x: Seq<char>)
    requires
        wf(operand),
    ensures
        wf(negation_of(operand)),
        mentions(negation_of(operand), x) ==> mentions(operand, x),
{
    broadcast use lemma_mentions_args, lemma_wf_args;

}

/// A simplified product mentions only the variables of its factors.
pub proof fn lemma_product_of<T: Scalar>(left: Tree<T>, right: Tree<T>, x: Seq<char>)
    requires
        wf(left),
        wf(right),
    ensures
        wf(product_of(left, right)),
        mentions(product_of(left, right), x) ==> mentions(left, x) || mentions(right, x),
    decreases (if const_of(left) is Some {
        0int
    } else {
        1int
    }),
{
    broadcast use lemma_mentions_args, lemma_wf_args;

    lemma_negation_of(left, x);
    lemma_negation_of(right, x);
    lemma_coefficient_and_term(right, x);
    let (nested, term) = coefficient_and_term(right);
    if let Some(l) = const_of(left) {
        lemma_scale_term(crate::simplification::times(l, nested), term, x);
    }
    if const_of(left) is None {
        if let Some(r) = const_of(right) {
            let c = leaf::<T>(Symbol::Const(r));
            assert(wf(c));
            lemma_product_of(c, left, x);
        }
    }
}

/// A simplified quotient mentions only the variables of its operands.
pub proof fn lemma_quotient_of<T: Scalar>(numerator: Tree<T>, denominator: Tree<T>, x: Seq<char>)
    requires
        wf(numerator),
        wf(denominator),
    ensures
        wf(quotient_of(numerator, denominator)),
        mentions(quotient_of(numerator, denominator), x) ==> mentions(numerator, x) || mentions(
            denominator,
            x,
        ),
{
    broadcast use lemma_mentions_args, lemma_wf_args;

    lemma_negation_of(numerator, x);
}

/// A simplified power mentions only the variables of its base and exponent.
pub proof fn lemma_power_of<T: Scalar>(base: Tree<T>, exponent: Tree<T>, x: Seq<char>)
    requires
        wf(base),
        wf(exponent),
    ensures
        wf(power_of(base, exponent)),
        mentions(power_of(base, exponent), x) ==> mentions(base, x) || mentions(exponent, x),
    decreases base,
{
    broadcast use lemma_mentions_args, lemma_wf_args;

    lemma_power_tree_wf(base, exponent);
    lemma_power_tree_mentions(base, exponent, x);
    if let Some(e) = const_of(exponent) {
        if base.head is Power && base.args.len() == 2 && const_of(base.args[1]) is Some {
            let c = leaf::<T>(
                Symbol::Const(crate::simplification::times(const_of(base.args[1])->Some_0, e)),
            );
            assert(wf(c));
            lemma_power_of(base.args[0], c, x);
        }
    }
}

/// A simplified logarithm mentions only the variables of its operand.
pub proof fn lemma_logarithm_of<T: Scalar>(
    head: Symbol<T>,
    f: crate::scalar::UnaryFunction,
    operand: Tree<T>,
    x: Seq<char>,
)
    requires
        wf(operand),
        arity(head) == 1,
        !(head is Var),
    ensures
        wf(logarithm_of(head, f, operand)),
        mentions(logarithm_of(head, f, operand), x) ==> mentions(operand, x),
{
    broadcast use lemma_mentions_args, lemma_wf_args;

    if operand.head is Power && operand.args.len() == 2 {
        let inner = crate::tree::node1(head, operand.args[0]);
        lemma_product_of(operand.args[1], inner, x);
    }
}

/// The simplified tree of a well-formed tree is well-formed and mentions
/// no variable that the tree does not mention.
pub proof fn lemma_simplified<T: Scalar>(t: Tree<T>, x: Seq<char>)
    requires
        wf(t),
    ensures
        wf(simplified(t)),
        mentions(simplified(t), x) ==> mentions(t, x),
    decreases t,
{
    broadcast use lemma_mentions_args, lemma_wf_args;

    if t.args.len() >= 1 {
        lemma_simplified(t.args[0], x);
    }
    if t.args.len() >= 2 {
        lemma_simplified(t.args[1], x);
    }
    if t.args.len() >= 3 {
        lemma_simplified(t.args[2], x);
    }
    match t.head {
        Symbol::Add => lemma_sum_of(simplified(t.args[0]), simplified(t.args[1]), false, x),
        Symbol::Subtract => lemma_sum_of(simplified(t.args[0]), simplified(t.args[1]), true, x),
        Symbol::Multiply => lemma_product_of(simplified(t.args[0]), simplified(t.args[1]), x),
        Symbol::Divide => lemma_quotient_of(simplified(t.args[0]), simplified(t.args[1]), x),
        Symbol::Power => lemma_power_of(simplified(t.args[0]), simplified(t.args[1]), x),
        Symbol::Negate => lemma_negation_of(simplified(t.args[0]), x),
        Symbol::NaturalLogarithm => lemma_logarithm_of(
            Symbol::NaturalLogarithm,
            crate::scalar::UnaryFunction::NaturalLogarithm,
            simplified(t.args[0]),
            x,
        ),
        Symbol::CommonLogarithm => lemma_logarithm_of(
            Symbol::CommonLogarithm,
            crate::scalar::UnaryFunction::CommonLogarithm,
            simplified(t.args[0]),
            x,
        ),
        _ => {},
    }
}

/// Logarithmic differentiation: for a power `b ^ e` whose exponent is not a
/// constant, the derivative is the power times the derivative of
/// `e * ln(b)` (since `b ^ e = exp(e * ln(b))`), that is
/// `b ^ e * (e' * ln(b) + e * (b' / b))`.
pub proof fn lemma_derivative_of_power<T: Scalar>(b: Tree<T>, e: Tree<T>, v: Seq<char>)
    requires
        !(e.head is Const),
    ensures
        derivative(node2(Symbol::Power, b, e), v) == node2(
            Symbol::Multiply,
            node2(Symbol::Power, b, e),
            derivative(node2(Symbol::Multiply, e, node1(Symbol::NaturalLogarithm, b)), v),
        ),
        derivative(node2(Symbol::Multiply, e, node1(Symbol::NaturalLogarithm, b)), v) == node2(
            Symbol::Add,
            node2(Symbol::Multiply, derivative(e, v), node1(Symbol::NaturalLogarithm, b)),
            node2(Symbol::Multiply, e, node2(Symbol::Divide, derivative(b, v), b)),
        ),
{
    let p = node2(Symbol::Power, b, e);
    let l = node1(Symbol::NaturalLogarithm, b);
    let m = node2(Symbol::Multiply, e, l);
    assert(p.args[0] == b && p.args[1] == e);
    assert(m.args[0] == e && m.args[1] == l);
    assert(l.args[0] == b);
    assert(derivative(l, v) == node2(Symbol::Divide, derivative(b, v), b));
    assert(derivative(m, v) == node2(
        Symbol::Add,
        node2(Symbol::Multiply, derivative(e, v), l),
        node2(Symbol::Multiply, e, derivative(l, v)),
    ));
}

/// A double negation cancels: negating twice what simplifies to a tree that
/// is neither a constant nor itself a negation gives back that tree.
pub proof fn lemma_double_negation<T: Scalar>(a: Tree<T>)
    requires
        !(simplified(a).head is Const),
        !(simplified(a).head is Negate),
    ensures
        simplified(node1(Symbol::Negate, node1(Symbol::Negate, a))) == simplified(a),
        negation_of(negation_of(simplified(a))) == simplified(a),
{
    let n1 = node1(Symbol::Negate, a);
    let n2 = node1(Symbol::Negate, n1);
    assert(n1.args[0] == a);
    assert(n2.args[0] == n1);
    let s = simplified(a);
    assert(negation_of(s) == node1(Symbol::Negate, s));
    assert(node1(Symbol::Negate, s).args[0] == s);
    assert(simplified(n1) == negation_of(s));
}

/// Writing a term back from its coefficient and remaining factor gives the
/// term: a negation `-u` splits into the coefficient `-1` and `u`, a product
/// with a leading constant `c * u` into `c` and `u`, and any other term into
/// `1` and itself. This holds for a scalar type in which `1` equals itself,
/// `-1` equals itself and differs from `1`, and for a leading constant that
/// is neither `1` nor `-1` (which would be written without it).
pub proof fn lemma_coefficient_and_term_rebuilds<T: Scalar>(e: Tree<T>)
    requires
        is_one(int_value::<T>(1)),
        is_minus_one(minus_one::<T>()),
        !is_one(minus_one::<T>()),
        wf(e),
        e.head is Multiply && e.args.len() == 2 && const_of(e.args[0]) is Some ==> !is_one(
            const_of(e.args[0])->Some_0,
        ) && !is_minus_one(const_of(e.args[0])->Some_0),
    ensures
        scale_term(coefficient_and_term(e).0, coefficient_and_term(e).1) == e,
{
    if e.head is Negate {
        assert(e.args =~= seq![e.args[0]]);
    } else if e.head is Multiply && e.args.len() == 2 && const_of(e.args[0]) is Some {
        assert(wf(e.args[0]));
        assert(e.args[0].args.len() == arity(e.args[0].head));
        assert(e.args[0].args =~= Seq::<Tree<T>>::empty());
        assert(e.args[0] == leaf(Symbol::Const(const_of(e.args[0])->Some_0)));
        assert(e.args =~= seq![e.args[0], e.args[1]]);
    }
}

} // verus!
