//! The symbolic derivative of an expression tree.
use vstd::prelude::*;
use crate::scalar::{Scalar, UnaryFunction, BinaryFunction};
use crate::tree::{Symbol, Tree, leaf, node1, node2, node3, arity};
use crate::math_expr::power_tree;

verus! {

/// The constant `n` as a tree.
pub open spec fn int_leaf<T: Scalar>(n: u8) -> Tree<T> {
    leaf(Symbol::Const(T::spec_integer(n)))
}

/// `operand ^ 2`.
pub open spec fn squared<T: Scalar>(operand: Tree<T>) -> Tree<T> {
    power_tree(operand, int_leaf(2))
}

/// The derivative of `t` by the variable `v`, by the rules of the calculus
/// applied to each operation (chain, product and quotient rules). Piecewise
/// operations are differentiated branchwise: `sign` has derivative `0`,
/// `abs(u)` has `u' * sign(u)`, and `iif` keeps its check and differentiates
/// both branches.
pub open spec fn derivative<T: Scalar>(t: Tree<T>, v: Seq<char>) -> Tree<T>
    decreases t,
{
    if t.args.len() != arity(t.head) {
        t
    } else {
        match t.head {
            Symbol::Const(_) => int_leaf(0),
            Symbol::Var(name) => if name == v {
                int_leaf(1)
            } else {
                int_leaf(0)
            },
            Symbol::Add => node2(Symbol::Add, derivative(t.args[0], v), derivative(t.args[1], v)),
            Symbol::Subtract => node2(
                Symbol::Subtract,
                derivative(t.args[0], v),
                derivative(t.args[1], v),
            ),
            Symbol::Multiply => node2(
                Symbol::Add,
                node2(Symbol::Multiply, derivative(t.args[0], v), t.args[1]),
                node2(Symbol::Multiply, t.args[0], derivative(t.args[1], v)),
            ),
            Symbol::Divide => node2(
                Symbol::Divide,
                node2(
                    Symbol::Subtract,
                    node2(Symbol::Multiply, derivative(t.args[0], v), t.args[1]),
                    node2(Symbol::Multiply, t.args[0], derivative(t.args[1], v)),
                ),
                node2(Symbol::Multiply, t.args[1], t.args[1]),
            ),
            Symbol::Power => {
                let base = t.args[0];
                let exponent = t.args[1];
                match exponent.head {
                    Symbol::Const(c) => if T::spec_equal(c, T::spec_integer(0)) {
                        int_leaf(0)
                    } else if T::spec_equal(c, T::spec_integer(1)) {
                        derivative(base, v)
                    } else {
                        node2(
                            Symbol::Multiply,
                            node2(
                                Symbol::Multiply,
                                leaf(Symbol::Const(c)),
                                power_tree(
                                    base,
                                    leaf(
                                        Symbol::Const(
                                            T::spec_binary(
                                                BinaryFunction::Subtract,
                                                c,
                                                T::spec_integer(1),
                                            ),
                                        ),
                                    ),
                                ),
                            ),
                            derivative(base, v),
                        )
                    },
                    _ => node2(
                        Symbol::Multiply,
                        t,
                        node2(
                            Symbol::Add,
                            node2(
                                Symbol::Multiply,
                                derivative(exponent, v),
                                node1(Symbol::NaturalLogarithm, base),
                            ),
                            node2(
                                Symbol::Multiply,
                                exponent,
                                node2(Symbol::Divide, derivative(base, v), base),
                            ),
                        ),
                    ),
                }
            },
            Symbol::Negate => node1(Symbol::Negate, derivative(t.args[0], v)),
            Symbol::Sine => node2(
                Symbol::Multiply,
                derivative(t.args[0], v),
                node1(Symbol::Cosine, t.args[0]),
            ),
            Symbol::Cosine => node2(
                Symbol::Multiply,
                derivative(t.args[0], v),
                node1(Symbol::Negate, node1(Symbol::Sine, t.args[0])),
            ),
            Symbol::Tangent => node2(
                Symbol::Divide,
                derivative(t.args[0], v),
                squared(node1(Symbol::Cosine, t.args[0])),
            ),
            Symbol::ArcSine => node2(
                Symbol::Divide,
                derivative(t.args[0], v),
                node1(
                    Symbol::SquareRoot,
                    node2(Symbol::Subtract, int_leaf(1), squared(t.args[0])),
                ),
            ),
            Symbol::ArcCosine => node2(
                Symbol::Divide,
                node1(Symbol::Negate, derivative(t.args[0], v)),
                node1(
                    Symbol::SquareRoot,
                    node2(Symbol::Subtract, int_leaf(1), squared(t.args[0])),
                ),
            ),
            Symbol::ArcTangent => node2(
                Symbol::Divide,
                derivative(t.args[0], v),
                node2(Symbol::Add, int_leaf(1), squared(t.args[0])),
            ),
            Symbol::HyperbolicSine => node2(
                Symbol::Multiply,
                derivative(t.args[0], v),
                node1(Symbol::HyperbolicCosine, t.args[0]),
            ),
            Symbol::HyperbolicCosine => node2(
                Symbol::Multiply,
                derivative(t.args[0], v),
                node1(Symbol::HyperbolicSine, t.args[0]),
            ),
            Symbol::HyperbolicTangent => node2(
                Symbol::Divide,
                derivative(t.args[0], v),
                squared(node1(Symbol::HyperbolicCosine, t.args[0])),
            ),
            Symbol::Sign => int_leaf(0),
            Symbol::AbsoluteValue => node2(
                Symbol::Multiply,
                derivative(t.args[0], v),
                node1(Symbol::Sign, t.args[0]),
            ),
            Symbol::Exponent => node2(
                Symbol::Multiply,
                derivative(t.args[0], v),
                node1(Symbol::Exponent, t.args[0]),
            ),
            Symbol::SquareRoot => node2(
                Symbol::Divide,
                derivative(t.args[0], v),
                node2(Symbol::Multiply, int_leaf(2), node1(Symbol::SquareRoot, t.args[0])),
            ),
            Symbol::NaturalLogarithm => node2(
                Symbol::Divide,
                derivative(t.args[0], v),
                t.args[0],
            ),
            Symbol::CommonLogarithm => node2(
                Symbol::Divide,
                derivative(t.args[0], v),
                node2(
                    Symbol::Multiply,
                    t.args[0],
                    leaf(
                        Symbol::Const(
                            T::spec_unary(UnaryFunction::NaturalLogarithm, T::spec_integer(10)),
                        ),
                    ),
                ),
            ),
            Symbol::ImmediateIf => node3(
                Symbol::ImmediateIf,
                t.args[0],
                derivative(t.args[1], v),
                derivative(t.args[2], v),
            ),
        }
    }
}

} // verus!
