//! The value of an expression tree, given values of its variables.
use vstd::prelude::*;
use crate::scalar::{Scalar, UnaryFunction, BinaryFunction};
use crate::tree::{Symbol, Tree, arity};

verus! {

/// Why a tree has no value.
pub enum EvaluationFailure<T> {
    /// A node has `actual` operands where its symbol takes `expected`.
    OperandCount(Symbol<T>, nat, nat),
    /// A variable that is evaluated has no value.
    Undefined(Seq<char>),
}

/// `-1` for negative values, `0` for either signed zero, `1` for positive
/// values; `NaN` gives itself.
pub open spec fn sign_of<T: Scalar>(v: T) -> T {
    if T::spec_is_nan(v) {
        v
    } else if T::spec_less(T::spec_integer(0), v) {
        T::spec_integer(1)
    } else if T::spec_less(v, T::spec_integer(0)) {
        T::spec_unary(UnaryFunction::Negate, T::spec_integer(1))
    } else {
        T::spec_integer(0)
    }
}

/// The numeric function of a two-operand symbol.
pub open spec fn binary_function_of<T>(h: Symbol<T>) -> Option<BinaryFunction> {
    match h {
        Symbol::Add => Some(BinaryFunction::Add),
        Symbol::Subtract => Some(BinaryFunction::Subtract),
        Symbol::Multiply => Some(BinaryFunction::Multiply),
        Symbol::Divide => Some(BinaryFunction::Divide),
        Symbol::Power => Some(BinaryFunction::Power),
        _ => None,
    }
}

/// The numeric function of a one-operand symbol other than `sign`.
pub open spec fn unary_function_of<T>(h: Symbol<T>) -> Option<UnaryFunction> {
    match h {
        Symbol::Negate => Some(UnaryFunction::Negate),
        Symbol::Sine => Some(UnaryFunction::Sine),
        Symbol::Cosine => Some(UnaryFunction::Cosine),
        Symbol::Tangent => Some(UnaryFunction::Tangent),
        Symbol::ArcSine => Some(UnaryFunction::ArcSine),
        Symbol::ArcCosine => Some(UnaryFunction::ArcCosine),
        Symbol::ArcTangent => Some(UnaryFunction::ArcTangent),
        Symbol::HyperbolicSine => Some(UnaryFunction::HyperbolicSine),
        Symbol::HyperbolicCosine => Some(UnaryFunction::HyperbolicCosine),
        Symbol::HyperbolicTangent => Some(UnaryFunction::HyperbolicTangent),
        Symbol::AbsoluteValue => Some(UnaryFunction::AbsoluteValue),
        Symbol::Exponent => Some(UnaryFunction::Exponent),
        Symbol::SquareRoot => Some(UnaryFunction::SquareRoot),
        Symbol::NaturalLogarithm => Some(UnaryFunction::NaturalLogarithm),
        Symbol::CommonLogarithm => Some(UnaryFunction::CommonLogarithm),
        _ => None,
    }
}

/// The value of the tree when each variable `n` has the value `env(n)`.
/// Operands are evaluated from left to right and the first failure is the
/// result; `iif` evaluates its check and then only the selected branch (the
/// second operand when the check is below zero, else the third).
pub open spec fn value_of<T: Scalar>(t: Tree<T>, env: spec_fn(Seq<char>) -> Option<T>) -> Result<
    T,
    EvaluationFailure<T>,
>
    decreases t,
{
    match t.head {
        Symbol::Var(n) => match env(n) {
            Some(v) => Ok(v),
            None => Err(EvaluationFailure::Undefined(n)),
        },
        Symbol::Const(c) => Ok(c),
        _ => if t.args.len() != arity(t.head) {
            Err(EvaluationFailure::OperandCount(t.head, arity(t.head), t.args.len()))
        } else if t.head is ImmediateIf {
            match value_of(t.args[0], env) {
                Err(e) => Err(e),
                Ok(c) => if T::spec_less(c, T::spec_integer(0)) {
                    value_of(t.args[1], env)
                } else {
                    value_of(t.args[2], env)
                },
            }
        } else if arity(t.head) == 2 {
            match value_of(t.args[0], env) {
                Err(e) => Err(e),
                Ok(x) => match value_of(t.args[1], env) {
                    Err(e) => Err(e),
                    Ok(y) => Ok(T::spec_binary(binary_function_of(t.head)->Some_0, x, y)),
                },
            }
        } else {
            match value_of(t.args[0], env) {
                Err(e) => Err(e),
                Ok(x) => if t.head is Sign {
                    Ok(sign_of(x))
                } else {
                    Ok(T::spec_unary(unary_function_of(t.head)->Some_0, x))
                },
            }
        },
    }
}

/// The value bound to the name `n` in a map keyed by names, if any.
pub open spec fn lookup<T>(m: Map<&str, T>, n: Seq<char>) -> Option<T> {
    if exists|k: &str| m.dom().contains(k) && k@ == n {
        Some(m[choose|k: &str| m.dom().contains(k) && k@ == n])
    } else {
        None
    }
}

} // verus!
