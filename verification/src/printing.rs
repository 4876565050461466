//! How expressions and their parts are written as text.
use vstd::prelude::*;
use crate::scalar::Scalar;
use crate::tree::{Symbol, Tree};

verus! {

/// The name of an operation: its operator sign or function name, the name
/// of a variable, or `Constant`.
pub open spec fn operation_name<T>(head: Symbol<T>) -> Seq<char> {
    match head {
        Symbol::Var(name) => name,
        Symbol::Const(_) => "Constant"@,
        Symbol::Add => "+"@,
        Symbol::Subtract => "-"@,
        Symbol::Multiply => "*"@,
        Symbol::Divide => "/"@,
        Symbol::Power => "^"@,
        Symbol::Negate => "-"@,
        Symbol::Sine => "sin"@,
        Symbol::Cosine => "cos"@,
        Symbol::Tangent => "tan"@,
        Symbol::ArcSine => "asin"@,
        Symbol::ArcCosine => "acos"@,
        Symbol::ArcTangent => "atan"@,
        Symbol::HyperbolicSine => "sinh"@,
        Symbol::HyperbolicCosine => "cosh"@,
        Symbol::HyperbolicTangent => "tanh"@,
        Symbol::Sign => "sign"@,
        Symbol::AbsoluteValue => "abs"@,
        Symbol::Exponent => "exp"@,
        Symbol::SquareRoot => "sqrt"@,
        Symbol::NaturalLogarithm => "ln"@,
        Symbol::CommonLogarithm => "log10"@,
        Symbol::ImmediateIf => "iif"@,
    }
}

/// The text of a well-formed tree: binary operations in parentheses with
/// spaces around the operator (`(a + b)`), negation as `(-a)`, functions as
/// `name(a)`, `iif(a, b, c)`, variables by name and constants as their type
/// writes them.
pub open spec fn written<T: Scalar>(t: Tree<T>) -> Seq<char>
    decreases t,
{
    match t.head {
        Symbol::Var(name) => name,
        Symbol::Const(c) => T::spec_text(c)@,
        Symbol::Add | Symbol::Subtract | Symbol::Multiply | Symbol::Divide | Symbol::Power => {
            if t.args.len() == 2 {
                "("@ + written(t.args[0]) + " "@ + operation_name(t.head) + " "@ + written(
                    t.args[1],
                ) + ")"@
            } else {
                seq![]
            }
        },
        Symbol::Negate => {
            if t.args.len() == 1 {
                "(-"@ + written(t.args[0]) + ")"@
            } else {
                seq![]
            }
        },
        Symbol::ImmediateIf => {
            if t.args.len() == 3 {
                "iif("@ + written(t.args[0]) + ", "@ + written(t.args[1]) + ", "@ + written(
                    t.args[2],
                ) + ")"@
            } else {
                seq![]
            }
        },
        _ => {
            if t.args.len() == 1 {
                operation_name(t.head) + "("@ + written(t.args[0]) + ")"@
            } else {
                seq![]
            }
        },
    }
}

} // verus!
