//! The numeric abstraction that expressions are generic over.
//!
//! Expressions, their derivatives and their evaluation are written once for
//! every real-number type. A type takes part by implementing [`Scalar`]: each
//! arithmetic operation comes with a spec function of the same arguments that
//! names its result, so that every result proved here holds for every
//! implementation whose operations are functions of their arguments.
use vstd::prelude::*;

verus! {

/// The characters of a text, as specifications see them.
pub type Chars = Seq<char>;

/// One-argument numeric functions that expressions can apply to a value.
#[derive(Clone, Copy, Debug, PartialEq, Eq)]
pub enum UnaryFunction {
    Negate,
    Sine,
    Cosine,
    Tangent,
    ArcSine,
    ArcCosine,
    ArcTangent,
    HyperbolicSine,
    HyperbolicCosine,
    HyperbolicTangent,
    AbsoluteValue,
    Exponent,
    SquareRoot,
    NaturalLogarithm,
    CommonLogarithm,
    /// `1` for positive values and `+0`, `-1` for negative values and `-0`,
    /// `NaN` for `NaN`.
    Signum,
}

/// Two-argument numeric functions that expressions can apply to values.
#[derive(Clone, Copy, Debug, PartialEq, Eq)]
pub enum BinaryFunction {
    Add,
    Subtract,
    Multiply,
    Divide,
    Power,
}

/// A real-number type that expressions can hold, compute with and read from text.
///
/// The exec methods are tied to the spec functions of the trait: each returns
/// exactly the value that its spec function names for the same arguments.
/// Nothing else is assumed of an implementation (no algebraic law, no rounding).
pub trait Scalar: Sized + Copy {
    /// The value of a small non-negative integer (`0`, `1`, `2`, `10`, ...).
    spec fn spec_integer(n: u8) -> Self;

    /// The result of a one-argument function.
    spec fn spec_unary(f: UnaryFunction, x: Self) -> Self;

    /// The result of a two-argument function.
    spec fn spec_binary(f: BinaryFunction, x: Self, y: Self) -> Self;

    /// Numeric equality (for IEEE types, `NaN` is equal to nothing and `-0 == 0`).
    spec fn spec_equal(x: Self, y: Self) -> bool;

    /// Numeric strict order.
    spec fn spec_less(x: Self, y: Self) -> bool;

    /// Whether the value is not a number.
    spec fn spec_is_nan(x: Self) -> bool;

    /// Whether the value is finite (neither infinite nor `NaN`).
    spec fn spec_is_finite(x: Self) -> bool;

    /// The text that the value is written as.
    spec fn spec_text(x: Self) -> String;

    /// The number that the text (its characters) reads as, if it reads as one.
    spec fn spec_reads(text: Chars) -> Option<Self>;

    fn integer(n: u8) -> (r: Self)
        ensures
            r == Self::spec_integer(n),
    ;

    /// The value that a numeric literal (digits, an optional fraction and an
    /// optional exponent) or a name (such as `inf` or `NaN`) reads as, if the
    /// type reads it as a number.
    fn from_text(text: &str) -> (r: Option<Self>)
        ensures
            r == Self::spec_reads(text@),
    ;

    fn unary(f: UnaryFunction, x: Self) -> (r: Self)
        ensures
            r == Self::spec_unary(f, x),
    ;

    fn binary(f: BinaryFunction, x: Self, y: Self) -> (r: Self)
        ensures
            r == Self::spec_binary(f, x, y),
    ;

    fn equal(x: Self, y: Self) -> (r: bool)
        ensures
            r == Self::spec_equal(x, y),
    ;

    fn less(x: Self, y: Self) -> (r: bool)
        ensures
            r == Self::spec_less(x, y),
    ;

    fn is_nan(x: Self) -> (r: bool)
        ensures
            r == Self::spec_is_nan(x),
    ;

    fn is_finite(x: Self) -> (r: bool)
        ensures
            r == Self::spec_is_finite(x),
    ;

    fn text(x: Self) -> (r: String)
        ensures
            r == Self::spec_text(x),
    ;
}

} // verus!
