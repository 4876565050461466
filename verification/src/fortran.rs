//! The decisions around the Fortran numerical routines: what their status
//! codes mean, and how an expression is evaluated on their behalf.
use vstd::prelude::*;
use vstd::string::StringExecFns;
use crate::decimal::{decimal, usize_to_text};
use crate::evaluation::{lookup, value_of};
use crate::grammar::{parse_text, token_reads};
use crate::math_expr::MathExpr;
use crate::ode_system::empty_env;
use crate::callback::bind_value;
use crate::scalar::Scalar;
use crate::solver::signed_decimal;
use std::collections::HashMap;

verus! {

/// Why a matrix could not be inverted.
#[derive(Clone, Copy, Debug, PartialEq, Eq, Structural)]
pub enum MatrixInverseError {
    /// The factorization met a zero pivot at this one-based position.
    Singular { pivot: usize },
    /// The routine failed with this status.
    LapackFailure { info: i32 },
}

/// What the status of the inversion routine means: `0` success, a positive
/// value the one-based position of a zero pivot, a negative value a failure.
pub open spec fn inverse_status(info: i32) -> Result<(), MatrixInverseError> {
    if info == 0 {
        Ok(())
    } else if info > 0 {
        Err(MatrixInverseError::Singular { pivot: info as usize })
    } else {
        Err(MatrixInverseError::LapackFailure { info })
    }
}

/// The meaning of the inversion routine's status (see `inverse_status`).
pub fn inverse_outcome(info: i32) -> (r: Result<(), MatrixInverseError>)
    ensures
        r == inverse_status(info),
{
    if info == 0 {
        Ok(())
    } else if info > 0 {
        Err(MatrixInverseError::Singular { pivot: info as usize })
    } else {
        Err(MatrixInverseError::LapackFailure { info })
    }
}

impl MatrixInverseError {
    /// The text of the error.
    pub open spec fn message(self) -> Seq<char> {
        match self {
            MatrixInverseError::Singular { pivot } => "matrix is singular at one-based pivot "@ + decimal(
                pivot as nat,
            ),
            MatrixInverseError::LapackFailure { info } => "LAPACK matrix inversion failed with INFO="@
                + signed_decimal(info as int),
        }
    }

    /// The error as text (see `message`).
    pub fn to_text(&self) -> (r: String)
        ensures
            r@ == self.message(),
    {
        match self {
            MatrixInverseError::Singular { pivot } => {
                let mut r = String::from_str("matrix is singular at one-based pivot ");
                let digits = usize_to_text(*pivot);
                r.append(digits.as_str());
                r
            },
            MatrixInverseError::LapackFailure { info } => {
                let mut r = String::from_str("LAPACK matrix inversion failed with INFO=");
                let digits = crate::solver::signed_text(*info);
                r.append(digits.as_str());
                r
            },
        }
    }
}

/// A size rule that a square matrix handed to the matrix routines breaks.
#[derive(Clone, Copy, Debug, PartialEq, Eq, Structural)]
pub enum ShapeFailure {
    /// `order * order` does not fit in `usize`.
    DimensionsOverflow,
    /// The matrix does not hold `order * order` elements.
    WrongLength,
    /// The order does not fit in the routines' integer type (`i32`).
    OrderTooLarge,
    /// The number of elements does not fit in the routines' integer type.
    MatrixTooLarge,
    /// The length of the workspace does not fit in `usize`.
    WorkspaceOverflow,
    /// The length of the workspace does not fit in the routines' integer type.
    WorkspaceTooLarge,
}

/// The largest value of the routines' integer type (`i32`).
pub const ROUTINE_INT_MAX: usize = 2147483647;

/// The first rule that a square matrix of `order` rows held in `len`
/// elements breaks, in the order they are checked: `order * order` fits in
/// `usize`, it is `len`, and the order and `order * order` fit in the
/// routines' integer type.
pub open spec fn square_failure(order: nat, len: nat) -> Option<ShapeFailure> {
    if order * order > usize::MAX {
        Some(ShapeFailure::DimensionsOverflow)
    } else if len != order * order {
        Some(ShapeFailure::WrongLength)
    } else if order > ROUTINE_INT_MAX {
        Some(ShapeFailure::OrderTooLarge)
    } else if order * order > ROUTINE_INT_MAX {
        Some(ShapeFailure::MatrixTooLarge)
    } else {
        None
    }
}

/// The number of elements of a square matrix of `order` rows held in `len`
/// elements, checked against the rules of `square_failure`.
fn square_elements(order: usize, len: usize) -> (r: Result<usize, ShapeFailure>)
    ensures
        match square_failure(order as nat, len as nat) {
            Some(f) => r == Err::<usize, ShapeFailure>(f),
            None => r == Ok::<usize, ShapeFailure>((order * order) as usize),
        },
{
    let count = match order.checked_mul(order) {
        Some(count) => count,
        None => return Err(ShapeFailure::DimensionsOverflow),
    };
    if len != count {
        Err(ShapeFailure::WrongLength)
    } else if order > ROUTINE_INT_MAX {
        Err(ShapeFailure::OrderTooLarge)
    } else if count > ROUTINE_INT_MAX {
        Err(ShapeFailure::MatrixTooLarge)
    } else {
        Ok(count)
    }
}

/// The layout for the matrix exponential: nothing to compute for an empty
/// matrix, else the number of elements and a workspace of twice as many,
/// or the first rule broken.
pub open spec fn exponential_layout_of(order: nat, len: nat) -> Result<Option<(nat, nat)>, ShapeFailure> {
    match square_failure(order, len) {
        Some(f) => Err(f),
        None => if order == 0 {
            Ok(None)
        } else if 2 * (order * order) > usize::MAX {
            Err(ShapeFailure::WorkspaceOverflow)
        } else {
            Ok(Some((order * order, 2 * (order * order))))
        },
    }
}

/// The number of elements and the workspace length with which the matrix
/// exponential routine runs on a square matrix of `order` rows held in `len`
/// elements, or `None` for an empty matrix (see `exponential_layout_of`).
pub fn exponential_layout(order: usize, len: usize) -> (r: Result<Option<(usize, usize)>, ShapeFailure>)
    ensures
        match exponential_layout_of(order as nat, len as nat) {
            Ok(Some((count, work))) => r == Ok::<Option<(usize, usize)>, ShapeFailure>(
                Some((count as usize, work as usize)),
            ),
            Ok(None) => r == Ok::<Option<(usize, usize)>, ShapeFailure>(None),
            Err(f) => r == Err::<Option<(usize, usize)>, ShapeFailure>(f),
        },
{
    let count = square_elements(order, len)?;
    if order == 0 {
        return Ok(None);
    }
    match count.checked_mul(2) {
        Some(work) => Ok(Some((count, work))),
        None => Err(ShapeFailure::WorkspaceOverflow),
    }
}

/// The layout for the matrix inversion: nothing to compute for an empty
/// matrix, else the number of elements and a workspace of `64 * order`,
/// which must fit in the routines' integer type, or the first rule broken.
pub open spec fn inverse_layout_of(order: nat, len: nat) -> Result<Option<(nat, nat)>, ShapeFailure> {
    match square_failure(order, len) {
        Some(f) => Err(f),
        None => if order == 0 {
            Ok(None)
        } else if 64 * order > usize::MAX {
            Err(ShapeFailure::WorkspaceOverflow)
        } else if 64 * order > ROUTINE_INT_MAX {
            Err(ShapeFailure::WorkspaceTooLarge)
        } else {
            Ok(Some((order * order, 64 * order)))
        },
    }
}

/// The number of elements and the workspace length with which the matrix
/// inversion routine runs on a square matrix of `order` rows held in `len`
/// elements, or `None` for an empty matrix (see `inverse_layout_of`).
pub fn inverse_layout(order: usize, len: usize) -> (r: Result<Option<(usize, usize)>, ShapeFailure>)
    ensures
        match inverse_layout_of(order as nat, len as nat) {
            Ok(Some((count, work))) => r == Ok::<Option<(usize, usize)>, ShapeFailure>(
                Some((count as usize, work as usize)),
            ),
            Ok(None) => r == Ok::<Option<(usize, usize)>, ShapeFailure>(None),
            Err(f) => r == Err::<Option<(usize, usize)>, ShapeFailure>(f),
        },
{
    let count = square_elements(order, len)?;
    if order == 0 {
        return Ok(None);
    }
    let work = match order.checked_mul(64) {
        Some(work) => work,
        None => return Err(ShapeFailure::WorkspaceOverflow),
    };
    if work > ROUTINE_INT_MAX {
        Err(ShapeFailure::WorkspaceTooLarge)
    } else {
        Ok(Some((count, work)))
    }
}

/// The rules that are checked before anything else about a matrix: that its
/// size can be counted and that it has that many elements.
pub open spec fn checked_first(f: ShapeFailure) -> bool {
    f is DimensionsOverflow || f is WrongLength
}

/// Whether a broken rule is one that is checked before anything else (see
/// `checked_first`).
pub fn is_checked_first(f: ShapeFailure) -> (r: bool)
    ensures
        r == checked_first(f),
{
    match f {
        ShapeFailure::DimensionsOverflow | ShapeFailure::WrongLength => true,
        _ => false,
    }
}

/// The status code that `evaluate_source` reports for a text that does not read.
pub const UNREADABLE: i32 = 1;

/// The status code that `evaluate_source` reports for an expression without a value.
pub const NO_VALUE: i32 = 2;

/// The binding that the Fortran side hands over with a state: `x` names its
/// first value, if it has one, and no other name is bound.
pub open spec fn state_env<T>(x: Seq<T>) -> spec_fn(Seq<char>) -> Option<T> {
    |n: Seq<char>|
        if n == seq!['x'] && x.len() > 0 {
            Some(x[0])
        } else {
            None::<T>
        }
}

/// Reads the text as an expression and evaluates it with `x` bound to the
/// first of the state values (see `state_env`): its value, or `UNREADABLE`,
/// or `NO_VALUE` (as for an expression that uses an unbound variable).
pub fn evaluate_source<T: Scalar>(source: &str, x: &[T]) -> (r: Result<T, i32>)
    ensures
        match parse_text::<T>(source@, token_reads::<T>(source@)) {
            Ok(t) => match value_of(t, state_env(x@)) {
                Ok(v) => r == Ok::<T, i32>(v),
                Err(_) => r == Err::<T, i32>(NO_VALUE),
            },
            Err(_) => r == Err::<T, i32>(UNREADABLE),
        },
{
    let parsed = MathExpr::<T>::parse(source);
    let expression = match parsed {
        Ok(e) => e,
        Err(_) => return Err(UNREADABLE),
    };
    let mut args: HashMap<&str, T> = HashMap::new();
    assert((|n: Seq<char>| lookup(args@, n)) =~= empty_env::<T>());
    if x.len() > 0 {
        let name = "x";
        proof {
            reveal_strlit("x");
            assert(name@ =~= seq!['x']);
        }
        bind_value(&mut args, name, x[0]);
        assert forall|n: Seq<char>| lookup(args@, n) == state_env(x@)(n) by {}
    } else {
        assert forall|n: Seq<char>| lookup(args@, n) == state_env(x@)(n) by {
            assert(empty_env::<T>()(n) == lookup(args@, n));
        }
    }
    assert((|n: Seq<char>| lookup(args@, n)) =~= state_env(x@));
    match expression.evaluate(&args) {
        Ok(value) => Ok(value),
        Err(_) => Err(NO_VALUE),
    }
}

} // verus!
