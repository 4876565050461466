//! Integration methods, the systems they accept, and the errors of a solve.
use vstd::prelude::*;
use vstd::string::StringExecFns;
use crate::ode_system::SystemKind;
use crate::parser::ParseError;
use crate::scalar::{Scalar, UnaryFunction, BinaryFunction};
use crate::decimal::{decimal, usize_to_text};
use crate::grammar::{parse_text, token_reads};
use crate::math_expr::MathExpr;
use crate::ode_system::{parses_to, parse_failure, parses};
use crate::tree::{Symbol, Tree, leaf, wf, substitution};
use crate::laws::lemma_substitution_wf;

verus! {

/// The integration method.
#[derive(Clone, Copy, Debug, Default, PartialEq, Eq, Structural)]
pub enum Method {
    #[default]
    England,
    Lawson,
    LawsonLinear,
    LawsonSplit,
    Rosenbrock,
    RosenbrockAutonomous,
}

/// Which kinds of system a method accepts: the structured methods need their
/// structure, the general methods accept every kind.
pub open spec fn method_supports(method: Method, kind: SystemKind) -> bool {
    match method {
        Method::LawsonLinear => kind == SystemKind::TimeLinear,
        Method::LawsonSplit => kind == SystemKind::ConstantLinear,
        Method::RosenbrockAutonomous => kind == SystemKind::Autonomous,
        _ => true,
    }
}

/// The work array of a method for `dimension` components holds
/// `quadratic * dimension^2 + linear * dimension` values.
pub open spec fn workspace_shape(method: Method) -> (nat, nat) {
    match method {
        Method::England => (0, 7),
        Method::Lawson | Method::Rosenbrock => (6, 6),
        Method::LawsonLinear => (7, 5),
        Method::LawsonSplit => (5, 6),
        Method::RosenbrockAutonomous => (6, 4),
    }
}

/// The largest value of the Fortran default integer.
pub open spec fn fortran_int_max() -> int {
    i32::MAX as int
}

/// The work array length, when the system is small enough for the Fortran
/// integer interface: the length and `64 * dimension` (the matrix inverse's
/// work space) must be Fortran integers, and `dimension^2` must be a `usize`.
pub open spec fn workspace_length(method: Method, dimension: nat) -> Option<nat> {
    let (q, l) = workspace_shape(method);
    let len = dimension * dimension * q + dimension * l;
    if dimension * 64 <= fortran_int_max() && dimension * dimension <= usize::MAX && len
        <= fortran_int_max() {
        Some(len)
    } else {
        None
    }
}

/// The general methods (England's, Lawson's and Rosenbrock's) accept every
/// kind of system; each structured method accepts exactly its own kind.
pub proof fn lemma_method_kinds(kind: SystemKind)
    ensures
        method_supports(Method::England, kind),
        method_supports(Method::Lawson, kind),
        method_supports(Method::Rosenbrock, kind),
        method_supports(Method::LawsonLinear, kind) <==> kind == SystemKind::TimeLinear,
        method_supports(Method::LawsonSplit, kind) <==> kind == SystemKind::ConstantLinear,
        method_supports(Method::RosenbrockAutonomous, kind) <==> kind == SystemKind::Autonomous,
{
}

impl Method {
    /// Whether the method can integrate a system of this kind.
    pub fn supports(self, kind: SystemKind) -> (r: bool)
        ensures
            r == method_supports(self, kind),
    {
        match self {
            Method::LawsonLinear => kind == SystemKind::TimeLinear,
            Method::LawsonSplit => kind == SystemKind::ConstantLinear,
            Method::RosenbrockAutonomous => kind == SystemKind::Autonomous,
            _ => true,
        }
    }

    /// The length of the method's work array for `dimension` components.
    pub fn workspace_len<T>(self, dimension: usize) -> (r: Result<usize, SolverError<T>>)
        ensures
            match workspace_length(self, dimension as nat) {
                Some(len) => r == Ok::<usize, SolverError<T>>(len as usize),
                None => r == Err::<usize, SolverError<T>>(
                    SolverError::InvalidInput(TOO_LARGE),
                ),
            },
    {
        let (quadratic, linear): (usize, usize) = match self {
            Method::England => (0, 7),
            Method::Lawson | Method::Rosenbrock => (6, 6),
            Method::LawsonLinear => (7, 5),
            Method::LawsonSplit => (5, 6),
            Method::RosenbrockAutonomous => (6, 4),
        };
        let limit: usize = 0x7fff_ffff;
        let too_large = SolverError::InvalidInput(TOO_LARGE);
        match dimension.checked_mul(64) {
            Some(v) => {
                if v > limit {
                    return Err(too_large);
                }
            },
            None => return Err(too_large),
        }
        let square = match dimension.checked_mul(dimension) {
            Some(v) => v,
            None => return Err(too_large),
        };
        let scaled = match square.checked_mul(quadratic) {
            Some(v) => v,
            None => return Err(too_large),
        };
        let len = match scaled.checked_add(dimension * linear) {
            Some(v) => v,
            None => return Err(too_large),
        };
        if len > limit {
            return Err(too_large);
        }
        Ok(len)
    }
}

pub const ONE_RHS_PER_COMPONENT: &'static str =
    "provide one RHS per state component and at least one component";

pub const FINITE_TIMES: &'static str = "times and their difference must be finite";

pub const FINITE_STATE: &'static str = "initial state must be finite";

pub const POSITIVE_CONTROLS: &'static str =
    "step sizes, tolerance, and relative threshold must be finite and positive";

pub const TOO_LARGE: &'static str = "system is too large for the Fortran integer ABI";

pub const ORDERED_STEPS: &'static str = "require min_step <= initial_step <= max_step";

pub const POSITIVE_MAX_STEPS: &'static str = "max_steps must be positive";

/// The step routine's report that the tolerance cannot be met at the minimum step.
pub const STEP_TOO_SMALL: i32 = 65;

/// Integration controls. Step sizes are positive magnitudes; the direction
/// of integration comes from the start and end times.
#[derive(Clone, Copy, Debug)]
pub struct Solver<T> {
    pub method: Method,
    pub initial_step: T,
    pub min_step: T,
    pub max_step: T,
    /// Local error tolerance (not a bound on the global error).
    pub tolerance: T,
    /// The error is relative when the largest state magnitude is at least
    /// this threshold, and absolute below it.
    pub relative_threshold: T,
    /// The largest number of accepted steps, not counting the initial point.
    pub max_steps: usize,
}

/// `0` of the scalar type.
pub open spec fn zero<T: Scalar>() -> T {
    T::spec_integer(0)
}

/// `a - b`.
pub open spec fn difference<T: Scalar>(a: T, b: T) -> T {
    T::spec_binary(BinaryFunction::Subtract, a, b)
}

/// `a * b`.
pub open spec fn product<T: Scalar>(a: T, b: T) -> T {
    T::spec_binary(BinaryFunction::Multiply, a, b)
}

/// `1 / x`.
pub open spec fn reciprocal<T: Scalar>(x: T) -> T {
    T::spec_binary(BinaryFunction::Divide, T::spec_integer(1), x)
}

/// `|x|`.
pub open spec fn magnitude<T: Scalar>(x: T) -> T {
    T::spec_unary(UnaryFunction::AbsoluteValue, x)
}

/// Finite and greater than zero.
pub open spec fn positive_finite<T: Scalar>(v: T) -> bool {
    T::spec_is_finite(v) && T::spec_less(zero(), v)
}

/// Every value is finite.
pub open spec fn all_finite<T: Scalar>(s: Seq<T>) -> bool {
    forall|i: int| 0 <= i < s.len() ==> T::spec_is_finite(#[trigger] s[i])
}

/// `x` limited to `[lo, hi]`; `NaN` stays `NaN`.
pub open spec fn clamp_of<T: Scalar>(x: T, lo: T, hi: T) -> T {
    if T::spec_less(hi, x) {
        hi
    } else if T::spec_less(x, lo) {
        lo
    } else {
        x
    }
}

/// The smaller value, ignoring a `NaN`.
pub open spec fn min_of<T: Scalar>(x: T, y: T) -> T {
    if T::spec_is_nan(x) {
        y
    } else if T::spec_is_nan(y) {
        x
    } else if T::spec_less(y, x) {
        y
    } else {
        x
    }
}

/// `10^6`, as a product of exact integers.
pub open spec fn million<T: Scalar>() -> T {
    let thousand = product(T::spec_integer(10), T::spec_integer(100));
    product(thousand, thousand)
}

/// The smaller value, ignoring a `NaN`.
fn min_value<T: Scalar>(x: T, y: T) -> (r: T)
    ensures
        r == min_of(x, y),
{
    if T::is_nan(x) {
        y
    } else if T::is_nan(y) {
        x
    } else if T::less(y, x) {
        y
    } else {
        x
    }
}

/// `x` limited to `[lo, hi]`.
fn clamp_value<T: Scalar>(x: T, lo: T, hi: T) -> (r: T)
    ensures
        r == clamp_of(x, lo, hi),
{
    if T::less(hi, x) {
        hi
    } else if T::less(x, lo) {
        lo
    } else {
        x
    }
}

impl<T: Scalar> Default for Solver<T> {
    /// England's method, initial step `0.01`, steps from `1e-12` to `0.1`,
    /// tolerance `1e-9`, relative threshold `1`, at most ten million steps.
    fn default() -> (r: Self)
        ensures
            r.method == Method::England,
            r.initial_step == reciprocal(T::spec_integer(100)),
            r.min_step == reciprocal(product(million::<T>(), million::<T>())),
            r.max_step == reciprocal(T::spec_integer(10)),
            r.tolerance == reciprocal(product(million::<T>(), product(T::spec_integer(10), T::spec_integer(100)))),
            r.relative_threshold == T::spec_integer(1),
            r.max_steps == 10_000_000,
    {
        let one = T::integer(1);
        let ten = T::integer(10);
        let hundred = T::integer(100);
        let thousand = T::binary(BinaryFunction::Multiply, ten, hundred);
        let million = T::binary(BinaryFunction::Multiply, thousand, thousand);
        Solver {
            method: Method::England,
            initial_step: T::binary(BinaryFunction::Divide, one, hundred),
            min_step: T::binary(
                BinaryFunction::Divide,
                one,
                T::binary(BinaryFunction::Multiply, million, million),
            ),
            max_step: T::binary(BinaryFunction::Divide, one, ten),
            tolerance: T::binary(
                BinaryFunction::Divide,
                one,
                T::binary(BinaryFunction::Multiply, million, thousand),
            ),
            relative_threshold: one,
            max_steps: 10_000_000,
        }
    }
}

/// The direction of integration: the sign of `end - start`.
pub open spec fn direction_of<T: Scalar>(start_time: T, end_time: T) -> T {
    T::spec_unary(UnaryFunction::Signum, difference(end_time, start_time))
}

/// After a step: the step routine's report, then the new time and state,
/// then progress in the direction of integration.
pub open spec fn step_outcome<T: Scalar>(info: i32, time: T, state: Seq<T>, previous_time: T, direction: T) -> Result<
    (),
    SolverError<T>,
> {
    let advance = product(direction, difference(time, previous_time));
    if info == STEP_TOO_SMALL {
        Err(SolverError::StepSizeTooSmall { time })
    } else if info != 0 {
        Err(SolverError::FortranFailure { info })
    } else if !T::spec_is_finite(time) || !all_finite(state) {
        Err(SolverError::NonFiniteState { time })
    } else if T::spec_less(advance, zero()) || T::spec_equal(advance, zero()) {
        Err(SolverError::NoProgress { time })
    } else {
        Ok(())
    }
}

/// A step that the routine reports done (status `0`), with a finite time and
/// state, is accepted exactly when it moves time forward in the direction of
/// integration, forward and backward alike: when `direction * (time -
/// previous_time)` is neither negative nor zero. Otherwise it is refused as
/// making no progress at the time reached.
pub proof fn lemma_step_accepted_when_advancing<T: Scalar>(
    time: T,
    state: Seq<T>,
    previous_time: T,
    direction: T,
)
    requires
        T::spec_is_finite(time),
        forall|i: int| 0 <= i < state.len() ==> T::spec_is_finite(#[trigger] state[i]),
    ensures
        ({
            let advance = T::spec_binary(
                BinaryFunction::Multiply,
                direction,
                T::spec_binary(BinaryFunction::Subtract, time, previous_time),
            );
            let forward = !(T::spec_less(advance, T::spec_integer(0)) || T::spec_equal(
                advance,
                T::spec_integer(0),
            ));
            &&& (step_outcome(0, time, state, previous_time, direction) is Ok) <==> forward
            &&& !forward ==> step_outcome(0, time, state, previous_time, direction) == Err::<
                (),
                SolverError<T>,
            >(SolverError::NoProgress { time })
        }),
{
}

impl<T: Scalar> Solver<T> {
    /// Why the inputs of a solve are refused, in the order of the checks.
    pub open spec fn validation_error(self, dimension: nat, start_time: T, initial_state: Seq<T>, end_time: T) -> Option<
        &'static str,
    > {
        if dimension == 0 || dimension != initial_state.len() {
            Some(ONE_RHS_PER_COMPONENT)
        } else if !T::spec_is_finite(start_time) || !T::spec_is_finite(end_time) || !T::spec_is_finite(
            difference(end_time, start_time),
        ) {
            Some(FINITE_TIMES)
        } else if !all_finite(initial_state) {
            Some(FINITE_STATE)
        } else if !(positive_finite(self.initial_step) && positive_finite(self.min_step) && positive_finite(
            self.max_step,
        ) && positive_finite(self.tolerance) && positive_finite(self.relative_threshold)) {
            Some(POSITIVE_CONTROLS)
        } else if T::spec_less(self.initial_step, self.min_step) || T::spec_less(
            self.max_step,
            self.initial_step,
        ) {
            Some(ORDERED_STEPS)
        } else if self.max_steps == 0 {
            Some(POSITIVE_MAX_STEPS)
        } else {
            None
        }
    }

    /// Checks the inputs of a solve (see `validation_error`).
    #[verifier::loop_isolation(false)]
    pub fn validate(&self, dimension: usize, start_time: T, initial_state: &[T], end_time: T) -> (r: Result<
        (),
        SolverError<T>,
    >)
        ensures
            match self.validation_error(dimension as nat, start_time, initial_state@, end_time) {
                Some(message) => r == Err::<(), SolverError<T>>(SolverError::InvalidInput(message)),
                None => r is Ok,
            },
    {
        if dimension == 0 || dimension != initial_state.len() {
            return Err(SolverError::InvalidInput(ONE_RHS_PER_COMPONENT));
        }
        if !T::is_finite(start_time) || !T::is_finite(end_time) || !T::is_finite(
            T::binary(BinaryFunction::Subtract, end_time, start_time),
        ) {
            return Err(SolverError::InvalidInput(FINITE_TIMES));
        }
        let mut i: usize = 0;
        while i < initial_state.len()
            invariant
                i <= initial_state@.len(),
                forall|j: int| 0 <= j < i ==> T::spec_is_finite(#[trigger] initial_state@[j]),
            decreases initial_state@.len() - i,
        {
            if !T::is_finite(initial_state[i]) {
                return Err(SolverError::InvalidInput(FINITE_STATE));
            }
            i += 1;
        }
        let zero = T::integer(0);
        let controls = [
            self.initial_step,
            self.min_step,
            self.max_step,
            self.tolerance,
            self.relative_threshold,
        ];
        let mut k: usize = 0;
        while k < 5
            invariant
                k <= 5,
                zero == T::spec_integer(0),
                controls@ == seq![
                    self.initial_step,
                    self.min_step,
                    self.max_step,
                    self.tolerance,
                    self.relative_threshold,
                ],
                forall|j: int| 0 <= j < k ==> positive_finite(#[trigger] controls@[j]),
            decreases 5 - k,
        {
            let v = controls[k];
            if !(T::is_finite(v) && T::less(zero, v)) {
                return Err(SolverError::InvalidInput(POSITIVE_CONTROLS));
            }
            k += 1;
        }
        assert(positive_finite(controls@[0]) && positive_finite(controls@[1]) && positive_finite(controls@[2])
            && positive_finite(controls@[3]) && positive_finite(controls@[4]));
        if T::less(self.initial_step, self.min_step) || T::less(self.max_step, self.initial_step) {
            return Err(SolverError::InvalidInput(ORDERED_STEPS));
        }
        if self.max_steps == 0 {
            return Err(SolverError::InvalidInput(POSITIVE_MAX_STEPS));
        }
        Ok(())
    }

    /// Before each step: finished once the end is reached; else fails at the
    /// step limit, or gives the step (its magnitude kept within the step
    /// limits and the remaining distance, signed by the direction) and the
    /// minimum step (no more than the remaining distance), failing when the
    /// step cannot change the time.
    pub open spec fn plan(self, direction: T, time: T, end_time: T, step: T, steps: nat) -> Result<
        Option<(T, T)>,
        SolverError<T>,
    > {
        let remaining = magnitude(difference(end_time, time));
        let next = product(direction, min_of(clamp_of(magnitude(step), self.min_step, self.max_step), remaining));
        if !T::spec_less(zero(), product(direction, difference(end_time, time))) {
            Ok(None)
        } else if steps == self.max_steps {
            Err(SolverError::StepLimitExceeded { time })
        } else if T::spec_equal(T::spec_binary(BinaryFunction::Add, time, next), time) {
            Err(SolverError::NoProgress { time })
        } else {
            Ok(Some((next, min_of(self.min_step, remaining))))
        }
    }

    /// The decision before each step (see `plan`).
    pub fn plan_step(&self, direction: T, time: T, end_time: T, step: T, steps: usize) -> (r: Result<
        Option<(T, T)>,
        SolverError<T>,
    >)
        ensures
            r == self.plan(direction, time, end_time, step, steps as nat),
    {
        let gap = T::binary(BinaryFunction::Subtract, end_time, time);
        if !T::less(T::integer(0), T::binary(BinaryFunction::Multiply, direction, gap)) {
            return Ok(None);
        }
        if steps == self.max_steps {
            return Err(SolverError::StepLimitExceeded { time });
        }
        let remaining = T::unary(UnaryFunction::AbsoluteValue, gap);
        let size = clamp_value(T::unary(UnaryFunction::AbsoluteValue, step), self.min_step, self.max_step);
        let next = T::binary(BinaryFunction::Multiply, direction, min_value(size, remaining));
        if T::equal(T::binary(BinaryFunction::Add, time, next), time) {
            return Err(SolverError::NoProgress { time });
        }
        Ok(Some((next, min_value(self.min_step, remaining))))
    }
}

/// The direction of integration (see `direction_of`).
pub fn direction<T: Scalar>(start_time: T, end_time: T) -> (r: T)
    ensures
        r == direction_of(start_time, end_time),
{
    T::unary(UnaryFunction::Signum, T::binary(BinaryFunction::Subtract, end_time, start_time))
}

/// The decision after each step (see `step_outcome`).
pub fn check_step<T: Scalar>(info: i32, time: T, state: &[T], previous_time: T, direction: T) -> (r: Result<
    (),
    SolverError<T>,
>)
    ensures
        r == step_outcome(info, time, state@, previous_time, direction),
{
    if info == STEP_TOO_SMALL {
        return Err(SolverError::StepSizeTooSmall { time });
    }
    if info != 0 {
        return Err(SolverError::FortranFailure { info });
    }
    let mut finite = T::is_finite(time);
    let mut i: usize = 0;
    while i < state.len()
        invariant
            i <= state@.len(),
            finite == (T::spec_is_finite(time) && forall|j: int|
                0 <= j < i ==> T::spec_is_finite(#[trigger] state@[j])),
        decreases state@.len() - i,
    {
        finite = finite && T::is_finite(state[i]);
        i += 1;
    }
    if !finite {
        return Err(SolverError::NonFiniteState { time });
    }
    let zero = T::integer(0);
    let advance = T::binary(
        BinaryFunction::Multiply,
        direction,
        T::binary(BinaryFunction::Subtract, time, previous_time),
    );
    if T::less(advance, zero) || T::equal(advance, zero) {
        return Err(SolverError::NoProgress { time });
    }
    Ok(())
}

/// The initial point and every accepted step, the end included:
/// `states[i]` is the state at `times[i]`.
#[derive(Clone, Debug, PartialEq)]
pub struct Solution<T> {
    pub times: Vec<T>,
    pub states: Vec<Vec<T>>,
    /// The signed step recommended at each point (the initial step first);
    /// the steps taken are the differences of successive times.
    pub recommended_steps: Vec<T>,
}

/// A copy of the values.
fn copy_values<T: Copy>(values: &[T]) -> (r: Vec<T>)
    ensures
        r@ == values@,
{
    let mut r: Vec<T> = Vec::new();
    let mut i: usize = 0;
    while i < values.len()
        invariant
            i <= values@.len(),
            r@ == values@.take(i as int),
        decreases values@.len() - i,
    {
        r.push(values[i]);
        i += 1;
        assert(r@ =~= values@.take(i as int));
    }
    assert(values@.take(values@.len() as int) =~= values@);
    r
}

impl<T: Scalar> Solution<T> {
    /// The solution of the initial point alone.
    pub fn start(time: T, state: &[T], step: T) -> (r: Self)
        ensures
            r.times@ == seq![time],
            r.states@.len() == 1,
            r.states@[0]@ == state@,
            r.recommended_steps@ == seq![step],
    {
        let times = vec![time];
        let states = vec![copy_values(state)];
        let recommended_steps = vec![step];
        Solution { times, states, recommended_steps }
    }

    /// Appends an accepted step.
    pub fn record(&mut self, time: T, state: &[T], step: T)
        ensures
            final(self).times@ == old(self).times@.push(time),
            final(self).states@.len() == old(self).states@.len() + 1,
            forall|i: int| 0 <= i < old(self).states@.len() ==> #[trigger] final(self).states@[i] == old(self).states@[i],
            final(self).states@.last()@ == state@,
            final(self).recommended_steps@ == old(self).recommended_steps@.push(step),
    {
        self.times.push(time);
        self.states.push(copy_values(state));
        self.recommended_steps.push(step);
    }
}

/// Why a system could not be built or integrated.
#[derive(Clone, Debug, PartialEq)]
pub enum SolverError<T> {
    InvalidInput(&'static str),
    IncompatibleMethod { method: Method, system: SystemKind },
    Parse { equation: usize, source: ParseError },
    Evaluation { equation: usize, message: String },
    NonFiniteDerivative { equation: usize, time: T },
    NonFiniteState { time: T },
    StepSizeTooSmall { time: T },
    StepLimitExceeded { time: T },
    NoProgress { time: T },
    CallbackPanicked,
    FortranFailure { info: i32 },
}

/// The name of a method.
pub open spec fn method_name(method: Method) -> Seq<char> {
    match method {
        Method::England => "England"@,
        Method::Lawson => "Lawson"@,
        Method::LawsonLinear => "LawsonLinear"@,
        Method::LawsonSplit => "LawsonSplit"@,
        Method::Rosenbrock => "Rosenbrock"@,
        Method::RosenbrockAutonomous => "RosenbrockAutonomous"@,
    }
}

/// The name of a kind of system.
pub open spec fn kind_name(kind: SystemKind) -> Seq<char> {
    match kind {
        SystemKind::General => "General"@,
        SystemKind::Autonomous => "Autonomous"@,
        SystemKind::TimeLinear => "TimeLinear"@,
        SystemKind::ConstantLinear => "ConstantLinear"@,
    }
}

/// A signed integer in decimal, with `-` before a negative one.
pub open spec fn signed_decimal(v: int) -> Seq<char> {
    if v < 0 {
        "-"@ + decimal((-v) as nat)
    } else {
        decimal(v as nat)
    }
}

impl Method {
    /// The method's name as text.
    pub fn name(self) -> (r: &'static str)
        ensures
            r@ == method_name(self),
    {
        match self {
            Method::England => "England",
            Method::Lawson => "Lawson",
            Method::LawsonLinear => "LawsonLinear",
            Method::LawsonSplit => "LawsonSplit",
            Method::Rosenbrock => "Rosenbrock",
            Method::RosenbrockAutonomous => "RosenbrockAutonomous",
        }
    }
}

/// The name of a kind of system as text.
pub fn kind_text(kind: SystemKind) -> (r: &'static str)
    ensures
        r@ == kind_name(kind),
{
    match kind {
        SystemKind::General => "General",
        SystemKind::Autonomous => "Autonomous",
        SystemKind::TimeLinear => "TimeLinear",
        SystemKind::ConstantLinear => "ConstantLinear",
    }
}

/// A signed integer as decimal text.
pub fn signed_text(v: i32) -> (r: String)
    ensures
        r@ == signed_decimal(v as int),
{
    if v < 0 {
        let magnitude = (-(v as i64)) as u64;
        let digits = usize_to_text(magnitude as usize);
        let mut r = String::from_str("-");
        r.append(digits.as_str());
        r
    } else {
        usize_to_text(v as usize)
    }
}

impl<T: Scalar> SolverError<T> {
    /// The text of the error.
    pub open spec fn message(self) -> Seq<char> {
        match self {
            SolverError::InvalidInput(message) => message@,
            SolverError::IncompatibleMethod { method, system } => method_name(method)
                + " does not support "@ + kind_name(system) + " systems"@,
            SolverError::Parse { equation, source } => "equation "@ + decimal(equation as nat) + ": "@
                + "parse error at byte "@ + decimal(source.position as nat) + ": "@ + source.message@,
            SolverError::Evaluation { equation, message } => "equation "@ + decimal(equation as nat)
                + ": "@ + message@,
            SolverError::NonFiniteDerivative { equation, time } => "equation "@ + decimal(
                equation as nat,
            ) + " has a non-finite derivative at t="@ + T::spec_text(time)@,
            SolverError::NonFiniteState { time } => "non-finite time or state at t="@ + T::spec_text(
                time,
            )@,
            SolverError::StepSizeTooSmall { time } => "solver cannot meet the tolerance at the minimum step at t="@
                + T::spec_text(time)@,
            SolverError::StepLimitExceeded { time } => "step limit reached at t="@ + T::spec_text(time)@,
            SolverError::NoProgress { time } => "step cannot advance floating-point time at t="@
                + T::spec_text(time)@,
            SolverError::CallbackPanicked => "expression evaluation panicked"@,
            SolverError::FortranFailure { info } => "Fortran solver failed with IERR="@ + signed_decimal(
                info as int,
            ),
        }
    }

    /// The error as text (see `message`).
    pub fn to_text(&self) -> (r: String)
        ensures
            r@ == self.message(),
    {
        match self {
            SolverError::InvalidInput(message) => String::from_str(message),
            SolverError::IncompatibleMethod { method, system } => {
                let mut r = String::from_str(method.name());
                r.append(" does not support ");
                r.append(kind_text(*system));
                r.append(" systems");
                r
            },
            SolverError::Parse { equation, source } => {
                let mut r = String::from_str("equation ");
                let digits = usize_to_text(*equation);
                r.append(digits.as_str());
                r.append(": ");
                let text = source.to_text();
                r.append(text.as_str());
                r
            },
            SolverError::Evaluation { equation, message } => {
                let mut r = String::from_str("equation ");
                let digits = usize_to_text(*equation);
                r.append(digits.as_str());
                r.append(": ");
                r.append(message.as_str());
                r
            },
            SolverError::NonFiniteDerivative { equation, time } => {
                let mut r = String::from_str("equation ");
                let digits = usize_to_text(*equation);
                r.append(digits.as_str());
                r.append(" has a non-finite derivative at t=");
                let text = T::text(*time);
                r.append(text.as_str());
                r
            },
            SolverError::NonFiniteState { time } => {
                let mut r = String::from_str("non-finite time or state at t=");
                let text = T::text(*time);
                r.append(text.as_str());
                r
            },
            SolverError::StepSizeTooSmall { time } => {
                let mut r = String::from_str("solver cannot meet the tolerance at the minimum step at t=");
                let text = T::text(*time);
                r.append(text.as_str());
                r
            },
            SolverError::StepLimitExceeded { time } => {
                let mut r = String::from_str("step limit reached at t=");
                let text = T::text(*time);
                r.append(text.as_str());
                r
            },
            SolverError::NoProgress { time } => {
                let mut r = String::from_str("step cannot advance floating-point time at t=");
                let text = T::text(*time);
                r.append(text.as_str());
                r
            },
            SolverError::CallbackPanicked => String::from_str("expression evaluation panicked"),
            SolverError::FortranFailure { info } => {
                let mut r = String::from_str("Fortran solver failed with IERR=");
                let digits = signed_text(*info);
                r.append(digits.as_str());
                r
            },
        }
    }
}

/// The state names of the convenience interface: `x0`, `x1`, ...
pub open spec fn state_name(i: nat) -> Seq<char> {
    "x"@ + decimal(i)
}

/// In a one-dimensional system of the convenience interface, `x` also
/// names the state `x0`.
pub open spec fn aliased<T>(t: Tree<T>, count: nat) -> Tree<T> {
    if count == 1 {
        substitution(t, "x"@, leaf(Symbol::Var("x0"@)))
    } else {
        t
    }
}

/// `e` is what the source of a one-line convenience system reads as.
pub open spec fn reads_aliased<T: Scalar>(source: &str, count: nat, e: Tree<T>) -> bool {
    exists|t: Tree<T>| #[trigger] parses_to::<T>(source@, Ok(t)) && e == aliased(t, count)
}

/// The names `x0` to `x{count - 1}`.
pub fn state_names(count: usize) -> (r: Vec<String>)
    ensures
        r@.len() == count,
        forall|i: int| 0 <= i < count ==> #[trigger] r@[i]@ == state_name(i as nat),
{
    let mut names: Vec<String> = Vec::new();
    let mut i: usize = 0;
    while i < count
        invariant
            i <= count,
            names@.len() == i,
            forall|j: int| 0 <= j < i ==> #[trigger] names@[j]@ == state_name(j as nat),
        decreases count - i,
    {
        let mut name = String::from_str("x");
        let digits = usize_to_text(i);
        name.append(digits.as_str());
        names.push(name);
        i += 1;
    }
    names
}

impl<T: Scalar> Solver<T> {
    /// The time name and kind of a convenience system: none and autonomous
    /// for the autonomous Rosenbrock method, else `t` and general.
    pub fn convenience_form(&self) -> (r: (Option<&'static str>, SystemKind))
        ensures
            self.method == Method::RosenbrockAutonomous ==> r.0 is None && r.1 == SystemKind::Autonomous,
            self.method != Method::RosenbrockAutonomous ==> (r.0 matches Some(t) && t@ == "t"@ && r.1
                == SystemKind::General),
    {
        if self.method == Method::RosenbrockAutonomous {
            (None, SystemKind::Autonomous)
        } else {
            (Some("t"), SystemKind::General)
        }
    }

    /// Reads the right-hand sides of a convenience system: `x0`, `x1`, ...
    /// name the state components and `t` time; in a one-dimensional system
    /// `x` also names `x0`.
    pub fn read_rhs<'a>(rhs: &[&'a str]) -> (r: Result<Vec<MathExpr<'a, T>>, SolverError<T>>)
        ensures
            match r {
                Ok(v) => {
                    &&& v@.len() == rhs@.len()
                    &&& forall|i: int|
                        0 <= i < v@.len() ==> reads_aliased::<T>(rhs@[i], rhs@.len(), #[trigger] v@[i]@)
                            && wf(v@[i]@)
                },
                Err(e) => parse_failure::<T>(rhs@, e),
            },
    {
        let mut expressions: Vec<MathExpr<'a, T>> = Vec::new();
        let mut equation: usize = 0;
        while equation < rhs.len()
            invariant
                equation <= rhs@.len(),
                expressions@.len() == equation,
                forall|i: int|
                    0 <= i < equation ==> reads_aliased::<T>(rhs@[i], rhs@.len(), #[trigger] expressions@[i]@)
                        && wf(expressions@[i]@),
            decreases rhs@.len() - equation,
        {
            let source = rhs[equation];
            let parsed = MathExpr::parse(source);
            let ghost read = token_reads::<T>(source@);
            let expression = match parsed {
                Ok(e) => e,
                Err(error) => {
                    let r = SolverError::Parse { equation, source: error };
                    proof {
                        let f = parse_text::<T>(source@, read)->Err_0;
                        assert(parses_to::<T>(source@, Err(f)));
                        assert forall|j: int| 0 <= j < equation implies parses::<T>(#[trigger] rhs@[j]) by {
                            assert(reads_aliased::<T>(rhs@[j], rhs@.len(), expressions@[j]@));
                            let t = choose|t: Tree<T>|
                                #[trigger] parses_to::<T>(rhs@[j]@, Ok(t)) && expressions@[j]@ == aliased(
                                    t,
                                    rhs@.len(),
                                );
                            assert(parses_to::<T>(rhs@[j]@, Ok(t)));
                        }
                        assert(parse_failure::<T>(rhs@, r));
                    }
                    return Err(r);
                },
            };
            let ghost parsed_tree = expression@;
            assert(parses_to::<T>(source@, Ok(parsed_tree)));
            let expression = if rhs.len() == 1 {
                let replacement = MathExpr::new_var("x0");
                proof {
                    assert(wf(replacement@));
                    lemma_substitution_wf(parsed_tree, "x"@, replacement@);
                }
                expression.substitute("x", &replacement)
            } else {
                expression
            };
            assert(reads_aliased::<T>(source, rhs@.len(), expression@));
            expressions.push(expression);
            equation += 1;
        }
        Ok(expressions)
    }
}

} // verus!
