use cauchy_ode::scalar::{BinaryFunction, Chars, Scalar, UnaryFunction};
use std::collections::HashMap;

#[derive(Clone, Copy, Debug, PartialEq)]
struct Real(f64);

impl Scalar for Real {
    fn integer(n: u8) -> Self {
        Real(n as f64)
    }
    fn from_text(text: &str) -> Option<Self> {
        text.parse::<f64>().ok().map(Real)
    }
    fn unary(f: UnaryFunction, x: Self) -> Self {
        let x = x.0;
        Real(match f {
            UnaryFunction::Negate => -x,
            UnaryFunction::Sine => x.sin(),
            UnaryFunction::Cosine => x.cos(),
            UnaryFunction::Tangent => x.tan(),
            UnaryFunction::ArcSine => x.asin(),
            UnaryFunction::ArcCosine => x.acos(),
            UnaryFunction::ArcTangent => x.atan(),
            UnaryFunction::HyperbolicSine => x.sinh(),
            UnaryFunction::HyperbolicCosine => x.cosh(),
            UnaryFunction::HyperbolicTangent => x.tanh(),
            UnaryFunction::AbsoluteValue => x.abs(),
            UnaryFunction::Exponent => x.exp(),
            UnaryFunction::SquareRoot => x.sqrt(),
            UnaryFunction::NaturalLogarithm => x.ln(),
            UnaryFunction::CommonLogarithm => x.log10(),
            UnaryFunction::Signum => x.signum(),
        })
    }
    fn binary(f: BinaryFunction, x: Self, y: Self) -> Self {
        Real(match f {
            BinaryFunction::Add => x.0 + y.0,
            BinaryFunction::Subtract => x.0 - y.0,
            BinaryFunction::Multiply => x.0 * y.0,
            BinaryFunction::Divide => x.0 / y.0,
            BinaryFunction::Power => x.0.powf(y.0),
        })
    }
    fn equal(x: Self, y: Self) -> bool {
        x.0 == y.0
    }
    fn less(x: Self, y: Self) -> bool {
        x.0 < y.0
    }
    fn is_nan(x: Self) -> bool {
        x.0.is_nan()
    }
    fn is_finite(x: Self) -> bool {
        x.0.is_finite()
    }
    fn text(x: Self) -> String {
        x.0.to_string()
    }
    fn spec_integer(n: u8) -> Self {
        Self::integer(n)
    }
    fn spec_unary(f: UnaryFunction, x: Self) -> Self {
        Self::unary(f, x)
    }
    fn spec_binary(f: BinaryFunction, x: Self, y: Self) -> Self {
        Self::binary(f, x, y)
    }
    fn spec_equal(x: Self, y: Self) -> bool {
        Self::equal(x, y)
    }
    fn spec_less(x: Self, y: Self) -> bool {
        Self::less(x, y)
    }
    fn spec_is_nan(x: Self) -> bool {
        Self::is_nan(x)
    }
    fn spec_is_finite(x: Self) -> bool {
        Self::is_finite(x)
    }
    fn spec_text(x: Self) -> String {
        Self::text(x)
    }
    fn spec_reads(_text: Chars) -> Option<Self> {
        None
    }
}

use cauchy_ode::callback::{CallbackContext, CallbackKind};
use cauchy_ode::integration::Integration;
use cauchy_ode::fortran::{
    evaluate_source, exponential_layout, inverse_layout, inverse_outcome, is_checked_first,
    MatrixInverseError, ShapeFailure,
};
use cauchy_ode::ode_system::{OdeSystem, SystemKind};
use cauchy_ode::parser::ParseError;
use cauchy_ode::solver::{check_step, direction, state_names, Method, Solution, Solver, SolverError};

fn solver() -> Solver<Real> {
    Solver::default()
}

fn reals(values: &[f64]) -> Vec<Real> {
    values.iter().map(|&v| Real(v)).collect()
}

#[test]
fn default_controls() {
    let solver = solver();
    assert_eq!(solver.method, Method::England);
    assert_eq!(solver.initial_step, Real(0.01));
    assert_eq!(solver.min_step, Real(1e-12));
    assert_eq!(solver.max_step, Real(0.1));
    assert_eq!(solver.tolerance, Real(1e-9));
    assert_eq!(solver.relative_threshold, Real(1.0));
    assert_eq!(solver.max_steps, 10_000_000);
}

#[test]
fn validation_refuses_bad_dimensions_times_states_and_controls() {
    let solver = solver();
    for (dimension, state) in [(0, &[][..]), (1, &[1.0, 2.0][..])] {
        assert!(matches!(
            solver.validate(dimension, Real(0.0), &reals(state), Real(1.0)),
            Err(SolverError::InvalidInput(_))
        ));
    }
    for (start, state, end) in [(f64::NAN, 1.0, 1.0), (0.0, f64::INFINITY, 1.0), (0.0, 1.0, f64::INFINITY)] {
        assert!(matches!(
            solver.validate(1, Real(start), &[Real(state)], Real(end)),
            Err(SolverError::InvalidInput(_))
        ));
    }
    for solver in [
        Solver { tolerance: Real(0.0), ..solver },
        Solver { min_step: Real(-1.0), ..solver },
        Solver { relative_threshold: Real(0.0), ..solver },
        Solver { initial_step: Real(2.0), ..solver },
        Solver { max_step: Real(f64::NAN), ..solver },
        Solver { max_steps: 0, ..solver },
    ] {
        assert!(matches!(
            solver.validate(1, Real(0.0), &[Real(1.0)], Real(1.0)),
            Err(SolverError::InvalidInput(_))
        ));
    }
    assert_eq!(solver.validate(1, Real(0.0), &[Real(1.0)], Real(1.0)), Ok(()));
}

#[test]
fn validation_messages_follow_the_order_of_the_checks() {
    let solver = solver();
    assert_eq!(
        solver.validate(2, Real(0.0), &[Real(1.0)], Real(1.0)),
        Err(SolverError::InvalidInput("provide one RHS per state component and at least one component"))
    );
    assert_eq!(
        solver.validate(1, Real(-f64::MAX), &[Real(1.0)], Real(f64::MAX)),
        Err(SolverError::InvalidInput("times and their difference must be finite"))
    );
    assert_eq!(
        solver.validate(1, Real(0.0), &[Real(f64::NAN)], Real(1.0)),
        Err(SolverError::InvalidInput("initial state must be finite"))
    );
    assert_eq!(
        Solver { min_step: Real(0.05), ..solver }.validate(1, Real(0.0), &[Real(1.0)], Real(1.0)),
        Err(SolverError::InvalidInput("require min_step <= initial_step <= max_step"))
    );
    assert_eq!(
        Solver { max_steps: 0, ..solver }.validate(1, Real(0.0), &[Real(1.0)], Real(1.0)),
        Err(SolverError::InvalidInput("max_steps must be positive"))
    );
}

#[test]
fn methods_support_their_system_kinds() {
    for kind in [SystemKind::General, SystemKind::Autonomous, SystemKind::TimeLinear, SystemKind::ConstantLinear] {
        for method in [Method::England, Method::Lawson, Method::Rosenbrock] {
            assert!(method.supports(kind));
        }
        assert_eq!(Method::LawsonLinear.supports(kind), kind == SystemKind::TimeLinear);
        assert_eq!(Method::LawsonSplit.supports(kind), kind == SystemKind::ConstantLinear);
        assert_eq!(Method::RosenbrockAutonomous.supports(kind), kind == SystemKind::Autonomous);
    }
}

#[test]
fn workspace_lengths_follow_the_method_shapes() {
    assert_eq!(Method::England.workspace_len::<Real>(3), Ok(21));
    assert_eq!(Method::Lawson.workspace_len::<Real>(3), Ok(72));
    assert_eq!(Method::LawsonLinear.workspace_len::<Real>(2), Ok(38));
    assert_eq!(Method::LawsonSplit.workspace_len::<Real>(2), Ok(32));
    assert_eq!(Method::RosenbrockAutonomous.workspace_len::<Real>(1), Ok(10));
    assert_eq!(
        Method::England.workspace_len::<Real>(usize::MAX / 32),
        Err(SolverError::InvalidInput("system is too large for the Fortran integer ABI"))
    );
    assert!(Method::Lawson.workspace_len::<Real>(20_000).is_err());
}

#[test]
fn steps_are_planned_within_the_limits() {
    let solver = solver();
    let forward = direction(Real(0.0), Real(1.0));
    assert_eq!(forward, Real(1.0));
    assert_eq!(direction(Real(1.0), Real(0.0)), Real(-1.0));
    assert_eq!(solver.plan_step(forward, Real(0.0), Real(1.0), Real(0.5), 0), Ok(Some((Real(0.1), Real(1e-12)))));
    assert_eq!(solver.plan_step(forward, Real(0.95), Real(1.0), Real(0.1), 3).unwrap().unwrap().0 .0, 1.0 - 0.95);
    assert_eq!(solver.plan_step(forward, Real(1.0), Real(1.0), Real(0.1), 3), Ok(None));
    let backward = Real(-1.0);
    assert_eq!(solver.plan_step(backward, Real(1.0), Real(0.0), Real(-1e-20), 0), Ok(Some((Real(-1e-12), Real(1e-12)))));
    let limited = Solver { max_steps: 2, ..solver };
    assert_eq!(
        limited.plan_step(forward, Real(0.5), Real(1.0), Real(0.1), 2),
        Err(SolverError::StepLimitExceeded { time: Real(0.5) })
    );
    let large = 1e20;
    assert_eq!(
        solver.plan_step(forward, Real(large), Real(large * 2.0), Real(0.1), 0),
        Err(SolverError::NoProgress { time: Real(large) })
    );
}

#[test]
fn accepted_steps_are_checked() {
    let forward = Real(1.0);
    assert_eq!(check_step(0, Real(0.1), &[Real(1.0)], Real(0.0), forward), Ok(()));
    assert_eq!(
        check_step(65, Real(0.0), &[Real(1.0)], Real(0.0), forward),
        Err(SolverError::StepSizeTooSmall { time: Real(0.0) })
    );
    assert_eq!(
        check_step(2001, Real(0.1), &[Real(1.0)], Real(0.0), forward),
        Err(SolverError::FortranFailure { info: 2001 })
    );
    assert_eq!(
        check_step(0, Real(0.1), &[Real(f64::NAN)], Real(0.0), forward),
        Err(SolverError::NonFiniteState { time: Real(0.1) })
    );
    assert_eq!(
        check_step(0, Real(0.0), &[Real(1.0)], Real(0.0), forward),
        Err(SolverError::NoProgress { time: Real(0.0) })
    );
}

#[test]
fn solutions_record_every_point() {
    let mut solution = Solution::start(Real(0.0), &[Real(1.0), Real(2.0)], Real(0.01));
    solution.record(Real(0.5), &[Real(3.0), Real(4.0)], Real(0.1));
    assert_eq!(solution.times, vec![Real(0.0), Real(0.5)]);
    assert_eq!(solution.states, vec![vec![Real(1.0), Real(2.0)], vec![Real(3.0), Real(4.0)]]);
    assert_eq!(solution.recommended_steps, vec![Real(0.01), Real(0.1)]);
}

#[test]
fn solver_errors_are_written_as_messages() {
    assert_eq!(
        SolverError::<Real>::IncompatibleMethod { method: Method::LawsonSplit, system: SystemKind::General }.to_text(),
        "LawsonSplit does not support General systems"
    );
    let source = ParseError { position: 3, message: "expected ')'".to_string() };
    assert_eq!(SolverError::<Real>::Parse { equation: 2, source }.to_text(), "equation 2: parse error at byte 3: expected ')'");
    assert_eq!(
        SolverError::NonFiniteDerivative { equation: 0, time: Real(0.5) }.to_text(),
        "equation 0 has a non-finite derivative at t=0.5"
    );
    assert_eq!(SolverError::StepLimitExceeded { time: Real(2.0) }.to_text(), "step limit reached at t=2");
    assert_eq!(SolverError::<Real>::FortranFailure { info: -7 }.to_text(), "Fortran solver failed with IERR=-7");
    assert_eq!(SolverError::<Real>::CallbackPanicked.to_text(), "expression evaluation panicked");
    assert_eq!(SolverError::<Real>::InvalidInput("max_steps must be positive").to_text(), "max_steps must be positive");
}

#[test]
fn convenience_systems_name_states_by_index() {
    let names = state_names(3);
    assert_eq!(names, vec!["x0", "x1", "x2"]);
    assert_eq!(solver().convenience_form(), (Some("t"), SystemKind::General));
    let autonomous = Solver { method: Method::RosenbrockAutonomous, ..solver() };
    assert_eq!(autonomous.convenience_form(), (None, SystemKind::Autonomous));
}

#[test]
fn convenience_scalar_x_aliases_x0() {
    let expressions = Solver::<Real>::read_rhs(&["-x*x0"]).unwrap();
    assert_eq!(expressions[0].to_text(), "((-x0) * x0)");
    let expressions = Solver::<Real>::read_rhs(&["x", "x0"]).unwrap();
    assert_eq!(expressions[0].to_text(), "x");
    let names = state_names(2);
    let names: Vec<&str> = names.iter().map(String::as_str).collect();
    assert!(OdeSystem::from_expressions(Some("t"), &names, expressions, SystemKind::General).is_err());
    assert!(matches!(Solver::<Real>::read_rhs(&["x", "("]), Err(SolverError::Parse { equation: 1, .. })));
}

#[test]
fn callbacks_evaluate_derivatives_and_jacobians() {
    let system = OdeSystem::<Real>::new("t", &["a", "b"], &["a*b + t", "-a"]).unwrap();
    let mut context = CallbackContext::new(&system, Method::Rosenbrock);
    let rhs = context.evaluate(Real(2.0), &[Real(3.0), Real(4.0)], CallbackKind::Rhs).unwrap();
    assert_eq!(rhs, vec![Real(14.0), Real(-3.0)]);
    let jacobian = context.evaluate(Real(2.0), &[Real(3.0), Real(4.0)], CallbackKind::Jacobian).unwrap();
    assert_eq!(jacobian, vec![Real(4.0), Real(-1.0), Real(3.0), Real(0.0)]);
    let in_time = context.evaluate(Real(2.0), &[Real(3.0), Real(4.0)], CallbackKind::TimeDerivative).unwrap();
    assert_eq!(in_time, vec![Real(1.0), Real(0.0)]);
    assert!(matches!(
        context.evaluate(Real(f64::NAN), &[Real(3.0), Real(4.0)], CallbackKind::Rhs),
        Err(SolverError::NonFiniteState { .. })
    ));
}

#[test]
fn callbacks_report_non_finite_values() {
    let system = OdeSystem::<Real>::autonomous(&["q"], &["1/q"]).unwrap();
    let mut context = CallbackContext::new(&system, Method::RosenbrockAutonomous);
    assert_eq!(context.evaluate(Real(0.0), &[Real(2.0)], CallbackKind::Rhs), Ok(vec![Real(0.5)]));
    assert_eq!(
        context.evaluate(Real(0.7), &[Real(0.0)], CallbackKind::Rhs),
        Err(SolverError::NonFiniteDerivative { equation: 0, time: Real(0.7) })
    );
    assert!(matches!(
        context.evaluate(Real(0.0), &[Real(f64::INFINITY)], CallbackKind::Rhs),
        Err(SolverError::NonFiniteState { .. })
    ));
    context.set_current_time(Real(4.0));
    assert_eq!(context.current_time(), Real(4.0));
    context.set_error(Some(SolverError::CallbackPanicked));
    assert_eq!(context.take_error(), Some(SolverError::CallbackPanicked));
    assert_eq!(context.take_error(), None);
}

#[test]
fn time_only_callbacks_keep_the_last_state() {
    let system = OdeSystem::<Real>::linear("clock", &["q"], &["-clock"], &["2*clock"]).unwrap();
    let mut context = CallbackContext::new(&system, Method::LawsonLinear);
    assert_eq!(context.evaluate(Real(3.0), &[], CallbackKind::Matrix), Ok(vec![Real(-3.0)]));
    assert_eq!(context.evaluate(Real(3.0), &[], CallbackKind::Forcing), Ok(vec![Real(6.0)]));
    assert_eq!(context.evaluate(Real(3.0), &[Real(2.0)], CallbackKind::Rhs), Ok(vec![Real(0.0)]));
}

#[test]
fn sources_evaluate_for_the_fortran_side() {
    assert_eq!(evaluate_source::<Real>("2 + 3 * 5", &[Real(5.0)]), Ok(Real(17.0)));
    assert_eq!(evaluate_source::<Real>("2 + 3 * x", &[Real(5.0), Real(9.0)]), Ok(Real(17.0)));
    assert_eq!(evaluate_source::<Real>("2 +", &[Real(5.0)]), Err(1));
    assert_eq!(evaluate_source::<Real>("2 + x", &[]), Err(2));
    assert_eq!(evaluate_source::<Real>("2 + y", &[Real(5.0)]), Err(2));
}

#[test]
fn inversion_status_reports_singular_matrix() {
    assert_eq!(inverse_outcome(0), Ok(()));
    assert_eq!(inverse_outcome(2), Err(MatrixInverseError::Singular { pivot: 2 }));
    assert_eq!(inverse_outcome(-4), Err(MatrixInverseError::LapackFailure { info: -4 }));
    assert_eq!(MatrixInverseError::Singular { pivot: 2 }.to_text(), "matrix is singular at one-based pivot 2");
    assert_eq!(
        MatrixInverseError::LapackFailure { info: -4 }.to_text(),
        "LAPACK matrix inversion failed with INFO=-4"
    );
}

#[test]
fn matrix_layouts_follow_the_size_rules() {
    assert_eq!(exponential_layout(3, 9), Ok(Some((9, 18))));
    assert_eq!(inverse_layout(3, 9), Ok(Some((9, 192))));
    assert_eq!(exponential_layout(0, 0), Ok(None));
    assert_eq!(inverse_layout(0, 0), Ok(None));
    assert_eq!(exponential_layout(0, 1), Err(ShapeFailure::WrongLength));
    assert_eq!(exponential_layout(3, 8), Err(ShapeFailure::WrongLength));
    assert_eq!(inverse_layout(2, 5), Err(ShapeFailure::WrongLength));
    assert_eq!(exponential_layout(usize::MAX, 0), Err(ShapeFailure::DimensionsOverflow));
    assert_eq!(inverse_layout(usize::MAX, 0), Err(ShapeFailure::DimensionsOverflow));
    let large = 1usize << 31;
    assert_eq!(exponential_layout(large, large * large), Err(ShapeFailure::OrderTooLarge));
    assert_eq!(inverse_layout(46341, 46341 * 46341), Err(ShapeFailure::MatrixTooLarge));
    assert_eq!(inverse_layout(46340, 46340 * 46340), Ok(Some((46340 * 46340, 64 * 46340))));
    assert!(is_checked_first(ShapeFailure::WrongLength));
    assert!(is_checked_first(ShapeFailure::DimensionsOverflow));
    assert!(!is_checked_first(ShapeFailure::OrderTooLarge));
}

#[test]
fn integration_of_a_zero_length_interval_is_the_initial_point() {
    let (mut integration, _) =
        Integration::start(solver(), SystemKind::General, 1, Real(2.0), &[Real(3.0)], Real(2.0)).unwrap();
    assert_eq!(integration.next_step(), Ok(None));
    let solution = integration.finish();
    assert_eq!(solution.times, vec![Real(2.0)]);
    assert_eq!(solution.states, vec![vec![Real(3.0)]]);
}

#[test]
fn integration_records_accepted_steps_and_refuses_bad_ones() {
    let (mut integration, work_len) =
        Integration::start(solver(), SystemKind::General, 1, Real(0.0), &[Real(1.0)], Real(1.0)).unwrap();
    assert_eq!(work_len, 7);
    assert_eq!(integration.step(), Real(0.01));
    assert_eq!(integration.next_step(), Ok(Some((Real(0.01), Real(1e-12)))));
    assert_eq!(integration.advance(None, 0, Real(0.01), &[Real(1.01)], Real(0.02)), Ok(()));
    assert_eq!(integration.time(), Real(0.01));
    assert_eq!(integration.next_step(), Ok(Some((Real(0.02), Real(1e-12)))));
    let failure = SolverError::NonFiniteDerivative { equation: 0, time: Real(0.02) };
    assert_eq!(integration.advance(Some(failure.clone()), 65, Real(0.03), &[Real(1.0)], Real(0.02)), Err(failure));
    assert_eq!(integration.next_step(), Ok(Some((Real(0.02), Real(1e-12)))));
    assert_eq!(
        integration.advance(None, 65, Real(0.03), &[Real(1.0)], Real(0.02)),
        Err(SolverError::StepSizeTooSmall { time: Real(0.03) })
    );
    assert_eq!(integration.next_step(), Ok(Some((Real(0.02), Real(1e-12)))));
    assert_eq!(
        integration.advance(None, 0, Real(0.005), &[Real(1.0)], Real(0.02)),
        Err(SolverError::NoProgress { time: Real(0.005) })
    );
    assert_eq!(integration.next_step(), Ok(Some((Real(0.02), Real(1e-12)))));
    assert_eq!(integration.advance(None, 0, Real(1.0), &[Real(2.0)], Real(0.05)), Ok(()));
    assert_eq!(integration.next_step(), Ok(None));
    let solution = integration.finish();
    assert_eq!(solution.times, vec![Real(0.0), Real(0.01), Real(1.0)]);
    assert_eq!(solution.states, vec![vec![Real(1.0)], vec![Real(1.01)], vec![Real(2.0)]]);
    assert_eq!(solution.recommended_steps, vec![Real(0.01), Real(0.02), Real(0.05)]);
}

#[test]
fn integration_stops_at_the_step_limit_and_refuses_bad_starts() {
    let limited = Solver { max_steps: 1, ..solver() };
    let (mut integration, _) =
        Integration::start(limited, SystemKind::General, 1, Real(0.0), &[Real(0.0)], Real(1.0)).unwrap();
    assert!(integration.next_step().unwrap().is_some());
    assert_eq!(integration.advance(None, 0, Real(0.01), &[Real(0.01)], Real(0.01)), Ok(()));
    assert_eq!(integration.next_step(), Err(SolverError::StepLimitExceeded { time: Real(0.01) }));
    let linear = Solver { method: Method::LawsonLinear, ..solver() };
    assert!(matches!(
        Integration::start(linear, SystemKind::General, 1, Real(0.0), &[Real(0.0)], Real(1.0)),
        Err(SolverError::IncompatibleMethod { method: Method::LawsonLinear, system: SystemKind::General })
    ));
    assert!(matches!(
        Integration::start(solver(), SystemKind::General, 2, Real(0.0), &[Real(0.0)], Real(1.0)),
        Err(SolverError::InvalidInput(_))
    ));
}
