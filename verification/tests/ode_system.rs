use cauchy_ode::scalar::{BinaryFunction, Chars, Scalar, UnaryFunction};
use std::collections::HashMap;

#[derive(Clone, Copy, Debug, PartialEq)]
struct Real(f64);

impl Scalar for Real {
    fn integer(n: u8) -> Self {
        Real(n as f64)
    }
    fn from_text(text: &str) -> Option<Self> {
        text.parse::<f64>().ok().map(Real)
    }
    fn unary(f: UnaryFunction, x: Self) -> Self {
        let x = x.0;
        Real(match f {
            UnaryFunction::Negate => -x,
            UnaryFunction::Sine => x.sin(),
            UnaryFunction::Cosine => x.cos(),
            UnaryFunction::Tangent => x.tan(),
            UnaryFunction::ArcSine => x.asin(),
            UnaryFunction::ArcCosine => x.acos(),
            UnaryFunction::ArcTangent => x.atan(),
            UnaryFunction::HyperbolicSine => x.sinh(),
            UnaryFunction::HyperbolicCosine => x.cosh(),
            UnaryFunction::HyperbolicTangent => x.tanh(),
            UnaryFunction::AbsoluteValue => x.abs(),
            UnaryFunction::Exponent => x.exp(),
            UnaryFunction::SquareRoot => x.sqrt(),
            UnaryFunction::NaturalLogarithm => x.ln(),
            UnaryFunction::CommonLogarithm => x.log10(),
            UnaryFunction::Signum => x.signum(),
        })
    }
    fn binary(f: BinaryFunction, x: Self, y: Self) -> Self {
        Real(match f {
            BinaryFunction::Add => x.0 + y.0,
            BinaryFunction::Subtract => x.0 - y.0,
            BinaryFunction::Multiply => x.0 * y.0,
            BinaryFunction::Divide => x.0 / y.0,
            BinaryFunction::Power => x.0.powf(y.0),
        })
    }
    fn equal(x: Self, y: Self) -> bool {
        x.0 == y.0
    }
    fn less(x: Self, y: Self) -> bool {
        x.0 < y.0
    }
    fn is_nan(x: Self) -> bool {
        x.0.is_nan()
    }
    fn is_finite(x: Self) -> bool {
        x.0.is_finite()
    }
    fn text(x: Self) -> String {
        x.0.to_string()
    }
    fn spec_integer(n: u8) -> Self {
        Self::integer(n)
    }
    fn spec_unary(f: UnaryFunction, x: Self) -> Self {
        Self::unary(f, x)
    }
    fn spec_binary(f: BinaryFunction, x: Self, y: Self) -> Self {
        Self::binary(f, x, y)
    }
    fn spec_equal(x: Self, y: Self) -> bool {
        Self::equal(x, y)
    }
    fn spec_less(x: Self, y: Self) -> bool {
        Self::less(x, y)
    }
    fn spec_is_nan(x: Self) -> bool {
        Self::is_nan(x)
    }
    fn spec_is_finite(x: Self) -> bool {
        Self::is_finite(x)
    }
    fn spec_text(x: Self) -> String {
        Self::text(x)
    }
    fn spec_reads(_text: Chars) -> Option<Self> {
        None
    }
}

fn env<'a>(bindings: &[(&'a str, f64)]) -> HashMap<&'a str, Real> {
    bindings.iter().map(|&(name, value)| (name, Real(value))).collect()
}
use cauchy_ode::math_expr::MathExpr;
use cauchy_ode::ode_system::{OdeSystem, SystemKind};
use cauchy_ode::solver::{Method, SolverError};

type System<'a> = OdeSystem<'a, Real>;
type Outcome<'a> = Result<OdeSystem<'a, Real>, SolverError<Real>>;

fn reports_name(result: Outcome<'_>, quoted: &str) -> bool {
    matches!(result, Err(SolverError::Evaluation { message, .. }) if message.contains(quoted))
}

fn p(name: &str, value: f64) -> (&str, Real) {
    (name, Real(value))
}

#[test]
fn explicit_systems_do_not_alias_undeclared_x() {
    for result in [
        System::new("clock", &["x0"], &["x"]),
        System::autonomous(&["x0"], &["x"]),
        System::linear("clock", &["x0"], &["0"], &["x"]),
        System::split("clock", &["x0"], &[Real(0.0)], &["x"]),
    ] {
        assert!(reports_name(result, "'x'"));
    }
}

#[test]
fn rejects_invalid_duplicate_colliding_and_nonfinite_bindings() {
    for bindings in [
        vec![p("q", 1.0)],
        vec![p("clock", 1.0)],
        vec![p("rate", 1.0), p("rate", 2.0)],
        vec![p("", 1.0)],
        vec![p("1rate", 1.0)],
        vec![p("a-b", 1.0)],
        vec![p("NaN", 1.0)],
        vec![p("rate", f64::NAN)],
        vec![p("rate", f64::INFINITY)],
        vec![p("rate", f64::NEG_INFINITY)],
    ] {
        assert!(
            matches!(
                System::new_with_parameters("clock", &["q"], &["q"], &bindings),
                Err(SolverError::InvalidInput(_))
            ),
            "{bindings:?}"
        );
    }
}

#[test]
fn every_constructor_rejects_missing_bindings() {
    for result in [
        System::new_with_parameters("clock", &["q"], &["missing*q"], &[]),
        System::autonomous_with_parameters(&["q"], &["missing*q"], &[]),
        System::linear_with_parameters("clock", &["q"], &["missing"], &["0"], &[]),
        System::linear_with_parameters("clock", &["q"], &["0"], &["missing"], &[]),
        System::split_with_parameters("clock", &["q"], &["missing"], &["0"], &[]),
        System::split_with_parameters("clock", &["q"], &["0"], &["missing*q"], &[]),
    ] {
        assert!(reports_name(result, "'missing'"));
    }
    // Do not hide undeclared symbols by simplifying zero products first.
    assert!(System::autonomous_with_parameters(&["q"], &["zero*missing"], &[p("zero", 0.0)]).is_err());
}

#[test]
fn parameter_binding_preserves_structured_system_restrictions() {
    assert!(System::linear_with_parameters("clock", &["q"], &["rate*q"], &["0"], &[p("rate", 2.0)]).is_err());
    assert!(System::linear_with_parameters("clock", &["q"], &["0"], &["rate*q"], &[p("rate", 2.0)]).is_err());
    for matrix in ["rate*clock", "rate*q", "1/zero", "sqrt(-rate)", "1e308*rate"] {
        assert!(
            System::split_with_parameters(
                "clock",
                &["q"],
                &[matrix],
                &["0"],
                &[p("rate", 2.0), p("zero", 0.0)]
            )
            .is_err(),
            "{matrix}"
        );
    }
    assert!(System::split_with_parameters("clock", &["q"], &[], &["0"], &[]).is_err());
}

#[test]
fn binding_is_structural_not_textual() {
    // Binding k must not alter the state name kappa or the function name sin.
    let system = System::autonomous_with_parameters(
        &["kappa"],
        &["k*kappa+sin(kappa)+sin"],
        &[p("k", 2.0), p("sin", 3.0)],
    )
    .unwrap();
    assert_eq!(system.expressions()[0].variables(), vec!["kappa"]);
    let value = system.expressions()[0].evaluate(&env(&[("kappa", 0.5)])).unwrap();
    assert_eq!(value, Real(4.0 + 0.5_f64.sin()));
}

#[test]
fn invalid_system_forms_are_refused_and_methods_checked() {
    assert!(System::new("t", &["NaN"], &["NaN"]).is_err());
    assert!(System::autonomous(&["x"], &["t+x"]).is_err());
    assert!(System::linear("t", &["x"], &["x"], &["0"]).is_err());
    assert!(System::linear("t", &["x"], &["1"], &["x"]).is_err());
    assert!(System::split("t", &["x"], &[Real(f64::NAN)], &["0"]).is_err());
    assert!(System::linear("t", &["x", "y"], &["1"], &["0", "0"]).is_err());
    assert!(System::new("t", &["x", "x"], &["0", "0"]).is_err());
    assert!(System::new("x", &["x"], &["0"]).is_err());
    let general = System::new("t", &["x"], &["x"]).unwrap();
    for method in [Method::LawsonLinear, Method::LawsonSplit, Method::RosenbrockAutonomous] {
        assert!(!method.supports(general.kind()));
    }
}

// Construction-level parts of cases whose integration needs the step routines.

#[test]
fn general_parameters_are_bound_before_derivatives() {
    let system = System::new_with_parameters(
        "clock",
        &["position"],
        &["-rate*(position-clock^2)+2*clock"],
        &[p("rate", 1000.0)],
    )
    .unwrap();
    let args = env(&[("clock", 0.5), ("position", 0.25)]);
    let rhs = &system.expressions()[0];
    assert!(!rhs.variables().contains(&"rate"));
    assert_eq!(rhs.derive("position").simplify().evaluate(&args), Ok(Real(-1000.0)));
    assert_eq!(rhs.derive("clock").simplify().evaluate(&args), Ok(Real(1002.0)));
}

#[test]
fn x_can_be_a_parameter_beside_state_x0() {
    let system = System::new_with_parameters("clock", &["x0"], &["-x*x0"], &[p("x", 2.0)]).unwrap();
    assert_eq!(system.expressions()[0].derive("x0").simplify(), MathExpr::new_const(Real(-2.0)));
}

#[test]
fn autonomous_systems_do_not_reserve_t() {
    assert!(System::autonomous_with_parameters(&["amount"], &["-t*amount"], &[p("t", 2.0)]).is_ok());
    assert!(System::autonomous(&["amount"], &["-t*amount"]).is_err());
}

#[test]
fn time_and_state_names_are_free_identifiers() {
    assert!(System::new("x", &["x0"], &["2*x"]).is_ok());
    let system = System::new("clock", &["t", "velocity"], &["velocity", "-t"]).unwrap();
    assert_eq!(system.dimension(), 2);
    assert_eq!(system.variables(), &["t", "velocity"]);
    assert_eq!(system.time(), Some("clock"));
}

#[test]
fn linear_system_assembles_matrix_times_state_plus_forcing() {
    let system = System::linear_with_parameters(
        "clock",
        &["amount"],
        &["-rate-clock"],
        &["(rate+clock-1)*exp(-clock)"],
        &[p("rate", 2.0)],
    )
    .unwrap();
    assert_eq!(system.kind(), SystemKind::TimeLinear);
    assert_eq!(system.matrix()[0].to_text(), "((-2) - clock)");
    assert_eq!(system.forcing()[0].to_text(), "(((2 + clock) - 1) * exp((-clock)))");
    assert_eq!(
        system.expressions()[0].to_text(),
        "((((2 + clock) - 1) * exp((-clock))) + (((-2) - clock) * amount))"
    );
}

#[test]
fn linear_rows_add_columns_in_order() {
    let system = System::linear("t", &["a", "b"], &["1", "2", "3", "4"], &["t", "0"]).unwrap();
    assert_eq!(system.expressions()[0].to_text(), "((t + (1 * a)) + (3 * b))");
    assert_eq!(system.expressions()[1].to_text(), "((0 + (2 * a)) + (4 * b))");
}

#[test]
fn split_system_keeps_the_constant_matrix() {
    let system = System::split("clock", &["amount"], &[Real(-2.0)], &["-amount^2"]).unwrap();
    assert_eq!(system.kind(), SystemKind::ConstantLinear);
    assert_eq!(system.constant_matrix(), &[Real(-2.0)]);
    assert_eq!(system.expressions()[0].to_text(), "((-(amount ^ 2)) + (-2 * amount))");
}

#[test]
fn split_parameters_evaluate_matrix_entries() {
    let system = System::split_with_parameters(
        "clock",
        &["amount"],
        &["-(rate+offset)"],
        &["-loss*amount^2"],
        &[p("rate", 1.5), p("offset", 0.5), p("loss", 1.0)],
    )
    .unwrap();
    assert_eq!(system.constant_matrix(), &[Real(-2.0)]);
    assert_eq!(system.matrix()[0].to_text(), "-2");
}

#[test]
fn refused_systems_report_the_reason() {
    assert_eq!(
        System::new("t", &[], &[]).unwrap_err(),
        SolverError::InvalidInput("provide one RHS per named state component")
    );
    assert_eq!(
        System::new("t", &["x"], &["1", "2"]).unwrap_err(),
        SolverError::InvalidInput("provide one RHS per named state component")
    );
    assert_eq!(
        System::new("t", &["x", "t"], &["1", "2"]).unwrap_err(),
        SolverError::InvalidInput("time and state names must be distinct identifiers, not numeric literals")
    );
    assert_eq!(
        System::linear("t", &["x"], &["1", "2"], &["0"]).unwrap_err(),
        SolverError::InvalidInput("matrix must contain dimension * dimension elements")
    );
    assert_eq!(
        System::split("t", &["x"], &[Real(f64::INFINITY)], &["0"]).unwrap_err(),
        SolverError::InvalidInput("constant matrix must be finite")
    );
    assert_eq!(
        System::new_with_parameters("t", &["x"], &["x"], &[p("x", 1.0)]).unwrap_err(),
        SolverError::InvalidInput("parameter names must be valid, unique, and distinct from time/state names")
    );
    assert_eq!(
        System::new_with_parameters("t", &["x"], &["x"], &[p("rate", f64::NAN)]).unwrap_err(),
        SolverError::InvalidInput("parameter values must be finite")
    );
}

#[test]
fn the_least_disallowed_name_is_reported_for_the_first_bad_equation() {
    let error = System::new("t", &["x", "y"], &["x", "zeta + beta * alpha"]).unwrap_err();
    assert_eq!(
        error,
        SolverError::Evaluation {
            equation: 1,
            message: "variable 'alpha' is not allowed in this system expression".to_string(),
        }
    );
}

#[test]
fn parse_failures_name_the_equation() {
    match System::new("t", &["x", "y"], &["x", "y +"]) {
        Err(SolverError::Parse { equation, source }) => {
            assert_eq!(equation, 1);
            assert_eq!(source.message, "expected an expression");
        },
        other => panic!("unexpected {other:?}"),
    }
}

#[test]
fn general_constructors_are_the_new_constructors() {
    let general = System::general_with_parameters("t", &["x"], &["-rate*(x-cos(t))-sin(t)"], &[p("rate", 1000.0)]).unwrap();
    let new = System::new_with_parameters("t", &["x"], &["-rate*(x-cos(t))-sin(t)"], &[p("rate", 1000.0)]).unwrap();
    assert_eq!(general.kind(), SystemKind::General);
    assert_eq!(general.expressions(), new.expressions());
    assert_eq!(System::general("t", &["x"], &["x"]).unwrap().expressions(), System::new("t", &["x"], &["x"]).unwrap().expressions());
    assert!(System::new("t", &["inf"], &["0"]).is_err());
}
