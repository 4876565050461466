use cauchy_ode::scalar::{BinaryFunction, Chars, Scalar, UnaryFunction};
use std::collections::HashMap;

#[derive(Clone, Copy, Debug, PartialEq)]
struct Real(f64);

impl Scalar for Real {
    fn integer(n: u8) -> Self {
        Real(n as f64)
    }
    fn from_text(text: &str) -> Option<Self> {
        text.parse::<f64>().ok().map(Real)
    }
    fn unary(f: UnaryFunction, x: Self) -> Self {
        let x = x.0;
        Real(match f {
            UnaryFunction::Negate => -x,
            UnaryFunction::Sine => x.sin(),
            UnaryFunction::Cosine => x.cos(),
            UnaryFunction::Tangent => x.tan(),
            UnaryFunction::ArcSine => x.asin(),
            UnaryFunction::ArcCosine => x.acos(),
            UnaryFunction::ArcTangent => x.atan(),
            UnaryFunction::HyperbolicSine => x.sinh(),
            UnaryFunction::HyperbolicCosine => x.cosh(),
            UnaryFunction::HyperbolicTangent => x.tanh(),
            UnaryFunction::AbsoluteValue => x.abs(),
            UnaryFunction::Exponent => x.exp(),
            UnaryFunction::SquareRoot => x.sqrt(),
            UnaryFunction::NaturalLogarithm => x.ln(),
            UnaryFunction::CommonLogarithm => x.log10(),
            UnaryFunction::Signum => x.signum(),
        })
    }
    fn binary(f: BinaryFunction, x: Self, y: Self) -> Self {
        Real(match f {
            BinaryFunction::Add => x.0 + y.0,
            BinaryFunction::Subtract => x.0 - y.0,
            BinaryFunction::Multiply => x.0 * y.0,
            BinaryFunction::Divide => x.0 / y.0,
            BinaryFunction::Power => x.0.powf(y.0),
        })
    }
    fn equal(x: Self, y: Self) -> bool {
        x.0 == y.0
    }
    fn less(x: Self, y: Self) -> bool {
        x.0 < y.0
    }
    fn is_nan(x: Self) -> bool {
        x.0.is_nan()
    }
    fn is_finite(x: Self) -> bool {
        x.0.is_finite()
    }
    fn text(x: Self) -> String {
        x.0.to_string()
    }
    fn spec_integer(n: u8) -> Self {
        Self::integer(n)
    }
    fn spec_unary(f: UnaryFunction, x: Self) -> Self {
        Self::unary(f, x)
    }
    fn spec_binary(f: BinaryFunction, x: Self, y: Self) -> Self {
        Self::binary(f, x, y)
    }
    fn spec_equal(x: Self, y: Self) -> bool {
        Self::equal(x, y)
    }
    fn spec_less(x: Self, y: Self) -> bool {
        Self::less(x, y)
    }
    fn spec_is_nan(x: Self) -> bool {
        Self::is_nan(x)
    }
    fn spec_is_finite(x: Self) -> bool {
        Self::is_finite(x)
    }
    fn spec_text(x: Self) -> String {
        Self::text(x)
    }
    fn spec_reads(_text: Chars) -> Option<Self> {
        None
    }
}

fn env<'a>(bindings: &[(&'a str, f64)]) -> HashMap<&'a str, Real> {
    bindings.iter().map(|&(name, value)| (name, Real(value))).collect()
}

#[derive(Clone, Copy, Debug, PartialEq)]
struct Real32(f32);

impl Scalar for Real32 {
    fn integer(n: u8) -> Self {
        Real32(n as f32)
    }
    fn from_text(text: &str) -> Option<Self> {
        text.parse::<f32>().ok().map(Real32)
    }
    fn unary(f: UnaryFunction, x: Self) -> Self {
        let x = x.0;
        Real32(match f {
            UnaryFunction::Negate => -x,
            UnaryFunction::Sine => x.sin(),
            UnaryFunction::Cosine => x.cos(),
            UnaryFunction::Tangent => x.tan(),
            UnaryFunction::ArcSine => x.asin(),
            UnaryFunction::ArcCosine => x.acos(),
            UnaryFunction::ArcTangent => x.atan(),
            UnaryFunction::HyperbolicSine => x.sinh(),
            UnaryFunction::HyperbolicCosine => x.cosh(),
            UnaryFunction::HyperbolicTangent => x.tanh(),
            UnaryFunction::AbsoluteValue => x.abs(),
            UnaryFunction::Exponent => x.exp(),
            UnaryFunction::SquareRoot => x.sqrt(),
            UnaryFunction::NaturalLogarithm => x.ln(),
            UnaryFunction::CommonLogarithm => x.log10(),
            UnaryFunction::Signum => x.signum(),
        })
    }
    fn binary(f: BinaryFunction, x: Self, y: Self) -> Self {
        Real32(match f {
            BinaryFunction::Add => x.0 + y.0,
            BinaryFunction::Subtract => x.0 - y.0,
            BinaryFunction::Multiply => x.0 * y.0,
            BinaryFunction::Divide => x.0 / y.0,
            BinaryFunction::Power => x.0.powf(y.0),
        })
    }
    fn equal(x: Self, y: Self) -> bool {
        x.0 == y.0
    }
    fn less(x: Self, y: Self) -> bool {
        x.0 < y.0
    }
    fn is_nan(x: Self) -> bool {
        x.0.is_nan()
    }
    fn is_finite(x: Self) -> bool {
        x.0.is_finite()
    }
    fn text(x: Self) -> String {
        x.0.to_string()
    }
    fn spec_integer(n: u8) -> Self {
        Self::integer(n)
    }
    fn spec_unary(f: UnaryFunction, x: Self) -> Self {
        Self::unary(f, x)
    }
    fn spec_binary(f: BinaryFunction, x: Self, y: Self) -> Self {
        Self::binary(f, x, y)
    }
    fn spec_equal(x: Self, y: Self) -> bool {
        Self::equal(x, y)
    }
    fn spec_less(x: Self, y: Self) -> bool {
        Self::less(x, y)
    }
    fn spec_is_nan(x: Self) -> bool {
        Self::is_nan(x)
    }
    fn spec_is_finite(x: Self) -> bool {
        Self::is_finite(x)
    }
    fn spec_text(x: Self) -> String {
        Self::text(x)
    }
    fn spec_reads(_text: Chars) -> Option<Self> {
        None
    }
}
use cauchy_ode::math_expr::{EvaluationError, MathExpr, Operation};

fn c(value: f64) -> MathExpr<'static, Real> {
    MathExpr::new_const(Real(value))
}

fn c32(value: f32) -> MathExpr<'static, Real32> {
    MathExpr::new_const(Real32(value))
}

fn var(name: &str) -> MathExpr<'_, Real> {
    MathExpr::new_var(name)
}

fn parse(source: &str) -> MathExpr<'_, Real> {
    MathExpr::<Real>::parse(source).unwrap()
}

fn none() -> HashMap<&'static str, Real> {
    HashMap::new()
}

fn none32() -> HashMap<&'static str, Real32> {
    HashMap::new()
}

fn value(expression: &MathExpr<'_, Real>, bindings: &[(&str, f64)]) -> f64 {
    expression.evaluate(&env(bindings)).unwrap().0
}

#[test]
fn evaluate_var() {
    let expression = var("x");
    let val = expression.evaluate(&env(&[("x", 1.0)]));
    assert_eq!(val, Ok(Real(1.0)));
}

#[test]
fn reject_undefined_var() {
    let expression = var("x");

    assert_eq!(expression.evaluate(&none()), Err(EvaluationError::VariableNotDefined("x")));
}

#[test]
fn evaluate_addition() {
    let expression = MathExpr::new_add(c(1.5), c(2.5));
    assert_eq!(expression.evaluate(&none()), Ok(Real(4.0)));
}

#[test]
fn evaluate_subtraction() {
    let expression = MathExpr::new_subtract(c(1.5), c(2.5));
    assert_eq!(expression.evaluate(&none()), Ok(Real(-1.0)));
}

#[test]
fn evaluate_multiplication() {
    let expression = MathExpr::new_multiply(c(1.5), c(2.0));
    assert_eq!(expression.evaluate(&none()), Ok(Real(3.0)));

    let expression = MathExpr::new_multiply(c32(1.5), c32(2.0));
    assert_eq!(expression.evaluate(&none32()), Ok(Real32(3.0)));
}

#[test]
fn evaluate_division() {
    let expression = MathExpr::new_divide(c(3.0), c(2.0));
    assert_eq!(expression.evaluate(&none()), Ok(Real(1.5)));
    assert_eq!(expression.to_text(), "(3 / 2)");

    let expression = MathExpr::new_divide(c32(3.0), c32(2.0));
    assert_eq!(expression.evaluate(&none32()), Ok(Real32(1.5)));
}

#[test]
fn evaluate_power() {
    let expression = MathExpr::new_power(c(2.0), c(3.0));
    assert_eq!(expression.evaluate(&none()), Ok(Real(8.0)));

    let expression = MathExpr::new_power(c32(4.0), c32(-0.5));
    assert_eq!(expression.evaluate(&none32()), Ok(Real32(0.5)));
}

#[test]
fn derive_power() {
    let expression = MathExpr::new_power(var("x"), c(3.0));
    let derivative = expression.derive("x").simplify();

    assert_eq!(derivative.evaluate(&env(&[("x", 2.0)])), Ok(Real(12.0)));
}

#[test]
fn derive_division() {
    let variable = var("x");
    let expression = MathExpr::new_divide(variable.clone(), MathExpr::new_add(variable, c(1.0)));
    let derivative = expression.derive("x");

    assert_eq!(derivative.evaluate(&env(&[("x", 3.0)])), Ok(Real(1.0 / 16.0)));
}

#[test]
fn derive_multiplication() {
    let variable = var("x");
    let expression = MathExpr::new_multiply(variable.clone(), variable);
    let derivative = expression.derive("x");

    assert_eq!(derivative.evaluate(&env(&[("x", 3.0)])), Ok(Real(6.0)));
}

#[test]
fn evaluate_negation() {
    let expression = MathExpr::new_negate(c(1.5));
    assert_eq!(expression.evaluate(&none()), Ok(Real(-1.5)));

    let expression = MathExpr::new_negate(c32(1.5));
    assert_eq!(expression.evaluate(&none32()), Ok(Real32(-1.5)));
}

#[test]
fn derive_negation() {
    let expression = MathExpr::new_negate(var("x"));
    let derivative = expression.derive("x");

    assert_eq!(derivative.evaluate(&none()), Ok(Real(-1.0)));
}

#[test]
fn derive_sin() {
    let variable = var("x");
    let square = MathExpr::new_multiply(variable.clone(), variable);
    let derivative = MathExpr::new_sin(square).derive("x");
    let x = 0.5_f64;
    let expected = 2.0 * x * (x * x).cos();
    let actual = value(&derivative, &[("x", x)]);

    assert!((actual - expected).abs() < 1e-12);
}

#[test]
fn derive_cos() {
    let variable = var("x");
    let square = MathExpr::new_multiply(variable.clone(), variable);
    let derivative = MathExpr::new_cos(square).derive("x");
    let x = 0.5_f64;
    let expected = -2.0 * x * (x * x).sin();
    let actual = value(&derivative, &[("x", x)]);

    assert!((actual - expected).abs() < 1e-12);
}

#[test]
fn evaluate_tan() {
    let expression = MathExpr::new_tan(c(std::f64::consts::FRAC_PI_4));
    assert!((expression.evaluate(&none()).unwrap().0 - 1.0).abs() < 1e-12);

    let expression = MathExpr::new_tan(c32(0.0));
    assert_eq!(expression.evaluate(&none32()), Ok(Real32(0.0)));
}

#[test]
fn derive_tan() {
    let square = MathExpr::new_power(var("x"), c(2.0));
    let derivative = MathExpr::new_tan(square).derive("x").simplify();
    let x = 0.5_f64;
    let expected = 2.0 * x / (x * x).cos().powi(2);
    let actual = value(&derivative, &[("x", x)]);

    assert!((actual - expected).abs() < 1e-12);
}

#[test]
fn evaluate_asin() {
    let expression = MathExpr::new_asin(c(1.0));
    assert!((expression.evaluate(&none()).unwrap().0 - std::f64::consts::FRAC_PI_2).abs() < 1e-12);

    let expression = MathExpr::new_asin(c32(0.0));
    assert_eq!(expression.evaluate(&none32()), Ok(Real32(0.0)));
}

#[test]
fn derive_asin() {
    let square = MathExpr::new_power(var("x"), c(2.0));
    let derivative = MathExpr::new_asin(square).derive("x").simplify();
    let x = 0.5_f64;
    let expected = 2.0 * x / (1.0 - x.powi(4)).sqrt();
    let actual = value(&derivative, &[("x", x)]);

    assert!((actual - expected).abs() < 1e-12);
}

#[test]
fn evaluate_acos() {
    let expression = MathExpr::new_acos(c(0.0));
    assert!((expression.evaluate(&none()).unwrap().0 - std::f64::consts::FRAC_PI_2).abs() < 1e-12);

    let expression = MathExpr::new_acos(c32(1.0));
    assert_eq!(expression.evaluate(&none32()), Ok(Real32(0.0)));
}

#[test]
fn derive_acos() {
    let square = MathExpr::new_power(var("x"), c(2.0));
    let derivative = MathExpr::new_acos(square).derive("x").simplify();
    let x = 0.5_f64;
    let expected = -2.0 * x / (1.0 - x.powi(4)).sqrt();
    let actual = value(&derivative, &[("x", x)]);

    assert!((actual - expected).abs() < 1e-12);
}

#[test]
fn evaluate_atan() {
    let expression = MathExpr::new_atan(c(1.0));
    assert!((expression.evaluate(&none()).unwrap().0 - std::f64::consts::FRAC_PI_4).abs() < 1e-12);

    let expression = MathExpr::new_atan(c32(0.0));
    assert_eq!(expression.evaluate(&none32()), Ok(Real32(0.0)));
}

#[test]
fn derive_atan() {
    let square = MathExpr::new_power(var("x"), c(2.0));
    let derivative = MathExpr::new_atan(square).derive("x").simplify();
    let x = 0.5_f64;
    let expected = 2.0 * x / (1.0 + x.powi(4));
    let actual = value(&derivative, &[("x", x)]);

    assert!((actual - expected).abs() < 1e-12);
}

#[test]
fn evaluate_sinh() {
    let expression = MathExpr::new_sinh(c(1.0));
    assert!((expression.evaluate(&none()).unwrap().0 - 1.0_f64.sinh()).abs() < 1e-12);

    let expression = MathExpr::new_sinh(c32(0.0));
    assert_eq!(expression.evaluate(&none32()), Ok(Real32(0.0)));
}

#[test]
fn derive_sinh() {
    let square = MathExpr::new_power(var("x"), c(2.0));
    let derivative = MathExpr::new_sinh(square).derive("x").simplify();
    let x = 0.5_f64;
    let expected = 2.0 * x * (x * x).cosh();
    let actual = value(&derivative, &[("x", x)]);

    assert!((actual - expected).abs() < 1e-12);
}

#[test]
fn evaluate_cosh() {
    let expression = MathExpr::new_cosh(c(1.0));
    assert!((expression.evaluate(&none()).unwrap().0 - 1.0_f64.cosh()).abs() < 1e-12);

    let expression = MathExpr::new_cosh(c32(0.0));
    assert_eq!(expression.evaluate(&none32()), Ok(Real32(1.0)));
}

#[test]
fn derive_cosh() {
    let square = MathExpr::new_power(var("x"), c(2.0));
    let derivative = MathExpr::new_cosh(square).derive("x").simplify();
    let x = 0.5_f64;
    let expected = 2.0 * x * (x * x).sinh();
    let actual = value(&derivative, &[("x", x)]);

    assert!((actual - expected).abs() < 1e-12);
}

#[test]
fn evaluate_tanh() {
    let expression = MathExpr::new_tanh(c(1.0));
    assert!((expression.evaluate(&none()).unwrap().0 - 1.0_f64.tanh()).abs() < 1e-12);

    let expression = MathExpr::new_tanh(c32(0.0));
    assert_eq!(expression.evaluate(&none32()), Ok(Real32(0.0)));
}

#[test]
fn derive_tanh() {
    let square = MathExpr::new_power(var("x"), c(2.0));
    let derivative = MathExpr::new_tanh(square).derive("x").simplify();
    let x = 0.5_f64;
    let expected = 2.0 * x / (x * x).cosh().powi(2);
    let actual = value(&derivative, &[("x", x)]);

    assert!((actual - expected).abs() < 1e-12);
}

#[test]
fn evaluate_sign() {
    let negative = MathExpr::new_sign(c(-3.0));
    let zero = MathExpr::new_sign(c(0.0));
    let positive = MathExpr::new_sign(c32(2.0));

    assert_eq!(negative.evaluate(&none()), Ok(Real(-1.0)));
    assert_eq!(zero.evaluate(&none()), Ok(Real(0.0)));
    assert_eq!(positive.evaluate(&none32()), Ok(Real32(1.0)));
}

#[test]
fn derive_sign() {
    let expression = MathExpr::new_sign(var("x"));

    assert_eq!(expression.derive("x").to_text(), "0");
}

#[test]
fn evaluate_abs() {
    let negative = MathExpr::new_abs(c(-3.0));
    let positive = MathExpr::new_abs(c32(2.0));

    assert_eq!(negative.evaluate(&none()), Ok(Real(3.0)));
    assert_eq!(positive.evaluate(&none32()), Ok(Real32(2.0)));
}

#[test]
fn derive_abs() {
    let square_minus_one = MathExpr::new_subtract(MathExpr::new_power(var("x"), c(2.0)), c(1.0));
    let derivative = MathExpr::new_abs(square_minus_one).derive("x").simplify();

    assert_eq!(derivative.evaluate(&env(&[("x", 2.0)])), Ok(Real(4.0)));
    assert_eq!(derivative.evaluate(&env(&[("x", 0.5)])), Ok(Real(-1.0)));
}

#[test]
fn evaluate_exp() {
    let expression = MathExpr::new_exp(c(1.0));
    assert!((expression.evaluate(&none()).unwrap().0 - std::f64::consts::E).abs() < 1e-12);

    let expression = MathExpr::new_exp(c32(0.0));
    assert_eq!(expression.evaluate(&none32()), Ok(Real32(1.0)));
}

#[test]
fn derive_exp() {
    let square = MathExpr::new_power(var("x"), c(2.0));
    let derivative = MathExpr::new_exp(square).derive("x").simplify();
    let x = 0.5_f64;
    let expected = 2.0 * x * (x * x).exp();
    let actual = value(&derivative, &[("x", x)]);

    assert!((actual - expected).abs() < 1e-12);
}

#[test]
fn evaluate_sqrt() {
    let expression = MathExpr::new_sqrt(c(9.0));
    assert_eq!(expression.evaluate(&none()), Ok(Real(3.0)));

    let expression = MathExpr::new_sqrt(c32(2.25));
    assert_eq!(expression.evaluate(&none32()), Ok(Real32(1.5)));
}

#[test]
fn derive_sqrt() {
    let expression = MathExpr::new_sqrt(var("x"));
    let derivative = expression.derive("x").simplify();

    assert_eq!(derivative.evaluate(&env(&[("x", 4.0)])), Ok(Real(0.25)));
}

#[test]
fn evaluate_ln() {
    let expression = MathExpr::new_ln(c(std::f64::consts::E));
    assert!((expression.evaluate(&none()).unwrap().0 - 1.0).abs() < 1e-12);

    let expression = MathExpr::new_ln(c32(1.0));
    assert_eq!(expression.evaluate(&none32()), Ok(Real32(0.0)));
}

#[test]
fn derive_ln() {
    let square = MathExpr::new_power(var("x"), c(2.0));
    let derivative = MathExpr::new_ln(square).derive("x").simplify();

    assert_eq!(derivative.evaluate(&env(&[("x", 2.0)])), Ok(Real(1.0)));
}

#[test]
fn evaluate_log10() {
    let expression = MathExpr::new_log10(c(1000.0));
    assert_eq!(expression.evaluate(&none()), Ok(Real(3.0)));

    let expression = MathExpr::new_log10(c32(0.1));
    assert_eq!(expression.evaluate(&none32()), Ok(Real32(-1.0)));
}

#[test]
fn derive_log10() {
    let expression = MathExpr::new_log10(var("x"));
    let derivative = expression.derive("x").simplify();
    let expected = 1.0 / (10.0_f64 * 10.0_f64.ln());
    let actual = value(&derivative, &[("x", 10.0)]);

    assert!((actual - expected).abs() < 1e-12);
}

#[test]
fn expression_to_string() {
    let expression = MathExpr::new_subtract(
        MathExpr::new_add(var("x"), c(2.0)),
        MathExpr::new_multiply(MathExpr::new_negate(MathExpr::new_sin(var("y"))), MathExpr::new_cos(var("z"))),
    );

    assert_eq!(expression.to_text(), "((x + 2) - ((-sin(y)) * cos(z)))");
}

#[test]
fn parse_to_string_output() {
    let built = MathExpr::new_divide(
        MathExpr::new_subtract(MathExpr::new_sin(var("x")), MathExpr::new_cos(var("y"))),
        MathExpr::new_add(c(2.0), MathExpr::new_negate(var("z"))),
    );
    let source = built.to_text();
    let parsed = parse(&source);
    let args = env(&[("x", 0.5), ("y", 1.0), ("z", 0.25)]);

    assert_eq!(parsed.to_text(), source);
    assert_eq!(parsed.evaluate(&args), built.evaluate(&args));
}

#[test]
fn reading_back_every_operation() {
    let built = MathExpr::new_add(
        MathExpr::new_iif(
            var("x"),
            MathExpr::new_negate(MathExpr::new_sin(var("x"))),
            MathExpr::new_power(MathExpr::new_multiply(c(2.0), var("y")), var("z")),
        ),
        MathExpr::new_divide(
            MathExpr::new_abs(var("q")),
            MathExpr::new_subtract(c(1.5), MathExpr::new_log10(var("w"))),
        ),
    );
    let source = built.to_text();
    assert_eq!(source, "(iif(x, (-sin(x)), ((2 * y) ^ z)) + (abs(q) / (1.5 - log10(w))))");
    let parsed = parse(&source);
    assert_eq!(parsed, built);
    assert_eq!(parsed.to_text(), source);
}

#[test]
fn parse_and_evaluate_complex_expression() {
    let source = "sqrt(x ^ 2 + y ^ 2) + sin(theta) * exp(ln(scale)) - abs(offset) / log10(100)";
    let expression = parse(source);
    let result = value(
        &expression,
        &[("x", 3.0), ("y", 4.0), ("theta", std::f64::consts::FRAC_PI_2), ("scale", 4.0), ("offset", -3.0)],
    );

    assert!((result - 7.5).abs() < 1e-12);
}

#[test]
fn parse_and_evaluate_complex_expression_derivatives() {
    let source = "sqrt(x ^ 2 + Y ^ 2) + sin(theta) * exp(ln(scale)) - abs(offset) / log10(100)";
    let expression = parse(source);
    let args = [("x", 3.0), ("Y", 4.0), ("theta", std::f64::consts::FRAC_PI_2), ("scale", 4.0), ("offset", -3.0)];

    let dx = expression.derive("x").simplify();
    let dy = expression.derive("Y").simplify();
    let derivative_by_x = value(&dx, &args);
    let derivative_by_y = value(&dy, &args);
    println!("{:?}", dx);
    println!("{:?}", dy);
    assert!((derivative_by_x - 0.6).abs() < 1e-12);
    assert!((derivative_by_y - 0.8).abs() < 1e-12);
}

#[test]
fn parse_operator_precedence() {
    let parsed = parse("x + 2 * -y");

    assert_eq!(parsed.to_text(), "(x + (2 * (-y)))");
}

#[test]
fn parse_power_precedence_and_formatting() {
    let parsed = parse("-x ^ 2 * y + z ^ -2");

    assert_eq!(parsed.to_text(), "(((-(x ^ 2)) * y) + (z ^ -2))");
    assert_eq!(MathExpr::<Real>::parse(&parsed.to_text()).unwrap(), parsed);
}

fn check_function_round_trip(source: &str, written: &str) {
    let parsed = parse(source);

    assert_eq!(parsed.to_text(), written);
    assert_eq!(MathExpr::<Real>::parse(&parsed.to_text()).unwrap(), parsed);
}

#[test]
fn parse_exp_and_formatting() {
    check_function_round_trip("exp(x + 1)", "exp((x + 1))");
}

#[test]
fn parse_tan_and_formatting() {
    check_function_round_trip("tan(x + 1)", "tan((x + 1))");
}

#[test]
fn parse_asin_and_formatting() {
    check_function_round_trip("asin(x / 2)", "asin((x / 2))");
}

#[test]
fn parse_acos_and_formatting() {
    check_function_round_trip("acos(x / 2)", "acos((x / 2))");
}

#[test]
fn parse_atan_and_formatting() {
    check_function_round_trip("atan(x / 2)", "atan((x / 2))");
}

#[test]
fn parse_sinh_and_formatting() {
    check_function_round_trip("sinh(x + 1)", "sinh((x + 1))");
}

#[test]
fn parse_cosh_and_formatting() {
    check_function_round_trip("cosh(x + 1)", "cosh((x + 1))");
}

#[test]
fn parse_tanh_and_formatting() {
    check_function_round_trip("tanh(x + 1)", "tanh((x + 1))");
}

#[test]
fn parse_sign_and_formatting() {
    check_function_round_trip("sign(x + 1)", "sign((x + 1))");
}

#[test]
fn parse_abs_and_formatting() {
    check_function_round_trip("abs(x + 1)", "abs((x + 1))");
}

#[test]
fn parse_sqrt_and_formatting() {
    check_function_round_trip("sqrt(x + 1)", "sqrt((x + 1))");
}

#[test]
fn parse_ln_and_formatting() {
    check_function_round_trip("ln(x + 1)", "ln((x + 1))");
}

#[test]
fn parse_log10_and_formatting() {
    check_function_round_trip("log10(x + 1)", "log10((x + 1))");
}

#[test]
fn parse_and_evaluate_iif() {
    let expression = parse("iif(x, -x, x ^ 2)");

    assert_eq!(expression.to_text(), "iif(x, (-x), (x ^ 2))");
    assert_eq!(expression.evaluate(&env(&[("x", -3.0)])), Ok(Real(3.0)));
    assert_eq!(expression.evaluate(&env(&[("x", 2.0)])), Ok(Real(4.0)));
    assert_eq!(expression.evaluate(&env(&[("x", 0.0)])), Ok(Real(0.0)));
}

#[test]
fn evaluate_iif_lazily() {
    let expression = parse("iif(x, undefined, 42)");

    assert_eq!(expression.evaluate(&env(&[("x", 1.0)])), Ok(Real(42.0)));
}

fn simplified_text(source: &str) -> String {
    parse(source).simplify().to_text()
}

#[test]
fn simplify_iif_with_constant_condition() {
    assert_eq!(simplified_text("iif(-1, x, undefined)"), "x");
    assert_eq!(simplified_text("iif(0, undefined, x)"), "x");
}

#[test]
fn simplify_repeated_terms() {
    let expression = parse("x + x + x + x");
    let simplified = expression.simplify();

    assert_eq!(simplified.to_text(), "(4 * x)");
    assert_eq!(simplified.evaluate(&env(&[("x", 3.0)])), Ok(Real(12.0)));
}

#[test]
fn simplify_like_terms_and_constants() {
    assert_eq!(simplified_text("2*x + 3*x - x + 2 - 2"), "(4 * x)");
}

#[test]
fn simplify_subtracting_identical_variables() {
    assert_eq!(simplified_text("x - x"), "0");
}

#[test]
fn simplify_dividing_identical_variables() {
    assert_eq!(simplified_text("x / x"), "1");
}

#[test]
fn simplify_numeric_operations() {
    assert_eq!(simplified_text("sin(0) + cos(0) * 1"), "1");
}

#[test]
fn simplify_zero_quotient_cascades_through_expression() {
    assert_eq!(
        simplified_text(
            "(((2 * x) / (2 * sqrt(((x ^ 2) + (Y ^ 2))))) + (sin(theta) * ((0 / scale) * exp(ln(scale)))))"
        ),
        "((2 * x) / (2 * sqrt(((x ^ 2) + (Y ^ 2)))))"
    );
}

#[test]
fn simplify_power() {
    assert_eq!(simplified_text("x ^ 0"), "1");
    assert_eq!(simplified_text("x ^ 1"), "x");
    assert_eq!(simplified_text("2 ^ 3"), "8");
}

#[test]
fn simplify_nested_power() {
    assert_eq!(simplified_text("(x ^ 3) ^ 2"), "(x ^ 6)");
}

#[test]
fn simplify_logarithm_of_power() {
    assert_eq!(simplified_text("ln(x ^ y)"), "(y * ln(x))");
}

#[test]
fn simplify_common_logarithm_of_power() {
    assert_eq!(simplified_text("log10(x ^ y)"), "(y * log10(x))");
}

#[test]
fn simplify_exp_constant() {
    assert_eq!(simplified_text("exp(0)"), "1");
}

#[test]
fn simplify_tan_constant() {
    assert_eq!(simplified_text("tan(0)"), "0");
}

#[test]
fn simplify_asin_constant() {
    assert_eq!(simplified_text("asin(0)"), "0");
}

#[test]
fn simplify_acos_constant() {
    assert_eq!(simplified_text("acos(1)"), "0");
}

#[test]
fn simplify_atan_constant() {
    assert_eq!(simplified_text("atan(0)"), "0");
}

#[test]
fn simplify_sinh_constant() {
    assert_eq!(simplified_text("sinh(0)"), "0");
}

#[test]
fn simplify_cosh_constant() {
    assert_eq!(simplified_text("cosh(0)"), "1");
}

#[test]
fn simplify_tanh_constant() {
    assert_eq!(simplified_text("tanh(0)"), "0");
}

#[test]
fn simplify_sign_constant() {
    assert_eq!(simplified_text("sign(-42)"), "-1");
}

#[test]
fn simplify_abs_constant() {
    assert_eq!(simplified_text("abs(-42)"), "42");
}

#[test]
fn simplify_sqrt_constant() {
    assert_eq!(simplified_text("sqrt(16)"), "4");
}

#[test]
fn simplify_ln_constant() {
    assert_eq!(simplified_text("ln(1)"), "0");
}

#[test]
fn simplify_log10_constant() {
    assert_eq!(simplified_text("log10(100)"), "2");
}

#[test]
fn simplify_derivative() {
    let variable = var("x");
    let expression = MathExpr::new_multiply(variable.clone(), variable);

    assert_eq!(expression.derive("x").simplify().to_text(), "(2 * x)");
    assert_eq!(expression.derive("y").simplify().to_text(), "0");
}

#[test]
fn reject_invalid_expression() {
    let error = MathExpr::<Real>::parse("sin(x").unwrap_err();

    assert_eq!(error.position, 5);
    assert_eq!(error.message, "expected ')'");
}

#[test]
fn evaluate_sin() {
    let expression = MathExpr::new_sin(c(std::f64::consts::PI / 2.0));
    assert!((expression.evaluate(&none()).unwrap().0 - 1.0).abs() < f64::EPSILON);
    let expression = MathExpr::new_sin(c(std::f64::consts::PI * 1.5));
    assert!((expression.evaluate(&none()).unwrap().0 + 1.0).abs() < f64::EPSILON);
    let expression = MathExpr::new_sin(c32(std::f32::consts::PI / 2.0));
    assert!((expression.evaluate(&none32()).unwrap().0 - 1.0).abs() < f32::EPSILON);
    let expression = MathExpr::new_sin(c32(std::f32::consts::PI * 1.5));
    assert!((expression.evaluate(&none32()).unwrap().0 + 1.0).abs() < f32::EPSILON);
}

#[test]
fn evaluate_sin_add() {
    let expression = MathExpr::new_add(MathExpr::new_sin(c(std::f64::consts::PI / 2.0)), c(3.0));
    assert!((expression.evaluate(&none()).unwrap().0 - 4.0).abs() < f64::EPSILON);
}

#[test]
fn evaluate_cos() {
    let expression = MathExpr::new_cos(c(0.0));
    assert!((expression.evaluate(&none()).unwrap().0 - 1.0).abs() < f64::EPSILON);
    let expression = MathExpr::new_cos(c(std::f64::consts::PI));
    assert!((expression.evaluate(&none()).unwrap().0 + 1.0).abs() < f64::EPSILON);
    let expression = MathExpr::new_cos(c32(0.0));
    assert!((expression.evaluate(&none32()).unwrap().0 - 1.0).abs() < f32::EPSILON);
    let expression = MathExpr::new_cos(c32(std::f32::consts::PI));
    assert!((expression.evaluate(&none32()).unwrap().0 + 1.0).abs() < f32::EPSILON);
}

// Further cases of the library's own behaviour.

#[test]
fn operation_names_are_written_like_the_operators() {
    assert_eq!(Operation::<Real>::Subtract.to_text(), "-");
    assert_eq!(Operation::<Real>::Variable("speed").to_text(), "speed");
    assert_eq!(Operation::Constant(Real(1.0)).to_text(), "Constant");
    assert_eq!(Operation::<Real>::CommonLogarithm.to_text(), "log10");
}

#[test]
fn evaluation_errors_are_written_as_messages() {
    let missing: EvaluationError<'_, Real> = EvaluationError::VariableNotDefined("rate");
    assert_eq!(missing.to_text(), "Variable rate not defined");
    let count: EvaluationError<'_, Real> =
        EvaluationError::InvalidOperandCount { operation: Operation::Subtract, expected: 2, actual: 1 };
    assert_eq!(count.to_text(), "- expects 2 operands, but received 1");
}

#[test]
fn log_and_ln_both_name_the_natural_logarithm() {
    assert_eq!(parse("log(x)").to_text(), "ln(x)");
    assert_eq!(parse("ln(x)"), parse("log(x)"));
}

#[test]
fn parse_reports_unknown_functions_and_trailing_input() {
    let error = MathExpr::<Real>::parse("foo(x)").unwrap_err();
    assert_eq!(error.position, 0);
    assert_eq!(error.message, "unknown function 'foo'");
    let error = MathExpr::<Real>::parse("x y").unwrap_err();
    assert_eq!(error.message, "unexpected trailing input");
    assert_eq!(error.to_text(), format!("parse error at byte {}: unexpected trailing input", error.position));
}

#[test]
fn parse_error_positions_count_bytes() {
    let error = MathExpr::<Real>::parse("\u{e9}\u{e9} + (").unwrap_err();
    assert_eq!(error.position, "\u{e9}\u{e9} + (".len());
}

#[test]
fn negated_constant_exponent_becomes_a_constant() {
    let power = MathExpr::new_power(var("x"), MathExpr::new_negate(c(2.0)));
    assert_eq!(power, MathExpr::new_power(var("x"), c(-2.0)));
    assert_eq!(power.to_text(), "(x ^ -2)");
}

#[test]
fn variables_lists_each_name_once_in_order() {
    let expression = parse("b * a + sin(b) - iif(c, a, d)");
    assert_eq!(expression.variables(), vec!["b", "a", "c", "d"]);
}

#[test]
fn substitution_replaces_whole_names_only() {
    let expression = parse("k * kappa + sin(k)");
    let bound = expression.substitute("k", &c(2.0));
    assert_eq!(bound.to_text(), "((2 * kappa) + sin(2))");
    assert_eq!(bound.variables(), vec!["kappa"]);
}

#[test]
fn derivative_mentions_only_variables_of_the_expression() {
    let expression = parse("x * y + sin(z)");
    let derivative = expression.derive("w").simplify();
    assert_eq!(derivative.to_text(), "0");
    let derivative = expression.derive("x");
    for name in derivative.variables() {
        assert!(expression.variables().contains(&name));
    }
}

#[test]
fn simplify_keeps_values_of_exact_arithmetic() {
    let expression = parse("3 * x - x + 4 / 2");
    let simplified = expression.simplify();
    assert_eq!(simplified.to_text(), "((2 * x) + 2)");
    assert_eq!(value(&simplified, &[("x", 5.0)]), value(&expression, &[("x", 5.0)]));
}

#[test]
fn clone_copies_the_whole_tree() {
    let expression = parse("iif(x, sqrt(y), -z)");
    assert_eq!(expression.clone(), expression);
}

#[test]
fn unexpected_characters_are_quoted() {
    let error = MathExpr::<Real>::parse("2 * $").unwrap_err();
    assert_eq!(error.position, 4);
    assert_eq!(error.message, "unexpected character '$'");
}

#[test]
fn simplified_expressions_keep_only_their_own_variables() {
    let expression = parse("x * 0 + y - y / 1 + sin(z) ^ 1");
    let simplified = expression.simplify();
    assert_eq!(simplified.to_text(), "sin(z)");
    for name in simplified.variables() {
        assert!(expression.variables().contains(&name));
    }
}

#[test]
fn numbers_read_with_fractions_and_exponents() {
    assert_eq!(parse("1.5e2 + .5").simplify().to_text(), "150.5");
    assert_eq!(parse("2E-1").evaluate(&none()), Ok(Real(0.2)));
}

#[test]
fn powers_associate_to_the_right_and_bind_tighter_than_negation() {
    assert_eq!(parse("2^3^2").evaluate(&none()), Ok(Real(512.0)));
    assert_eq!(parse("-x^2").to_text(), "(-(x ^ 2))");
    assert_eq!(parse("8/4/2").evaluate(&none()), Ok(Real(1.0)));
    assert_eq!(parse("--x").evaluate(&env(&[("x", 3.0)])), Ok(Real(3.0)));
}

#[test]
fn iif_selects_the_third_argument_at_zero_and_for_nan() {
    let expression = parse("iif(x, sqrt(-x), sqrt(x))");
    assert_eq!(expression.evaluate(&env(&[("x", -4.0)])), Ok(Real(2.0)));
    assert_eq!(expression.evaluate(&env(&[("x", 0.0)])), Ok(Real(0.0)));
    assert_eq!(parse("iif(c, 1, 2)").evaluate(&env(&[("c", f64::NAN)])), Ok(Real(2.0)));
}

#[test]
fn domain_errors_are_values_not_errors() {
    assert!(parse("sqrt(-1)").evaluate(&none()).unwrap().0.is_nan());
    assert_eq!(parse("1/0").evaluate(&none()), Ok(Real(f64::INFINITY)));
}

#[test]
fn identifiers_may_be_unicode_and_numeric_names_are_numbers() {
    assert_eq!(parse("\u{3b1} + _rate").variables(), vec!["\u{3b1}", "_rate"]);
    assert!(parse("inf").evaluate(&none()).unwrap().0.is_infinite());
    assert!(parse("NaN").variables().is_empty());
    assert_eq!(parse("2.").evaluate(&none()), Ok(Real(2.0)));
    assert_eq!(parse("2.5E+3").evaluate(&none()), Ok(Real(2500.0)));
}

#[test]
fn evaluation_with_named_constants() {
    let expression = parse("sin(pi/2)+x^2");
    let values = [("pi", std::f64::consts::PI), ("x", 3.0)];
    assert!((value(&expression, &values) - 10.0).abs() < 1e-12);
    let derivative = expression.derive("x").simplify();
    assert!((value(&derivative, &values) - 6.0).abs() < 1e-12);
}

#[test]
fn reject_invalid_operand_count() {
    let expression = MathExpr::new(Operation::Subtract, vec![c(1.0)]);
    assert_eq!(
        expression.evaluate(&none()),
        Err(EvaluationError::InvalidOperandCount { operation: Operation::Subtract, expected: 2, actual: 1 })
    );
}
