//! Expression trees over a [`Scalar`] type: construction, derivatives,
//! substitution and evaluation.
use vstd::prelude::*;
use crate::scalar::{Scalar, UnaryFunction, BinaryFunction};
use crate::tree::{
    Symbol, Tree, leaf, node1, node2, node3, arity, wf, symbol_code, lemma_symbol_code, add_name, collect_names, collect_names_from,
    substitution,
};
use crate::derivative::derivative;
use crate::evaluation::{
    EvaluationFailure, sign_of, binary_function_of, unary_function_of, value_of, lookup,
};
use crate::simplification::{
    const_of, minus_one, plus, same_tree, same_trees_from, coefficient_and_term, scale_term, find_term, add_term,
    collect_addends, sum_terms, sum_of, negation_of, product_of, quotient_of, power_of,
    logarithm_of, function_of, simplified,
};
use crate::printing::{operation_name, written};
use crate::decimal::{decimal, usize_to_text};
use crate::text::collect_chars;
use vstd::string::StringExecFns;
use std::collections::HashMap;

verus! {

/// The operation at the root of an expression.
#[derive(Clone, Copy, Debug, PartialEq)]
pub enum Operation<'a, T> {
    Variable(&'a str),
    Constant(T),
    Add,
    Subtract,
    Multiply,
    Divide,
    Power,
    Negate,
    Sine,
    Cosine,
    Tangent,
    ArcSine,
    ArcCosine,
    ArcTangent,
    HyperbolicSine,
    HyperbolicCosine,
    HyperbolicTangent,
    Sign,
    AbsoluteValue,
    Exponent,
    SquareRoot,
    NaturalLogarithm,
    CommonLogarithm,
    ImmediateIf,
}

impl<'a, T> Operation<'a, T> {
    /// The symbol that the operation stands for in the model.
    pub open spec fn symbol(self) -> Symbol<T> {
        match self {
            Operation::Variable(name) => Symbol::Var(name@),
            Operation::Constant(value) => Symbol::Const(value),
            Operation::Add => Symbol::Add,
            Operation::Subtract => Symbol::Subtract,
            Operation::Multiply => Symbol::Multiply,
            Operation::Divide => Symbol::Divide,
            Operation::Power => Symbol::Power,
            Operation::Negate => Symbol::Negate,
            Operation::Sine => Symbol::Sine,
            Operation::Cosine => Symbol::Cosine,
            Operation::Tangent => Symbol::Tangent,
            Operation::ArcSine => Symbol::ArcSine,
            Operation::ArcCosine => Symbol::ArcCosine,
            Operation::ArcTangent => Symbol::ArcTangent,
            Operation::HyperbolicSine => Symbol::HyperbolicSine,
            Operation::HyperbolicCosine => Symbol::HyperbolicCosine,
            Operation::HyperbolicTangent => Symbol::HyperbolicTangent,
            Operation::Sign => Symbol::Sign,
            Operation::AbsoluteValue => Symbol::AbsoluteValue,
            Operation::Exponent => Symbol::Exponent,
            Operation::SquareRoot => Symbol::SquareRoot,
            Operation::NaturalLogarithm => Symbol::NaturalLogarithm,
            Operation::CommonLogarithm => Symbol::CommonLogarithm,
            Operation::ImmediateIf => Symbol::ImmediateIf,
        }
    }
}

/// A real-valued expression: an operation applied to operand expressions.
#[derive(Debug, PartialEq)]
pub struct MathExpr<'a, T> {
    operation: Operation<'a, T>,
    operands: Vec<MathExpr<'a, T>>,
}

/// Why an expression has no value.
#[derive(Debug, PartialEq)]
pub enum EvaluationError<'a, T> {
    InvalidOperandCount { operation: Operation<'a, T>, expected: usize, actual: usize },
    VariableNotDefined(&'a str),
}

impl<'a, T> EvaluationError<'a, T> {
    /// The failure that the error reports.
    pub open spec fn failure(self) -> EvaluationFailure<T> {
        match self {
            EvaluationError::InvalidOperandCount { operation, expected, actual } => {
                EvaluationFailure::OperandCount(operation.symbol(), expected as nat, actual as nat)
            },
            EvaluationError::VariableNotDefined(name) => EvaluationFailure::Undefined(name@),
        }
    }
}

/// The exponent of a power after a negated constant exponent is folded into
/// a negative constant.
pub open spec fn power_tree<T: Scalar>(base: Tree<T>, exponent: Tree<T>) -> Tree<T> {
    if exponent.head is Negate && exponent.args.len() == 1 && exponent.args[0].head is Const {
        node2(
            Symbol::Power,
            base,
            leaf(Symbol::Const(T::spec_unary(UnaryFunction::Negate, exponent.args[0].head->Const_0))),
        )
    } else {
        node2(Symbol::Power, base, exponent)
    }
}

/// A power of well-formed trees is well-formed.
pub proof fn lemma_power_tree_wf<T: Scalar>(base: Tree<T>, exponent: Tree<T>)
    requires
        wf(base),
        wf(exponent),
    ensures
        wf(power_tree(base, exponent)),
{
    let c = leaf::<T>(Symbol::Const(T::spec_integer(0)));
    assert(wf(c));
    if exponent.head is Negate && exponent.args.len() == 1 && exponent.args[0].head is Const {
        let folded = leaf::<T>(
            Symbol::Const(T::spec_unary(UnaryFunction::Negate, exponent.args[0].head->Const_0)),
        );
        assert(wf(folded));
    }
}

impl<'a, T> MathExpr<'a, T> {
    /// The tree that the expression stands for.
    pub closed spec fn model(&self) -> Tree<T>
        decreases self,
    {
        Tree {
            head: self.operation.symbol(),
            args: Seq::new(
                self.operands@.len(),
                |i: int|
                    if 0 <= i < self.operands@.len() {
                        self.operands@[i].model()
                    } else {
                        leaf(Symbol::Add)
                    },
            ),
        }
    }
}

impl<'a, T> View for MathExpr<'a, T> {
    type V = Tree<T>;

    open spec fn view(&self) -> Tree<T> {
        self.model()
    }
}

impl<'a, T: Scalar> MathExpr<'a, T> {
    proof fn lemma_view(&self)
        ensures
            self@.head == self.operation.symbol(),
            self@.args.len() == self.operands@.len(),
            forall|i: int| 0 <= i < self.operands@.len() ==> #[trigger] self@.args[i] == self.operands@[i]@,
    {
        let s = Seq::new(
            self.operands@.len(),
            |i: int|
                if 0 <= i < self.operands@.len() {
                    self.operands@[i].model()
                } else {
                    leaf(Symbol::Add)
                },
        );
        assert(self@.args == s);
    }

    /// The operation applied to the operands, as given: the operands are not
    /// checked against the operation (evaluation reports a wrong count).
    pub fn new(operation: Operation<'a, T>, operands: Vec<MathExpr<'a, T>>) -> (r: Self)
        ensures
            r@.head == operation.symbol(),
            r@.args.len() == operands@.len(),
            forall|i: int| 0 <= i < operands@.len() ==> #[trigger] r@.args[i] == operands@[i]@,
    {
        let r = Self { operation, operands };
        proof { r.lemma_view(); }
        r
    }

    fn new1(operation: Operation<'a, T>, a: Self) -> (r: Self)
        ensures
            r@ == node1(operation.symbol(), a@),
    {
        let r = Self::new(operation, vec![a]);
        assert(r@.args =~= seq![a@]);
        r
    }

    fn new2(operation: Operation<'a, T>, a: Self, b: Self) -> (r: Self)
        ensures
            r@ == node2(operation.symbol(), a@, b@),
    {
        let r = Self::new(operation, vec![a, b]);
        assert(r@.args =~= seq![a@, b@]);
        r
    }

    fn new3(operation: Operation<'a, T>, a: Self, b: Self, c: Self) -> (r: Self)
        ensures
            r@ == node3(operation.symbol(), a@, b@, c@),
    {
        let r = Self::new(operation, vec![a, b, c]);
        assert(r@.args =~= seq![a@, b@, c@]);
        r
    }

    /// A variable, by name.
    pub fn new_var(name: &'a str) -> (r: Self)
        ensures
            r@ == leaf::<T>(Symbol::Var(name@)),
    {
        let r = Self::new(Operation::Variable(name), Vec::new());
        assert(r@.args =~= seq![]);
        r
    }

    /// A constant.
    pub fn new_const(value: T) -> (r: Self)
        ensures
            r@ == leaf(Symbol::Const(value)),
    {
        let r = Self::new(Operation::Constant(value), Vec::new());
        assert(r@.args =~= seq![]);
        r
    }

    pub fn new_add(left: Self, right: Self) -> (r: Self)
        ensures
            r@ == node2(Symbol::Add, left@, right@),
    {
        Self::new2(Operation::Add, left, right)
    }

    pub fn new_subtract(left: Self, right: Self) -> (r: Self)
        ensures
            r@ == node2(Symbol::Subtract, left@, right@),
    {
        Self::new2(Operation::Subtract, left, right)
    }

    pub fn new_multiply(left: Self, right: Self) -> (r: Self)
        ensures
            r@ == node2(Symbol::Multiply, left@, right@),
    {
        Self::new2(Operation::Multiply, left, right)
    }

    pub fn new_divide(numerator: Self, denominator: Self) -> (r: Self)
        ensures
            r@ == node2(Symbol::Divide, numerator@, denominator@),
    {
        Self::new2(Operation::Divide, numerator, denominator)
    }

    /// A power. A negated constant exponent becomes a negative constant, so
    /// that `x ^ -2` holds the constant `-2`.
    pub fn new_power(base: Self, exponent: Self) -> (r: Self)
        ensures
            r@ == power_tree(base@, exponent@),
    {
        proof { exponent.lemma_view(); }
        let mut folded: Option<T> = None;
        if let Operation::Negate = exponent.operation {
            if exponent.operands.len() == 1 {
                proof { exponent.operands[0].lemma_view(); }
                if let Operation::Constant(value) = exponent.operands[0].operation {
                    folded = Some(T::unary(UnaryFunction::Negate, value));
                }
            }
        }
        match folded {
            Some(value) => Self::new2(Operation::Power, base, Self::new_const(value)),
            None => Self::new2(Operation::Power, base, exponent),
        }
    }

    pub fn new_negate(operand: Self) -> (r: Self)
        ensures
            r@ == node1(Symbol::Negate, operand@),
    {
        Self::new1(Operation::Negate, operand)
    }

    pub fn new_sin(operand: Self) -> (r: Self)
        ensures
            r@ == node1(Symbol::Sine, operand@),
    {
        Self::new1(Operation::Sine, operand)
    }

    pub fn new_cos(operand: Self) -> (r: Self)
        ensures
            r@ == node1(Symbol::Cosine, operand@),
    {
        Self::new1(Operation::Cosine, operand)
    }

    pub fn new_tan(operand: Self) -> (r: Self)
        ensures
            r@ == node1(Symbol::Tangent, operand@),
    {
        Self::new1(Operation::Tangent, operand)
    }

    pub fn new_asin(operand: Self) -> (r: Self)
        ensures
            r@ == node1(Symbol::ArcSine, operand@),
    {
        Self::new1(Operation::ArcSine, operand)
    }

    pub fn new_acos(operand: Self) -> (r: Self)
        ensures
            r@ == node1(Symbol::ArcCosine, operand@),
    {
        Self::new1(Operation::ArcCosine, operand)
    }

    pub fn new_atan(operand: Self) -> (r: Self)
        ensures
            r@ == node1(Symbol::ArcTangent, operand@),
    {
        Self::new1(Operation::ArcTangent, operand)
    }

    pub fn new_sinh(operand: Self) -> (r: Self)
        ensures
            r@ == node1(Symbol::HyperbolicSine, operand@),
    {
        Self::new1(Operation::HyperbolicSine, operand)
    }

    pub fn new_cosh(operand: Self) -> (r: Self)
        ensures
            r@ == node1(Symbol::HyperbolicCosine, operand@),
    {
        Self::new1(Operation::HyperbolicCosine, operand)
    }

    pub fn new_tanh(operand: Self) -> (r: Self)
        ensures
            r@ == node1(Symbol::HyperbolicTangent, operand@),
    {
        Self::new1(Operation::HyperbolicTangent, operand)
    }

    pub fn new_sign(operand: Self) -> (r: Self)
        ensures
            r@ == node1(Symbol::Sign, operand@),
    {
        Self::new1(Operation::Sign, operand)
    }

    pub fn new_abs(operand: Self) -> (r: Self)
        ensures
            r@ == node1(Symbol::AbsoluteValue, operand@),
    {
        Self::new1(Operation::AbsoluteValue, operand)
    }

    pub fn new_exp(operand: Self) -> (r: Self)
        ensures
            r@ == node1(Symbol::Exponent, operand@),
    {
        Self::new1(Operation::Exponent, operand)
    }

    pub fn new_sqrt(operand: Self) -> (r: Self)
        ensures
            r@ == node1(Symbol::SquareRoot, operand@),
    {
        Self::new1(Operation::SquareRoot, operand)
    }

    pub fn new_ln(operand: Self) -> (r: Self)
        ensures
            r@ == node1(Symbol::NaturalLogarithm, operand@),
    {
        Self::new1(Operation::NaturalLogarithm, operand)
    }

    pub fn new_log10(operand: Self) -> (r: Self)
        ensures
            r@ == node1(Symbol::CommonLogarithm, operand@),
    {
        Self::new1(Operation::CommonLogarithm, operand)
    }

    /// `iif(check, if_less_than_zero, otherwise)`.
    pub fn new_iif(check: Self, if_less_than_zero: Self, otherwise: Self) -> (r: Self)
        ensures
            r@ == node3(Symbol::ImmediateIf, check@, if_less_than_zero@, otherwise@),
    {
        Self::new3(Operation::ImmediateIf, check, if_less_than_zero, otherwise)
    }

    /// A copy of the expression with the same model.
    pub fn duplicate(&self) -> (r: Self)
        ensures
            r@ == self@,
        decreases self,
    {
        proof { self.lemma_view(); }
        let mut operands: Vec<Self> = Vec::new();
        let n = self.operands.len();
        for i in 0..n
            invariant
                n == self.operands@.len(),
                operands@.len() == i,
                forall|j: int| 0 <= j < i ==> #[trigger] operands@[j]@ == self.operands@[j]@,
        {
            operands.push(self.operands[i].duplicate());
        }
        let r = Self::new(self.operation, operands);
        assert(r@.args =~= self@.args);
        r
    }
}


/// Whether two names are the same text, character by character.
pub(crate) fn same_name(a: &str, b: &str) -> (r: bool)
    ensures
        r == (a@ == b@),
{
    let x = collect_chars(a);
    let y = collect_chars(b);
    if x.len() != y.len() {
        return false;
    }
    let mut i: usize = 0;
    while i < x.len()
        invariant
            x@ == a@,
            y@ == b@,
            x@.len() == y@.len(),
            i <= x@.len(),
            forall|j: int| 0 <= j < i ==> x@[j] == y@[j],
        decreases x@.len() - i,
    {
        if x[i] != y[i] {
            return false;
        }
        i += 1;
    }
    assert(a@ =~= b@);
    true
}

impl<'a, T: Scalar> MathExpr<'a, T> {
    /// The value of a constant expression.
    fn constant_value(&self) -> (r: Option<T>)
        ensures
            r == (match self@.head {
                Symbol::Const(v) => Some(v),
                _ => None::<T>,
            }),
    {
        proof { self.lemma_view(); }
        match self.operation {
            Operation::Constant(value) => Some(value),
            _ => None,
        }
    }

    fn operand(&self, i: usize) -> (r: &Self)
        requires
            i < self@.args.len(),
        ensures
            r@ == self@.args[i as int],
            *r == self.operands@[i as int],
    {
        proof { self.lemma_view(); }
        &self.operands[i]
    }

    /// The derivative by the variable `by_var` (see `derivative`).
    pub fn derive(&self, by_var: &str) -> (r: Self)
        requires
            wf(self@),
        ensures
            r@ == derivative(self@, by_var@),
        decreases self,
    {
        proof { self.lemma_view(); }
        match self.operation {
            Operation::Constant(_) => Self::new_const(T::integer(0)),
            Operation::Variable(name) => {
                if same_name(name, by_var) {
                    Self::new_const(T::integer(1))
                } else {
                    Self::new_const(T::integer(0))
                }
            },
            Operation::Add => {
                let (left, right) = (self.operand(0), self.operand(1));
                Self::new_add(left.derive(by_var), right.derive(by_var))
            },
            Operation::Subtract => {
                let (left, right) = (self.operand(0), self.operand(1));
                Self::new_subtract(left.derive(by_var), right.derive(by_var))
            },
            Operation::Multiply => {
                let (left, right) = (self.operand(0), self.operand(1));
                Self::new_add(
                    Self::new_multiply(left.derive(by_var), right.duplicate()),
                    Self::new_multiply(left.duplicate(), right.derive(by_var)),
                )
            },
            Operation::Divide => {
                let (numerator, denominator) = (self.operand(0), self.operand(1));
                Self::new_divide(
                    Self::new_subtract(
                        Self::new_multiply(numerator.derive(by_var), denominator.duplicate()),
                        Self::new_multiply(numerator.duplicate(), denominator.derive(by_var)),
                    ),
                    Self::new_multiply(denominator.duplicate(), denominator.duplicate()),
                )
            },
            Operation::Power => {
                let (base, exponent) = (self.operand(0), self.operand(1));
                match exponent.constant_value() {
                    Some(value) => {
                        if T::equal(value, T::integer(0)) {
                            Self::new_const(T::integer(0))
                        } else if T::equal(value, T::integer(1)) {
                            base.derive(by_var)
                        } else {
                            let lowered = T::binary(BinaryFunction::Subtract, value, T::integer(1));
                            Self::new_multiply(
                                Self::new_multiply(
                                    Self::new_const(value),
                                    Self::new_power(base.duplicate(), Self::new_const(lowered)),
                                ),
                                base.derive(by_var),
                            )
                        }
                    },
                    None => Self::new_multiply(
                        self.duplicate(),
                        Self::new_add(
                            Self::new_multiply(exponent.derive(by_var), Self::new_ln(base.duplicate())),
                            Self::new_multiply(
                                exponent.duplicate(),
                                Self::new_divide(base.derive(by_var), base.duplicate()),
                            ),
                        ),
                    ),
                }
            },
            Operation::Negate => {
                let operand = self.operand(0);
                Self::new_negate(operand.derive(by_var))
            },
            Operation::Sine => {
                let operand = self.operand(0);
                Self::new_multiply(operand.derive(by_var), Self::new_cos(operand.duplicate()))
            },
            Operation::Cosine => {
                let operand = self.operand(0);
                Self::new_multiply(
                    operand.derive(by_var),
                    Self::new_negate(Self::new_sin(operand.duplicate())),
                )
            },
            Operation::Tangent => {
                let operand = self.operand(0);
                Self::new_divide(
                    operand.derive(by_var),
                    Self::new_power(Self::new_cos(operand.duplicate()), Self::new_const(T::integer(2))),
                )
            },
            Operation::ArcSine => {
                let operand = self.operand(0);
                Self::new_divide(
                    operand.derive(by_var),
                    Self::new_sqrt(
                        Self::new_subtract(
                            Self::new_const(T::integer(1)),
                            Self::new_power(operand.duplicate(), Self::new_const(T::integer(2))),
                        ),
                    ),
                )
            },
            Operation::ArcCosine => {
                let operand = self.operand(0);
                Self::new_divide(
                    Self::new_negate(operand.derive(by_var)),
                    Self::new_sqrt(
                        Self::new_subtract(
                            Self::new_const(T::integer(1)),
                            Self::new_power(operand.duplicate(), Self::new_const(T::integer(2))),
                        ),
                    ),
                )
            },
            Operation::ArcTangent => {
                let operand = self.operand(0);
                Self::new_divide(
                    operand.derive(by_var),
                    Self::new_add(
                        Self::new_const(T::integer(1)),
                        Self::new_power(operand.duplicate(), Self::new_const(T::integer(2))),
                    ),
                )
            },
            Operation::HyperbolicSine => {
                let operand = self.operand(0);
                Self::new_multiply(operand.derive(by_var), Self::new_cosh(operand.duplicate()))
            },
            Operation::HyperbolicCosine => {
                let operand = self.operand(0);
                Self::new_multiply(operand.derive(by_var), Self::new_sinh(operand.duplicate()))
            },
            Operation::HyperbolicTangent => {
                let operand = self.operand(0);
                Self::new_divide(
                    operand.derive(by_var),
                    Self::new_power(Self::new_cosh(operand.duplicate()), Self::new_const(T::integer(2))),
                )
            },
            Operation::Sign => Self::new_const(T::integer(0)),
            Operation::AbsoluteValue => {
                let operand = self.operand(0);
                Self::new_multiply(operand.derive(by_var), Self::new_sign(operand.duplicate()))
            },
            Operation::Exponent => {
                let operand = self.operand(0);
                Self::new_multiply(operand.derive(by_var), Self::new_exp(operand.duplicate()))
            },
            Operation::SquareRoot => {
                let operand = self.operand(0);
                Self::new_divide(
                    operand.derive(by_var),
                    Self::new_multiply(Self::new_const(T::integer(2)), Self::new_sqrt(operand.duplicate())),
                )
            },
            Operation::NaturalLogarithm => {
                let operand = self.operand(0);
                Self::new_divide(operand.derive(by_var), operand.duplicate())
            },
            Operation::CommonLogarithm => {
                let operand = self.operand(0);
                let ten = T::integer(10);
                Self::new_divide(
                    operand.derive(by_var),
                    Self::new_multiply(
                        operand.duplicate(),
                        Self::new_const(T::unary(UnaryFunction::NaturalLogarithm, ten)),
                    ),
                )
            },
            Operation::ImmediateIf => {
                let (check, if_less_than_zero, otherwise) = (
                    self.operand(0),
                    self.operand(1),
                    self.operand(2),
                );
                Self::new_iif(
                    check.duplicate(),
                    if_less_than_zero.derive(by_var),
                    otherwise.derive(by_var),
                )
            },
        }
    }
}


/// The names as character sequences.
pub open spec fn names_of(v: Seq<&str>) -> Seq<Seq<char>> {
    v.map_values(|x: &str| x@)
}

/// Whether a name with the same text as `name` is in the list.
pub(crate) fn contains_name(names: &Vec<&str>, name: &str) -> (r: bool)
    ensures
        r == names_of(names@).contains(name@),
{
    let mut i: usize = 0;
    while i < names.len()
        invariant
            i <= names@.len(),
            forall|j: int| 0 <= j < i ==> names@[j]@ != name@,
        decreases names@.len() - i,
    {
        if same_name(names[i], name) {
            assert(names_of(names@)[i as int] == name@);
            return true;
        }
        i += 1;
    }
    assert forall|j: int| 0 <= j < names_of(names@).len() implies names_of(names@)[j] != name@ by {
        assert(names_of(names@)[j] == names@[j]@);
    }
    false
}

impl<'a, T: Scalar> MathExpr<'a, T> {
    fn collect_variables(&self, names: &mut Vec<&'a str>)
        ensures
            names_of(final(names)@) == collect_names(self@, names_of(old(names)@)),
        decreases self,
    {
        proof { self.lemma_view(); }
        let ghost start = names_of(names@);
        if let Operation::Variable(name) = self.operation {
            if !contains_name(names, name) {
                names.push(name);
                assert(names_of(names@) =~= names_of(old(names)@).push(name@));
            }
        }
        let ghost here = names_of(names@);
        assert(here == match self@.head {
            Symbol::Var(n) => add_name(start, n),
            _ => start,
        });
        let n = self.operands.len();
        for i in 0..n
            invariant
                n == self@.args.len(),
                n == self.operands@.len(),
                forall|j: int| 0 <= j < n ==> #[trigger] self@.args[j] == self.operands@[j]@,
                collect_names_from(self@.args, i as int, names_of(names@)) == collect_names_from(
                    self@.args,
                    0,
                    here,
                ),
        {
            self.operands[i].collect_variables(names);
        }
    }

    /// The names of the variables that occur anywhere in the expression (in
    /// every branch), each once, in the order of their first occurrence.
    pub fn variables(&self) -> (r: Vec<&'a str>)
        ensures
            names_of(r@) == collect_names(self@, seq![]),
    {
        let mut names: Vec<&'a str> = Vec::new();
        assert(names_of(names@) =~= seq![]);
        self.collect_variables(&mut names);
        names
    }

    /// The expression with every occurrence of the variable `name` replaced
    /// by a copy of `replacement`. Names of functions and longer names that
    /// contain `name` are left alone.
    pub fn substitute(&self, name: &str, replacement: &Self) -> (r: Self)
        ensures
            r@ == substitution(self@, name@, replacement@),
        decreases self,
    {
        proof { self.lemma_view(); }
        if let Operation::Variable(own) = self.operation {
            if same_name(own, name) {
                return replacement.duplicate();
            }
        }
        let mut operands: Vec<Self> = Vec::new();
        let n = self.operands.len();
        for i in 0..n
            invariant
                n == self.operands@.len(),
                operands@.len() == i,
                forall|j: int|
                    0 <= j < i ==> #[trigger] operands@[j]@ == substitution(
                        self.operands@[j]@,
                        name@,
                        replacement@,
                    ),
        {
            operands.push(self.operands[i].substitute(name, replacement));
        }
        let r = Self::new(self.operation, operands);
        assert(r@.args =~= substitution(self@, name@, replacement@).args);
        r
    }
}


/// Calls `HashMap::get` with a name: the value whose key has the same text,
/// if there is one.
#[verifier::external_body]
fn lookup_value<'b, T: Copy>(args: &HashMap<&'b str, T>, name: &str) -> (r: Option<T>)
    ensures
        r == lookup(args@, name@),
{
    args.get(name).copied()
}

/// The value of `sign(value)` (see `sign_of`): `NaN` stays `NaN`, a positive
/// value gives `1`, a negative one `-1`, and both zeros `0`.
pub fn sign_value<T: Scalar>(value: T) -> (r: T)
    ensures
        r == sign_of(value),
{
    if T::is_nan(value) {
        value
    } else if T::less(T::integer(0), value) {
        T::integer(1)
    } else if T::less(value, T::integer(0)) {
        T::unary(UnaryFunction::Negate, T::integer(1))
    } else {
        T::integer(0)
    }
}

impl<'a, T: Scalar> Operation<'a, T> {
    fn binary_function(&self) -> (r: Option<BinaryFunction>)
        ensures
            r == binary_function_of(self.symbol()),
    {
        match self {
            Operation::Add => Some(BinaryFunction::Add),
            Operation::Subtract => Some(BinaryFunction::Subtract),
            Operation::Multiply => Some(BinaryFunction::Multiply),
            Operation::Divide => Some(BinaryFunction::Divide),
            Operation::Power => Some(BinaryFunction::Power),
            _ => None,
        }
    }

    fn unary_function(&self) -> (r: Option<UnaryFunction>)
        ensures
            r == unary_function_of(self.symbol()),
    {
        match self {
            Operation::Negate => Some(UnaryFunction::Negate),
            Operation::Sine => Some(UnaryFunction::Sine),
            Operation::Cosine => Some(UnaryFunction::Cosine),
            Operation::Tangent => Some(UnaryFunction::Tangent),
            Operation::ArcSine => Some(UnaryFunction::ArcSine),
            Operation::ArcCosine => Some(UnaryFunction::ArcCosine),
            Operation::ArcTangent => Some(UnaryFunction::ArcTangent),
            Operation::HyperbolicSine => Some(UnaryFunction::HyperbolicSine),
            Operation::HyperbolicCosine => Some(UnaryFunction::HyperbolicCosine),
            Operation::HyperbolicTangent => Some(UnaryFunction::HyperbolicTangent),
            Operation::AbsoluteValue => Some(UnaryFunction::AbsoluteValue),
            Operation::Exponent => Some(UnaryFunction::Exponent),
            Operation::SquareRoot => Some(UnaryFunction::SquareRoot),
            Operation::NaturalLogarithm => Some(UnaryFunction::NaturalLogarithm),
            Operation::CommonLogarithm => Some(UnaryFunction::CommonLogarithm),
            _ => None,
        }
    }

    fn is_sign(&self) -> (r: bool)
        ensures
            r == (self.symbol() is Sign),
    {
        match self {
            Operation::Sign => true,
            _ => false,
        }
    }

    /// The kind of the operation as a number (see `symbol_code`).
    fn code(&self) -> (r: u8)
        ensures
            r == symbol_code(self.symbol()),
    {
        match self {
            Operation::Variable(_) => 0,
            Operation::Constant(_) => 1,
            Operation::Add => 2,
            Operation::Subtract => 3,
            Operation::Multiply => 4,
            Operation::Divide => 5,
            Operation::Power => 6,
            Operation::Negate => 7,
            Operation::Sine => 8,
            Operation::Cosine => 9,
            Operation::Tangent => 10,
            Operation::ArcSine => 11,
            Operation::ArcCosine => 12,
            Operation::ArcTangent => 13,
            Operation::HyperbolicSine => 14,
            Operation::HyperbolicCosine => 15,
            Operation::HyperbolicTangent => 16,
            Operation::Sign => 17,
            Operation::AbsoluteValue => 18,
            Operation::Exponent => 19,
            Operation::SquareRoot => 20,
            Operation::NaturalLogarithm => 21,
            Operation::CommonLogarithm => 22,
            Operation::ImmediateIf => 23,
        }
    }

    /// The number of operands that the operation takes.
    fn operand_count(&self) -> (r: usize)
        ensures
            r == arity(self.symbol()),
    {
        match self {
            Operation::Variable(_) | Operation::Constant(_) => 0,
            Operation::Add | Operation::Subtract | Operation::Multiply | Operation::Divide
            | Operation::Power => 2,
            Operation::ImmediateIf => 3,
            _ => 1,
        }
    }
}

impl<'a, T: Scalar> MathExpr<'a, T> {
    /// The value of the expression when each variable has the value that
    /// `args` binds to its name. See `value_of`: floating-point results such
    /// as infinity or `NaN` are values, not errors.
    pub fn evaluate(&self, args: &HashMap<&str, T>) -> (r: Result<T, EvaluationError<'a, T>>)
        ensures
            match value_of(self@, |n: Seq<char>| lookup(args@, n)) {
                Ok(v) => r == Ok::<T, EvaluationError<'a, T>>(v),
                Err(f) => r is Err && r->Err_0.failure() == f,
            },
        decreases self,
    {
        proof { self.lemma_view(); }
        match self.operation {
            Operation::Variable(name) => match lookup_value(args, name) {
                Some(value) => Ok(value),
                None => Err(EvaluationError::VariableNotDefined(name)),
            },
            Operation::Constant(value) => Ok(value),
            operation => {
                let expected = operation.operand_count();
                if self.operands.len() != expected {
                    return Err(
                        EvaluationError::InvalidOperandCount {
                            operation,
                            expected,
                            actual: self.operands.len(),
                        },
                    );
                }
                if let Operation::ImmediateIf = operation {
                    let check = self.operands[0].evaluate(args)?;
                    if T::less(check, T::integer(0)) {
                        self.operands[1].evaluate(args)
                    } else {
                        self.operands[2].evaluate(args)
                    }
                } else if expected == 2 {
                    let left = self.operands[0].evaluate(args)?;
                    let right = self.operands[1].evaluate(args)?;
                    match operation.binary_function() {
                        Some(function) => Ok(T::binary(function, left, right)),
                        None => Ok(left),
                    }
                } else {
                    let value = self.operands[0].evaluate(args)?;
                    if let Operation::Sign = operation {
                        Ok(sign_value(value))
                    } else {
                        match operation.unary_function() {
                            Some(function) => Ok(T::unary(function, value)),
                            None => Ok(value),
                        }
                    }
                }
            },
        }
    }
}


/// The coefficients and terms as one list of pairs.
pub open spec fn term_pairs<'a, T>(cs: Seq<T>, ts: Seq<MathExpr<'a, T>>) -> Seq<(T, Tree<T>)> {
    Seq::new(cs.len(), |i: int| (cs[i], ts[i]@))
}

impl<'a, T: Scalar> MathExpr<'a, T> {
    /// Equality node by node, with constants compared numerically.
    fn same_as(&self, other: &Self) -> (r: bool)
        ensures
            r == same_tree(self@, other@),
        decreases self,
    {
        proof {
            self.lemma_view();
            other.lemma_view();
        }
        let same_operation = match (self.operation, other.operation) {
            (Operation::Constant(x), Operation::Constant(y)) => T::equal(x, y),
            (Operation::Variable(m), Operation::Variable(n)) => same_name(m, n),
            (Operation::Variable(_), _) | (_, Operation::Variable(_)) => false,
            (Operation::Constant(_), _) | (_, Operation::Constant(_)) => false,
            (a, b) => {
                let same = a.code() == b.code();
                proof {
                    if same {
                        lemma_symbol_code(a.symbol(), b.symbol());
                    }
                }
                same
            },
        };
        if !same_operation || self.operands.len() != other.operands.len() {
            return false;
        }
        let n = self.operands.len();
        let mut k: usize = n;
        while k > 0
            invariant
                n == self.operands@.len(),
                n == other.operands@.len(),
                k <= n,
                same_trees_from(self@.args, other@.args, k as int),
                forall|j: int| 0 <= j < n ==> #[trigger] self@.args[j] == self.operands@[j]@,
                forall|j: int| 0 <= j < n ==> #[trigger] other@.args[j] == other.operands@[j]@,
            decreases k,
        {
            k = k - 1;
            if !self.operands[k].same_as(&other.operands[k]) {
                proof {
                    lemma_same_trees_from_fails(self@.args, other@.args, 0, k as int);
                }
                return false;
            }
        }
        true
    }

    fn coefficient_and_term(&self) -> (r: (T, Self))
        ensures
            (r.0, r.1@) == coefficient_and_term(self@),
    {
        proof { self.lemma_view(); }
        if let Operation::Multiply = self.operation {
            if self.operands.len() == 2 {
                return match self.operands[0].constant_value() {
                    Some(value) => (value, self.operands[1].duplicate()),
                    None => (T::integer(1), self.duplicate()),
                };
            }
        }
        if let Operation::Negate = self.operation {
            if self.operands.len() == 1 {
                return (T::unary(UnaryFunction::Negate, T::integer(1)), self.operands[0].duplicate());
            }
        }
        (T::integer(1), self.duplicate())
    }

    fn scale_term(coefficient: T, term: Self) -> (r: Self)
        ensures
            r@ == scale_term(coefficient, term@),
    {
        if T::equal(coefficient, T::integer(1)) {
            term
        } else if T::equal(coefficient, T::unary(UnaryFunction::Negate, T::integer(1))) {
            Self::new_negate(term)
        } else {
            Self::new_multiply(Self::new_const(coefficient), term)
        }
    }

    /// Adds `coefficient * term` to the terms (see `add_term`).
    fn add_term(coefficients: &mut Vec<T>, terms: &mut Vec<Self>, coefficient: T, term: Self)
        requires
            old(coefficients)@.len() == old(terms)@.len(),
        ensures
            final(coefficients)@.len() == final(terms)@.len(),
            term_pairs(final(coefficients)@, final(terms)@) == add_term(
                term_pairs(old(coefficients)@, old(terms)@),
                coefficient,
                term@,
            ),
    {
        let ghost pairs = term_pairs(coefficients@, terms@);
        let mut k: usize = 0;
        while k < terms.len()
            invariant
                coefficients@.len() == terms@.len(),
                pairs == term_pairs(coefficients@, terms@),
                pairs == term_pairs(old(coefficients)@, old(terms)@),
                k <= terms@.len(),
                find_term(pairs, term@, 0) == find_term(pairs, term@, k as int),
            decreases terms@.len() - k,
        {
            assert(pairs[k as int].1 == terms@[k as int]@);
            if terms[k].same_as(&term) {
                assert(find_term(pairs, term@, k as int) == Some(k as int));
                let updated = T::binary(BinaryFunction::Add, coefficients[k], coefficient);
                coefficients.set(k, updated);
                proof {
                    assert(term_pairs(coefficients@, terms@) =~= pairs.update(
                        k as int,
                        (plus(pairs[k as int].0, coefficient), pairs[k as int].1),
                    ));
                    assert(find_term(pairs, term@, 0) == Some(k as int));
                    assert(add_term(pairs, coefficient, term@) == pairs.update(
                        k as int,
                        (plus(pairs[k as int].0, coefficient), pairs[k as int].1),
                    ));
                }
                return;
            }
            k += 1;
        }
        coefficients.push(coefficient);
        terms.push(term);
        proof {
            assert(term_pairs(coefficients@, terms@) =~= pairs.push((coefficient, term@)));
        }
    }

    /// Gathers the addends of `expression`, each multiplied by `sign`, into the
    /// terms; returns the constant with the constant addends added to it.
    fn collect_addends(
        expression: &Self,
        sign: T,
        coefficients: &mut Vec<T>,
        terms: &mut Vec<Self>,
        constant: T,
    ) -> (r: T)
        requires
            old(coefficients)@.len() == old(terms)@.len(),
        ensures
            final(coefficients)@.len() == final(terms)@.len(),
            (term_pairs(final(coefficients)@, final(terms)@), r) == collect_addends(
                expression@,
                sign,
                term_pairs(old(coefficients)@, old(terms)@),
                constant,
            ),
        decreases expression,
    {
        proof { expression.lemma_view(); }
        let count = expression.operands.len();
        match expression.operation {
            Operation::Add if count == 2 => {
                let constant = Self::collect_addends(
                    &expression.operands[0],
                    sign,
                    coefficients,
                    terms,
                    constant,
                );
                Self::collect_addends(&expression.operands[1], sign, coefficients, terms, constant)
            },
            Operation::Subtract if count == 2 => {
                let constant = Self::collect_addends(
                    &expression.operands[0],
                    sign,
                    coefficients,
                    terms,
                    constant,
                );
                Self::collect_addends(
                    &expression.operands[1],
                    T::unary(UnaryFunction::Negate, sign),
                    coefficients,
                    terms,
                    constant,
                )
            },
            Operation::Constant(value) if count == 0 => {
                T::binary(BinaryFunction::Add, constant, T::binary(BinaryFunction::Multiply, sign, value))
            },
            _ => {
                let (coefficient, term) = expression.coefficient_and_term();
                Self::add_term(
                    coefficients,
                    terms,
                    T::binary(BinaryFunction::Multiply, sign, coefficient),
                    term,
                );
                constant
            },
        }
    }

    /// `left + right` (or `left - right`) with like terms combined.
    fn simplify_sum(left: Self, right: Self, subtract_right: bool) -> (r: Self)
        ensures
            r@ == sum_of(left@, right@, subtract_right),
    {
        let mut coefficients: Vec<T> = Vec::new();
        let mut terms: Vec<Self> = Vec::new();
        proof {
            assert(term_pairs(coefficients@, terms@) =~= seq![]);
        }
        let constant = Self::collect_addends(
            &left,
            T::integer(1),
            &mut coefficients,
            &mut terms,
            T::integer(0),
        );
        let right_sign = if subtract_right {
            T::unary(UnaryFunction::Negate, T::integer(1))
        } else {
            T::integer(1)
        };
        let constant = Self::collect_addends(
            &right,
            right_sign,
            &mut coefficients,
            &mut terms,
            constant,
        );
        let ghost pairs = term_pairs(coefficients@, terms@);
        let ghost term_list = terms@;
        let mut result: Option<Self> = None;
        let n = terms.len();
        let mut k: usize = 0;
        let mut remaining = terms;
        while k < n
            invariant
                n == coefficients@.len(),
                remaining@.len() == n - k,
                pairs == term_pairs(coefficients@, term_list),
                k <= n,
                forall|j: int| 0 <= j < n - k ==> #[trigger] remaining@[j]@ == pairs[k + j].1,
                sum_terms(pairs, 0, None) == sum_terms(
                    pairs,
                    k as int,
                    match result {
                        Some(e) => Some(e@),
                        None => None::<Tree<T>>,
                    },
                ),
            decreases n - k,
        {
            let coefficient = coefficients[k];
            let ghost before = remaining@;
            let term = remaining.remove(0);
            assert(term@ == pairs[k as int].1) by {
                assert(before[0]@ == pairs[k + 0].1);
            }
            assert forall|j: int| 0 <= j < n - (k + 1) implies #[trigger] remaining@[j]@ == pairs[
                k + 1 + j].1 by {
                assert(remaining@[j] == before[j + 1]);
                assert(before[j + 1]@ == pairs[k + (j + 1)].1);
            }
            if !T::equal(coefficient, T::integer(0)) {
                let scaled = Self::scale_term(coefficient, term);
                result = Some(
                    match result {
                        Some(expression) => Self::new_add(expression, scaled),
                        None => scaled,
                    },
                );
            }
            k += 1;
        }
        if !T::equal(constant, T::integer(0)) {
            let constant = Self::new_const(constant);
            result = Some(
                match result {
                    Some(expression) => Self::new_add(expression, constant),
                    None => constant,
                },
            );
        }
        match result {
            Some(expression) => expression,
            None => Self::new_const(T::integer(0)),
        }
    }
}

impl<'a, T: Scalar> MathExpr<'a, T> {
    /// The operands, moved out of the expression.
    fn into_operands(self) -> (r: Vec<Self>)
        ensures
            r@.len() == self@.args.len(),
            forall|i: int| 0 <= i < r@.len() ==> #[trigger] r@[i]@ == self@.args[i],
    {
        proof { self.lemma_view(); }
        self.operands
    }

    /// `-operand` (see `negation_of`).
    fn simplify_negation(operand: Self) -> (r: Self)
        ensures
            r@ == negation_of(operand@),
    {
        proof { operand.lemma_view(); }
        if let Some(value) = operand.constant_value() {
            return Self::new_const(T::unary(UnaryFunction::Negate, value));
        }
        if let Operation::Negate = operand.operation {
            if operand.operands.len() == 1 {
                let mut operands = operand.into_operands();
                let inner = operands.pop().unwrap();
                return inner;
            }
        }
        Self::new_negate(operand)
    }

    /// `left * right` (see `product_of`).
    fn simplify_product(left: Self, right: Self) -> (r: Self)
        ensures
            r@ == product_of(left@, right@),
        decreases (if const_of(left@) is Some {
            0int
        } else {
            1int
        }),
    {
        let lc = left.constant_value();
        let rc = right.constant_value();
        let one = T::integer(1);
        let zero = T::integer(0);
        let minus_one = T::unary(UnaryFunction::Negate, one);
        if lc.is_some() && rc.is_some() {
            Self::new_const(T::binary(BinaryFunction::Multiply, lc.unwrap(), rc.unwrap()))
        } else if lc.is_some() && T::equal(lc.unwrap(), zero) {
            Self::new_const(zero)
        } else if rc.is_some() && T::equal(rc.unwrap(), zero) {
            Self::new_const(zero)
        } else if lc.is_some() && T::equal(lc.unwrap(), one) {
            right
        } else if rc.is_some() && T::equal(rc.unwrap(), one) {
            left
        } else if lc.is_some() && T::equal(lc.unwrap(), minus_one) {
            Self::simplify_negation(right)
        } else if rc.is_some() && T::equal(rc.unwrap(), minus_one) {
            Self::simplify_negation(left)
        } else if lc.is_some() {
            let value = lc.unwrap();
            let (nested, term) = right.coefficient_and_term();
            if T::equal(nested, one) {
                Self::new_multiply(Self::new_const(value), right)
            } else {
                Self::scale_term(T::binary(BinaryFunction::Multiply, value, nested), term)
            }
        } else if rc.is_some() {
            Self::simplify_product(Self::new_const(rc.unwrap()), left)
        } else {
            Self::new_multiply(left, right)
        }
    }

    /// `numerator / denominator` (see `quotient_of`).
    fn simplify_quotient(numerator: Self, denominator: Self) -> (r: Self)
        ensures
            r@ == quotient_of(numerator@, denominator@),
    {
        let nc = numerator.constant_value();
        let dc = denominator.constant_value();
        let one = T::integer(1);
        let zero = T::integer(0);
        if nc.is_some() && dc.is_some() {
            Self::new_const(T::binary(BinaryFunction::Divide, nc.unwrap(), dc.unwrap()))
        } else if nc.is_some() && T::equal(nc.unwrap(), zero) {
            Self::new_const(zero)
        } else if numerator.same_as(&denominator) {
            Self::new_const(one)
        } else if dc.is_some() && T::equal(dc.unwrap(), one) {
            numerator
        } else if dc.is_some() && T::equal(dc.unwrap(), T::unary(UnaryFunction::Negate, one)) {
            Self::simplify_negation(numerator)
        } else {
            Self::new_divide(numerator, denominator)
        }
    }

    /// `base ^ exponent` (see `power_of`).
    fn simplify_power(base: Self, exponent: Self) -> (r: Self)
        ensures
            r@ == power_of(base@, exponent@),
        decreases base@,
    {
        proof { base.lemma_view(); }
        if let Some(exponent_value) = exponent.constant_value() {
            if T::equal(exponent_value, T::integer(0)) {
                return Self::new_const(T::integer(1));
            }
            if T::equal(exponent_value, T::integer(1)) {
                return base;
            }
            if let Operation::Power = base.operation {
                if base.operands.len() == 2 {
                    if let Some(inner_exponent) = base.operand(1).constant_value() {
                        let inner_base = base.operand(0).duplicate();
                        return Self::simplify_power(
                            inner_base,
                            Self::new_const(
                                T::binary(BinaryFunction::Multiply, inner_exponent, exponent_value),
                            ),
                        );
                    }
                }
            }
            if let Some(base_value) = base.constant_value() {
                return Self::new_const(T::binary(BinaryFunction::Power, base_value, exponent_value));
            }
        }
        Self::new_power(base, exponent)
    }

    /// A logarithm of a simplified operand (see `logarithm_of`).
    fn simplify_logarithm(operation: Operation<'a, T>, function: UnaryFunction, operand: Self) -> (r: Self)
        ensures
            r@ == logarithm_of(operation.symbol(), function, operand@),
    {
        proof { operand.lemma_view(); }
        if let Operation::Power = operand.operation {
            if operand.operands.len() == 2 {
                let mut operands = operand.into_operands();
                let exponent = operands.pop().unwrap();
                let base = operands.pop().unwrap();
                return Self::simplify_product(exponent, Self::new1(operation, base));
            }
        }
        match operand.constant_value() {
            Some(value) => Self::new_const(T::unary(function, value)),
            None => Self::new1(operation, operand),
        }
    }

    /// A one-operand function of a simplified operand (see `function_of`).
    fn simplify_function(operation: Operation<'a, T>, operand: Self) -> (r: Self)
        requires
            operation.symbol() is Sign || unary_function_of(operation.symbol()) is Some,
        ensures
            r@ == function_of(operation.symbol(), operand@),
    {
        match operand.constant_value() {
            Some(value) => {
                if operation.is_sign() {
                    Self::new_const(sign_value(value))
                } else {
                    Self::new_const(T::unary(operation.unary_function().unwrap(), value))
                }
            },
            None => Self::new1(operation, operand),
        }
    }

    /// The simplified expression (see `simplified`): constants are folded,
    /// like terms of sums are combined, the identities of `0`, `1` and `-1`
    /// are applied, and an `iif` with a constant check is replaced by the
    /// branch it selects.
    pub fn simplify(&self) -> (r: Self)
        requires
            wf(self@),
        ensures
            r@ == simplified(self@),
        decreases self,
    {
        proof { self.lemma_view(); }
        match self.operation {
            Operation::Variable(name) => Self::new_var(name),
            Operation::Constant(value) => Self::new_const(value),
            Operation::Add => Self::simplify_sum(
                self.operand(0).simplify(),
                self.operand(1).simplify(),
                false,
            ),
            Operation::Subtract => Self::simplify_sum(
                self.operand(0).simplify(),
                self.operand(1).simplify(),
                true,
            ),
            Operation::Multiply => Self::simplify_product(
                self.operand(0).simplify(),
                self.operand(1).simplify(),
            ),
            Operation::Divide => Self::simplify_quotient(
                self.operand(0).simplify(),
                self.operand(1).simplify(),
            ),
            Operation::Power => Self::simplify_power(
                self.operand(0).simplify(),
                self.operand(1).simplify(),
            ),
            Operation::Negate => Self::simplify_negation(self.operand(0).simplify()),
            Operation::NaturalLogarithm => Self::simplify_logarithm(
                Operation::NaturalLogarithm,
                UnaryFunction::NaturalLogarithm,
                self.operand(0).simplify(),
            ),
            Operation::CommonLogarithm => Self::simplify_logarithm(
                Operation::CommonLogarithm,
                UnaryFunction::CommonLogarithm,
                self.operand(0).simplify(),
            ),
            Operation::ImmediateIf => {
                let check = self.operand(0).simplify();
                match check.constant_value() {
                    Some(value) => {
                        if T::less(value, T::integer(0)) {
                            self.operand(1).simplify()
                        } else {
                            self.operand(2).simplify()
                        }
                    },
                    None => Self::new_iif(
                        check,
                        self.operand(1).simplify(),
                        self.operand(2).simplify(),
                    ),
                }
            },
            operation => Self::simplify_function(operation, self.operand(0).simplify()),
        }
    }
}

impl<'a, T: Scalar> Operation<'a, T> {
    /// The name of the operation as text (see `operation_name`).
    pub fn to_text(&self) -> (r: String)
        ensures
            r@ == operation_name(self.symbol()),
    {
        let name: &str = match self {
            Operation::Variable(name) => name,
            Operation::Constant(_) => "Constant",
            Operation::Add => "+",
            Operation::Subtract => "-",
            Operation::Multiply => "*",
            Operation::Divide => "/",
            Operation::Power => "^",
            Operation::Negate => "-",
            Operation::Sine => "sin",
            Operation::Cosine => "cos",
            Operation::Tangent => "tan",
            Operation::ArcSine => "asin",
            Operation::ArcCosine => "acos",
            Operation::ArcTangent => "atan",
            Operation::HyperbolicSine => "sinh",
            Operation::HyperbolicCosine => "cosh",
            Operation::HyperbolicTangent => "tanh",
            Operation::Sign => "sign",
            Operation::AbsoluteValue => "abs",
            Operation::Exponent => "exp",
            Operation::SquareRoot => "sqrt",
            Operation::NaturalLogarithm => "ln",
            Operation::CommonLogarithm => "log10",
            Operation::ImmediateIf => "iif",
        };
        String::from_str(name)
    }
}

impl<'a, T: Scalar> MathExpr<'a, T> {
    /// Appends the text of the expression to `out`.
    fn write_into(&self, out: &mut String)
        requires
            wf(self@),
        ensures
            final(out)@ == old(out)@ + written(self@),
        decreases self,
    {
        proof { self.lemma_view(); }
        match self.operation {
            Operation::Variable(name) => {
                out.append(name);
            },
            Operation::Constant(value) => {
                let text = T::text(value);
                out.append(text.as_str());
            },
            Operation::Add | Operation::Subtract | Operation::Multiply | Operation::Divide
            | Operation::Power => {
                let name = self.operation.to_text();
                out.append("(");
                self.operand(0).write_into(out);
                out.append(" ");
                out.append(name.as_str());
                out.append(" ");
                self.operand(1).write_into(out);
                out.append(")");
            },
            Operation::Negate => {
                out.append("(-");
                self.operand(0).write_into(out);
                out.append(")");
            },
            Operation::ImmediateIf => {
                out.append("iif(");
                self.operand(0).write_into(out);
                out.append(", ");
                self.operand(1).write_into(out);
                out.append(", ");
                self.operand(2).write_into(out);
                out.append(")");
            },
            _ => {
                let name = self.operation.to_text();
                out.append(name.as_str());
                out.append("(");
                self.operand(0).write_into(out);
                out.append(")");
            },
        }
        assert(out@ =~= old(out)@ + written(self@));
    }

    /// The expression as text (see `written`), e.g. `((2 * x) + sin(y))`.
    pub fn to_text(&self) -> (r: String)
        requires
            wf(self@),
        ensures
            r@ == written(self@),
    {
        let mut out = String::new();
        self.write_into(&mut out);
        assert(out@ =~= written(self@));
        out
    }
}

impl<'a, T> EvaluationError<'a, T> {
    /// The text of the error.
    pub open spec fn message(self) -> Seq<char> {
        match self {
            EvaluationError::InvalidOperandCount { operation, expected, actual } => operation_name(
                operation.symbol(),
            ) + " expects "@ + decimal(expected as nat) + " operands, but received "@ + decimal(
                actual as nat,
            ),
            EvaluationError::VariableNotDefined(name) => "Variable "@ + name@ + " not defined"@,
        }
    }
}

impl<'a, T: Scalar> EvaluationError<'a, T> {
    /// The error as text: `<operation> expects <n> operands, but received <m>`
    /// or `Variable <name> not defined`.
    pub fn to_text(&self) -> (r: String)
        ensures
            r@ == self.message(),
    {
        match self {
            EvaluationError::InvalidOperandCount { operation, expected, actual } => {
                let mut r = operation.to_text();
                r.append(" expects ");
                let digits = usize_to_text(*expected);
                r.append(digits.as_str());
                r.append(" operands, but received ");
                let digits = usize_to_text(*actual);
                r.append(digits.as_str());
                r
            },
            EvaluationError::VariableNotDefined(name) => {
                let mut r = String::from_str("Variable ");
                r.append(name);
                r.append(" not defined");
                r
            },
        }
    }
}

/// Once two operand lists differ at `k`, they differ from any start up to `k`.
proof fn lemma_same_trees_from_fails<T: Scalar>(a: Seq<Tree<T>>, b: Seq<Tree<T>>, j: int, k: int)
    requires
        0 <= j <= k < a.len(),
        k < b.len(),
        !same_tree(a[k], b[k]),
    ensures
        !same_trees_from(a, b, j),
    decreases k - j,
{
    if j < k {
        lemma_same_trees_from_fails(a, b, j + 1, k);
    }
}

impl<'a, T: Scalar> Clone for MathExpr<'a, T> {
    fn clone(&self) -> (r: Self)
        ensures
            r@ == self@,
    {
        self.duplicate()
    }
}

} // verus!
