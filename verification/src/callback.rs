//! What the step routines ask of a system while they integrate it: the
//! values of its right-hand sides, their Jacobian and time derivative, and
//! the matrix and forcing terms of linear systems, at a time and a state.
use vstd::prelude::*;
use crate::derivative::{derivative, int_leaf};
use crate::evaluation::{lookup, value_of};
use crate::laws::{lemma_derivative, lemma_simplified, lemma_value_defined};
use crate::math_expr::MathExpr;
use crate::ode_system::{OdeSystem, SystemModel, sound, system_names, trees_of};
use crate::scalar::Scalar;
use crate::simplification::simplified;
use crate::solver::{Method, SolverError, all_finite};
use crate::tree::{Tree, wf, mentions};
use std::collections::HashMap;

verus! {

/// Which expressions a step routine asks for.
#[derive(Clone, Copy, Debug, PartialEq, Eq, Structural)]
pub enum CallbackKind {
    /// The right-hand sides.
    Rhs,
    /// The Jacobian of the right-hand sides, column-major.
    Jacobian,
    /// The derivatives of the right-hand sides by time.
    TimeDerivative,
    /// The matrix of a linear system, column-major.
    Matrix,
    /// The forcing terms of a linear system.
    Forcing,
}

/// Whether the method needs the Jacobian.
pub open spec fn uses_jacobian(method: Method) -> bool {
    method == Method::Lawson || method == Method::Rosenbrock || method == Method::RosenbrockAutonomous
}

/// The column of the Jacobian for state `column`: each right-hand side
/// differentiated by that state's name and simplified.
pub open spec fn jacobian_column<T: Scalar>(m: SystemModel<T>, column: int) -> Seq<Tree<T>> {
    Seq::new(m.rhs.len(), |row: int| simplified(derivative(m.rhs[row], m.names[column])))
}

/// The first `columns` columns of the Jacobian, one after another.
pub open spec fn jacobian_of<T: Scalar>(m: SystemModel<T>, columns: int) -> Seq<Tree<T>>
    decreases columns,
{
    if columns <= 0 {
        seq![]
    } else {
        jacobian_of(m, columns - 1) + jacobian_column(m, columns - 1)
    }
}

/// The derivative of each right-hand side by time, simplified; `0` for a
/// system without time.
pub open spec fn time_derivatives_of<T: Scalar>(m: SystemModel<T>) -> Seq<Tree<T>> {
    Seq::new(
        m.rhs.len(),
        |row: int|
            match m.time {
                Some(t) => simplified(derivative(m.rhs[row], t)),
                None => int_leaf(0),
            },
    )
}

/// The values of the variables after the first `k` state names are bound
/// to the state, in order.
pub open spec fn bind_states<T>(
    env: spec_fn(Seq<char>) -> Option<T>,
    names: Seq<Seq<char>>,
    state: Seq<T>,
    k: int,
) -> spec_fn(Seq<char>) -> Option<T>
    decreases k,
{
    if k <= 0 {
        env
    } else {
        let previous = bind_states(env, names, state, k - 1);
        |n: Seq<char>|
            if n == names[k - 1] {
                Some(state[k - 1])
            } else {
                previous(n)
            }
    }
}

/// The values of the variables at a time and state: each state name bound
/// to its component (as far as both go), then the time name to the time.
pub open spec fn bind_point<T>(
    env: spec_fn(Seq<char>) -> Option<T>,
    m: SystemModel<T>,
    time: T,
    state: Seq<T>,
) -> spec_fn(Seq<char>) -> Option<T> {
    let count = if m.names.len() <= state.len() {
        m.names.len() as int
    } else {
        state.len() as int
    };
    let states = bind_states(env, m.names, state, count);
    |n: Seq<char>|
        if m.time == Some(n) {
            Some(time)
        } else {
            states(n)
        }
}

/// The outcome of evaluating the expressions: their values, all finite, or
/// the first expression whose value is not finite.
pub open spec fn values_outcome<T: Scalar>(
    exprs: Seq<Tree<T>>,
    env: spec_fn(Seq<char>) -> Option<T>,
    time: T,
    r: Result<Vec<T>, SolverError<T>>,
) -> bool {
    match r {
        Ok(values) => {
            &&& values@.len() == exprs.len()
            &&& forall|i: int|
                0 <= i < exprs.len() ==> value_of(#[trigger] exprs[i], env) == Ok::<T, crate::evaluation::EvaluationFailure<T>>(
                    values@[i],
                ) && T::spec_is_finite(values@[i])
        },
        Err(e) => exists|i: int|
            #![trigger exprs[i]]
            0 <= i < exprs.len() && (forall|j: int|
                0 <= j < i ==> value_of(#[trigger] exprs[j], env) is Ok && T::spec_is_finite(
                    value_of(exprs[j], env)->Ok_0,
                )) && value_of(exprs[i], env) is Ok && !T::spec_is_finite(value_of(exprs[i], env)->Ok_0)
                && e == SolverError::<T>::NonFiniteDerivative { equation: i as usize, time },
    }
}

/// Calls `HashMap::insert`: afterwards the name has the value, and every
/// other name keeps its value.
#[verifier::external_body]
pub(crate) fn bind_value<'a, T: Copy>(variables: &mut HashMap<&'a str, T>, name: &'a str, value: T)
    ensures
        forall|n: Seq<char>|
            #[trigger] lookup(final(variables)@, n) == if n == name@ {
                Some(value)
            } else {
                lookup(old(variables)@, n)
            },
{
    variables.insert(name, value);
}

/// The state of the callbacks during one integration.
pub struct CallbackContext<'s, 'a, T> {
    system: &'s OdeSystem<'a, T>,
    jacobian: Vec<MathExpr<'a, T>>,
    time_derivative: Vec<MathExpr<'a, T>>,
    variables: HashMap<&'a str, T>,
    current_time: T,
    error: Option<SolverError<T>>,
}

impl<'s, 'a, T> CallbackContext<'s, 'a, T> {
    /// Every name of the system has a value, and the derived expressions use
    /// only the system's names. Every context that `new` makes is ready, and
    /// every method keeps it so.
    pub closed spec fn ready(&self) -> bool {
        &&& forall|x: Seq<char>|
            system_names(self.system@).contains(x) ==> (#[trigger] lookup(self.variables@, x)) is Some
        &&& sound(trees_of(self.jacobian@), system_names(self.system@))
        &&& sound(trees_of(self.time_derivative@), system_names(self.system@))
    }

    /// The system being integrated.
    pub closed spec fn model(&self) -> SystemModel<T> {
        self.system@
    }

    /// The Jacobian of the right-hand sides, column-major (empty unless the
    /// method needs it).
    pub closed spec fn jacobian_trees(&self) -> Seq<Tree<T>> {
        trees_of(self.jacobian@)
    }

    /// The time derivatives of the right-hand sides (empty unless the
    /// method needs them).
    pub closed spec fn time_derivative_trees(&self) -> Seq<Tree<T>> {
        trees_of(self.time_derivative@)
    }

    /// The value of each variable at the last point evaluated.
    pub closed spec fn env(&self) -> spec_fn(Seq<char>) -> Option<T> {
        |n: Seq<char>| lookup(self.variables@, n)
    }

    /// The time that autonomous callbacks evaluate at.
    pub closed spec fn time_value(&self) -> T {
        self.current_time
    }

    /// The error that a callback met, if any.
    pub closed spec fn pending(&self) -> Option<SolverError<T>> {
        self.error
    }

    /// The expressions of one kind.
    pub open spec fn expressions_of(&self, kind: CallbackKind) -> Seq<Tree<T>> {
        match kind {
            CallbackKind::Rhs => self.model().rhs,
            CallbackKind::Jacobian => self.jacobian_trees(),
            CallbackKind::TimeDerivative => self.time_derivative_trees(),
            CallbackKind::Matrix => self.model().matrix,
            CallbackKind::Forcing => self.model().forcing,
        }
    }
}

/// Appending a sound expression keeps a list sound.
proof fn lemma_sound_push<T>(ts: Seq<Tree<T>>, t: Tree<T>, allowed: Seq<Seq<char>>)
    requires
        sound(ts, allowed),
        sound(seq![t], allowed),
    ensures
        sound(ts.push(t), allowed),
{
    assert(seq![t][0] == t);
    assert forall|i: int| 0 <= i < ts.push(t).len() implies wf(#[trigger] ts.push(t)[i]) && forall|x: Seq<char>|
        mentions(ts.push(t)[i], x) ==> allowed.contains(x) by {
        if i < ts.len() {
            assert(ts.push(t)[i] == ts[i]);
        } else {
            assert(ts.push(t)[i] == t);
        }
    }
}

/// The trees of a list with one more expression.
proof fn lemma_trees_push<'a, T>(v: Seq<MathExpr<'a, T>>, e: MathExpr<'a, T>)
    ensures
        trees_of(v.push(e)) == trees_of(v).push(e@),
{
    assert(trees_of(v.push(e)) =~= trees_of(v).push(e@));
}

/// The derivative of a sound expression, simplified, is sound.
proof fn lemma_derived_sound<T: Scalar>(t: Tree<T>, v: Seq<char>, allowed: Seq<Seq<char>>)
    requires
        sound(seq![t], allowed),
    ensures
        sound(seq![simplified(derivative(t, v))], allowed),
{
    assert(seq![t][0] == t);
    let d = simplified(derivative(t, v));
    assert(seq![d][0] == d);
    assert forall|x: Seq<char>| mentions(d, x) implies allowed.contains(x) by {
        lemma_derivative(t, v, x);
        lemma_simplified(derivative(t, v), x);
    }
    lemma_derivative(t, v, v);
    lemma_simplified(derivative(t, v), v);
}

impl<'s, 'a, T: Scalar> CallbackContext<'s, 'a, T> {
    /// The context of an integration of `system` by `method`: the Jacobian
    /// (column by column, each right-hand side differentiated by one state
    /// name) when the method needs it, the time derivatives for
    /// Rosenbrock's method, and every state and time name bound to `0`.
    pub fn new(system: &'s OdeSystem<'a, T>, method: Method) -> (r: Self)
        ensures
            r.model() == system@,
            r.jacobian_trees() == if uses_jacobian(method) {
                jacobian_of(system@, system@.names.len() as int)
            } else {
                seq![]
            },
            r.time_derivative_trees() == if method == Method::Rosenbrock {
                time_derivatives_of(system@)
            } else {
                seq![]
            },
            forall|n: Seq<char>|
                #[trigger] r.env()(n) == if system_names(system@).contains(n) {
                    Some(T::spec_integer(0))
                } else {
                    None
                },
            r.time_value() == T::spec_integer(0),
            r.pending() is None,
            r.ready(),
    {
        let names = system.variables();
        let rhs = system.expressions();
        let ghost m = system@;
        let ghost allowed = system_names(m);
        let mut jacobian: Vec<MathExpr<'a, T>> = Vec::new();
        if method == Method::Lawson || method == Method::Rosenbrock || method == Method::RosenbrockAutonomous {
            let mut column: usize = 0;
            while column < names.len()
                invariant
                    m == system@,
                    allowed == system_names(m),
                    crate::math_expr::names_of(names@) == m.names,
                    trees_of(rhs@) == m.rhs,
                    rhs@.len() == names@.len(),
                    sound(m.rhs, allowed),
                    column <= names@.len(),
                    trees_of(jacobian@) == jacobian_of(m, column as int),
                    sound(trees_of(jacobian@), allowed),
                decreases names@.len() - column,
            {
                let name = names[column];
                assert(m.names[column as int] == name@);
                let ghost before = trees_of(jacobian@);
                let mut row: usize = 0;
                while row < rhs.len()
                    invariant
                        m == system@,
                        allowed == system_names(m),
                        crate::math_expr::names_of(names@) == m.names,
                        trees_of(rhs@) == m.rhs,
                        rhs@.len() == names@.len(),
                        sound(m.rhs, allowed),
                        column < names@.len(),
                        m.names[column as int] == name@,
                        row <= rhs@.len(),
                        before == jacobian_of(m, column as int),
                        trees_of(jacobian@) == before + jacobian_column(m, column as int).take(row as int),
                        sound(trees_of(jacobian@), allowed),
                    decreases rhs@.len() - row,
                {
                    let expression = &rhs[row];
                    assert(m.rhs[row as int] == expression@);
                    assert(wf(expression@));
                    proof {
                        assert(sound(seq![expression@], allowed)) by {
                            assert(seq![expression@][0] == expression@);
                        }
                        lemma_derived_sound(expression@, name@, allowed);
                    }
                    let derived = expression.derive(name);
                    proof {
                        lemma_derivative(expression@, name@, name@);
                    }
                    let entry = derived.simplify();
                    let ghost d = simplified(derivative(expression@, name@));
                    assert(seq![d][0] == d);
                    assert(jacobian_column(m, column as int)[row as int] == d);
                    proof {
                        lemma_trees_push(jacobian@, entry);
                        lemma_sound_push(trees_of(jacobian@), d, allowed);
                    }
                    jacobian.push(entry);
                    row += 1;
                    assert(trees_of(jacobian@) =~= before + jacobian_column(m, column as int).take(row as int));
                }
                assert(jacobian_column(m, column as int).take(rhs@.len() as int) =~= jacobian_column(m, column as int));
                column += 1;
            }
        } else {
            assert(trees_of(jacobian@) =~= seq![]);
        }
        let mut time_derivative: Vec<MathExpr<'a, T>> = Vec::new();
        if method == Method::Rosenbrock {
            let time = system.time();
            let mut row: usize = 0;
            while row < rhs.len()
                invariant
                    m == system@,
                    allowed == system_names(m),
                    trees_of(rhs@) == m.rhs,
                    sound(m.rhs, allowed),
                    match time {
                        Some(t) => m.time == Some(t@),
                        None => m.time is None,
                    },
                    row <= rhs@.len(),
                    trees_of(time_derivative@) == time_derivatives_of(m).take(row as int),
                    sound(trees_of(time_derivative@), allowed),
                decreases rhs@.len() - row,
            {
                let expression = &rhs[row];
                assert(m.rhs[row as int] == expression@);
                let entry = match time {
                    Some(t) => {
                        proof {
                            assert(sound(seq![expression@], allowed)) by {
                                assert(seq![expression@][0] == expression@);
                            }
                            lemma_derived_sound(expression@, t@, allowed);
                            lemma_derivative(expression@, t@, t@);
                        }
                        let derived = expression.derive(t);
                        derived.simplify()
                    },
                    None => MathExpr::new_const(T::integer(0)),
                };
                let ghost e = entry@;
                assert(seq![e][0] == e);
                assert(wf(e));
                assert(time_derivatives_of(m)[row as int] == e);
                proof {
                    lemma_trees_push(time_derivative@, entry);
                    if time is None {
                        assert(sound(seq![e], allowed));
                    }
                    lemma_sound_push(trees_of(time_derivative@), e, allowed);
                }
                time_derivative.push(entry);
                row += 1;
                assert(trees_of(time_derivative@) =~= time_derivatives_of(m).take(row as int));
            }
            assert(time_derivatives_of(m).take(rhs@.len() as int) =~= time_derivatives_of(m));
        } else {
            assert(trees_of(time_derivative@) =~= seq![]);
        }
        let mut variables: HashMap<&'a str, T> = HashMap::new();
        let zero = T::integer(0);
        let mut k: usize = 0;
        while k < names.len()
            invariant
                m == system@,
                crate::math_expr::names_of(names@) == m.names,
                zero == T::spec_integer(0),
                k <= names@.len(),
                forall|n: Seq<char>|
                    #[trigger] lookup(variables@, n) == if m.names.take(k as int).contains(n) {
                        Some(zero)
                    } else {
                        None
                    },
            decreases names@.len() - k,
        {
            let name = names[k];
            assert(m.names[k as int] == name@);
            let ghost prev = m.names.take(k as int);
            bind_value(&mut variables, name, zero);
            k += 1;
            let ghost next = m.names.take(k as int);
            assert(next =~= prev.push(name@));
            assert forall|n: Seq<char>| next.contains(n) == (prev.contains(n) || n == name@) by {
                if next.contains(n) && n != name@ {
                    let j = choose|j: int| 0 <= j < next.len() && next[j] == n;
                    assert(prev[j] == n);
                }
                if prev.contains(n) {
                    let j = choose|j: int| 0 <= j < prev.len() && prev[j] == n;
                    assert(next[j] == n);
                }
                if n == name@ {
                    assert(next[prev.len() as int] == n);
                }
            }
        }
        assert(m.names.take(names@.len() as int) =~= m.names);
        match system.time() {
            Some(t) => {
                bind_value(&mut variables, t, zero);
            },
            None => {},
        }
        assert forall|n: Seq<char>| system_names(m).contains(n) == (m.names.contains(n) || m.time == Some(n)) by {
            if let Some(t) = m.time {
                if m.names.contains(n) {
                    let j = choose|j: int| 0 <= j < m.names.len() && m.names[j] == n;
                    assert(system_names(m)[j] == n);
                }
                if n == t {
                    assert(system_names(m)[m.names.len() as int] == n);
                }
                if system_names(m).contains(n) && n != t {
                    let j = choose|j: int| 0 <= j < system_names(m).len() && system_names(m)[j] == n;
                    assert(m.names[j] == n);
                }
            }
        }
        let context = CallbackContext {
            system,
            jacobian,
            time_derivative,
            variables,
            current_time: zero,
            error: None,
        };
        context
    }
}

impl<'s, 'a, T: Scalar> CallbackContext<'s, 'a, T> {
    /// The time that autonomous callbacks evaluate at.
    pub fn current_time(&self) -> (r: T)
        ensures
            r == self.time_value(),
    {
        self.current_time
    }

    /// Sets the time that autonomous callbacks evaluate at.
    pub fn set_current_time(&mut self, time: T)
        requires
            old(self).ready(),
        ensures
            final(self).ready(),
            final(self).time_value() == time,
            final(self).model() == old(self).model(),
            final(self).jacobian_trees() == old(self).jacobian_trees(),
            final(self).time_derivative_trees() == old(self).time_derivative_trees(),
            final(self).env() == old(self).env(),
            final(self).pending() == old(self).pending(),
    {
        self.current_time = time;
    }

    /// Records the outcome of a callback.
    pub fn set_error(&mut self, error: Option<SolverError<T>>)
        requires
            old(self).ready(),
        ensures
            final(self).ready(),
            final(self).pending() == error,
            final(self).time_value() == old(self).time_value(),
            final(self).model() == old(self).model(),
            final(self).jacobian_trees() == old(self).jacobian_trees(),
            final(self).time_derivative_trees() == old(self).time_derivative_trees(),
            final(self).env() == old(self).env(),
    {
        self.error = error;
    }

    /// Takes the error that a callback met, if any, leaving none.
    pub fn take_error(&mut self) -> (r: Option<SolverError<T>>)
        requires
            old(self).ready(),
        ensures
            final(self).ready(),
            r == old(self).pending(),
            final(self).pending() is None,
            final(self).time_value() == old(self).time_value(),
            final(self).model() == old(self).model(),
            final(self).jacobian_trees() == old(self).jacobian_trees(),
            final(self).time_derivative_trees() == old(self).time_derivative_trees(),
            final(self).env() == old(self).env(),
    {
        let mut error = None;
        std::mem::swap(&mut error, &mut self.error);
        error
    }

    /// The constant matrix of a split system.
    pub fn constant_matrix(&self) -> (r: &[T])
        ensures
            r@ == self.model().constant_matrix,
    {
        self.system.constant_matrix()
    }

    /// Evaluates the expressions of one kind at a time and state: refuses a
    /// time or state that is not finite; else binds each state name to its
    /// component (as far as both go) and the time name to the time, and
    /// gives the values in order, failing at the first that is not finite.
    #[verifier::loop_isolation(false)]
    pub fn evaluate(&mut self, time: T, state: &[T], kind: CallbackKind) -> (r: Result<Vec<T>, SolverError<T>>)
        requires
            old(self).ready(),
        ensures
            final(self).ready(),
            final(self).model() == old(self).model(),
            final(self).jacobian_trees() == old(self).jacobian_trees(),
            final(self).time_derivative_trees() == old(self).time_derivative_trees(),
            final(self).time_value() == old(self).time_value(),
            final(self).pending() == old(self).pending(),
            !(T::spec_is_finite(time) && all_finite(state@)) ==> {
                &&& r == Err::<Vec<T>, SolverError<T>>(SolverError::NonFiniteState { time })
                &&& final(self).env() == old(self).env()
            },
            (T::spec_is_finite(time) && all_finite(state@)) ==> {
                &&& forall|n: Seq<char>|
                    #[trigger] final(self).env()(n) == bind_point(old(self).env(), old(self).model(), time, state@)(n)
                &&& values_outcome(old(self).expressions_of(kind), final(self).env(), time, r)
            },
    {
        let mut finite = T::is_finite(time);
        let mut i: usize = 0;
        while i < state.len()
            invariant
                i <= state@.len(),
                finite == (T::spec_is_finite(time) && forall|j: int|
                    0 <= j < i ==> T::spec_is_finite(#[trigger] state@[j])),
            decreases state@.len() - i,
        {
            finite = finite && T::is_finite(state[i]);
            i += 1;
        }
        if !finite {
            return Err(SolverError::NonFiniteState { time });
        }
        let ghost m = self.system@;
        let ghost env0 = self.env();
        let names = self.system.variables();
        let count = if names.len() <= state.len() {
            names.len()
        } else {
            state.len()
        };
        let mut k: usize = 0;
        while k < count
            invariant
                m == self.system@,
                self.system == old(self).system,
                self.jacobian == old(self).jacobian,
                self.time_derivative == old(self).time_derivative,
                self.current_time == old(self).current_time,
                self.error == old(self).error,
                crate::math_expr::names_of(names@) == m.names,
                count <= names@.len(),
                count <= state@.len(),
                k <= count,
                forall|n: Seq<char>|
                    #[trigger] lookup(self.variables@, n) == bind_states(env0, m.names, state@, k as int)(n),
                forall|x: Seq<char>|
                    system_names(self.system@).contains(x) ==> (#[trigger] lookup(self.variables@, x)) is Some,
                sound(trees_of(self.jacobian@), system_names(self.system@)),
                sound(trees_of(self.time_derivative@), system_names(self.system@)),
            decreases count - k,
        {
            let name = names[k];
            assert(m.names[k as int] == name@);
            bind_value(&mut self.variables, name, state[k]);
            k += 1;
        }
        match self.system.time() {
            Some(t) => {
                bind_value(&mut self.variables, t, time);
            },
            None => {},
        }
        proof {
            assert(self.env() =~= (|n: Seq<char>| lookup(self.variables@, n)));
        }
        let expressions: &[MathExpr<'a, T>] = match kind {
            CallbackKind::Rhs => self.system.expressions(),
            CallbackKind::Jacobian => self.jacobian.as_slice(),
            CallbackKind::TimeDerivative => self.time_derivative.as_slice(),
            CallbackKind::Matrix => self.system.matrix(),
            CallbackKind::Forcing => self.system.forcing(),
        };
        let ghost exprs = trees_of(expressions@);
        assert(exprs == old(self).expressions_of(kind));
        assert(sound(exprs, system_names(m)));
        let ghost env = self.env();
        let mut values: Vec<T> = Vec::new();
        let mut equation: usize = 0;
        while equation < expressions.len()
            invariant
                exprs == trees_of(expressions@),
                sound(exprs, system_names(m)),
                env == (|n: Seq<char>| lookup(self.variables@, n)),
                forall|x: Seq<char>| system_names(m).contains(x) ==> (#[trigger] env(x)) is Some,
                equation <= expressions@.len(),
                values@.len() == equation,
                forall|j: int|
                    0 <= j < equation ==> value_of(#[trigger] exprs[j], env) == Ok::<T, crate::evaluation::EvaluationFailure<T>>(
                        values@[j],
                    ) && T::spec_is_finite(values@[j]),
            decreases expressions@.len() - equation,
        {
            let expression = &expressions[equation];
            assert(exprs[equation as int] == expression@);
            proof {
                lemma_value_defined(expression@, env);
            }
            let value = match expression.evaluate(&self.variables) {
                Ok(value) => value,
                Err(error) => {
                    assert(false);
                    return Err(SolverError::Evaluation { equation, message: error.to_text() });
                },
            };
            if !T::is_finite(value) {
                let e = SolverError::NonFiniteDerivative { equation, time };
                assert(values_outcome(exprs, env, time, Err(e))) by {
                    assert(0 <= equation < exprs.len());
                }
                return Err(e);
            }
            values.push(value);
            equation += 1;
        }
        Ok(values)
    }
}

} // verus!
