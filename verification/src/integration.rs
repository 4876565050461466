//! One integration as a sequence of decisions: it starts from checked
//! inputs, plans each step, and takes each step's outcome, keeping the
//! promised shape of the results at every point.
use vstd::prelude::*;
use crate::ode_system::SystemKind;
use crate::scalar::{Scalar, BinaryFunction};
use crate::solver::{
    Solver, Solution, SolverError, method_supports, workspace_length, direction_of, direction,
    step_outcome, check_step, zero, product, difference, all_finite, TOO_LARGE,
};

verus! {

/// The time `to` lies past `from` in the direction of integration.
pub open spec fn advances<T: Scalar>(direction: T, from: T, to: T) -> bool {
    let a = product(direction, difference(to, from));
    !(T::spec_less(a, zero()) || T::spec_equal(a, zero()))
}

/// Where an integration stands: the solver, the interval, the points
/// accepted so far (the initial point first) with the step recommended at
/// each, whether a planned step awaits its outcome, and whether the end was
/// reached.
pub struct IntegrationState<T> {
    pub solver: Solver<T>,
    pub start_time: T,
    pub initial_state: Seq<T>,
    pub end_time: T,
    pub direction: T,
    pub times: Seq<T>,
    pub states: Seq<Seq<T>>,
    pub recommended_steps: Seq<T>,
    pub planned: bool,
    pub finished: bool,
}

impl<T: Scalar> IntegrationState<T> {
    /// The time reached.
    pub open spec fn time(self) -> T {
        self.times.last()
    }

    /// The step recommended for going on.
    pub open spec fn step(self) -> T {
        self.recommended_steps.last()
    }

    /// The number of accepted steps.
    pub open spec fn steps(self) -> nat {
        (self.times.len() - 1) as nat
    }

    /// The promised shape of the results: the initial point first, one point
    /// per accepted step and no more steps than the limit, every state of the
    /// initial state's length and finite, every later time finite and past
    /// the one before in the direction of integration; a planned step is
    /// within the limit and comes before the end, and a finished integration
    /// has reached the end.
    pub open spec fn holds(self) -> bool {
        &&& self.times.len() >= 1
        &&& self.states.len() == self.times.len()
        &&& self.recommended_steps.len() == self.times.len()
        &&& self.steps() <= self.solver.max_steps
        &&& self.times[0] == self.start_time
        &&& self.states[0] == self.initial_state
        &&& self.direction == direction_of(self.start_time, self.end_time)
        &&& forall|i: int|
            0 <= i < self.states.len() ==> (#[trigger] self.states[i]).len()
                == self.initial_state.len() && all_finite(self.states[i])
        &&& forall|i: int|
            1 <= i < self.times.len() ==> T::spec_is_finite(#[trigger] self.times[i]) && advances(
                self.direction,
                self.times[i - 1],
                self.times[i],
            )
        &&& self.planned ==> self.steps() < self.solver.max_steps && !self.finished
        &&& self.finished ==> !T::spec_less(
            zero(),
            product(self.direction, difference(self.end_time, self.time())),
        )
    }

    /// The integration after planning with the outcome `r`: a step planned
    /// awaits its outcome, and `None` marks the end reached.
    pub open spec fn after_plan(self, r: Result<Option<(T, T)>, SolverError<T>>) -> Self {
        IntegrationState {
            planned: r matches Ok(Some(_)),
            finished: self.finished || r == Ok::<Option<(T, T)>, SolverError<T>>(None),
            ..self
        }
    }

    /// The integration after accepting a step to `time` and `state` that
    /// recommends `step`.
    pub open spec fn after_step(self, time: T, state: Seq<T>, step: T) -> Self {
        IntegrationState {
            times: self.times.push(time),
            states: self.states.push(state),
            recommended_steps: self.recommended_steps.push(step),
            planned: false,
            ..self
        }
    }

    /// The same integration with another planning flag.
    pub open spec fn with_planned(self, planned: bool) -> Self {
        IntegrationState { planned, ..self }
    }
}

/// An integration at its initial point, with the initial step signed by
/// the direction.
pub open spec fn initial_integration<T: Scalar>(
    solver: Solver<T>,
    start_time: T,
    initial_state: Seq<T>,
    end_time: T,
) -> IntegrationState<T> {
    IntegrationState {
        solver,
        start_time,
        initial_state,
        end_time,
        direction: direction_of(start_time, end_time),
        times: seq![start_time],
        states: seq![initial_state],
        recommended_steps: seq![product(direction_of(start_time, end_time), solver.initial_step)],
        planned: false,
        finished: false,
    }
}

/// The states of a solution as sequences.
pub open spec fn state_seqs<T>(states: Seq<Vec<T>>) -> Seq<Seq<T>> {
    states.map_values(|v: Vec<T>| v@)
}

/// An integration in progress (see `IntegrationState`).
pub struct Integration<T> {
    solver: Solver<T>,
    start_time: T,
    initial_state: Ghost<Seq<T>>,
    end_time: T,
    direction: T,
    solution: Solution<T>,
    planned: bool,
    finished: bool,
}

impl<T: Scalar> View for Integration<T> {
    type V = IntegrationState<T>;

    closed spec fn view(&self) -> IntegrationState<T> {
        IntegrationState {
            solver: self.solver,
            start_time: self.start_time,
            initial_state: self.initial_state@,
            end_time: self.end_time,
            direction: self.direction,
            times: self.solution.times@,
            states: state_seqs(self.solution.states@),
            recommended_steps: self.solution.recommended_steps@,
            planned: self.planned,
            finished: self.finished,
        }
    }
}

impl<T: Scalar> Integration<T> {
    /// Starts an integration of a system of `dimension` components and of
    /// the given kind with the solver: fails on inputs that `validate`
    /// refuses, on a method that does not support the kind, and on a system
    /// too large for the method's work array; else the initial point, with
    /// the initial step signed by the direction, and the work array's length.
    pub fn start(
        solver: Solver<T>,
        kind: SystemKind,
        dimension: usize,
        start_time: T,
        initial_state: &[T],
        end_time: T,
    ) -> (r: Result<(Self, usize), SolverError<T>>)
        ensures
            match solver.validation_error(dimension as nat, start_time, initial_state@, end_time) {
                Some(message) => r == Err::<(Self, usize), SolverError<T>>(
                    SolverError::InvalidInput(message),
                ),
                None => if !method_supports(solver.method, kind) {
                    r == Err::<(Self, usize), SolverError<T>>(
                        SolverError::IncompatibleMethod { method: solver.method, system: kind },
                    )
                } else {
                    match workspace_length(solver.method, dimension as nat) {
                        None => r == Err::<(Self, usize), SolverError<T>>(
                            SolverError::InvalidInput(TOO_LARGE),
                        ),
                        Some(len) => {
                            &&& r is Ok
                            &&& r->Ok_0.1 == len
                            &&& r->Ok_0.0@ == initial_integration(
                                solver,
                                start_time,
                                initial_state@,
                                end_time,
                            )
                            &&& r->Ok_0.0@.holds()
                        },
                    }
                },
            },
    {
        solver.validate(dimension, start_time, initial_state, end_time)?;
        if !solver.method.supports(kind) {
            return Err(SolverError::IncompatibleMethod { method: solver.method, system: kind });
        }
        let work_len = solver.method.workspace_len::<T>(dimension)?;
        let direction = direction(start_time, end_time);
        let first_step = T::binary(BinaryFunction::Multiply, direction, solver.initial_step);
        let solution = Solution::start(start_time, initial_state, first_step);
        let r = Integration {
            solver,
            start_time,
            initial_state: Ghost(initial_state@),
            end_time,
            direction,
            solution,
            planned: false,
            finished: false,
        };
        assert(state_seqs(r.solution.states@) =~= seq![initial_state@]);
        Ok((r, work_len))
    }

    /// The time reached.
    pub fn time(&self) -> (r: T)
        requires
            self@.holds(),
        ensures
            r == self@.time(),
    {
        self.solution.times[self.solution.times.len() - 1]
    }

    /// The step recommended for going on.
    pub fn step(&self) -> (r: T)
        requires
            self@.holds(),
        ensures
            r == self@.step(),
    {
        self.solution.recommended_steps[self.solution.recommended_steps.len() - 1]
    }

    /// Plans the next step (see `Solver::plan`): `None` once the end is
    /// reached, else the step and the minimum step; a planned step awaits
    /// its outcome.
    pub fn next_step(&mut self) -> (r: Result<Option<(T, T)>, SolverError<T>>)
        requires
            old(self)@.holds(),
        ensures
            r == old(self)@.solver.plan(
                old(self)@.direction,
                old(self)@.time(),
                old(self)@.end_time,
                old(self)@.step(),
                old(self)@.steps(),
            ),
            final(self)@ == old(self)@.after_plan(r),
            final(self)@.holds(),
    {
        let time = self.time();
        let step = self.step();
        let steps = self.solution.times.len() - 1;
        let r = self.solver.plan_step(self.direction, time, self.end_time, step, steps);
        match r {
            Ok(Some(_)) => {
                self.planned = true;
            },
            Ok(None) => {
                self.planned = false;
                self.finished = true;
            },
            Err(_) => {
                self.planned = false;
            },
        }
        r
    }

    /// Takes the outcome of the planned step: a failure of a callback during
    /// the step comes first; else the step routine's report, the new time and
    /// state and the progress are checked (see `step_outcome`), and an
    /// accepted step is recorded with the step it recommends.
    pub fn advance(
        &mut self,
        failure: Option<SolverError<T>>,
        info: i32,
        time: T,
        state: &[T],
        step: T,
    ) -> (r: Result<(), SolverError<T>>)
        requires
            old(self)@.holds(),
            old(self)@.planned,
            state@.len() == old(self)@.initial_state.len(),
        ensures
            match failure {
                Some(e) => r == Err::<(), SolverError<T>>(e),
                None => r == step_outcome(
                    info,
                    time,
                    state@,
                    old(self)@.time(),
                    old(self)@.direction,
                ),
            },
            r is Ok ==> final(self)@ == old(self)@.after_step(time, state@, step),
            r is Err ==> final(self)@ == old(self)@.with_planned(false),
            final(self)@.holds(),
    {
        self.planned = false;
        if let Some(e) = failure {
            return Err(e);
        }
        let previous = self.time();
        check_step(info, time, state, previous, self.direction)?;
        let ghost old_view = self@;
        let ghost before = self.solution.states@;
        self.solution.record(time, state, step);
        assert(state_seqs(self.solution.states@) =~= state_seqs(before).push(state@));
        assert(self@ == old_view.after_step(time, state@, step));
        proof {
            let v = self@;
            let n = v.times.len() - 1;
            assert(v.times[n] == time);
            assert(v.states[n] == state@);
            assert forall|i: int| 0 <= i < v.states.len() implies (#[trigger] v.states[i]).len()
                == v.initial_state.len() && all_finite(v.states[i]) by {
                if i < n {
                    assert(v.states[i] == old_view.states[i]);
                }
            }
            assert forall|i: int| 1 <= i < v.times.len() implies T::spec_is_finite(
                #[trigger] v.times[i],
            ) && advances(v.direction, v.times[i - 1], v.times[i]) by {
                if i < n {
                    assert(v.times[i] == old_view.times[i]);
                    assert(v.times[i - 1] == old_view.times[i - 1]);
                } else {
                    assert(v.times[i - 1] == old_view.time());
                }
            }
        }
        Ok(())
    }

    /// The results of an integration that has reached the end: the initial
    /// point and every accepted step, the last time no longer short of the
    /// end time in the direction of integration.
    pub fn finish(self) -> (r: Solution<T>)
        requires
            self@.holds(),
            self@.finished,
        ensures
            r.times@.len() >= 1,
            r.times@[0] == self@.start_time,
            !T::spec_less(
                zero(),
                product(self@.direction, difference(self@.end_time, r.times@.last())),
            ),
            r.times@ == self@.times,
            state_seqs(r.states@) == self@.states,
            r.recommended_steps@ == self@.recommended_steps,
    {
        self.solution
    }
}

} // verus!
