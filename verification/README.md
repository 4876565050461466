# cauchy_ode

Initial value problems for ordinary differential equations, written as
text: expressions are parsed, differentiated symbolically and simplified,
assembled into systems of named equations, and integrated by adaptive
England, Lawson and Rosenbrock methods whose step routines are in Fortran.

## Layout

- `src/` is the library, verified with Verus. Expressions are generic over
  the `Scalar` trait (`src/scalar.rs`), which names the result of every
  numeric operation by a spec function; nothing is assumed of the numbers
  beyond that.
  - `tree.rs`, `evaluation.rs`, `derivative.rs`, `simplification.rs`,
    `printing.rs`, `grammar.rs`: the mathematical model of expressions — trees,
    their values, derivatives, simplified forms, text, and the grammar of
    the expression language.
  - `math_expr.rs`, `parser.rs`: expressions and their operations, each
    proved to compute what the model says.
  - `laws.rs`, `structure.rs`: properties across operations (derivatives and
    simplification keep well-formedness and introduce no variable; bound
    variables give a value; substitution is structural).
  - `round_trip.rs`: the text of an expression reads back as the expression.
  - `ode_system.rs`: systems of equations and their constructors, with the
    exact conditions under which each is refused.
  - `solver.rs`, `callback.rs`, `fortran.rs`: the decisions of an
    integration — validation, step planning, step acceptance, the callbacks
    that evaluate right-hand sides, Jacobians and time derivatives, and the
    meaning of the numerical routines' status codes.
  - `integration.rs`: one integration as a state machine (start, plan a
    step, take its outcome, finish) whose every state keeps the promised
    shape of the results.
- `app/` is ordinary Rust around the library: the `Scalar` implementation
  for `num_traits::Float` types, the foreign-function bridge to the Fortran
  routines, the integration loop that runs the library's decisions, and
  `Display`/`Error` for the error types.
- `tests/` runs the library on concrete values.
