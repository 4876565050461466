//! Parsed systems of ordinary differential equations, independent of the
//! method used to integrate them.
use vstd::prelude::*;
use vstd::string::StringExecFns;
use crate::grammar::{Failure, parse_text, token_reads};
use crate::evaluation::{EvaluationFailure, value_of};
use crate::math_expr::{MathExpr, names_of, contains_name};
use crate::scalar::Scalar;
use crate::solver::SolverError;
use crate::text::{char_is_alphabetic, char_is_alphanumeric, collect_chars, is_alphabetic, is_alphanumeric};
use crate::tree::{Symbol, Tree, leaf, node2, wf, collect_names, substitution, mentions};
use crate::laws::{lemma_substitution_wf, lemma_substitution_mentions, lemma_collect_names, lemma_value_defined};
use crate::evaluation::lookup;
use std::collections::HashMap;

verus! {

/// The structure of a system.
#[derive(Clone, Copy, Debug, PartialEq, Eq, Structural)]
pub enum SystemKind {
    /// `x' = f(t, x)`.
    General,
    /// `x' = f(x)`.
    Autonomous,
    /// `x' = A(t) x + phi(t)`.
    TimeLinear,
    /// `x' = B x + u(t, x)`, with constant `B`.
    ConstantLinear,
}

pub const PARAMETER_NAMES: &'static str =
    "parameter names must be valid, unique, and distinct from time/state names";

pub const PARAMETER_VALUES: &'static str = "parameter values must be finite";

pub const ONE_RHS_PER_NAME: &'static str = "provide one RHS per named state component";

pub const DISTINCT_NAMES: &'static str =
    "time and state names must be distinct identifiers, not numeric literals";

pub const MATRIX_SIZE: &'static str = "matrix must contain dimension * dimension elements";

pub const FINITE_MATRIX: &'static str = "constant matrix must be finite";

/// The shape of an identifier: a letter or `_`, then letters, digits and `_`.
pub open spec fn identifier_shape(s: Seq<char>) -> bool {
    &&& s.len() > 0
    &&& (char_is_alphabetic(s[0]) || s[0] == '_')
    &&& forall|i: int| 1 <= i < s.len() ==> (char_is_alphanumeric(#[trigger] s[i]) || s[i] == '_')
}

/// A name that can stand for a variable or parameter: it has the shape of an
/// identifier and the scalar type does not read it as a number (as `inf`).
pub open spec fn is_identifier<T: Scalar>(name: &str) -> bool {
    identifier_shape(name@) && T::spec_reads(name@) is None
}

/// The names that stand for variables and parameters are exactly those whose
/// first character is alphabetic or `_`, whose other characters are
/// alphanumeric or `_` (so `x_1` and `k_1` are names), and which the scalar
/// type does not read as a number.
pub proof fn lemma_identifier_names<T: Scalar>(name: &str)
    ensures
        is_identifier::<T>(name) <==> {
            &&& name@.len() > 0
            &&& char_is_alphabetic(name@[0]) || name@[0] == '_'
            &&& forall|i: int|
                1 <= i < name@.len() ==> char_is_alphanumeric(#[trigger] name@[i]) || name@[i] == '_'
            &&& T::spec_reads(name@) is None
        },
{
}

/// `a` comes before `b` in the lexicographic order of their characters.
pub open spec fn text_less(a: Seq<char>, b: Seq<char>) -> bool
    decreases a.len(),
{
    if b.len() == 0 {
        false
    } else if a.len() == 0 {
        true
    } else if a[0] != b[0] {
        (a[0] as u32) < (b[0] as u32)
    } else {
        text_less(a.drop_first(), b.drop_first())
    }
}

/// The order of texts is transitive.
pub proof fn lemma_text_less_transitive(a: Seq<char>, b: Seq<char>, c: Seq<char>)
    requires
        text_less(a, b),
        text_less(b, c),
    ensures
        text_less(a, c),
    decreases a.len(),
{
    if a.len() > 0 && b.len() > 0 && c.len() > 0 && a[0] == b[0] && b[0] == c[0] {
        lemma_text_less_transitive(a.drop_first(), b.drop_first(), c.drop_first());
    }
}

/// The variables of `t` that are not among the allowed names, in the order
/// of their first occurrence.
pub open spec fn disallowed_names<T>(t: Tree<T>, allowed: Seq<Seq<char>>) -> Seq<Seq<char>> {
    collect_names(t, seq![]).filter(not_in(allowed))
}

/// The names that are not in the list.
pub open spec fn not_in(allowed: Seq<Seq<char>>) -> spec_fn(Seq<char>) -> bool {
    |n: Seq<char>| !allowed.contains(n)
}

/// `n` is in the list and no name of the list comes before it.
pub open spec fn least_name(n: Seq<char>, list: Seq<Seq<char>>) -> bool {
    list.contains(n) && forall|m: Seq<char>| #[trigger] list.contains(m) ==> !text_less(m, n)
}

/// The message of an expression that uses a name the system does not know.
pub open spec fn not_allowed_message(name: Seq<char>) -> Seq<char> {
    "variable '"@ + name + "' is not allowed in this system expression"@
}

/// `r` reports that expression `equation` uses the name `name`, which the
/// system does not allow.
pub open spec fn reports_disallowed<T>(r: SolverError<T>, equation: usize, name: Seq<char>) -> bool {
    &&& r matches SolverError::Evaluation { equation: e, message }
    &&& r->Evaluation_equation == equation
    &&& r->Evaluation_message@ == not_allowed_message(name)
}

/// Row `row` of `A x + phi`: `phi`, then `+ A[row, column] * x_column` for
/// each column in turn; `A` is column-major over `names.len()` rows.
pub open spec fn assembled_row<T>(
    matrix: Seq<Tree<T>>,
    forcing: Tree<T>,
    names: Seq<Seq<char>>,
    row: int,
    columns: int,
) -> Tree<T>
    decreases columns,
{
    if columns <= 0 {
        forcing
    } else {
        node2(
            Symbol::Add,
            assembled_row(matrix, forcing, names, row, columns - 1),
            node2(
                Symbol::Multiply,
                matrix[(columns - 1) * names.len() + row],
                leaf(Symbol::Var(names[columns - 1])),
            ),
        )
    }
}

/// The right-hand sides `A x + phi`, row by row.
pub open spec fn assembled<T>(matrix: Seq<Tree<T>>, forcing: Seq<Tree<T>>, names: Seq<Seq<char>>) -> Seq<
    Tree<T>,
> {
    Seq::new(
        forcing.len(),
        |row: int| assembled_row(matrix, forcing[row], names, row, names.len() as int),
    )
}


/// The name of time as text, if there is one.
pub open spec fn opt_view(time: Option<&str>) -> Option<Seq<char>> {
    match time {
        Some(t) => Some(t@),
        None => None,
    }
}

/// The state names followed by the time name, if any.
pub open spec fn all_names<'a>(names: Seq<&'a str>, time: Option<&'a str>) -> Seq<&'a str> {
    match time {
        Some(t) => names.push(t),
        None => names,
    }
}

/// Every name is an identifier and no two names are the same text.
pub open spec fn distinct_identifiers<T: Scalar>(all: Seq<&str>) -> bool {
    &&& forall|i: int| 0 <= i < all.len() ==> is_identifier::<T>(#[trigger] all[i])
    &&& forall|i: int, j: int|
        #![trigger all[i], all[j]]
        0 <= j < i < all.len() ==> all[j]@ != all[i]@
}

/// Why the first unusable parameter is refused, taking the names already in
/// use into account; parameters are checked in order, the name before the value.
pub open spec fn parameters_error<T: Scalar>(taken: Seq<Seq<char>>, parameters: Seq<(&str, T)>) -> Option<
    &'static str,
>
    decreases parameters.len(),
{
    if parameters.len() == 0 {
        None
    } else if !is_identifier::<T>(parameters[0].0) || taken.contains(parameters[0].0@) {
        Some(PARAMETER_NAMES)
    } else if !T::spec_is_finite(parameters[0].1) {
        Some(PARAMETER_VALUES)
    } else {
        parameters_error(taken.push(parameters[0].0@), parameters.drop_first())
    }
}

/// `t` with each parameter's name replaced by its value, in order.
pub open spec fn bound<T>(t: Tree<T>, parameters: Seq<(&str, T)>) -> Tree<T>
    decreases parameters.len(),
{
    if parameters.len() == 0 {
        t
    } else {
        bound(
            substitution(t, parameters[0].0@, leaf(Symbol::Const(parameters[0].1))),
            parameters.drop_first(),
        )
    }
}

/// The text reads, with its tokens read by the scalar type, with this
/// outcome (see `parse_text`).
pub open spec fn parses_to<T: Scalar>(s: Seq<char>, outcome: Result<Tree<T>, Failure>) -> bool {
    parse_text::<T>(s, token_reads::<T>(s)) == outcome
}

/// The source reads as an expression.
pub open spec fn parses<T: Scalar>(source: &str) -> bool {
    exists|t: Tree<T>| #[trigger] parses_to::<T>(source@, Ok(t))
}

/// `e` is what the source reads as, with the parameters bound.
pub open spec fn reads_as<T: Scalar>(source: &str, parameters: Seq<(&str, T)>, e: Tree<T>) -> bool {
    exists|t: Tree<T>| #[trigger] parses_to::<T>(source@, Ok(t)) && e == bound(t, parameters)
}

/// `e` reports the first source that does not read as an expression.
pub open spec fn parse_failure<T: Scalar>(sources: Seq<&str>, e: SolverError<T>) -> bool {
    &&& e is Parse
    &&& e->Parse_equation < sources.len()
    &&& forall|j: int| 0 <= j < e->Parse_equation ==> parses::<T>(#[trigger] sources[j])
    &&& exists|f: Failure|
        #[trigger] parses_to::<T>(sources[e->Parse_equation as int]@, Err(f))
            && e->Parse_source.reports(sources[e->Parse_equation as int]@, f)
}

/// Reading the sources in order, with the parameters bound: the expressions,
/// or the failure of the first source that does not read.
pub open spec fn expressions_read<T: Scalar>(
    sources: Seq<&str>,
    parameters: Seq<(&str, T)>,
    x: Result<Seq<Tree<T>>, SolverError<T>>,
) -> bool {
    match x {
        Ok(ts) => {
            &&& ts.len() == sources.len()
            &&& forall|i: int|
                0 <= i < ts.len() ==> reads_as::<T>(sources[i], parameters, #[trigger] ts[i]) && wf(
                    ts[i],
                )
        },
        Err(e) => parse_failure::<T>(sources, e),
    }
}

/// No entry uses a name outside `allowed`.
pub open spec fn all_allowed<T>(entries: Seq<Tree<T>>, allowed: Seq<Seq<char>>) -> bool {
    forall|i: int| 0 <= i < entries.len() ==> disallowed_names(#[trigger] entries[i], allowed).len() == 0
}

/// `e` reports the least disallowed name of the first entry that uses one;
/// entries are numbered from `offset`.
pub open spec fn refuses_names<T>(entries: Seq<Tree<T>>, allowed: Seq<Seq<char>>, e: SolverError<T>, offset: int) -> bool {
    exists|i: int|
        #![trigger entries[i]]
        0 <= i < entries.len() && all_allowed(entries.take(i), allowed) && exists|n: Seq<char>|
            least_name(n, disallowed_names(entries[i], allowed)) && reports_disallowed(
                e,
                (offset + i) as usize,
                n,
            )
}

/// The system of these names and right-hand sides, or why it is refused:
/// the counts first, then the names, then the variables of each expression.
pub open spec fn system_built<T: Scalar>(
    time: Option<&str>,
    names: Seq<&str>,
    ts: Seq<Tree<T>>,
    kind: SystemKind,
    o: Result<SystemModel<T>, SolverError<T>>,
) -> bool {
    let allowed = names_of(all_names(names, time));
    if names.len() == 0 || names.len() != ts.len() {
        o == Err::<SystemModel<T>, SolverError<T>>(SolverError::InvalidInput(ONE_RHS_PER_NAME))
    } else if !distinct_identifiers::<T>(all_names(names, time)) {
        o == Err::<SystemModel<T>, SolverError<T>>(SolverError::InvalidInput(DISTINCT_NAMES))
    } else if !all_allowed(ts, allowed) {
        o is Err && refuses_names(ts, allowed, o->Err_0, 0)
    } else {
        o == Ok::<SystemModel<T>, SolverError<T>>(
            SystemModel {
                time: opt_view(time),
                names: names_of(names),
                rhs: ts,
                matrix: seq![],
                forcing: seq![],
                constant_matrix: seq![],
                kind,
            },
        )
    }
}

/// Building a system from expressions succeeds exactly when there is one
/// expression per name, the names (with time) are distinct identifiers, and
/// every expression uses only those names; the system then has the given
/// kind, names and expressions. A count or name problem is refused as
/// invalid input, and a foreign name as an evaluation error of the first
/// expression that uses one, quoting its least foreign name.
pub proof fn lemma_system_built<T: Scalar>(
    time: Option<&str>,
    names: Seq<&str>,
    ts: Seq<Tree<T>>,
    kind: SystemKind,
    o: Result<SystemModel<T>, SolverError<T>>,
)
    requires
        system_built::<T>(time, names, ts, kind, o),
    ensures
        (o is Ok) <==> (names.len() > 0 && names.len() == ts.len() && distinct_identifiers::<T>(
            all_names(names, time),
        ) && all_allowed(ts, names_of(all_names(names, time)))),
        o is Ok ==> o->Ok_0.kind == kind && o->Ok_0.names == names_of(names) && o->Ok_0.rhs == ts
            && o->Ok_0.time == opt_view(time),
        names.len() == 0 || names.len() != ts.len() || !distinct_identifiers::<T>(
            all_names(names, time),
        ) ==> o is Err && o->Err_0 is InvalidInput,
        names.len() > 0 && names.len() == ts.len() && distinct_identifiers::<T>(
            all_names(names, time),
        ) && !all_allowed(ts, names_of(all_names(names, time))) ==> o is Err && exists|i: int, n: Seq<char>|
            #![trigger ts[i], least_name(n, disallowed_names(ts[i], names_of(all_names(names, time))))]
            0 <= i < ts.len() && all_allowed(ts.take(i), names_of(all_names(names, time))) && least_name(
                n,
                disallowed_names(ts[i], names_of(all_names(names, time))),
            ) && reports_disallowed(o->Err_0, i as usize, n),
{
}

/// A system read from sources: the parameters are checked, the sources read
/// with the parameters bound, and the system built from the expressions.
pub open spec fn system_read<T: Scalar>(
    time: Option<&str>,
    names: Seq<&str>,
    sources: Seq<&str>,
    kind: SystemKind,
    parameters: Seq<(&str, T)>,
    o: Result<SystemModel<T>, SolverError<T>>,
) -> bool {
    match parameters_error::<T>(names_of(all_names(names, time)), parameters) {
        Some(message) => o == Err::<SystemModel<T>, SolverError<T>>(SolverError::InvalidInput(message)),
        None => exists|x: Result<Seq<Tree<T>>, SolverError<T>>|
            #[trigger] expressions_read::<T>(sources, parameters, x) && match x {
                Err(e) => o == Err::<SystemModel<T>, SolverError<T>>(e),
                Ok(ts) => system_built::<T>(time, names, ts, kind, o),
            },
    }
}

/// The outcome of a constructor is the modelled outcome.
pub open spec fn produces<'a, T>(r: Result<OdeSystem<'a, T>, SolverError<T>>, o: Result<SystemModel<T>, SolverError<T>>) -> bool {
    match o {
        Ok(m) => r is Ok && r->Ok_0@ == m,
        Err(e) => r is Err && r->Err_0 == e,
    }
}

/// The view of a list of expressions as the outcome of reading them.
pub open spec fn read_outcome<'a, T>(r: Result<Vec<MathExpr<'a, T>>, SolverError<T>>) -> Result<Seq<Tree<T>>, SolverError<T>> {
    match r {
        Ok(v) => Ok(trees_of(v@)),
        Err(e) => Err(e),
    }
}

/// The constants as trees.
pub open spec fn constants<T>(values: Seq<T>) -> Seq<Tree<T>> {
    values.map_values(|v: T| leaf(Symbol::Const(v)))
}

/// The linear system `x' = A(t) x + phi(t)` on a system `m1` read from the
/// forcing terms: the matrix must have `d * d` entries, read with the
/// parameters bound, and the entries and forcing terms may use only time.
pub open spec fn linear_built<T: Scalar>(
    time: &str,
    m1: SystemModel<T>,
    matrix: Seq<&str>,
    parameters: Seq<(&str, T)>,
    o: Result<SystemModel<T>, SolverError<T>>,
) -> bool {
    if m1.names.len() * m1.names.len() != matrix.len() {
        o == Err::<SystemModel<T>, SolverError<T>>(SolverError::InvalidInput(MATRIX_SIZE))
    } else {
        exists|x: Result<Seq<Tree<T>>, SolverError<T>>|
            #[trigger] expressions_read::<T>(matrix, parameters, x) && match x {
                Err(e) => o == Err::<SystemModel<T>, SolverError<T>>(e),
                Ok(ms) => if all_allowed(ms + m1.rhs, seq![time@]) {
                    o == Ok::<SystemModel<T>, SolverError<T>>(
                        SystemModel {
                            time: m1.time,
                            names: m1.names,
                            rhs: assembled(ms, m1.rhs, m1.names),
                            matrix: ms,
                            forcing: m1.rhs,
                            constant_matrix: seq![],
                            kind: m1.kind,
                        },
                    )
                } else {
                    o is Err && refuses_names(ms + m1.rhs, seq![time@], o->Err_0, 0)
                },
            }
    }
}

/// How a linear system is read: the system of the forcing terms first.
pub open spec fn linear_read<T: Scalar>(
    time: &str,
    names: Seq<&str>,
    matrix: Seq<&str>,
    forcing: Seq<&str>,
    parameters: Seq<(&str, T)>,
    o: Result<SystemModel<T>, SolverError<T>>,
) -> bool {
    exists|o1: Result<SystemModel<T>, SolverError<T>>|
        #[trigger] system_read::<T>(Some(time), names, forcing, SystemKind::TimeLinear, parameters, o1)
            && match o1 {
            Err(e) => o == Err::<SystemModel<T>, SolverError<T>>(e),
            Ok(m1) => linear_built::<T>(time, m1, matrix, parameters, o),
        }
}

/// The split system `x' = B x + u(t, x)` on a system `m1` read from the
/// remainder terms, with the finite constant matrix `B` of `d * d` entries.
pub open spec fn split_built<T: Scalar>(m1: SystemModel<T>, matrix: Seq<T>, o: Result<SystemModel<T>, SolverError<T>>) -> bool {
    if m1.names.len() * m1.names.len() != matrix.len() {
        o == Err::<SystemModel<T>, SolverError<T>>(SolverError::InvalidInput(MATRIX_SIZE))
    } else if !(forall|i: int| 0 <= i < matrix.len() ==> T::spec_is_finite(#[trigger] matrix[i])) {
        o == Err::<SystemModel<T>, SolverError<T>>(SolverError::InvalidInput(FINITE_MATRIX))
    } else {
        o == Ok::<SystemModel<T>, SolverError<T>>(
            SystemModel {
                time: m1.time,
                names: m1.names,
                rhs: assembled(constants(matrix), m1.rhs, m1.names),
                matrix: constants(matrix),
                forcing: m1.rhs,
                constant_matrix: matrix,
                kind: m1.kind,
            },
        )
    }
}

/// How a split system is read: the system of the remainder terms first.
pub open spec fn split_read<T: Scalar>(
    time: &str,
    names: Seq<&str>,
    matrix: Seq<T>,
    remainder: Seq<&str>,
    o: Result<SystemModel<T>, SolverError<T>>,
) -> bool {
    exists|o1: Result<SystemModel<T>, SolverError<T>>|
        #[trigger] system_read::<T>(Some(time), names, remainder, SystemKind::ConstantLinear, seq![], o1)
            && match o1 {
            Err(e) => o == Err::<SystemModel<T>, SolverError<T>>(e),
            Ok(m1) => split_built::<T>(m1, matrix, o),
        }
}

/// No variable has a value.
pub open spec fn empty_env<T>() -> spec_fn(Seq<char>) -> Option<T> {
    |n: Seq<char>| None::<T>
}

/// The value of a matrix entry, which may use no variable.
pub open spec fn entry_value<T: Scalar>(t: Tree<T>) -> Result<T, EvaluationFailure<T>> {
    value_of(t, empty_env::<T>())
}

/// A matrix entry uses no variable and has a finite value.
pub open spec fn entry_accepted<T: Scalar>(t: Tree<T>) -> bool {
    &&& disallowed_names(t, seq![]).len() == 0
    &&& entry_value(t) is Ok
    &&& T::spec_is_finite(entry_value(t)->Ok_0)
}

/// The values of matrix entries.
pub open spec fn entry_values<T: Scalar>(ms: Seq<Tree<T>>) -> Seq<T> {
    ms.map_values(|t: Tree<T>| entry_value(t)->Ok_0)
}

/// `e` reports the first matrix entry that is not accepted: the least name
/// it uses, or that its value is not finite.
pub open spec fn entries_refused<T: Scalar>(ms: Seq<Tree<T>>, e: SolverError<T>) -> bool {
    exists|i: int|
        #![trigger ms[i]]
        0 <= i < ms.len() && (forall|j: int| 0 <= j < i ==> entry_accepted(#[trigger] ms[j]))
            && !entry_accepted(ms[i]) && if disallowed_names(ms[i], seq![]).len() > 0 {
            exists|n: Seq<char>|
                least_name(n, disallowed_names(ms[i], seq![])) && reports_disallowed(e, i as usize, n)
        } else {
            e == SolverError::<T>::InvalidInput(FINITE_MATRIX)
        }
}

/// The split system on `m1` whose matrix entries are expressions read with
/// the parameters bound; each must evaluate to a finite constant.
pub open spec fn split_entries_built<T: Scalar>(
    m1: SystemModel<T>,
    matrix: Seq<&str>,
    parameters: Seq<(&str, T)>,
    o: Result<SystemModel<T>, SolverError<T>>,
) -> bool {
    if m1.names.len() * m1.names.len() != matrix.len() {
        o == Err::<SystemModel<T>, SolverError<T>>(SolverError::InvalidInput(MATRIX_SIZE))
    } else {
        exists|x: Result<Seq<Tree<T>>, SolverError<T>>|
            #[trigger] expressions_read::<T>(matrix, parameters, x) && match x {
                Err(e) => o == Err::<SystemModel<T>, SolverError<T>>(e),
                Ok(ms) => if forall|j: int| 0 <= j < ms.len() ==> entry_accepted(#[trigger] ms[j]) {
                    o == Ok::<SystemModel<T>, SolverError<T>>(
                        SystemModel {
                            time: m1.time,
                            names: m1.names,
                            rhs: assembled(constants(entry_values(ms)), m1.rhs, m1.names),
                            matrix: constants(entry_values(ms)),
                            forcing: m1.rhs,
                            constant_matrix: entry_values(ms),
                            kind: m1.kind,
                        },
                    )
                } else {
                    o is Err && entries_refused(ms, o->Err_0)
                },
            }
    }
}

/// How a split system with parameters is read.
pub open spec fn split_entries_read<T: Scalar>(
    time: &str,
    names: Seq<&str>,
    matrix: Seq<&str>,
    remainder: Seq<&str>,
    parameters: Seq<(&str, T)>,
    o: Result<SystemModel<T>, SolverError<T>>,
) -> bool {
    exists|o1: Result<SystemModel<T>, SolverError<T>>|
        #[trigger] system_read::<T>(Some(time), names, remainder, SystemKind::ConstantLinear, parameters, o1)
            && match o1 {
            Err(e) => o == Err::<SystemModel<T>, SolverError<T>>(e),
            Ok(m1) => split_entries_built::<T>(m1, matrix, parameters, o),
        }
}

/// Every tree is well-formed and mentions only allowed names.
pub open spec fn sound<T>(ts: Seq<Tree<T>>, allowed: Seq<Seq<char>>) -> bool {
    forall|i: int|
        0 <= i < ts.len() ==> wf(#[trigger] ts[i]) && forall|x: Seq<char>|
            mentions(ts[i], x) ==> allowed.contains(x)
}

/// The names that the expressions of a system may use: the state names and
/// the time name, if any.
pub open spec fn system_names<T>(m: SystemModel<T>) -> Seq<Seq<char>> {
    match m.time {
        Some(t) => m.names.push(t),
        None => m.names,
    }
}

/// The trees of a list of expressions.
pub open spec fn trees_of<'a, T>(v: Seq<MathExpr<'a, T>>) -> Seq<Tree<T>> {
    v.map_values(|e: MathExpr<'a, T>| e@)
}

/// What a system holds: the time name (none for an autonomous system), the
/// state names, the right-hand sides, and for linear systems the
/// column-major matrix and the forcing terms they were assembled from.
pub struct SystemModel<T> {
    pub time: Option<Seq<char>>,
    pub names: Seq<Seq<char>>,
    pub rhs: Seq<Tree<T>>,
    pub matrix: Seq<Tree<T>>,
    pub forcing: Seq<Tree<T>>,
    pub constant_matrix: Seq<T>,
    pub kind: SystemKind,
}

/// A parsed vector field with named state variables. Matrices are
/// column-major: element (row, column) has index `column * dimension + row`.
/// Names are explicit: no name is reserved for time or the state.
#[derive(Debug)]
pub struct OdeSystem<'a, T> {
    time: Option<&'a str>,
    names: Vec<&'a str>,
    rhs: Vec<MathExpr<'a, T>>,
    matrix: Vec<MathExpr<'a, T>>,
    forcing: Vec<MathExpr<'a, T>>,
    constant_matrix: Vec<T>,
    kind: SystemKind,
}

impl<'a, T> View for OdeSystem<'a, T> {
    type V = SystemModel<T>;

    closed spec fn view(&self) -> SystemModel<T> {
        SystemModel {
            time: match self.time {
                Some(t) => Some(t@),
                None => None,
            },
            names: names_of(self.names@),
            rhs: trees_of(self.rhs@),
            matrix: trees_of(self.matrix@),
            forcing: trees_of(self.forcing@),
            constant_matrix: self.constant_matrix@,
            kind: self.kind,
        }
    }
}

/// Whether the name has the shape of an identifier and the scalar type does
/// not read it as a number.
pub fn valid_identifier<T: Scalar>(name: &str) -> (r: bool)
    ensures
        r == is_identifier::<T>(name),
{
    let chars = collect_chars(name);
    if chars.len() == 0 {
        return false;
    }
    let first = chars[0];
    if !(is_alphabetic(first) || first == '_') {
        return false;
    }
    let mut i: usize = 1;
    while i < chars.len()
        invariant
            chars@ == name@,
            1 <= i <= chars@.len(),
            forall|j: int| 1 <= j < i ==> (char_is_alphanumeric(#[trigger] chars@[j]) || chars@[j] == '_'),
        decreases chars@.len() - i,
    {
        let c = chars[i];
        if !(is_alphanumeric(c) || c == '_') {
            return false;
        }
        i += 1;
    }
    T::from_text(name).is_none()
}

/// Whether `a` comes before `b` (see `text_less`).
fn text_before(a: &str, b: &str) -> (r: bool)
    ensures
        r == text_less(a@, b@),
{
    let x = collect_chars(a);
    let y = collect_chars(b);
    let mut i: usize = 0;
    assert(x@.skip(0) =~= x@);
    assert(y@.skip(0) =~= y@);
    while i < x.len() && i < y.len() && x[i] == y[i]
        invariant
            x@ == a@,
            y@ == b@,
            i <= x@.len(),
            i <= y@.len(),
            text_less(a@, b@) == text_less(x@.skip(i as int), y@.skip(i as int)),
        decreases x@.len() - i,
    {
        proof {
            assert(x@.skip(i as int).drop_first() =~= x@.skip(i + 1));
            assert(y@.skip(i as int).drop_first() =~= y@.skip(i + 1));
        }
        i += 1;
    }
    if i == y.len() {
        false
    } else if i == x.len() {
        true
    } else {
        (x[i] as u32) < (y[i] as u32)
    }
}

impl<'a, T> OdeSystem<'a, T> {
    /// One right-hand side per state name; every expression is well-formed
    /// and uses only the state and time names.
    #[verifier::type_invariant]
    spec fn well_formed(self) -> bool {
        &&& self@.names.len() == self@.rhs.len()
        &&& sound(self@.rhs, system_names(self@))
        &&& sound(self@.matrix, system_names(self@))
        &&& sound(self@.forcing, system_names(self@))
    }
}

impl<'a, T: Scalar> OdeSystem<'a, T> {
    /// The structure of the system.
    pub fn kind(&self) -> (r: SystemKind)
        ensures
            r == self@.kind,
    {
        self.kind
    }

    /// The number of state components.
    pub fn dimension(&self) -> (r: usize)
        ensures
            r == self@.names.len(),
    {
        self.names.len()
    }

    /// The state names, in order.
    pub fn variables(&self) -> (r: &[&'a str])
        ensures
            names_of(r@) == self@.names,
    {
        self.names.as_slice()
    }

    /// The right-hand sides, one per state component.
    pub fn expressions(&self) -> (r: &[MathExpr<'a, T>])
        ensures
            trees_of(r@) == self@.rhs,
            r@.len() == self@.names.len(),
            sound(self@.rhs, system_names(self@)),
    {
        proof {
            use_type_invariant(self);
        }
        self.rhs.as_slice()
    }

    /// The name of the time variable, if the system has one.
    pub fn time(&self) -> (r: Option<&'a str>)
        ensures
            match r {
                Some(t) => self@.time == Some(t@),
                None => self@.time is None,
            },
    {
        self.time
    }

    /// The matrix `A(t)` or `B` of a linear system, column-major; empty otherwise.
    pub fn matrix(&self) -> (r: &[MathExpr<'a, T>])
        ensures
            trees_of(r@) == self@.matrix,
            sound(self@.matrix, system_names(self@)),
    {
        proof {
            use_type_invariant(self);
        }
        self.matrix.as_slice()
    }

    /// The forcing terms `phi(t)` or `u(t, x)` of a linear system; empty otherwise.
    pub fn forcing(&self) -> (r: &[MathExpr<'a, T>])
        ensures
            trees_of(r@) == self@.forcing,
            sound(self@.forcing, system_names(self@)),
    {
        proof {
            use_type_invariant(self);
        }
        self.forcing.as_slice()
    }

    /// The constant matrix `B` of a split system, column-major; empty otherwise.
    pub fn constant_matrix(&self) -> (r: &[T])
        ensures
            r@ == self@.constant_matrix,
    {
        self.constant_matrix.as_slice()
    }

    /// Fails with the least name (see `text_less`) among the variables of
    /// the expression that are not allowed.
    fn check_variables(expression: &MathExpr<'a, T>, allowed: &Vec<&str>, equation: usize) -> (r:
        Result<(), SolverError<T>>)
        ensures
            match r {
                Ok(_) => disallowed_names(expression@, names_of(allowed@)).len() == 0,
                Err(e) => exists|n: Seq<char>|
                    least_name(n, disallowed_names(expression@, names_of(allowed@)))
                        && reports_disallowed(e, equation, n),
            },
    {
        let variables = expression.variables();
        let ghost all = names_of(variables@);
        let ghost allowed_names = names_of(allowed@);
        let ghost pred = not_in(allowed_names);
        let mut least: Option<&'a str> = None;
        let mut i: usize = 0;
        assert(all.take(0).filter(pred) =~= Seq::<Seq<char>>::empty()) by {
            reveal(Seq::filter);
        }
        while i < variables.len()
            invariant
                all == names_of(variables@),
                allowed_names == names_of(allowed@),
                pred == not_in(allowed_names),
                i <= variables@.len(),
                match least {
                    None => all.take(i as int).filter(pred).len() == 0,
                    Some(n) => least_name(n@, all.take(i as int).filter(pred)),
                },
            decreases variables@.len() - i,
        {
            let name = variables[i];
            let ghost before = all.take(i as int).filter(pred);
            assert(all.take(i + 1).drop_last() =~= all.take(i as int));
            assert(all.take(i + 1).last() == name@);
            assert(all.take(i + 1).filter(pred) == (if pred(name@) {
                before.push(name@)
            } else {
                before
            })) by {
                reveal(Seq::filter);
            }
            if !contains_name(allowed, name) {
                match least {
                    None => {
                        least = Some(name);
                        assert(before =~= Seq::<Seq<char>>::empty());
                        assert(before.push(name@)[0] == name@);
                        proof {
                            lemma_text_less_irreflexive(name@);
                        }
                    },
                    Some(current) => {
                        if text_before(name, current) {
                            proof {
                                assert forall|m: Seq<char>| #[trigger]
                                    before.push(name@).contains(m) implies !text_less(m, name@) by {
                                    if before.contains(m) {
                                        if text_less(m, name@) {
                                            lemma_text_less_transitive(m, name@, current@);
                                        }
                                    } else {
                                        assert(m == name@);
                                        lemma_text_less_irreflexive(name@);
                                    }
                                }
                                assert(before.push(name@)[before.len() as int] == name@);
                            }
                            least = Some(name);
                        } else {
                            proof {
                                assert forall|m: Seq<char>| #[trigger]
                                    before.push(name@).contains(m) implies !text_less(m, current@) by {
                                    if !before.contains(m) {
                                        assert(m == name@);
                                    }
                                }
                                assert(before.contains(current@));
                                let k = choose|k: int| 0 <= k < before.len() && before[k] == current@;
                                assert(before.push(name@)[k] == current@);
                            }
                        }
                    },
                }
            }
            i += 1;
        }
        assert(all.take(variables@.len() as int) =~= all);
        match least {
            None => Ok(()),
            Some(name) => {
                let mut message = String::from_str("variable '");
                message.append(name);
                message.append("' is not allowed in this system expression");
                let e = SolverError::Evaluation { equation, message };
                assert(least_name(name@, disallowed_names(expression@, names_of(allowed@))));
                assert(reports_disallowed(e, equation, name@));
                Err(e)
            },
        }
    }
}


/// The state names followed by the time name, if any.
fn all_names_vec<'a>(names: &[&'a str], time: Option<&'a str>) -> (r: Vec<&'a str>)
    ensures
        r@ == all_names(names@, time),
{
    let mut all: Vec<&'a str> = Vec::new();
    let mut i: usize = 0;
    while i < names.len()
        invariant
            i <= names@.len(),
            all@ == names@.take(i as int),
        decreases names@.len() - i,
    {
        all.push(names[i]);
        i += 1;
        assert(all@ =~= names@.take(i as int));
    }
    assert(names@.take(names@.len() as int) =~= names@);
    if let Some(t) = time {
        all.push(t);
    }
    all
}

/// The names of a list with one more name appended.
proof fn lemma_names_of_push(v: Seq<&str>, x: &str)
    ensures
        names_of(v.push(x)) == names_of(v).push(x@),
{
    assert(names_of(v.push(x)) =~= names_of(v).push(x@));
}

impl<'a, T: Scalar> OdeSystem<'a, T> {
    /// Checks the parameters in order: each name must be an identifier not
    /// yet in use (by the state, time or an earlier parameter), each value finite.
    fn check_parameters(names: &[&'a str], time: Option<&'a str>, parameters: &[(&str, T)]) -> (r:
        Result<(), SolverError<T>>)
        ensures
            match parameters_error::<T>(names_of(all_names(names@, time)), parameters@) {
                Some(message) => r == Err::<(), SolverError<T>>(SolverError::InvalidInput(message)),
                None => r is Ok,
            },
    {
        let mut used: Vec<&str> = all_names_vec(names, time);
        let ghost start = names_of(used@);
        let mut k: usize = 0;
        assert(parameters@.skip(0) =~= parameters@);
        while k < parameters.len()
            invariant
                k <= parameters@.len(),
                start == names_of(all_names(names@, time)),
                parameters_error::<T>(start, parameters@) == parameters_error::<T>(
                    names_of(used@),
                    parameters@.skip(k as int),
                ),
            decreases parameters@.len() - k,
        {
            let (name, value) = parameters[k];
            let ghost rest = parameters@.skip(k as int);
            assert(rest[0] == (name, value));
            assert(rest.drop_first() =~= parameters@.skip(k + 1));
            if !valid_identifier::<T>(name) || contains_name(&used, name) {
                return Err(SolverError::InvalidInput(PARAMETER_NAMES));
            }
            proof {
                lemma_names_of_push(used@, name);
            }
            used.push(name);
            if !T::is_finite(value) {
                return Err(SolverError::InvalidInput(PARAMETER_VALUES));
            }
            k += 1;
        }
        Ok(())
    }

    /// Checks the entries in order; entry `i` is numbered `offset + i`.
    fn check_all_variables(entries: &Vec<MathExpr<'a, T>>, allowed: &Vec<&str>, offset: usize) -> (r:
        Result<(), SolverError<T>>)
        requires
            offset + entries@.len() <= usize::MAX,
        ensures
            match r {
                Ok(_) => all_allowed(trees_of(entries@), names_of(allowed@)),
                Err(e) => refuses_names(trees_of(entries@), names_of(allowed@), e, offset as int),
            },
    {
        let ghost ts = trees_of(entries@);
        let ghost permitted = names_of(allowed@);
        let mut i: usize = 0;
        while i < entries.len()
            invariant
                ts == trees_of(entries@),
                permitted == names_of(allowed@),
                offset + entries@.len() <= usize::MAX,
                i <= entries@.len(),
                all_allowed(ts.take(i as int), permitted),
            decreases entries@.len() - i,
        {
            assert(ts[i as int] == entries@[i as int]@);
            match Self::check_variables(&entries[i], allowed, offset + i) {
                Ok(_) => {},
                Err(e) => {
                    assert(refuses_names(ts, permitted, e, offset as int)) by {
                        let n = choose|n: Seq<char>|
                            least_name(n, disallowed_names(ts[i as int], permitted)) && reports_disallowed(
                                e,
                                (offset + i) as usize,
                                n,
                            );
                        assert(0 <= i < ts.len() && all_allowed(ts.take(i as int), permitted));
                    }
                    return Err(e);
                },
            }
            assert forall|j: int| 0 <= j < i + 1 implies disallowed_names(
                #[trigger] ts.take(i + 1)[j],
                permitted,
            ).len() == 0 by {
                if j < i {
                    assert(ts.take(i + 1)[j] == ts.take(i as int)[j]);
                }
            }
            i += 1;
        }
        assert(ts.take(ts.len() as int) =~= ts);
        Ok(())
    }

    /// Reads each source as an expression and binds the parameters in it.
    fn parse_expressions(sources: &[&'a str], parameters: &[(&str, T)]) -> (r: Result<
        Vec<MathExpr<'a, T>>,
        SolverError<T>,
    >)
        ensures
            expressions_read::<T>(sources@, parameters@, read_outcome(r)),
    {
        let mut expressions: Vec<MathExpr<'a, T>> = Vec::new();
        let mut equation: usize = 0;
        while equation < sources.len()
            invariant
                equation <= sources@.len(),
                expressions@.len() == equation,
                forall|i: int|
                    0 <= i < equation ==> reads_as::<T>(
                        sources@[i],
                        parameters@,
                        #[trigger] expressions@[i]@,
                    ) && wf(expressions@[i]@),
            decreases sources@.len() - equation,
        {
            let source = sources[equation];
            let parsed = MathExpr::parse(source);
            let ghost read = token_reads::<T>(source@);
            let mut expression = match parsed {
                Ok(e) => e,
                Err(error) => {
                    let r = SolverError::Parse { equation, source: error };
                    proof {
                        let f = parse_text::<T>(source@, read)->Err_0;
                        assert(parses_to::<T>(source@, Err(f)));
                        assert forall|j: int| 0 <= j < equation implies parses::<T>(
                            #[trigger] sources@[j],
                        ) by {
                            assert(reads_as::<T>(sources@[j], parameters@, expressions@[j]@));
                            let t = choose|t: Tree<T>|
                                #[trigger] parses_to::<T>(sources@[j]@, Ok(t)) && expressions@[j]@
                                    == bound(t, parameters@);
                            assert(parses_to::<T>(sources@[j]@, Ok(t)));
                        }
                        assert(parse_failure::<T>(sources@, r));
                    }
                    return Err(r);
                },
            };
            let ghost parsed_tree = expression@;
            assert(parses_to::<T>(source@, Ok(parsed_tree)));
            let mut k: usize = 0;
            assert(parameters@.skip(0) =~= parameters@);
            while k < parameters.len()
                invariant
                    k <= parameters@.len(),
                    wf(expression@),
                    bound(parsed_tree, parameters@) == bound(expression@, parameters@.skip(k as int)),
                decreases parameters@.len() - k,
            {
                let (name, value) = parameters[k];
                let ghost rest = parameters@.skip(k as int);
                assert(rest[0] == (name, value));
                assert(rest.drop_first() =~= parameters@.skip(k + 1));
                let constant = MathExpr::new_const(value);
                proof {
                    lemma_substitution_wf(expression@, name@, constant@);
                }
                expression = expression.substitute(name, &constant);
                k += 1;
            }
            assert(parameters@.skip(parameters@.len() as int) =~= Seq::<(&str, T)>::empty());
            assert(reads_as::<T>(source, parameters@, expression@));
            expressions.push(expression);
            equation += 1;
        }
        proof {
            let ts = trees_of(expressions@);
            assert forall|i: int| 0 <= i < ts.len() implies reads_as::<T>(
                sources@[i],
                parameters@,
                #[trigger] ts[i],
            ) && wf(ts[i]) by {
                assert(ts[i] == expressions@[i]@);
            }
        }
        Ok(expressions)
    }

    /// A system of these names and right-hand sides (see `system_built`).
    pub fn from_expressions(
        time: Option<&'a str>,
        names: &[&'a str],
        expressions: Vec<MathExpr<'a, T>>,
        kind: SystemKind,
    ) -> (r: Result<Self, SolverError<T>>)
        requires
            forall|i: int| 0 <= i < expressions@.len() ==> wf(#[trigger] expressions@[i]@),
        ensures
            exists|o: Result<SystemModel<T>, SolverError<T>>|
                system_built::<T>(time, names@, trees_of(expressions@), kind, o) && produces(r, o),
    {
        let ghost ts = trees_of(expressions@);
        if names.len() == 0 || names.len() != expressions.len() {
            let r = Err(SolverError::InvalidInput(ONE_RHS_PER_NAME));
            let ghost o = Err::<SystemModel<T>, SolverError<T>>(SolverError::InvalidInput(ONE_RHS_PER_NAME));
            assert(system_built::<T>(time, names@, ts, kind, o) && produces(r, o));
            return r;
        }
        let all = all_names_vec(names, time);
        let mut unique: Vec<&'a str> = Vec::new();
        let mut i: usize = 0;
        while i < all.len()
            invariant
                i <= all@.len(),
                all@ == all_names(names@, time),
                ts == trees_of(expressions@),
                names@.len() == expressions@.len(),
                names@.len() > 0,
                unique@ == all@.take(i as int),
                distinct_identifiers::<T>(all@.take(i as int)),
            decreases all@.len() - i,
        {
            let name = all[i];
            if !valid_identifier::<T>(name) || contains_name(&unique, name) {
                let r = Err(SolverError::InvalidInput(DISTINCT_NAMES));
                let ghost o = Err::<SystemModel<T>, SolverError<T>>(SolverError::InvalidInput(DISTINCT_NAMES));
                proof {
                    if is_identifier::<T>(name) {
                        assert(names_of(unique@).contains(name@));
                        let j = choose|j: int| 0 <= j < names_of(unique@).len() && names_of(unique@)[j] == name@;
                        assert(names_of(unique@)[j] == unique@[j]@);
                        assert(unique@[j] == all@[j]);
                        assert(all@[j]@ == all@[i as int]@);
                    }
                    assert(!distinct_identifiers::<T>(all@));
                    assert(all@ == all_names(names@, time));
                    assert(ts.len() == names@.len());
                    assert(system_built::<T>(time, names@, ts, kind, o) && produces(r, o));
                }
                return r;
            }
            unique.push(name);
            i += 1;
            assert(unique@ =~= all@.take(i as int));
            assert(distinct_identifiers::<T>(all@.take(i as int))) by {
                let prefix = all@.take(i as int);
                assert forall|a: int, b: int| 0 <= b < a < prefix.len() implies prefix[b]@ != prefix[a]@ by {
                    if a == i - 1 {
                        assert(names_of(all@.take(a))[b] == prefix[b]@);
                    } else {
                        assert(all@.take(i - 1)[a] == prefix[a]);
                        assert(all@.take(i - 1)[b] == prefix[b]);
                    }
                }
                assert forall|a: int| 0 <= a < prefix.len() implies is_identifier::<T>(#[trigger] prefix[a]) by {
                    if a < i - 1 {
                        assert(all@.take(i - 1)[a] == prefix[a]);
                    }
                }
            }
        }
        assert(all@.take(all@.len() as int) =~= all@);
        match Self::check_all_variables(&expressions, &unique, 0) {
            Ok(_) => {},
            Err(e) => {
                let r = Err(e);
                let ghost o = Err::<SystemModel<T>, SolverError<T>>(e);
                assert(names_of(unique@) == names_of(all_names(names@, time)));
                assert(system_built::<T>(time, names@, ts, kind, o) && produces(r, o));
                return r;
            },
        }
        let mut state_names: Vec<&'a str> = Vec::new();
        let mut k: usize = 0;
        while k < names.len()
            invariant
                k <= names@.len(),
                state_names@ == names@.take(k as int),
            decreases names@.len() - k,
        {
            state_names.push(names[k]);
            k += 1;
            assert(state_names@ =~= names@.take(k as int));
        }
        assert(names@.take(names@.len() as int) =~= names@);
        proof {
            assert forall|i: int| 0 <= i < ts.len() implies wf(#[trigger] ts[i]) by {
                assert(ts[i] == expressions@[i]@);
            }
            lemma_allowed_sound(ts, names_of(unique@));
            if let Some(t) = time {
                lemma_names_of_push(names@, t);
            }
            assert(names_of(unique@) == system_names(
                SystemModel {
                    time: opt_view(time),
                    names: names_of(state_names@),
                    rhs: ts,
                    matrix: seq![],
                    forcing: seq![],
                    constant_matrix: seq![],
                    kind,
                },
            ));
        }
        let system = OdeSystem {
            time,
            names: state_names,
            rhs: expressions,
            matrix: Vec::new(),
            forcing: Vec::new(),
            constant_matrix: Vec::new(),
            kind,
        };
        let ghost m = SystemModel {
            time: opt_view(time),
            names: names_of(names@),
            rhs: ts,
            matrix: seq![],
            forcing: seq![],
            constant_matrix: seq![],
            kind,
        };
        assert(system@.matrix =~= seq![]);
        assert(system@.forcing =~= seq![]);
        assert(system@.constant_matrix =~= seq![]);
        assert(system@ == m);
        assert(names_of(unique@) == names_of(all_names(names@, time)));
        let r = Ok(system);
        assert(system_built::<T>(time, names@, ts, kind, Ok(m)) && produces(r, Ok::<SystemModel<T>, SolverError<T>>(m)));
        r
    }

    /// Checks the parameters, reads the sources with the parameters bound,
    /// and builds the system (see `system_read`).
    fn parse(
        time: Option<&'a str>,
        names: &[&'a str],
        rhs: &[&'a str],
        kind: SystemKind,
        parameters: &[(&str, T)],
    ) -> (r: Result<Self, SolverError<T>>)
        ensures
            exists|o: Result<SystemModel<T>, SolverError<T>>|
                system_read::<T>(time, names@, rhs@, kind, parameters@, o) && produces(r, o),
    {
        match Self::check_parameters(names, time, parameters) {
            Ok(_) => {},
            Err(e) => {
                let r = Err(e);
                let ghost o = Err::<SystemModel<T>, SolverError<T>>(e);
                assert(system_read::<T>(time, names@, rhs@, kind, parameters@, o) && produces(r, o));
                return r;
            },
        }
        let read = Self::parse_expressions(rhs, parameters);
        let ghost x = read_outcome(read);
        assert(expressions_read::<T>(rhs@, parameters@, x));
        match read {
            Ok(expressions) => {
                assert forall|i: int| 0 <= i < expressions@.len() implies wf(#[trigger] expressions@[i]@) by {
                    assert(trees_of(expressions@)[i] == expressions@[i]@);
                }
                let r = Self::from_expressions(time, names, expressions, kind);
                proof {
                    let o = choose|o: Result<SystemModel<T>, SolverError<T>>|
                        system_built::<T>(time, names@, x->Ok_0, kind, o) && produces(r, o);
                    assert(system_read::<T>(time, names@, rhs@, kind, parameters@, o) && produces(r, o));
                }
                r
            },
            Err(e) => {
                let r = Err(e);
                let ghost o = Err::<SystemModel<T>, SolverError<T>>(e);
                assert(system_read::<T>(time, names@, rhs@, kind, parameters@, o) && produces(r, o));
                r
            },
        }
    }

    /// The system `x' = f(t, x)` of the state `names`, with one right-hand
    /// side per name; `time` names the time variable. The sources are read
    /// here, once, so that a system can be solved many times.
    pub fn new(time: &'a str, names: &[&'a str], rhs: &[&'a str]) -> (r: Result<Self, SolverError<T>>)
        ensures
            exists|o: Result<SystemModel<T>, SolverError<T>>|
                system_read::<T>(Some(time), names@, rhs@, SystemKind::General, seq![], o)
                    && produces(r, o),
    {
        let parameters: Vec<(&str, T)> = Vec::new();
        assert(parameters@ =~= seq![]);
        Self::new_with_parameters(time, names, rhs, parameters.as_slice())
    }

    /// A general system with named constant parameters. Each parameter's name
    /// is replaced by its value in every expression before the variables are
    /// checked; parameter names must be identifiers, distinct from each other
    /// and from the time and state names, and their values finite. Parameters
    /// that no expression uses are allowed.
    pub fn new_with_parameters(
        time: &'a str,
        names: &[&'a str],
        rhs: &[&'a str],
        parameters: &[(&str, T)],
    ) -> (r: Result<Self, SolverError<T>>)
        ensures
            exists|o: Result<SystemModel<T>, SolverError<T>>|
                system_read::<T>(Some(time), names@, rhs@, SystemKind::General, parameters@, o)
                    && produces(r, o),
    {
        Self::parse(Some(time), names, rhs, SystemKind::General, parameters)
    }

    /// The general system `x' = f(t, x)` (the same as `new`).
    pub fn general(time: &'a str, names: &[&'a str], rhs: &[&'a str]) -> (r: Result<Self, SolverError<T>>)
        ensures
            exists|o: Result<SystemModel<T>, SolverError<T>>|
                system_read::<T>(Some(time), names@, rhs@, SystemKind::General, seq![], o)
                    && produces(r, o),
    {
        Self::new(time, names, rhs)
    }

    /// A general system with named constant parameters (the same as
    /// `new_with_parameters`).
    pub fn general_with_parameters(
        time: &'a str,
        names: &[&'a str],
        rhs: &[&'a str],
        parameters: &[(&str, T)],
    ) -> (r: Result<Self, SolverError<T>>)
        ensures
            exists|o: Result<SystemModel<T>, SolverError<T>>|
                system_read::<T>(Some(time), names@, rhs@, SystemKind::General, parameters@, o)
                    && produces(r, o),
    {
        Self::new_with_parameters(time, names, rhs, parameters)
    }

    /// The system `x' = f(x)`: the expressions may use the state names only.
    pub fn autonomous(names: &[&'a str], rhs: &[&'a str]) -> (r: Result<Self, SolverError<T>>)
        ensures
            exists|o: Result<SystemModel<T>, SolverError<T>>|
                system_read::<T>(None, names@, rhs@, SystemKind::Autonomous, seq![], o)
                    && produces(r, o),
    {
        let parameters: Vec<(&str, T)> = Vec::new();
        assert(parameters@ =~= seq![]);
        Self::autonomous_with_parameters(names, rhs, parameters.as_slice())
    }

    /// An autonomous system with named constant parameters (see
    /// `new_with_parameters` for the rules of parameters).
    pub fn autonomous_with_parameters(
        names: &[&'a str],
        rhs: &[&'a str],
        parameters: &[(&str, T)],
    ) -> (r: Result<Self, SolverError<T>>)
        ensures
            exists|o: Result<SystemModel<T>, SolverError<T>>|
                system_read::<T>(None, names@, rhs@, SystemKind::Autonomous, parameters@, o)
                    && produces(r, o),
    {
        Self::parse(None, names, rhs, SystemKind::Autonomous, parameters)
    }
}

/// Copies of the expressions.
fn duplicate_all<'a, T: Scalar>(v: &Vec<MathExpr<'a, T>>) -> (r: Vec<MathExpr<'a, T>>)
    ensures
        trees_of(r@) == trees_of(v@),
{
    let mut r: Vec<MathExpr<'a, T>> = Vec::new();
    let mut i: usize = 0;
    while i < v.len()
        invariant
            i <= v@.len(),
            r@.len() == i,
            forall|j: int| 0 <= j < i ==> #[trigger] r@[j]@ == v@[j]@,
        decreases v@.len() - i,
    {
        r.push(v[i].duplicate());
        i += 1;
    }
    assert(trees_of(r@) =~= trees_of(v@));
    r
}

/// The values as constant expressions.
fn constant_exprs<'a, T: Scalar>(values: &Vec<T>) -> (r: Vec<MathExpr<'a, T>>)
    ensures
        trees_of(r@) == constants(values@),
{
    let mut r: Vec<MathExpr<'a, T>> = Vec::new();
    let mut i: usize = 0;
    while i < values.len()
        invariant
            i <= values@.len(),
            r@.len() == i,
            forall|j: int| 0 <= j < i ==> #[trigger] r@[j]@ == leaf(Symbol::Const(values@[j])),
        decreases values@.len() - i,
    {
        r.push(MathExpr::new_const(values[i]));
        i += 1;
    }
    assert(trees_of(r@) =~= constants(values@));
    r
}

impl<'a, T: Scalar> OdeSystem<'a, T> {
    /// Fails unless the matrix has `dimension * dimension` elements.
    fn check_matrix_size(dimension: usize, len: usize) -> (r: Result<(), SolverError<T>>)
        ensures
            r is Ok <==> dimension * dimension == len,
            r is Err ==> r == Err::<(), SolverError<T>>(SolverError::InvalidInput(MATRIX_SIZE)),
    {
        match dimension.checked_mul(dimension) {
            Some(square) => {
                if square == len {
                    return Ok(());
                }
            },
            None => {},
        }
        Err(SolverError::InvalidInput(MATRIX_SIZE))
    }

    /// The right-hand sides `A x + phi` of the system's names (see `assembled`).
    pub fn assemble_rhs(&self, matrix: &Vec<MathExpr<'a, T>>, forcing: &Vec<MathExpr<'a, T>>) -> (r: Vec<
        MathExpr<'a, T>,
    >)
        requires
            matrix@.len() == self@.names.len() * self@.names.len(),
            forcing@.len() <= self@.names.len(),
        ensures
            trees_of(r@) == assembled(trees_of(matrix@), trees_of(forcing@), self@.names),
    {
        let d = self.names.len();
        let matrix_len = matrix.len();
        let ghost ms = trees_of(matrix@);
        let ghost fs = trees_of(forcing@);
        let ghost ns = self@.names;
        let mut rows: Vec<MathExpr<'a, T>> = Vec::new();
        let mut row: usize = 0;
        while row < forcing.len()
            invariant
                d == self.names@.len(),
                ns == names_of(self.names@),
                ms == trees_of(matrix@),
                fs == trees_of(forcing@),
                matrix@.len() == d * d,
                matrix_len == d * d,
                forcing@.len() <= d,
                row <= forcing@.len(),
                rows@.len() == row,
                forall|k: int| 0 <= k < row ==> #[trigger] rows@[k]@ == assembled_row(ms, fs[k], ns, k, d as int),
            decreases forcing@.len() - row,
        {
            let mut rhs = forcing[row].duplicate();
            assert(rhs@ == fs[row as int]);
            let mut column: usize = 0;
            while column < d
                invariant
                    d == self.names@.len(),
                    ns == names_of(self.names@),
                    ms == trees_of(matrix@),
                    fs == trees_of(forcing@),
                    matrix@.len() == d * d,
                    matrix_len == d * d,
                    row < d,
                    column <= d,
                    rhs@ == assembled_row(ms, fs[row as int], ns, row as int, column as int),
                decreases d - column,
            {
                assert(column * d + row < d * d) by (nonlinear_arith)
                    requires
                        column < d,
                        row < d,
                ;
                assert(column * d <= column * d + row);
                let index = column * d + row;
                assert(ms[index as int] == matrix@[index as int]@);
                assert(ns[column as int] == self.names@[column as int]@);
                let term = MathExpr::new_multiply(matrix[index].duplicate(), MathExpr::new_var(self.names[column]));
                rhs = MathExpr::new_add(rhs, term);
                column += 1;
            }
            rows.push(rhs);
            row += 1;
        }
        assert(trees_of(rows@) =~= assembled(ms, fs, ns));
        rows
    }

    /// The linear system `x' = A(t) x + phi(t)`: `matrix` holds `A(t)`
    /// column-major and `forcing` holds `phi(t)`; both may use only time. A
    /// forcing that depends on the state belongs in `new`, or in `split`
    /// when the matrix is constant.
    pub fn linear(time: &'a str, names: &[&'a str], matrix: &[&'a str], forcing: &[&'a str]) -> (r:
        Result<Self, SolverError<T>>)
        requires
            matrix@.len() + forcing@.len() <= usize::MAX,
        ensures
            exists|o: Result<SystemModel<T>, SolverError<T>>|
                linear_read::<T>(time, names@, matrix@, forcing@, seq![], o) && produces(r, o),
    {
        let parameters: Vec<(&str, T)> = Vec::new();
        assert(parameters@ =~= seq![]);
        Self::linear_with_parameters(time, names, matrix, forcing, parameters.as_slice())
    }

    /// A linear system with named constant parameters in both the matrix and
    /// the forcing terms; once they are bound, only time may remain.
    pub fn linear_with_parameters(
        time: &'a str,
        names: &[&'a str],
        matrix: &[&'a str],
        forcing: &[&'a str],
        parameters: &[(&str, T)],
    ) -> (r: Result<Self, SolverError<T>>)
        requires
            matrix@.len() + forcing@.len() <= usize::MAX,
        ensures
            exists|o: Result<SystemModel<T>, SolverError<T>>|
                linear_read::<T>(time, names@, matrix@, forcing@, parameters@, o) && produces(r, o),
    {
        let first = Self::parse(Some(time), names, forcing, SystemKind::TimeLinear, parameters);
        let ghost o1 = choose|o1: Result<SystemModel<T>, SolverError<T>>|
            system_read::<T>(Some(time), names@, forcing@, SystemKind::TimeLinear, parameters@, o1)
                && produces(first, o1);
        let mut system = match first {
            Ok(system) => system,
            Err(e) => {
                let r = Err(e);
                assert(linear_read::<T>(time, names@, matrix@, forcing@, parameters@, Err(e)) && produces(r, Err::<SystemModel<T>, SolverError<T>>(e)));
                return r;
            },
        };
        let ghost m1 = system@;
        assert(o1 == Ok::<SystemModel<T>, SolverError<T>>(m1));
        assert(m1.names.len() == names@.len()) by {
            assert(names_of(names@).len() == names@.len());
        }
        match Self::check_matrix_size(names.len(), matrix.len()) {
            Ok(_) => {},
            Err(e) => {
                let r = Err(e);
                assert(linear_read::<T>(time, names@, matrix@, forcing@, parameters@, Err(e)) && produces(r, Err::<SystemModel<T>, SolverError<T>>(e)));
                return r;
            },
        }
        let read = Self::parse_expressions(matrix, parameters);
        let ghost x = read_outcome(read);
        let matrix_exprs = match read {
            Ok(v) => v,
            Err(e) => {
                let r = Err(e);
                assert(linear_built::<T>(time, m1, matrix@, parameters@, Err(e)));
                assert(linear_read::<T>(time, names@, matrix@, forcing@, parameters@, Err(e)) && produces(r, Err::<SystemModel<T>, SolverError<T>>(e)));
                return r;
            },
        };
        let forcing_exprs = duplicate_all(&system.rhs);
        let ghost ms = trees_of(matrix_exprs@);
        let ghost fs = trees_of(forcing_exprs@);
        let allowed: Vec<&str> = vec![time];
        assert(names_of(allowed@) =~= seq![time@]);
        match Self::check_all_variables(&matrix_exprs, &allowed, 0) {
            Ok(_) => {},
            Err(e) => {
                let r = Err(e);
                proof {
                    let i = choose|i: int|
                        #![trigger ms[i]]
                        0 <= i < ms.len() && all_allowed(ms.take(i), seq![time@]) && exists|n: Seq<char>|
                            least_name(n, disallowed_names(ms[i], seq![time@])) && reports_disallowed(
                                e,
                                (0 + i) as usize,
                                n,
                            );
                    assert((ms + fs).take(i) =~= ms.take(i));
                    assert((ms + fs)[i] == ms[i]);
                    assert(!all_allowed(ms + fs, seq![time@]));
                    assert(refuses_names(ms + fs, seq![time@], e, 0));
                    assert(linear_built::<T>(time, m1, matrix@, parameters@, Err(e)));
                }
                assert(linear_read::<T>(time, names@, matrix@, forcing@, parameters@, Err(e)) && produces(r, Err::<SystemModel<T>, SolverError<T>>(e)));
                return r;
            },
        }
        match Self::check_all_variables(&forcing_exprs, &allowed, matrix_exprs.len()) {
            Ok(_) => {},
            Err(e) => {
                let r = Err(e);
                proof {
                    let i = choose|i: int|
                        #![trigger fs[i]]
                        0 <= i < fs.len() && all_allowed(fs.take(i), seq![time@]) && exists|n: Seq<char>|
                            least_name(n, disallowed_names(fs[i], seq![time@])) && reports_disallowed(
                                e,
                                (ms.len() + i) as usize,
                                n,
                            );
                    let k = ms.len() + i;
                    assert((ms + fs)[k] == fs[i]);
                    assert forall|j: int| 0 <= j < k implies disallowed_names(
                        #[trigger] (ms + fs).take(k)[j],
                        seq![time@],
                    ).len() == 0 by {
                        if j < ms.len() {
                            assert((ms + fs).take(k)[j] == ms[j]);
                        } else {
                            assert((ms + fs).take(k)[j] == fs.take(i)[j - ms.len()]);
                        }
                    }
                    assert(!all_allowed(ms + fs, seq![time@]));
                    assert(refuses_names(ms + fs, seq![time@], e, 0));
                    assert(linear_built::<T>(time, m1, matrix@, parameters@, Err(e)));
                }
                assert(linear_read::<T>(time, names@, matrix@, forcing@, parameters@, Err(e)) && produces(r, Err::<SystemModel<T>, SolverError<T>>(e)));
                return r;
            },
        }
        assert(all_allowed(ms + fs, seq![time@])) by {
            assert forall|j: int| 0 <= j < (ms + fs).len() implies disallowed_names(
                #[trigger] (ms + fs)[j],
                seq![time@],
            ).len() == 0 by {
                if j < ms.len() {
                    assert((ms + fs)[j] == ms[j]);
                } else {
                    assert((ms + fs)[j] == fs[j - ms.len()]);
                }
            }
        }
        proof {
            use_type_invariant(&system);
            lemma_allowed_sound(ms + fs, seq![time@]);
            assert(sound(ms, seq![time@])) by {
                assert forall|i: int| 0 <= i < ms.len() implies #[trigger] ms[i] == (ms + fs)[i] by {}
            }
            assert(system_names(system@).contains(time@)) by {
                assert(system_names(system@)[system@.names.len() as int] == time@);
            }
            lemma_sound_wider(ms, seq![time@], system_names(system@));
        }
        system.install_linear(matrix_exprs, forcing_exprs);
        let ghost m = SystemModel {
            time: m1.time,
            names: m1.names,
            rhs: assembled(ms, m1.rhs, m1.names),
            matrix: ms,
            forcing: m1.rhs,
            constant_matrix: seq![],
            kind: m1.kind,
        };
        assert(system@ == m);
        assert(linear_built::<T>(time, m1, matrix@, parameters@, Ok(m)));
        let r = Ok(system);
        assert(linear_read::<T>(time, names@, matrix@, forcing@, parameters@, Ok(m)) && produces(r, Ok::<SystemModel<T>, SolverError<T>>(m)));
        r
    }
}

impl<'a, T: Scalar> OdeSystem<'a, T> {
    /// The split system `x' = B x + u(t, x)` with the finite constant matrix
    /// `B`, column-major, and the remainder `u(t, x)`.
    pub fn split(time: &'a str, names: &[&'a str], matrix: &[T], remainder: &[&'a str]) -> (r: Result<
        Self,
        SolverError<T>,
    >)
        ensures
            exists|o: Result<SystemModel<T>, SolverError<T>>|
                split_read::<T>(time, names@, matrix@, remainder@, o) && produces(r, o),
    {
        let parameters: Vec<(&str, T)> = Vec::new();
        assert(parameters@ =~= seq![]);
        let first = Self::parse(Some(time), names, remainder, SystemKind::ConstantLinear, parameters.as_slice());
        let ghost o1 = choose|o1: Result<SystemModel<T>, SolverError<T>>|
            system_read::<T>(Some(time), names@, remainder@, SystemKind::ConstantLinear, seq![], o1)
                && produces(first, o1);
        let mut system = match first {
            Ok(system) => system,
            Err(e) => {
                let r = Err(e);
                assert(split_read::<T>(time, names@, matrix@, remainder@, Err(e)) && produces(r, Err::<SystemModel<T>, SolverError<T>>(e)));
                return r;
            },
        };
        let ghost m1 = system@;
        assert(o1 == Ok::<SystemModel<T>, SolverError<T>>(m1));
        assert(m1.names.len() == names@.len()) by {
            assert(names_of(names@).len() == names@.len());
        }
        match Self::check_matrix_size(names.len(), matrix.len()) {
            Ok(_) => {},
            Err(e) => {
                let r = Err(e);
                assert(split_read::<T>(time, names@, matrix@, remainder@, Err(e)) && produces(r, Err::<SystemModel<T>, SolverError<T>>(e)));
                return r;
            },
        }
        let mut values: Vec<T> = Vec::new();
        let mut i: usize = 0;
        while i < matrix.len()
            invariant
                i <= matrix@.len(),
                m1 == system@,
                m1.names.len() == names@.len(),
                names@.len() * names@.len() == matrix@.len(),
                system_read::<T>(Some(time), names@, remainder@, SystemKind::ConstantLinear, seq![], o1),
                o1 == Ok::<SystemModel<T>, SolverError<T>>(m1),
                values@ == matrix@.take(i as int),
                forall|j: int| 0 <= j < i ==> T::spec_is_finite(#[trigger] matrix@[j]),
            decreases matrix@.len() - i,
        {
            if !T::is_finite(matrix[i]) {
                let e = SolverError::InvalidInput(FINITE_MATRIX);
                let r = Err(e);
                assert(split_built::<T>(m1, matrix@, Err(e)));
                assert(split_read::<T>(time, names@, matrix@, remainder@, Err(e)) && produces(r, Err::<SystemModel<T>, SolverError<T>>(e)));
                return r;
            }
            values.push(matrix[i]);
            i += 1;
            assert(values@ =~= matrix@.take(i as int));
        }
        assert(matrix@.take(matrix@.len() as int) =~= matrix@);
        let matrix_exprs = constant_exprs(&values);
        let forcing_exprs = duplicate_all(&system.rhs);
        assert(trees_of(matrix_exprs@).len() == matrix_exprs@.len());
        assert(constants(values@).len() == values@.len());
        proof {
            use_type_invariant(&system);
            assert forall|j: int| 0 <= j < trees_of(matrix_exprs@).len() implies wf(
                #[trigger] trees_of(matrix_exprs@)[j],
            ) && forall|x: Seq<char>| mentions(trees_of(matrix_exprs@)[j], x) ==> system_names(
                system@,
            ).contains(x) by {
                assert(trees_of(matrix_exprs@)[j] == leaf::<T>(Symbol::Const(values@[j])));
                assert(wf(leaf::<T>(Symbol::Const(values@[j]))));
            }
        }
        system.install_linear(matrix_exprs, forcing_exprs);
        proof {
            use_type_invariant(&system);
        }
        system.constant_matrix = values;
        let ghost m = SystemModel {
            time: m1.time,
            names: m1.names,
            rhs: assembled(constants(matrix@), m1.rhs, m1.names),
            matrix: constants(matrix@),
            forcing: m1.rhs,
            constant_matrix: matrix@,
            kind: m1.kind,
        };
        assert(system@ == m);
        assert(split_built::<T>(m1, matrix@, Ok(m)));
        let r = Ok(system);
        assert(split_read::<T>(time, names@, matrix@, remainder@, Ok(m)) && produces(r, Ok::<SystemModel<T>, SolverError<T>>(m)));
        r
    }

    /// A split system whose matrix `B` is given as column-major expressions
    /// with named constant parameters (such as `-rate`). After the
    /// parameters are bound each entry must use no variable and evaluate to
    /// a finite constant.
    pub fn split_with_parameters(
        time: &'a str,
        names: &[&'a str],
        matrix: &[&'a str],
        remainder: &[&'a str],
        parameters: &[(&str, T)],
    ) -> (r: Result<Self, SolverError<T>>)
        ensures
            exists|o: Result<SystemModel<T>, SolverError<T>>|
                split_entries_read::<T>(time, names@, matrix@, remainder@, parameters@, o) && produces(r, o),
    {
        let first = Self::parse(Some(time), names, remainder, SystemKind::ConstantLinear, parameters);
        let ghost o1 = choose|o1: Result<SystemModel<T>, SolverError<T>>|
            system_read::<T>(Some(time), names@, remainder@, SystemKind::ConstantLinear, parameters@, o1)
                && produces(first, o1);
        let mut system = match first {
            Ok(system) => system,
            Err(e) => {
                let r = Err(e);
                assert(split_entries_read::<T>(time, names@, matrix@, remainder@, parameters@, Err(e)) && produces(r, Err::<SystemModel<T>, SolverError<T>>(e)));
                return r;
            },
        };
        let ghost m1 = system@;
        assert(o1 == Ok::<SystemModel<T>, SolverError<T>>(m1));
        assert(m1.names.len() == names@.len()) by {
            assert(names_of(names@).len() == names@.len());
        }
        match Self::check_matrix_size(names.len(), matrix.len()) {
            Ok(_) => {},
            Err(e) => {
                let r = Err(e);
                assert(split_entries_read::<T>(time, names@, matrix@, remainder@, parameters@, Err(e)) && produces(r, Err::<SystemModel<T>, SolverError<T>>(e)));
                return r;
            },
        }
        let read = Self::parse_expressions(matrix, parameters);
        let entries = match read {
            Ok(v) => v,
            Err(e) => {
                let r = Err(e);
                assert(split_entries_built::<T>(m1, matrix@, parameters@, Err(e)));
                assert(split_entries_read::<T>(time, names@, matrix@, remainder@, parameters@, Err(e)) && produces(r, Err::<SystemModel<T>, SolverError<T>>(e)));
                return r;
            },
        };
        let ghost ms = trees_of(entries@);
        assert(expressions_read::<T>(matrix@, parameters@, Ok(ms)));
        let args: HashMap<&str, T> = HashMap::new();
        let no_names: Vec<&str> = Vec::new();
        assert(names_of(no_names@) =~= seq![]);
        assert((|n: Seq<char>| lookup(args@, n)) =~= empty_env::<T>());
        let mut values: Vec<T> = Vec::new();
        let mut i: usize = 0;
        while i < entries.len()
            invariant
                ms == trees_of(entries@),
                ms.len() == matrix@.len(),
                m1 == system@,
                m1.names.len() == names@.len(),
                names@.len() * names@.len() == matrix@.len(),
                system_read::<T>(Some(time), names@, remainder@, SystemKind::ConstantLinear, parameters@, o1),
                o1 == Ok::<SystemModel<T>, SolverError<T>>(m1),
                expressions_read::<T>(matrix@, parameters@, Ok(ms)),
                forall|j: int| 0 <= j < ms.len() ==> wf(#[trigger] ms[j]),
                args@ == Map::<&str, T>::empty(),
                (|n: Seq<char>| lookup(args@, n)) == empty_env::<T>(),
                names_of(no_names@) == Seq::<Seq<char>>::empty(),
                i <= entries@.len(),
                values@ == entry_values(ms.take(i as int)),
                forall|j: int| 0 <= j < i ==> entry_accepted(#[trigger] ms[j]),
            decreases entries@.len() - i,
        {
            assert(ms[i as int] == entries@[i as int]@);
            match Self::check_variables(&entries[i], &no_names, i) {
                Ok(_) => {},
                Err(e) => {
                    let r = Err(e);
                    proof {
                        assert(!entry_accepted(ms[i as int]));
                        assert(entries_refused(ms, e));
                        assert(split_entries_built::<T>(m1, matrix@, parameters@, Err(e)));
                    }
                    assert(split_entries_read::<T>(time, names@, matrix@, remainder@, parameters@, Err(e)) && produces(r, Err::<SystemModel<T>, SolverError<T>>(e)));
                    return r;
                },
            }
            proof {
                lemma_no_names_defined(ms[i as int]);
            }
            let value = match entries[i].evaluate(&args) {
                Ok(value) => value,
                Err(error) => {
                    assert(false);
                    return Err(SolverError::Evaluation { equation: i, message: error.to_text() });
                },
            };
            if !T::is_finite(value) {
                let e = SolverError::InvalidInput(FINITE_MATRIX);
                let r = Err(e);
                proof {
                    assert(!entry_accepted(ms[i as int]));
                    assert(entries_refused(ms, e));
                    assert(split_entries_built::<T>(m1, matrix@, parameters@, Err(e)));
                }
                assert(split_entries_read::<T>(time, names@, matrix@, remainder@, parameters@, Err(e)) && produces(r, Err::<SystemModel<T>, SolverError<T>>(e)));
                return r;
            }
            values.push(value);
            i += 1;
            assert(values@ =~= entry_values(ms.take(i as int)));
        }
        assert(ms.take(ms.len() as int) =~= ms);
        assert(values@.len() == ms.len());
        let matrix_exprs = constant_exprs(&values);
        let forcing_exprs = duplicate_all(&system.rhs);
        assert(trees_of(matrix_exprs@).len() == matrix_exprs@.len());
        assert(constants(values@).len() == values@.len());
        proof {
            use_type_invariant(&system);
            assert forall|j: int| 0 <= j < trees_of(matrix_exprs@).len() implies wf(
                #[trigger] trees_of(matrix_exprs@)[j],
            ) && forall|x: Seq<char>| mentions(trees_of(matrix_exprs@)[j], x) ==> system_names(
                system@,
            ).contains(x) by {
                assert(trees_of(matrix_exprs@)[j] == leaf::<T>(Symbol::Const(values@[j])));
                assert(wf(leaf::<T>(Symbol::Const(values@[j]))));
            }
        }
        system.install_linear(matrix_exprs, forcing_exprs);
        proof {
            use_type_invariant(&system);
        }
        system.constant_matrix = values;
        let ghost m = SystemModel {
            time: m1.time,
            names: m1.names,
            rhs: assembled(constants(entry_values(ms)), m1.rhs, m1.names),
            matrix: constants(entry_values(ms)),
            forcing: m1.rhs,
            constant_matrix: entry_values(ms),
            kind: m1.kind,
        };
        assert(system@ == m);
        assert(split_entries_built::<T>(m1, matrix@, parameters@, Ok(m)));
        let r = Ok(system);
        assert(split_entries_read::<T>(time, names@, matrix@, remainder@, parameters@, Ok(m)) && produces(r, Ok::<SystemModel<T>, SolverError<T>>(m)));
        r
    }
}

/// An expression that uses no variable has a value when no variable has one.
proof fn lemma_no_names_defined<T: Scalar>(t: Tree<T>)
    requires
        wf(t),
        disallowed_names(t, seq![]).len() == 0,
    ensures
        entry_value(t) is Ok,
{
    assert forall|x: Seq<char>| mentions(t, x) implies (#[trigger] empty_env::<T>()(x)) is Some by {
        lemma_collect_names(t, seq![], x);
        let all = collect_names(t, seq![]);
        let k = choose|k: int| 0 <= k < all.len() && all[k] == x;
        assert(not_in(seq![])(all[k]));
        all.lemma_filter_contains(not_in(seq![]), k);
    }
    lemma_value_defined(t, empty_env::<T>());
}

/// Expressions that use only allowed names are sound.
proof fn lemma_allowed_sound<T>(ts: Seq<Tree<T>>, allowed: Seq<Seq<char>>)
    requires
        all_allowed(ts, allowed),
        forall|i: int| 0 <= i < ts.len() ==> wf(#[trigger] ts[i]),
    ensures
        sound(ts, allowed),
{
    assert forall|i: int, x: Seq<char>| 0 <= i < ts.len() && #[trigger] mentions(ts[i], x) implies allowed.contains(
        x,
    ) by {
        lemma_collect_names(ts[i], seq![], x);
        let all = collect_names(ts[i], seq![]);
        if !allowed.contains(x) {
            let k = choose|k: int| 0 <= k < all.len() && all[k] == x;
            assert(not_in(allowed)(all[k]));
            all.lemma_filter_contains(not_in(allowed), k);
            assert(disallowed_names(ts[i], allowed).len() > 0);
        }
    }
}

/// Sound expressions stay sound when more names are allowed.
proof fn lemma_sound_wider<T>(ts: Seq<Tree<T>>, a: Seq<Seq<char>>, b: Seq<Seq<char>>)
    requires
        sound(ts, a),
        forall|x: Seq<char>| a.contains(x) ==> b.contains(x),
    ensures
        sound(ts, b),
{
}

/// The rows of `A x + phi` mention only the names of `A`, `phi` and `x`.
proof fn lemma_assembled_row_sound<T>(
    matrix: Seq<Tree<T>>,
    forcing: Tree<T>,
    names: Seq<Seq<char>>,
    row: int,
    columns: int,
    allowed: Seq<Seq<char>>,
)
    requires
        sound(matrix, allowed),
        sound(seq![forcing], allowed),
        forall|c: int| 0 <= c < names.len() ==> allowed.contains(#[trigger] names[c]),
        0 <= row < names.len(),
        columns <= names.len(),
        matrix.len() == names.len() * names.len(),
    ensures
        sound(seq![assembled_row(matrix, forcing, names, row, columns)], allowed),
    decreases columns,
{
    broadcast use crate::structure::lemma_mentions_args, crate::structure::lemma_wf_args;

    assert(seq![forcing][0] == forcing);
    if columns > 0 {
        lemma_assembled_row_sound(matrix, forcing, names, row, columns - 1, allowed);
        let c = columns - 1;
        assert(c * names.len() + row < names.len() * names.len()) by (nonlinear_arith)
            requires
                0 <= c < names.len(),
                0 <= row < names.len(),
        ;
        let prev = assembled_row(matrix, forcing, names, row, columns - 1);
        assert(seq![prev][0] == prev);
        let r = assembled_row(matrix, forcing, names, row, columns);
        assert(seq![r][0] == r);
        assert(wf(leaf::<T>(Symbol::Var(names[c]))));
    }
}

/// The rows of `A x + phi` are sound when `A` and `phi` are and the state
/// names are allowed.
proof fn lemma_assembled_sound<T>(
    matrix: Seq<Tree<T>>,
    forcing: Seq<Tree<T>>,
    names: Seq<Seq<char>>,
    allowed: Seq<Seq<char>>,
)
    requires
        sound(matrix, allowed),
        sound(forcing, allowed),
        forall|c: int| 0 <= c < names.len() ==> allowed.contains(#[trigger] names[c]),
        forcing.len() <= names.len(),
        matrix.len() == names.len() * names.len(),
    ensures
        sound(assembled(matrix, forcing, names), allowed),
{
    let a = assembled(matrix, forcing, names);
    assert forall|row: int| 0 <= row < a.len() implies wf(#[trigger] a[row]) && forall|x: Seq<char>|
        mentions(a[row], x) ==> allowed.contains(x) by {
        assert(sound(seq![forcing[row]], allowed)) by {
            assert(seq![forcing[row]][0] == forcing[row]);
        }
        lemma_assembled_row_sound(matrix, forcing[row], names, row, names.len() as int, allowed);
        assert(seq![a[row]][0] == a[row]);
    }
}

impl<'a, T: Scalar> OdeSystem<'a, T> {
    /// Installs the matrix `A` and the forcing `phi` and sets the right-hand
    /// sides to `A x + phi`.
    fn install_linear(&mut self, matrix: Vec<MathExpr<'a, T>>, forcing: Vec<MathExpr<'a, T>>)
        requires
            sound(trees_of(matrix@), system_names(old(self)@)),
            sound(trees_of(forcing@), system_names(old(self)@)),
            matrix@.len() == old(self)@.names.len() * old(self)@.names.len(),
            forcing@.len() == old(self)@.names.len(),
        ensures
            final(self)@ == (SystemModel {
                rhs: assembled(trees_of(matrix@), trees_of(forcing@), old(self)@.names),
                matrix: trees_of(matrix@),
                forcing: trees_of(forcing@),
                ..old(self)@
            }),
    {
        proof {
            use_type_invariant(&*self);
            let allowed = system_names(self@);
            assert forall|c: int| 0 <= c < self@.names.len() implies allowed.contains(#[trigger] self@.names[c]) by {
                assert(allowed[c] == self@.names[c]);
            }
            lemma_assembled_sound(trees_of(matrix@), trees_of(forcing@), self@.names, allowed);
        }
        let rhs = self.assemble_rhs(&matrix, &forcing);
        self.rhs = rhs;
        self.matrix = matrix;
        self.forcing = forcing;
    }
}

impl<'a, T: Scalar> Clone for OdeSystem<'a, T> {
    /// A copy of the system, with the same model.
    fn clone(&self) -> (r: Self)
        ensures
            r@ == self@,
    {
        proof {
            use_type_invariant(self);
        }
        let rhs = duplicate_all(&self.rhs);
        let matrix = duplicate_all(&self.matrix);
        let forcing = duplicate_all(&self.forcing);
        let mut names: Vec<&'a str> = Vec::new();
        let mut i: usize = 0;
        while i < self.names.len()
            invariant
                i <= self.names@.len(),
                names@ == self.names@.take(i as int),
            decreases self.names@.len() - i,
        {
            names.push(self.names[i]);
            i += 1;
            assert(names@ =~= self.names@.take(i as int));
        }
        assert(self.names@.take(self.names@.len() as int) =~= self.names@);
        let mut constant_matrix: Vec<T> = Vec::new();
        let mut k: usize = 0;
        while k < self.constant_matrix.len()
            invariant
                k <= self.constant_matrix@.len(),
                constant_matrix@ == self.constant_matrix@.take(k as int),
            decreases self.constant_matrix@.len() - k,
        {
            constant_matrix.push(self.constant_matrix[k]);
            k += 1;
            assert(constant_matrix@ =~= self.constant_matrix@.take(k as int));
        }
        assert(self.constant_matrix@.take(self.constant_matrix@.len() as int) =~= self.constant_matrix@);
        assert(trees_of(rhs@).len() == rhs@.len());
        OdeSystem { time: self.time, names, rhs, matrix, forcing, constant_matrix, kind: self.kind }
    }
}

/// Binding parameters replaces them structurally: the bound tree is
/// well-formed and mentions exactly the variables of the tree that are not
/// parameters; other names, even those that contain a parameter's name, stay.
pub proof fn lemma_bound_mentions<T>(t: Tree<T>, parameters: Seq<(&str, T)>, x: Seq<char>)
    requires
        wf(t),
    ensures
        wf(bound(t, parameters)),
        mentions(bound(t, parameters), x) <==> (mentions(t, x) && forall|i: int|
            0 <= i < parameters.len() ==> #[trigger] parameters[i].0@ != x),
    decreases parameters.len(),
{
    if parameters.len() > 0 {
        let c = leaf::<T>(Symbol::Const(parameters[0].1));
        assert(wf(c));
        assert(!mentions(c, x)) by {
            assert(!crate::tree::mentions_from(c.args, 0, x));
        }
        let next = substitution(t, parameters[0].0@, c);
        lemma_substitution_wf(t, parameters[0].0@, c);
        lemma_substitution_mentions(t, parameters[0].0@, c, x);
        lemma_bound_mentions(next, parameters.drop_first(), x);
        if mentions(t, x) && forall|i: int| 0 <= i < parameters.len() ==> #[trigger] parameters[i].0@ != x {
            assert forall|i: int| 0 <= i < parameters.drop_first().len() implies #[trigger] parameters.drop_first()[i].0@ != x by {
                assert(parameters.drop_first()[i] == parameters[i + 1]);
            }
        }
        if mentions(bound(t, parameters), x) {
            assert forall|i: int| 0 <= i < parameters.len() implies #[trigger] parameters[i].0@ != x by {
                if i > 0 {
                    assert(parameters.drop_first()[i - 1] == parameters[i]);
                }
            }
        }
    }
}

/// No text comes before itself.
pub proof fn lemma_text_less_irreflexive(a: Seq<char>)
    ensures
        !text_less(a, a),
    decreases a.len(),
{
    if a.len() > 0 {
        lemma_text_less_irreflexive(a.drop_first());
    }
}

} // verus!
