//! Reading back what is written: the text of an expression reads as the
//! expression again.
use vstd::prelude::*;
use crate::grammar::{
    digits_end, name_end, fraction_end, has_exponent, exponent_digits_at, number_end, number_at,
    number_token, lemma_digits_end, skip_ws, lemma_skip_ws, function_symbol, Failure, consume,
    expect, addition_rest_at, multiplication_rest_at, lemma_addition_rest_step,
    lemma_multiplication_rest_step, primary_at, unary_at, power_at, multiplication_at,
    expression_at, name_at, call_at, iif_arguments_at, token_reads, token_end, parse_text,
};
use crate::math_expr::power_tree;
use crate::printing::{written, operation_name};
use crate::ode_system::identifier_shape;
use crate::scalar::{Scalar, UnaryFunction};
use crate::text::{char_is_whitespace, char_is_alphanumeric, is_ascii_digit, is_ascii_letter};
use crate::tree::{Symbol, Tree, wf, arity, leaf, node1, node3};

verus! {

/// A name that the grammar reads as one token: the shape of an identifier,
/// and no whitespace in front.
pub open spec fn plain_name(n: Seq<char>) -> bool {
    identifier_shape(n) && !char_is_whitespace(n[0])
}

/// A numeric literal that the grammar reads whole: it starts with a digit
/// or `.`, runs to its end as digits, an optional `.` and digits and an
/// optional exponent, and an exponent mark is followed by digits.
pub open spec fn number_literal(w: Seq<char>) -> bool {
    let j2 = fraction_end(w, 0);
    &&& w.len() > 0
    &&& is_ascii_digit(w[0]) || w[0] == '.'
    &&& number_end(w, 0) == w.len()
    &&& has_exponent(w, j2) ==> digits_end(w, exponent_digits_at(w, j2)) > exponent_digits_at(
        w,
        j2,
    )
}

/// A token that the grammar reads whole: a numeric literal or a plain name.
pub open spec fn single_token(w: Seq<char>) -> bool {
    number_literal(w) || plain_name(w)
}

/// The text of a constant without its first character (its sign).
pub open spec fn unsigned_text<T: Scalar>(c: T) -> Seq<char> {
    T::spec_text(c)@.subrange(1, T::spec_text(c)@.len() as int)
}

/// A constant written as `-` and a token that the scalar type reads as a
/// number whose negation is the constant.
pub open spec fn negative_constant<T: Scalar>(b: Tree<T>) -> bool {
    &&& b.head is Const
    &&& b.args.len() == 0
    &&& T::spec_text(b.head->Const_0)@.len() >= 2
    &&& T::spec_text(b.head->Const_0)@[0] == '-'
    &&& single_token(unsigned_text(b.head->Const_0))
    &&& match T::spec_reads(unsigned_text(b.head->Const_0)) {
        Some(v) => T::spec_unary(UnaryFunction::Negate, v) == b.head->Const_0,
        None => false,
    }
}

/// A tree whose text reads back as the tree: every variable has a plain
/// name that the scalar type does not read as a number; every constant is
/// written as a single token that the scalar type reads back as the same
/// constant, except that the exponent of a power may also be a negative
/// constant written as `-` and a token (the reader folds the sign into the
/// constant); and no power has a negated constant as its exponent (that text
/// reads as a power of a constant).
pub open spec fn reads_back<T: Scalar>(t: Tree<T>) -> bool
    decreases t,
{
    &&& wf(t)
    &&& match t.head {
        Symbol::Var(n) => plain_name(n) && T::spec_reads(n) is None,
        Symbol::Const(c) => {
            &&& single_token(T::spec_text(c)@)
            &&& T::spec_reads(T::spec_text(c)@) == Some(c)
        },
        Symbol::Power => !(t.args[1].head is Negate && t.args[1].args[0].head is Const),
        _ => true,
    }
    &&& t.args.len() >= 1 ==> reads_back(t.args[0])
    &&& t.args.len() >= 2 ==> reads_back(t.args[1]) || (t.head is Power && negative_constant(
        t.args[1],
    ))
    &&& t.args.len() >= 3 ==> reads_back(t.args[2])
}

/// The text `w` stands in `s` from index `i`.
#[verifier::opaque]
spec fn occurs_at(s: Seq<char>, i: int, w: Seq<char>) -> bool {
    &&& 0 <= i
    &&& i + w.len() <= s.len()
    &&& forall|m: int| 0 <= m < w.len() ==> s[i + m] == #[trigger] w[m]
}

/// A character of `w` where `w` stands in `s`.
proof fn lemma_occurs_char(s: Seq<char>, i: int, w: Seq<char>, m: int)
    requires
        occurs_at(s, i, w),
        0 <= m < w.len(),
    ensures
        s[i + m] == w[m],
        0 <= i,
        i + w.len() <= s.len(),
{
    reveal(occurs_at);
}

/// Where `w` stands in `s`, that part of `s` is `w`.
proof fn lemma_occurs_subrange(s: Seq<char>, i: int, w: Seq<char>)
    requires
        occurs_at(s, i, w),
    ensures
        s.subrange(i, i + w.len()) == w,
{
    reveal(occurs_at);
    assert(s.subrange(i, i + w.len()) =~= w);
}

/// Where `w` stands in `s`, it ends within `s`.
proof fn lemma_occurs_bounds(s: Seq<char>, i: int, w: Seq<char>)
    requires
        occurs_at(s, i, w),
    ensures
        0 <= i,
        i + w.len() <= s.len(),
{
    reveal(occurs_at);
}

/// The end of `s`, or a character that no token runs into.
spec fn token_stops(s: Seq<char>, j: int) -> bool {
    j == s.len() || (0 <= j < s.len() && (s[j] == ' ' || s[j] == ')' || s[j] == ','))
}

proof fn lemma_digits_local(s: Seq<char>, i: int, w: Seq<char>, p: int)
    requires
        occurs_at(s, i, w),
        0 <= p <= w.len(),
        token_stops(s, i + w.len()),
    ensures
        digits_end(s, i + p) == i + digits_end(w, p),
    decreases w.len() - p,
{
    reveal(occurs_at);
    if p < w.len() {
        assert(s[i + p] == w[p]);
        if is_ascii_digit(w[p]) {
            lemma_digits_local(s, i, w, p + 1);
        }
    }
}

proof fn lemma_name_local(s: Seq<char>, i: int, w: Seq<char>, p: int)
    requires
        occurs_at(s, i, w),
        0 <= p <= w.len(),
        i + w.len() == s.len() || !(char_is_alphanumeric(s[i + w.len()]) || s[i + w.len()] == '_'),
    ensures
        name_end(s, i + p) == i + name_end(w, p),
    decreases w.len() - p,
{
    reveal(occurs_at);
    if p < w.len() {
        assert(s[i + p] == w[p]);
        if char_is_alphanumeric(w[p]) || w[p] == '_' {
            lemma_name_local(s, i, w, p + 1);
        }
    }
}

/// A name made of name characters runs to its end.
proof fn lemma_name_runs(n: Seq<char>, p: int)
    requires
        forall|m: int| 1 <= m < n.len() ==> (char_is_alphanumeric(#[trigger] n[m]) || n[m] == '_'),
        1 <= p <= n.len(),
    ensures
        name_end(n, p) == n.len(),
    decreases n.len() - p,
{
    if p < n.len() {
        lemma_name_runs(n, p + 1);
    }
}

/// A numeric literal that stands in `s` reads there as the whole literal.
proof fn lemma_number_local<T: Scalar>(s: Seq<char>, i: int, w: Seq<char>, read: spec_fn(int) -> Option<T>)
    requires
        occurs_at(s, i, w),
        number_literal(w),
        token_stops(s, i + w.len()),
    ensures
        number_end(s, i) == i + w.len(),
        number_at(s, read, i) == number_token(s, read, i, i + w.len()),
{
    reveal(occurs_at);
    lemma_digits_end(w, 0);
    lemma_digits_local(s, i, w, 0);
    let j1 = digits_end(w, 0);
    if j1 < w.len() {
        assert(s[i + j1] == w[j1]);
        if w[j1] == '.' {
            lemma_digits_end(w, j1 + 1);
            lemma_digits_local(s, i, w, j1 + 1);
        }
    }
    let j2 = fraction_end(w, 0);
    assert(fraction_end(s, i) == i + j2);
    assert(j2 <= w.len());
    if j2 < w.len() {
        assert(s[i + j2] == w[j2]);
    }
    assert(has_exponent(s, i + j2) == has_exponent(w, j2));
    if has_exponent(w, j2) {
        let j3 = j2 + 1;
        if j3 < w.len() {
            assert(s[i + j3] == w[j3]);
        }
        let j4 = exponent_digits_at(w, j2);
        assert(exponent_digits_at(s, i + j2) == i + j4);
        lemma_digits_end(w, j4);
        lemma_digits_local(s, i, w, j4);
    }
}

/// The part `v` of `w` at `p` stands in `s` where `w` does, shifted by `p`.
proof fn lemma_occurs_part(s: Seq<char>, i: int, w: Seq<char>, p: int, v: Seq<char>)
    requires
        occurs_at(s, i, w),
        0 <= p,
        p + v.len() <= w.len(),
        w.subrange(p, p + v.len()) == v,
    ensures
        occurs_at(s, i + p, v),
{
    reveal(occurs_at);
    assert forall|m: int| 0 <= m < v.len() implies s[i + p + m] == #[trigger] v[m] by {
        assert(w.subrange(p, p + v.len())[m] == w[p + m]);
    }
}

/// An operator sign of the written text.
spec fn operator_sign(c: char) -> bool {
    c == '+' || c == '-' || c == '*' || c == '/' || c == '^'
}

/// What written text puts right after an operand: the end, `)`, `,`, or a
/// space and an operator sign.
spec fn operand_ends(s: Seq<char>, j: int) -> bool {
    ||| j == s.len()
    ||| 0 <= j < s.len() && (s[j] == ')' || s[j] == ',')
    ||| 0 <= j && j + 1 < s.len() && s[j] == ' ' && operator_sign(s[j + 1])
}

/// Where reading goes on after an operand: past the space, if there is one.
proof fn lemma_operand_ends(s: Seq<char>, j: int)
    requires
        0 <= j <= s.len(),
        operand_ends(s, j),
    ensures
        token_stops(s, j),
        j <= skip_ws(s, j) <= j + 1,
        skip_ws(s, j) <= s.len(),
        skip_ws(s, skip_ws(s, j)) == skip_ws(s, j),
        skip_ws(s, j) == s.len() || s[skip_ws(s, j)] == ')' || s[skip_ws(s, j)] == ','
            || operator_sign(s[skip_ws(s, j)]),
        0 <= j < s.len() && s[j] != ' ' ==> skip_ws(s, j) == j,
        0 <= j < s.len() && s[j] == ' ' ==> skip_ws(s, j) == j + 1,
{
    if j < s.len() && s[j] == ' ' {
        assert(skip_ws(s, j + 1) == j + 1);
    }
}

/// The name of a one-operand function: ASCII letters and digits, starting
/// with a letter, which the grammar calls that function.
proof fn lemma_function_name<T>(h: Symbol<T>)
    requires
        arity(h) == 1,
        !(h is Negate),
    ensures
        operation_name(h).len() >= 2,
        is_ascii_letter(operation_name(h)[0]),
        forall|m: int|
            0 <= m < operation_name(h).len() ==> is_ascii_letter(#[trigger] operation_name(h)[m])
                || is_ascii_digit(operation_name(h)[m]),
        operation_name(h) != seq!['i', 'i', 'f'],
        function_symbol::<T>(operation_name(h)) == Some(h),
{
    match h {
        Symbol::Sine => {
            reveal_strlit("sin");
            assert("sin"@ =~= seq!['s', 'i', 'n']);
        },
        Symbol::Cosine => {
            reveal_strlit("cos");
            assert("cos"@ =~= seq!['c', 'o', 's']);
        },
        Symbol::Tangent => {
            reveal_strlit("tan");
            assert("tan"@ =~= seq!['t', 'a', 'n']);
        },
        Symbol::ArcSine => {
            reveal_strlit("asin");
            assert("asin"@ =~= seq!['a', 's', 'i', 'n']);
        },
        Symbol::ArcCosine => {
            reveal_strlit("acos");
            assert("acos"@ =~= seq!['a', 'c', 'o', 's']);
        },
        Symbol::ArcTangent => {
            reveal_strlit("atan");
            assert("atan"@ =~= seq!['a', 't', 'a', 'n']);
        },
        Symbol::HyperbolicSine => {
            reveal_strlit("sinh");
            assert("sinh"@ =~= seq!['s', 'i', 'n', 'h']);
        },
        Symbol::HyperbolicCosine => {
            reveal_strlit("cosh");
            assert("cosh"@ =~= seq!['c', 'o', 's', 'h']);
        },
        Symbol::HyperbolicTangent => {
            reveal_strlit("tanh");
            assert("tanh"@ =~= seq!['t', 'a', 'n', 'h']);
        },
        Symbol::Sign => {
            reveal_strlit("sign");
            assert("sign"@ =~= seq!['s', 'i', 'g', 'n']);
        },
        Symbol::AbsoluteValue => {
            reveal_strlit("abs");
            assert("abs"@ =~= seq!['a', 'b', 's']);
        },
        Symbol::Exponent => {
            reveal_strlit("exp");
            assert("exp"@ =~= seq!['e', 'x', 'p']);
        },
        Symbol::SquareRoot => {
            reveal_strlit("sqrt");
            assert("sqrt"@ =~= seq!['s', 'q', 'r', 't']);
        },
        Symbol::NaturalLogarithm => {
            reveal_strlit("ln");
            assert("ln"@ =~= seq!['l', 'n']);
        },
        Symbol::CommonLogarithm => {
            reveal_strlit("log10");
            assert("log10"@ =~= seq!['l', 'o', 'g', '1', '0']);
        },
        _ => {},
    }
}

/// The sign that a two-operand operation is written with.
spec fn sign_of<T>(h: Symbol<T>) -> char {
    match h {
        Symbol::Add => '+',
        Symbol::Subtract => '-',
        Symbol::Multiply => '*',
        Symbol::Divide => '/',
        _ => '^',
    }
}

/// A two-operand operation.
spec fn is_binary<T>(h: Symbol<T>) -> bool {
    h is Add || h is Subtract || h is Multiply || h is Divide || h is Power
}

/// The text of a two-operand operation: `(a op b)`.
proof fn lemma_binary_text<T: Scalar>(t: Tree<T>, s: Seq<char>, i: int)
    requires
        wf(t),
        is_binary(t.head),
        occurs_at(s, i, written(t)),
    ensures
        ({
            let la = written(t.args[0]).len() as int;
            let lb = written(t.args[1]).len() as int;
            &&& 0 <= i
            &&& i + written(t).len() <= s.len()
            &&& written(t).len() == la + lb + 5
            &&& s[i] == '('
            &&& occurs_at(s, i + 1, written(t.args[0]))
            &&& s[i + 1 + la] == ' '
            &&& s[i + 2 + la] == sign_of(t.head)
            &&& s[i + 3 + la] == ' '
            &&& occurs_at(s, i + 4 + la, written(t.args[1]))
            &&& s[i + 4 + la + lb] == ')'
        }),
{
    reveal(occurs_at);
    reveal_strlit("(");
    reveal_strlit(")");
    reveal_strlit(" ");
    reveal_strlit("+");
    reveal_strlit("-");
    reveal_strlit("*");
    reveal_strlit("/");
    reveal_strlit("^");
    let wa = written(t.args[0]);
    let wb = written(t.args[1]);
    let la = wa.len() as int;
    let lb = wb.len() as int;
    let w = written(t);
    let op = operation_name(t.head);
    assert(op =~= seq![sign_of(t.head)]);
    assert(w =~= "("@ + wa + " "@ + op + " "@ + wb + ")"@);
    assert(w[0] == '(');
    assert(w[1 + la] == ' ');
    assert(w[2 + la] == sign_of(t.head));
    assert(w[3 + la] == ' ');
    assert(w[4 + la + lb] == ')');
    assert(w.subrange(1, 1 + la) =~= wa);
    assert(w.subrange(4 + la, 4 + la + lb) =~= wb);
    lemma_occurs_part(s, i, w, 1, wa);
    lemma_occurs_part(s, i, w, 4 + la, wb);
}

/// The text of a negation: `(-a)`.
proof fn lemma_negation_text<T: Scalar>(t: Tree<T>, s: Seq<char>, i: int)
    requires
        wf(t),
        t.head is Negate,
        occurs_at(s, i, written(t)),
    ensures
        ({
            let la = written(t.args[0]).len() as int;
            &&& 0 <= i
            &&& i + written(t).len() <= s.len()
            &&& written(t).len() == la + 3
            &&& s[i] == '('
            &&& s[i + 1] == '-'
            &&& occurs_at(s, i + 2, written(t.args[0]))
            &&& s[i + 2 + la] == ')'
        }),
{
    reveal(occurs_at);
    reveal_strlit("(-");
    reveal_strlit(")");
    let wa = written(t.args[0]);
    let la = wa.len() as int;
    let w = written(t);
    assert(w =~= "(-"@ + wa + ")"@);
    assert(w[0] == '(');
    assert(w[1] == '-');
    assert(w[2 + la] == ')');
    assert(w.subrange(2, 2 + la) =~= wa);
    lemma_occurs_part(s, i, w, 2, wa);
}

/// The text of a call of a one-operand function: `name(a)`.
proof fn lemma_call_text<T: Scalar>(t: Tree<T>, s: Seq<char>, i: int)
    requires
        wf(t),
        arity(t.head) == 1,
        !(t.head is Negate),
        occurs_at(s, i, written(t)),
    ensures
        ({
            let n = operation_name(t.head);
            let la = written(t.args[0]).len() as int;
            &&& 0 <= i
            &&& i + written(t).len() <= s.len()
            &&& written(t).len() == n.len() + la + 2
            &&& occurs_at(s, i, n)
            &&& s[i + n.len()] == '('
            &&& occurs_at(s, i + n.len() + 1, written(t.args[0]))
            &&& s[i + n.len() + 1 + la] == ')'
        }),
{
    reveal(occurs_at);
    reveal_strlit("(");
    reveal_strlit(")");
    let n = operation_name(t.head);
    let ln = n.len() as int;
    let wa = written(t.args[0]);
    let la = wa.len() as int;
    let w = written(t);
    assert(w =~= n + "("@ + wa + ")"@);
    assert(w[ln] == '(');
    assert(w[ln + 1 + la] == ')');
    assert(w.subrange(0, ln) =~= n);
    assert(w.subrange(ln + 1, ln + 1 + la) =~= wa);
    lemma_occurs_part(s, i, w, 0, n);
    lemma_occurs_part(s, i, w, ln + 1, wa);
}

/// The text of a choice: `iif(a, b, c)`.
proof fn lemma_choice_text<T: Scalar>(t: Tree<T>, s: Seq<char>, i: int)
    requires
        wf(t),
        t.head is ImmediateIf,
        occurs_at(s, i, written(t)),
    ensures
        ({
            let la = written(t.args[0]).len() as int;
            let lb = written(t.args[1]).len() as int;
            let lc = written(t.args[2]).len() as int;
            &&& 0 <= i
            &&& i + written(t).len() <= s.len()
            &&& written(t).len() == la + lb + lc + 9
            &&& occurs_at(s, i, seq!['i', 'i', 'f'])
            &&& s[i + 3] == '('
            &&& occurs_at(s, i + 4, written(t.args[0]))
            &&& s[i + 4 + la] == ','
            &&& s[i + 5 + la] == ' '
            &&& occurs_at(s, i + 6 + la, written(t.args[1]))
            &&& s[i + 6 + la + lb] == ','
            &&& s[i + 7 + la + lb] == ' '
            &&& occurs_at(s, i + 8 + la + lb, written(t.args[2]))
            &&& s[i + 8 + la + lb + lc] == ')'
        }),
{
    reveal(occurs_at);
    reveal_strlit("iif(");
    reveal_strlit(", ");
    reveal_strlit(")");
    let wa = written(t.args[0]);
    let wb = written(t.args[1]);
    let wc = written(t.args[2]);
    let la = wa.len() as int;
    let lb = wb.len() as int;
    let lc = wc.len() as int;
    let w = written(t);
    assert(w =~= "iif("@ + wa + ", "@ + wb + ", "@ + wc + ")"@);
    assert(w[3] == '(');
    assert(w[4 + la] == ',');
    assert(w[5 + la] == ' ');
    assert(w[6 + la + lb] == ',');
    assert(w[7 + la + lb] == ' ');
    assert(w[8 + la + lb + lc] == ')');
    assert(w.subrange(0, 3) =~= seq!['i', 'i', 'f']);
    assert(w.subrange(4, 4 + la) =~= wa);
    assert(w.subrange(6 + la, 6 + la + lb) =~= wb);
    assert(w.subrange(8 + la + lb, 8 + la + lb + lc) =~= wc);
    lemma_occurs_part(s, i, w, 0, seq!['i', 'i', 'f']);
    lemma_occurs_part(s, i, w, 4, wa);
    lemma_occurs_part(s, i, w, 6 + la, wb);
    lemma_occurs_part(s, i, w, 8 + la + lb, wc);
}

/// The text of a tree that reads back starts with neither whitespace nor `-`.
proof fn lemma_written_start<T: Scalar>(t: Tree<T>)
    requires
        reads_back(t),
    ensures
        written(t).len() > 0,
        !char_is_whitespace(written(t)[0]),
        written(t)[0] != '-',
{
    let w = written(t);
    match t.head {
        Symbol::Var(n) => {},
        Symbol::Const(c) => {},
        Symbol::Negate => {
            reveal_strlit("(-");
            assert(w =~= "(-"@ + written(t.args[0]) + ")"@);
            assert(w[0] == '(');
        },
        Symbol::ImmediateIf => {
            reveal_strlit("iif(");
            assert(w =~= "iif("@ + written(t.args[0]) + ", "@ + written(t.args[1]) + ", "@
                + written(t.args[2]) + ")"@);
            assert(w[0] == 'i');
        },
        _ => {
            if is_binary(t.head) {
                reveal_strlit("(");
                assert(w =~= "("@ + written(t.args[0]) + " "@ + operation_name(t.head) + " "@
                    + written(t.args[1]) + ")"@);
                assert(w[0] == '(');
            } else {
                lemma_function_name::<T>(t.head);
                let n = operation_name(t.head);
                assert(w =~= n + "("@ + written(t.args[0]) + ")"@);
                assert(w[0] == n[0]);
            }
        },
    }
}

/// After an operand that the end, `)` or `,` follows, no further `*`, `/`,
/// `+` or `-` is read.
proof fn lemma_rests_stop<T: Scalar>(s: Seq<char>, read: spec_fn(int) -> Option<T>, acc: Tree<T>, q: int)
    requires
        0 <= q <= s.len(),
        q == s.len() || s[q] == ')' || s[q] == ',',
    ensures
        multiplication_rest_at(s, read, acc, q) == Ok::<(Tree<T>, nat), Failure>((acc, 0)),
        addition_rest_at(s, read, acc, q) == Ok::<(Tree<T>, nat), Failure>((acc, 0)),
{
    lemma_multiplication_rest_step(s, read, acc, q);
    lemma_addition_rest_step(s, read, acc, q);
}

/// A plain name written from `i` (after whitespace from `k`) reads as a
/// leaf: the variable of that name where the scalar type reads no number
/// from it, else the constant it reads.
#[verifier::spinoff_prover]
proof fn lemma_name_token<T: Scalar>(s: Seq<char>, k: int, i: int, w: Seq<char>, h: Symbol<T>)
    requires
        plain_name(w),
        (h == Symbol::<T>::Var(w) && T::spec_reads(w) is None) || (h is Const && T::spec_reads(w)
            == Some(h->Const_0)),
        0 <= k <= i,
        skip_ws(s, k) == i,
        occurs_at(s, i, w),
        operand_ends(s, i + w.len()),
    ensures
        primary_at(s, token_reads::<T>(s), k) == Ok::<(Tree<T>, nat), Failure>(
            (leaf(h), (skip_ws(s, i + w.len()) - k) as nat),
        ),
{
    lemma_occurs_bounds(s, i, w);
    let read = token_reads::<T>(s);
    let e = i + w.len();
    lemma_operand_ends(s, e);
    lemma_occurs_char(s, i, w, 0);
    assert(skip_ws(s, i) == i);
    assert(consume(s, i, '(') == (false, i));
    lemma_name_local(s, i, w, 1);
    lemma_name_runs(w, 1);
    assert(name_end(s, i + 1) == e);
    lemma_occurs_subrange(s, i, w);
    let q = skip_ws(s, e);
    assert(consume(s, q, '(') == (false, q));
    assert(token_end(s, i) == e);
    assert(read(i) == T::spec_reads(w));
    assert(name_at(s, read, i) == Ok::<(Tree<T>, nat), Failure>((leaf(h), (q - i) as nat)));
}

/// A numeric literal written from `i` (after whitespace from `k`) reads as
/// the constant that the scalar type reads from it.
#[verifier::spinoff_prover]
proof fn lemma_number_token<T: Scalar>(s: Seq<char>, k: int, i: int, w: Seq<char>, v: T)
    requires
        number_literal(w),
        T::spec_reads(w) == Some(v),
        0 <= k <= i,
        skip_ws(s, k) == i,
        occurs_at(s, i, w),
        operand_ends(s, i + w.len()),
    ensures
        primary_at(s, token_reads::<T>(s), k) == Ok::<(Tree<T>, nat), Failure>(
            (leaf(Symbol::Const(v)), (i + w.len() - k) as nat),
        ),
{
    lemma_occurs_bounds(s, i, w);
    let read = token_reads::<T>(s);
    let e = i + w.len();
    lemma_operand_ends(s, e);
    lemma_occurs_char(s, i, w, 0);
    assert(skip_ws(s, i) == i);
    assert(consume(s, i, '(') == (false, i));
    lemma_number_local(s, i, w, read);
    assert(token_end(s, i) == e);
    lemma_occurs_subrange(s, i, w);
    assert(read(i) == Some(v));
}

/// A tree that reads back, written from `i` (after whitespace from `k`),
/// reads as a primary: itself, up to the end of its text or past the space
/// after it.
#[verifier::spinoff_prover]
proof fn lemma_primary<T: Scalar>(t: Tree<T>, s: Seq<char>, k: int, i: int)
    requires
        reads_back(t),
        0 <= k <= i,
        skip_ws(s, k) == i,
        occurs_at(s, i, written(t)),
        operand_ends(s, i + written(t).len()),
    ensures
        primary_at(s, token_reads::<T>(s), k) is Ok,
        primary_at(s, token_reads::<T>(s), k)->Ok_0.0 == t,
        i + written(t).len() <= k + primary_at(s, token_reads::<T>(s), k)->Ok_0.1,
        k + primary_at(s, token_reads::<T>(s), k)->Ok_0.1 <= skip_ws(s, i + written(t).len()),
    decreases t, 3int,
{
    lemma_occurs_bounds(s, i, written(t));
    let read = token_reads::<T>(s);
    let w = written(t);
    let e = i + w.len();
    lemma_operand_ends(s, e);
    lemma_written_start(t);
    lemma_occurs_char(s, i, w, 0);
    assert(skip_ws(s, i) == i);
    match t.head {
        Symbol::Var(n) => {
            assert(t.args =~= Seq::<Tree<T>>::empty());
            lemma_name_token(s, k, i, w, t.head);
        },
        Symbol::Const(c) => {
            assert(t.args =~= Seq::<Tree<T>>::empty());
            if number_literal(w) {
                lemma_number_token(s, k, i, w, c);
            } else {
                lemma_name_token(s, k, i, w, t.head);
            }
        },
        Symbol::Negate => {
            lemma_negation_text(t, s, i);
            lemma_negation_inner(t, s, i);
            assert(consume(s, i, '(') == (true, i + 1));
            assert(skip_ws(s, e - 1) == e - 1);
            assert(expect(s, e - 1, ')') == Ok::<int, Failure>(e));
        },
        Symbol::ImmediateIf => {
            lemma_choice_text(t, s, i);
            lemma_choice(t, s, k, i);
        },
        _ => {
            if is_binary(t.head) {
                lemma_binary_text(t, s, i);
                lemma_binary_inner(t, s, i);
                assert(consume(s, i, '(') == (true, i + 1));
                assert(skip_ws(s, e - 1) == e - 1);
                assert(expect(s, e - 1, ')') == Ok::<int, Failure>(e));
            } else {
                lemma_call_text(t, s, i);
                lemma_call(t, s, k, i);
            }
        },
    }
}

/// A call of a one-operand function reads as itself.
#[verifier::spinoff_prover]
proof fn lemma_call<T: Scalar>(t: Tree<T>, s: Seq<char>, k: int, i: int)
    requires
        reads_back(t),
        arity(t.head) == 1,
        !(t.head is Negate),
        0 <= k <= i,
        skip_ws(s, k) == i,
        occurs_at(s, i, written(t)),
        operand_ends(s, i + written(t).len()),
    ensures
        primary_at(s, token_reads::<T>(s), k) == Ok::<(Tree<T>, nat), Failure>(
            (t, (i + written(t).len() - k) as nat),
        ),
    decreases t, 2int,
{
    lemma_occurs_bounds(s, i, written(t));
    let read = token_reads::<T>(s);
    let w = written(t);
    let e = i + w.len();
    let n = operation_name(t.head);
    let ln = n.len() as int;
    let a = t.args[0];
    let la = written(a).len() as int;
    lemma_call_text(t, s, i);
    lemma_function_name::<T>(t.head);
    lemma_written_start(a);
    lemma_occurs_char(s, i, n, 0);
    assert(skip_ws(s, i) == i);
    assert(consume(s, i, '(') == (false, i));
    assert forall|m: int| 1 <= m < n.len() implies (char_is_alphanumeric(#[trigger] n[m]) || n[m]
        == '_') by {
        assert(is_ascii_letter(n[m]) || is_ascii_digit(n[m]));
    }
    lemma_name_local(s, i, n, 1);
    lemma_name_runs(n, 1);
    assert(name_end(s, i + 1) == i + ln);
    lemma_occurs_subrange(s, i, n);
    assert(skip_ws(s, i + ln) == i + ln);
    assert(consume(s, i + ln, '(') == (true, i + ln + 1));
    let k2 = i + ln + 1;
    lemma_occurs_char(s, k2, written(a), 0);
    assert(skip_ws(s, k2) == k2);
    lemma_argument(a, s, k2, k2, ')');
    assert(t.args =~= seq![a]);
    assert(call_at(s, read, n, i, k2) == Ok::<(Tree<T>, nat), Failure>((t, (e - k2) as nat)));
    assert(name_at(s, read, i) == Ok::<(Tree<T>, nat), Failure>((t, (e - i) as nat)));
}

/// An operand of a call or choice, written from `i` (after whitespace from
/// `k`) and closed by `c` (`)` or `,`), reads as a whole expression, and `c`
/// is read after it.
#[verifier::spinoff_prover]
proof fn lemma_argument<T: Scalar>(t: Tree<T>, s: Seq<char>, k: int, i: int, c: char)
    requires
        reads_back(t),
        0 <= k <= i,
        skip_ws(s, k) == i,
        occurs_at(s, i, written(t)),
        c == ')' || c == ',',
        i + written(t).len() < s.len(),
        s[i + written(t).len()] == c,
    ensures
        expression_at(s, token_reads::<T>(s), k) == Ok::<(Tree<T>, nat), Failure>(
            (t, (i + written(t).len() - k) as nat),
        ),
        expect(s, i + written(t).len(), c) == Ok::<int, Failure>(i + written(t).len() + 1),
    decreases t, 7int,
{
    lemma_occurs_bounds(s, i, written(t));
    let e = i + written(t).len();
    lemma_atom(t, s, k, i);
    assert(skip_ws(s, e) == e);
}

/// Whitespace from `j` up to a character that is none: reading goes on there.
proof fn lemma_space(s: Seq<char>, j: int)
    requires
        0 <= j,
        j + 1 < s.len(),
        s[j] == ' ',
        !char_is_whitespace(s[j + 1]),
    ensures
        skip_ws(s, j + 1) == j + 1,
        skip_ws(s, j) == j + 1,
{
    assert(skip_ws(s, j + 1) == j + 1);
}

/// Three expressions separated by commas and closed by `)` are the
/// arguments of a choice.
#[verifier::spinoff_prover]
proof fn lemma_choice_reading<T: Scalar>(
    s: Seq<char>,
    read: spec_fn(int) -> Option<T>,
    k: int,
    a: Tree<T>,
    b: Tree<T>,
    c: Tree<T>,
    e1: int,
    e2: int,
    e3: int,
)
    requires
        0 <= k <= e1,
        e1 + 1 <= e2,
        e2 + 1 <= e3,
        e3 < s.len(),
        expression_at(s, read, k) == Ok::<(Tree<T>, nat), Failure>((a, (e1 - k) as nat)),
        expect(s, e1, ',') == Ok::<int, Failure>(e1 + 1),
        expression_at(s, read, e1 + 1) == Ok::<(Tree<T>, nat), Failure>((b, (e2 - e1 - 1) as nat)),
        expect(s, e2, ',') == Ok::<int, Failure>(e2 + 1),
        expression_at(s, read, e2 + 1) == Ok::<(Tree<T>, nat), Failure>((c, (e3 - e2 - 1) as nat)),
        expect(s, e3, ')') == Ok::<int, Failure>(e3 + 1),
    ensures
        iif_arguments_at(s, read, k) == Ok::<(Tree<T>, nat), Failure>(
            (node3(Symbol::ImmediateIf, a, b, c), (e3 + 1 - k) as nat),
        ),
{
}

/// `a, b, c)` read from `ka` as the arguments of a choice.
#[verifier::spinoff_prover]
proof fn lemma_choice_parts<T: Scalar>(s: Seq<char>, a: Tree<T>, b: Tree<T>, c: Tree<T>, ka: int)
    requires
        reads_back(a),
        reads_back(b),
        reads_back(c),
        ({
            let la = written(a).len() as int;
            let lb = written(b).len() as int;
            let lc = written(c).len() as int;
            &&& occurs_at(s, ka, written(a))
            &&& s[ka + la] == ','
            &&& s[ka + la + 1] == ' '
            &&& occurs_at(s, ka + la + 2, written(b))
            &&& s[ka + la + 2 + lb] == ','
            &&& s[ka + la + 3 + lb] == ' '
            &&& occurs_at(s, ka + la + 4 + lb, written(c))
            &&& ka + la + 4 + lb + lc < s.len()
            &&& s[ka + la + 4 + lb + lc] == ')'
        }),
    ensures
        iif_arguments_at(s, token_reads::<T>(s), ka) == Ok::<(Tree<T>, nat), Failure>(
            (
                node3(Symbol::ImmediateIf, a, b, c),
                (written(a).len() + written(b).len() + written(c).len() + 5) as nat,
            ),
        ),
    decreases node3(Symbol::ImmediateIf, a, b, c), 0int,
{
    let whole = node3(Symbol::ImmediateIf, a, b, c);
    assert(whole.args[0] == a && whole.args[1] == b && whole.args[2] == c);
    let la = written(a).len() as int;
    let lb = written(b).len() as int;
    lemma_written_start(a);
    lemma_written_start(b);
    lemma_written_start(c);
    let m1 = ka + la + 1;
    let m2 = m1 + 1 + lb + 1;
    lemma_occurs_char(s, ka, written(a), 0);
    lemma_occurs_char(s, m1 + 1, written(b), 0);
    lemma_occurs_char(s, m2 + 1, written(c), 0);
    assert(skip_ws(s, ka) == ka);
    lemma_space(s, m1);
    lemma_space(s, m2);
    lemma_argument(a, s, ka, ka, ',');
    lemma_argument(b, s, m1, m1 + 1, ',');
    lemma_argument(c, s, m2, m2 + 1, ')');
    lemma_choice_reading(
        s,
        token_reads::<T>(s),
        ka,
        a,
        b,
        c,
        ka + la,
        m1 + 1 + lb,
        m2 + 1 + written(c).len(),
    );
}

/// The arguments of a choice `iif(a, b, c)`, read from after its
/// parenthesis, are the choice.
#[verifier::spinoff_prover]
proof fn lemma_choice_arguments<T: Scalar>(t: Tree<T>, s: Seq<char>, i: int)
    requires
        reads_back(t),
        t.head is ImmediateIf,
        occurs_at(s, i, written(t)),
    ensures
        iif_arguments_at(s, token_reads::<T>(s), i + 4) == Ok::<(Tree<T>, nat), Failure>(
            (t, (written(t).len() - 4) as nat),
        ),
    decreases t, 1int,
{
    let a = t.args[0];
    let b = t.args[1];
    let c = t.args[2];
    lemma_choice_text(t, s, i);
    assert(t.args =~= seq![a, b, c]);
    assert(t == node3(Symbol::ImmediateIf, a, b, c));
    lemma_choice_parts(s, a, b, c, i + 4);
}

/// A choice `iif(a, b, c)` reads as itself.
#[verifier::spinoff_prover]
proof fn lemma_choice<T: Scalar>(t: Tree<T>, s: Seq<char>, k: int, i: int)
    requires
        reads_back(t),
        t.head is ImmediateIf,
        0 <= k <= i,
        skip_ws(s, k) == i,
        occurs_at(s, i, written(t)),
        operand_ends(s, i + written(t).len()),
    ensures
        primary_at(s, token_reads::<T>(s), k) == Ok::<(Tree<T>, nat), Failure>(
            (t, (i + written(t).len() - k) as nat),
        ),
    decreases t, 2int,
{
    lemma_occurs_bounds(s, i, written(t));
    let read = token_reads::<T>(s);
    let e = i + written(t).len();
    lemma_choice_text(t, s, i);
    let iif = seq!['i', 'i', 'f'];
    assert(name_end(s, i + 1) == i + 3) by {
        assert forall|m: int| 1 <= m < iif.len() implies (char_is_alphanumeric(#[trigger] iif[m])
            || iif[m] == '_') by {}
        lemma_name_local(s, i, iif, 1);
        lemma_name_runs(iif, 1);
    }
    assert(s.subrange(i, i + 3) =~= iif) by {
        lemma_occurs_char(s, i, iif, 0);
        lemma_occurs_char(s, i, iif, 1);
        lemma_occurs_char(s, i, iif, 2);
    }
    lemma_occurs_char(s, i, iif, 0);
    assert(skip_ws(s, i) == i);
    assert(consume(s, i, '(') == (false, i));
    assert(skip_ws(s, i + 3) == i + 3);
    assert(consume(s, i + 3, '(') == (true, i + 4));
    lemma_choice_arguments(t, s, i);
    assert(name_at(s, read, i) == Ok::<(Tree<T>, nat), Failure>((t, (e - i) as nat)));
}

/// A tree that reads back, written from `i` (after whitespace from `k`) and
/// followed by no `^`, reads as a unary expression: itself, up to where
/// reading goes on after it.
#[verifier::spinoff_prover]
proof fn lemma_unary<T: Scalar>(t: Tree<T>, s: Seq<char>, k: int, i: int)
    requires
        reads_back(t),
        0 <= k <= i,
        skip_ws(s, k) == i,
        occurs_at(s, i, written(t)),
        operand_ends(s, i + written(t).len()),
        skip_ws(s, i + written(t).len()) == s.len() || s[skip_ws(s, i + written(t).len())] != '^',
    ensures
        unary_at(s, token_reads::<T>(s), k) == Ok::<(Tree<T>, nat), Failure>(
            (t, (skip_ws(s, i + written(t).len()) - k) as nat),
        ),
    decreases t, 4int,
{
    lemma_occurs_bounds(s, i, written(t));
    let read = token_reads::<T>(s);
    let w = written(t);
    let e = i + w.len();
    let q = skip_ws(s, e);
    lemma_operand_ends(s, e);
    lemma_written_start(t);
    lemma_skip_ws(s, k);
    lemma_occurs_char(s, i, w, 0);
    assert(consume(s, k, '-') == (false, i));
    lemma_primary(t, s, i, i);
    let n1 = primary_at(s, read, i)->Ok_0.1;
    assert(skip_ws(s, i + n1) == q);
    assert(consume(s, i + n1, '^') == (false, q));
    assert(power_at(s, read, i) == Ok::<(Tree<T>, nat), Failure>((t, (q - i) as nat)));
}

/// As `lemma_unary`, followed by no `*` or `/` either: a product of one factor.
#[verifier::spinoff_prover]
proof fn lemma_factor<T: Scalar>(t: Tree<T>, s: Seq<char>, k: int, i: int)
    requires
        reads_back(t),
        0 <= k <= i,
        skip_ws(s, k) == i,
        occurs_at(s, i, written(t)),
        operand_ends(s, i + written(t).len()),
        ({
            let q = skip_ws(s, i + written(t).len());
            q == s.len() || (s[q] != '^' && s[q] != '*' && s[q] != '/')
        }),
    ensures
        multiplication_at(s, token_reads::<T>(s), k) == Ok::<(Tree<T>, nat), Failure>(
            (t, (skip_ws(s, i + written(t).len()) - k) as nat),
        ),
    decreases t, 5int,
{
    lemma_occurs_bounds(s, i, written(t));
    let read = token_reads::<T>(s);
    let e = i + written(t).len();
    let q = skip_ws(s, e);
    lemma_operand_ends(s, e);
    lemma_unary(t, s, k, i);
    lemma_multiplication_rest_step(s, read, t, q);
}

/// A tree that reads back, written from `i` (after whitespace from `k`) and
/// followed by the end, `)` or `,`, reads as a whole expression.
#[verifier::spinoff_prover]
proof fn lemma_atom<T: Scalar>(t: Tree<T>, s: Seq<char>, k: int, i: int)
    requires
        reads_back(t),
        0 <= k <= i,
        skip_ws(s, k) == i,
        occurs_at(s, i, written(t)),
        ({
            let e = i + written(t).len();
            e == s.len() || (e < s.len() && (s[e] == ')' || s[e] == ','))
        }),
    ensures
        expression_at(s, token_reads::<T>(s), k) == Ok::<(Tree<T>, nat), Failure>(
            (t, (i + written(t).len() - k) as nat),
        ),
    decreases t, 6int,
{
    lemma_occurs_bounds(s, i, written(t));
    let read = token_reads::<T>(s);
    let e = i + written(t).len();
    lemma_operand_ends(s, e);
    lemma_factor(t, s, k, i);
    lemma_rests_stop(s, read, t, e);
}

/// Where the parts of `(a op b)` stand, and where reading goes on around them.
#[verifier::spinoff_prover]
proof fn lemma_binary_layout<T: Scalar>(t: Tree<T>, s: Seq<char>, i: int)
    requires
        reads_back(t),
        is_binary(t.head),
        occurs_at(s, i, written(t)),
    ensures
        ({
            let a = t.args[0];
            let b = t.args[1];
            let la = written(a).len() as int;
            let lb = written(b).len() as int;
            let p = i + 2 + la;
            let ep = i + 4 + la + lb;
            &&& 0 <= i
            &&& i + written(t).len() <= s.len()
            &&& t.args == seq![a, b]
            &&& reads_back(a)
            &&& reads_back(b) || (t.head is Power && negative_constant(b))
            &&& written(t).len() == la + lb + 5
            &&& occurs_at(s, i + 1, written(a))
            &&& occurs_at(s, p + 2, written(b))
            &&& s[i + 1] != '-'
            &&& skip_ws(s, i + 1) == i + 1
            &&& operand_ends(s, i + 1 + la)
            &&& skip_ws(s, i + 1 + la) == p
            &&& skip_ws(s, p) == p
            &&& s[p] == sign_of(t.head)
            &&& skip_ws(s, p + 1) == p + 2
            &&& skip_ws(s, p + 2) == p + 2
            &&& operand_ends(s, ep)
            &&& s[ep] == ')'
            &&& skip_ws(s, ep) == ep
        }),
{
    let a = t.args[0];
    let b = t.args[1];
    let la = written(a).len() as int;
    let p = i + 2 + la;
    lemma_binary_text(t, s, i);
    lemma_written_start(a);
    if reads_back(b) {
        lemma_written_start(b);
    }
    lemma_occurs_char(s, i + 1, written(a), 0);
    lemma_occurs_char(s, p + 2, written(b), 0);
    lemma_space(s, p + 1);
    lemma_space(s, i + 1 + la);
    assert(t.args =~= seq![a, b]);
}

/// The inside of `(a + b)` or `(a - b)`, read from after the parenthesis.
#[verifier::spinoff_prover]
proof fn lemma_sum_inner<T: Scalar>(t: Tree<T>, s: Seq<char>, i: int)
    requires
        reads_back(t),
        t.head is Add || t.head is Subtract,
        occurs_at(s, i, written(t)),
    ensures
        expression_at(s, token_reads::<T>(s), i + 1) == Ok::<(Tree<T>, nat), Failure>(
            (t, (written(t).len() - 2) as nat),
        ),
    decreases t, 1int,
{
    let read = token_reads::<T>(s);
    let a = t.args[0];
    let b = t.args[1];
    let la = written(a).len() as int;
    let p = i + 2 + la;
    lemma_binary_layout(t, s, i);
    lemma_factor(a, s, i + 1, i + 1);
    lemma_factor(b, s, p + 1, p + 2);
    lemma_addition_rest_step(s, read, a, p);
    lemma_rests_stop(s, read, t, i + 4 + la + written(b).len());
}

/// The inside of `(a * b)` or `(a / b)`, read from after the parenthesis.
#[verifier::spinoff_prover]
proof fn lemma_product_inner<T: Scalar>(t: Tree<T>, s: Seq<char>, i: int)
    requires
        reads_back(t),
        t.head is Multiply || t.head is Divide,
        occurs_at(s, i, written(t)),
    ensures
        expression_at(s, token_reads::<T>(s), i + 1) == Ok::<(Tree<T>, nat), Failure>(
            (t, (written(t).len() - 2) as nat),
        ),
    decreases t, 1int,
{
    let read = token_reads::<T>(s);
    let a = t.args[0];
    let b = t.args[1];
    let la = written(a).len() as int;
    let p = i + 2 + la;
    lemma_binary_layout(t, s, i);
    lemma_unary(a, s, i + 1, i + 1);
    lemma_unary(b, s, p + 1, p + 2);
    lemma_multiplication_rest_step(s, read, a, p);
    lemma_rests_stop(s, read, t, i + 4 + la + written(b).len());
}

/// A negative constant exponent `-token`, read after the `^` at `p`, reads
/// as the negation of the constant that the token reads as.
#[verifier::spinoff_prover]
proof fn lemma_negative_exponent<T: Scalar>(b: Tree<T>, s: Seq<char>, p: int)
    requires
        negative_constant(b),
        0 <= p,
        skip_ws(s, p + 1) == p + 2,
        occurs_at(s, p + 2, written(b)),
        operand_ends(s, p + 2 + written(b).len()),
        p + 2 + written(b).len() < s.len(),
        s[p + 2 + written(b).len()] == ')',
    ensures
        unary_at(s, token_reads::<T>(s), p + 1) == Ok::<(Tree<T>, nat), Failure>(
            (
                node1(
                    Symbol::Negate,
                    leaf(Symbol::Const(T::spec_reads(unsigned_text(b.head->Const_0))->Some_0)),
                ),
                (written(b).len() + 1) as nat,
            ),
        ),
{
    let read = token_reads::<T>(s);
    let c = b.head->Const_0;
    let w = written(b);
    let w2 = unsigned_text(c);
    let v = T::spec_reads(w2)->Some_0;
    let ep = p + 2 + w.len();
    assert(w == T::spec_text(c)@);
    lemma_occurs_bounds(s, p + 2, w);
    lemma_occurs_char(s, p + 2, w, 0);
    assert(consume(s, p + 1, '-') == (true, p + 3));
    assert(w.subrange(1, 1 + w2.len() as int) == w2);
    lemma_occurs_part(s, p + 2, w, 1, w2);
    lemma_occurs_char(s, p + 3, w2, 0);
    assert(skip_ws(s, p + 3) == p + 3);
    assert(consume(s, p + 3, '-') == (false, p + 3));
    lemma_operand_ends(s, ep);
    if number_literal(w2) {
        lemma_number_token(s, p + 3, p + 3, w2, v);
    } else {
        lemma_name_token(s, p + 3, p + 3, w2, Symbol::Const(v));
    }
    assert(consume(s, ep, '^') == (false, ep));
    assert(power_at(s, read, p + 3) == Ok::<(Tree<T>, nat), Failure>(
        (leaf(Symbol::Const(v)), (ep - (p + 3)) as nat),
    ));
}

/// The inside of `(a ^ b)`, read from after the parenthesis.
#[verifier::spinoff_prover]
proof fn lemma_power_inner<T: Scalar>(t: Tree<T>, s: Seq<char>, i: int)
    requires
        reads_back(t),
        t.head is Power,
        occurs_at(s, i, written(t)),
    ensures
        expression_at(s, token_reads::<T>(s), i + 1) == Ok::<(Tree<T>, nat), Failure>(
            (t, (written(t).len() - 2) as nat),
        ),
    decreases t, 1int,
{
    let read = token_reads::<T>(s);
    let a = t.args[0];
    let b = t.args[1];
    let la = written(a).len() as int;
    let p = i + 2 + la;
    let ep = i + 4 + la + written(b).len();
    lemma_binary_layout(t, s, i);
    assert(consume(s, i + 1, '-') == (false, i + 1));
    lemma_primary(a, s, i + 1, i + 1);
    let n1 = primary_at(s, read, i + 1)->Ok_0.1;
    assert(skip_ws(s, i + 1 + n1) == p);
    assert(consume(s, i + 1 + n1, '^') == (true, p + 1));
    if reads_back(b) {
        lemma_unary(b, s, p + 1, p + 2);
        assert(power_tree(a, b) == t);
    } else {
        lemma_negative_exponent(b, s, p);
        assert(b.args =~= Seq::<Tree<T>>::empty());
        let e = unary_at(s, read, p + 1)->Ok_0.0;
        assert(power_tree(a, e) == t);
    }
    assert(power_at(s, read, i + 1) == Ok::<(Tree<T>, nat), Failure>((t, (ep - i - 1) as nat)));
    assert(unary_at(s, read, i + 1) == Ok::<(Tree<T>, nat), Failure>((t, (ep - i - 1) as nat)));
    lemma_rests_stop(s, read, t, ep);
}

/// The inside of `(a op b)`, read from after the parenthesis, is the operation.
#[verifier::spinoff_prover]
proof fn lemma_binary_inner<T: Scalar>(t: Tree<T>, s: Seq<char>, i: int)
    requires
        reads_back(t),
        is_binary(t.head),
        occurs_at(s, i, written(t)),
    ensures
        expression_at(s, token_reads::<T>(s), i + 1) == Ok::<(Tree<T>, nat), Failure>(
            (t, (written(t).len() - 2) as nat),
        ),
    decreases t, 2int,
{
    if t.head is Add || t.head is Subtract {
        lemma_sum_inner(t, s, i);
    } else if t.head is Multiply || t.head is Divide {
        lemma_product_inner(t, s, i);
    } else {
        lemma_power_inner(t, s, i);
    }
}

/// The inside of `(-a)`, read from after the parenthesis, is the negation.
#[verifier::spinoff_prover]
proof fn lemma_negation_inner<T: Scalar>(t: Tree<T>, s: Seq<char>, i: int)
    requires
        reads_back(t),
        t.head is Negate,
        occurs_at(s, i, written(t)),
    ensures
        expression_at(s, token_reads::<T>(s), i + 1) == Ok::<(Tree<T>, nat), Failure>(
            (t, (written(t).len() - 2) as nat),
        ),
    decreases t, 2int,
{
    let read = token_reads::<T>(s);
    let a = t.args[0];
    let la = written(a).len() as int;
    lemma_negation_text(t, s, i);
    lemma_written_start(a);
    let ep = i + 2 + la;
    assert(skip_ws(s, i + 1) == i + 1);
    assert(consume(s, i + 1, '-') == (true, i + 2));
    lemma_occurs_char(s, i + 2, written(a), 0);
    assert(skip_ws(s, i + 2) == i + 2);
    assert(operand_ends(s, ep));
    lemma_operand_ends(s, ep);
    lemma_unary(a, s, i + 2, i + 2);
    assert(t.args =~= seq![a]);
    assert(unary_at(s, read, i + 1) == Ok::<(Tree<T>, nat), Failure>((t, (ep - i - 1) as nat)));
    lemma_rests_stop(s, read, t, ep);
}

/// Reading back the text of an expression gives the expression: for a tree
/// whose names are plain, whose constants are written as tokens that the
/// scalar type reads back as themselves, and with no power of a negated
/// constant, the text that `written` gives reads (with its tokens read by
/// the scalar type) as the same tree.
pub proof fn lemma_reads_back<T: Scalar>(t: Tree<T>)
    requires
        reads_back(t),
    ensures
        parse_text::<T>(written(t), token_reads::<T>(written(t))) == Ok::<Tree<T>, Failure>(t),
{
    let s = written(t);
    lemma_written_start(t);
    assert(occurs_at(s, 0, s)) by {
        reveal(occurs_at);
        assert forall|m: int| 0 <= m < s.len() implies s[0 + m] == #[trigger] s[m] by {}
    }
    assert(skip_ws(s, 0) == 0);
    lemma_atom(t, s, 0, 0);
}

} // verus!
