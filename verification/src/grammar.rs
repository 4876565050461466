//! The expression grammar, as a function from characters to a tree or a failure.
//!
//! Each `*_at` function reads from the character index `i` and returns the tree
//! it read together with the number of characters it consumed, or the failure
//! that stops the reading. Whitespace between tokens is skipped.
//!
//! `read(k)` is the number (if any) that the scalar type reads from the
//! numeric literal or the name that starts at index `k`: the grammar decides
//! where tokens are, the scalar type decides what a token is worth.
use vstd::prelude::*;
use crate::scalar::Scalar;
use crate::text::{char_is_whitespace, char_is_alphabetic, char_is_alphanumeric, is_ascii_digit};
use crate::tree::{Symbol, Tree, leaf, node1, node2, node3};
use crate::math_expr::power_tree;

verus! {

/// Where (as a character index) and why reading stopped.
pub struct Failure {
    pub at: int,
    pub message: Seq<char>,
}

/// Characters left to read from index `i`.
pub open spec fn rem(s: Seq<char>, i: int) -> int {
    if i <= 0 {
        s.len() as int
    } else if i < s.len() {
        s.len() - i
    } else {
        0
    }
}

/// The index of the first non-whitespace character at or after `i`.
pub open spec fn skip_ws(s: Seq<char>, i: int) -> int
    decreases rem(s, i),
{
    if 0 <= i < s.len() && char_is_whitespace(s[i]) {
        skip_ws(s, i + 1)
    } else {
        i
    }
}

pub proof fn lemma_skip_ws(s: Seq<char>, i: int)
    requires
        0 <= i,
    ensures
        i <= skip_ws(s, i),
        i <= s.len() ==> skip_ws(s, i) <= s.len(),
        skip_ws(s, skip_ws(s, i)) == skip_ws(s, i),
        forall|k: int| i <= k < skip_ws(s, i) ==> char_is_whitespace(#[trigger] s[k]),
    decreases rem(s, i),
{
    if 0 <= i < s.len() && char_is_whitespace(s[i]) {
        lemma_skip_ws(s, i + 1);
    }
}

/// After skipping whitespace, reads the character `c` if it comes next.
/// Returns whether it did, and the index reached.
pub open spec fn consume(s: Seq<char>, i: int, c: char) -> (bool, int) {
    let j = skip_ws(s, i);
    if 0 <= j < s.len() && s[j] == c {
        (true, j + 1)
    } else {
        (false, j)
    }
}

pub proof fn lemma_consume(s: Seq<char>, i: int, c: char)
    requires
        0 <= i,
    ensures
        i <= consume(s, i, c).1,
        i <= s.len() ==> consume(s, i, c).1 <= s.len(),
        consume(s, i, c).0 ==> i < consume(s, i, c).1 && i < s.len(),
{
    lemma_skip_ws(s, i);
}

/// The message for a missing character.
pub open spec fn expected_message(c: char) -> Seq<char> {
    "expected '"@ + seq![c] + "'"@
}

/// Reads the character `c` after whitespace, or fails where it is missing.
pub open spec fn expect(s: Seq<char>, i: int, c: char) -> Result<int, Failure> {
    let (found, k) = consume(s, i, c);
    if found {
        Ok(k)
    } else {
        Err(Failure { at: k, message: expected_message(c) })
    }
}

/// The index after the run of ASCII digits that starts at `i`.
pub open spec fn digits_end(s: Seq<char>, i: int) -> int
    decreases rem(s, i),
{
    if 0 <= i < s.len() && is_ascii_digit(s[i]) {
        digits_end(s, i + 1)
    } else {
        i
    }
}

/// The index after the run of identifier characters that starts at `i`.
pub open spec fn name_end(s: Seq<char>, i: int) -> int
    decreases rem(s, i),
{
    if 0 <= i < s.len() && (char_is_alphanumeric(s[i]) || s[i] == '_') {
        name_end(s, i + 1)
    } else {
        i
    }
}

/// The index after the digits, and the optional `.` and digits, that start at `i`.
pub open spec fn fraction_end(s: Seq<char>, i: int) -> int {
    let j1 = digits_end(s, i);
    if 0 <= j1 < s.len() && s[j1] == '.' {
        digits_end(s, j1 + 1)
    } else {
        j1
    }
}

/// An exponent mark (`e` or `E`) stands at `j`.
pub open spec fn has_exponent(s: Seq<char>, j: int) -> bool {
    0 <= j < s.len() && (s[j] == 'e' || s[j] == 'E')
}

/// Where the digits of the exponent whose mark stands at `j` start: after
/// the mark and an optional sign.
pub open spec fn exponent_digits_at(s: Seq<char>, j: int) -> int {
    let j3 = j + 1;
    if 0 <= j3 < s.len() && (s[j3] == '+' || s[j3] == '-') {
        j3 + 1
    } else {
        j3
    }
}

/// The index after the numeric literal that starts at `i`: digits, an
/// optional `.` and digits, and an optional exponent (`e` or `E`, an optional
/// sign, digits).
pub open spec fn number_end(s: Seq<char>, i: int) -> int {
    let j2 = fraction_end(s, i);
    if has_exponent(s, j2) {
        digits_end(s, exponent_digits_at(s, j2))
    } else {
        j2
    }
}

/// The index after the token that starts at `k`: a numeric literal where a
/// digit or `.` stands at `k`, a name otherwise.
pub open spec fn token_end(s: Seq<char>, k: int) -> int {
    if 0 <= k < s.len() && (is_ascii_digit(s[k]) || s[k] == '.') {
        number_end(s, k)
    } else {
        name_end(s, k + 1)
    }
}

/// What the scalar type reads the token that starts at `k` as.
pub open spec fn token_reading<T: Scalar>(s: Seq<char>, k: int) -> Option<T> {
    T::spec_reads(s.subrange(k, token_end(s, k)))
}

/// The readings of every token of the text by the scalar type.
pub open spec fn token_reads<T: Scalar>(s: Seq<char>) -> spec_fn(int) -> Option<T> {
    |k: int| token_reading::<T>(s, k)
}

/// The one-operand function that a name calls, if it is one.
pub open spec fn function_symbol<T>(name: Seq<char>) -> Option<Symbol<T>> {
    if name == seq!['s', 'i', 'n'] {
        Some(Symbol::Sine)
    } else if name == seq!['c', 'o', 's'] {
        Some(Symbol::Cosine)
    } else if name == seq!['t', 'a', 'n'] {
        Some(Symbol::Tangent)
    } else if name == seq!['a', 's', 'i', 'n'] {
        Some(Symbol::ArcSine)
    } else if name == seq!['a', 'c', 'o', 's'] {
        Some(Symbol::ArcCosine)
    } else if name == seq!['a', 't', 'a', 'n'] {
        Some(Symbol::ArcTangent)
    } else if name == seq!['s', 'i', 'n', 'h'] {
        Some(Symbol::HyperbolicSine)
    } else if name == seq!['c', 'o', 's', 'h'] {
        Some(Symbol::HyperbolicCosine)
    } else if name == seq!['t', 'a', 'n', 'h'] {
        Some(Symbol::HyperbolicTangent)
    } else if name == seq!['s', 'i', 'g', 'n'] {
        Some(Symbol::Sign)
    } else if name == seq!['a', 'b', 's'] {
        Some(Symbol::AbsoluteValue)
    } else if name == seq!['e', 'x', 'p'] {
        Some(Symbol::Exponent)
    } else if name == seq!['s', 'q', 'r', 't'] {
        Some(Symbol::SquareRoot)
    } else if name == seq!['l', 'o', 'g'] || name == seq!['l', 'n'] {
        Some(Symbol::NaturalLogarithm)
    } else if name == seq!['l', 'o', 'g', '1', '0'] {
        Some(Symbol::CommonLogarithm)
    } else {
        None
    }
}

/// A numeric literal that starts at `i` (a digit or `.`): digits, an optional
/// fraction, and an optional exponent that must have digits.
pub open spec fn number_at<T: Scalar>(s: Seq<char>, read: spec_fn(int) -> Option<T>, i: int) -> Result<(T, nat), Failure> {
    let j2 = fraction_end(s, i);
    if has_exponent(s, j2) {
        let j4 = exponent_digits_at(s, j2);
        let j5 = digits_end(s, j4);
        if j5 == j4 {
            Err(Failure { at: j5, message: "expected digits after the exponent"@ })
        } else {
            number_token(s, read, i, j5)
        }
    } else {
        number_token(s, read, i, j2)
    }
}

/// The value that the numeric literal from `i` to `j` reads as (`read(i)`).
pub open spec fn number_token<T: Scalar>(s: Seq<char>, read: spec_fn(int) -> Option<T>, i: int, j: int) -> Result<(T, nat), Failure> {
    let token = s.subrange(i, j);
    match read(i) {
        Some(v) => Ok((v, (j - i) as nat)),
        None => Err(Failure { at: i, message: "invalid number '"@ + token + "'"@ }),
    }
}

/// An expression: a sum or difference of products.
pub open spec fn expression_at<T: Scalar>(s: Seq<char>, read: spec_fn(int) -> Option<T>, i: int) -> Result<(Tree<T>, nat), Failure>
    decreases rem(s, i), 9int,
{
    addition_at(s, read, i)
}

pub open spec fn addition_at<T: Scalar>(s: Seq<char>, read: spec_fn(int) -> Option<T>, i: int) -> Result<(Tree<T>, nat), Failure>
    decreases rem(s, i), 8int,
{
    match multiplication_at(s, read, i) {
        Err(f) => Err(f),
        Ok((e, n)) => match addition_rest_at(s, read, e, i + n) {
            Err(f) => Err(f),
            Ok((t, m)) => Ok((t, n + m)),
        },
    }
}

/// Further `+ term` and `- term` after `acc`, read from `j`, associating to the left.
#[verifier::opaque]
pub open spec fn addition_rest_at<T: Scalar>(s: Seq<char>, read: spec_fn(int) -> Option<T>, acc: Tree<T>, j: int) -> Result<
    (Tree<T>, nat),
    Failure,
>
    decreases rem(s, j), 7int,
{
    if !(0 <= j <= s.len()) {
        Ok((acc, 0))
    } else {
        let (plus, k) = consume(s, j, '+');
        proof {
            lemma_consume(s, j, '+');
        }
        if plus {
            match multiplication_at(s, read, k) {
                Err(f) => Err(f),
                Ok((r, n)) => match addition_rest_at(s, read, node2(Symbol::Add, acc, r), k + n) {
                    Err(f) => Err(f),
                    Ok((t, m)) => Ok((t, ((k - j) + n + m) as nat)),
                },
            }
        } else {
            let (minus, k2) = consume(s, k, '-');
            proof {
                lemma_consume(s, k, '-');
            }
            if minus {
                match multiplication_at(s, read, k2) {
                    Err(f) => Err(f),
                    Ok((r, n)) => match addition_rest_at(
                        s,
                        read,
                        node2(Symbol::Subtract, acc, r),
                        k2 + n,
                    ) {
                        Err(f) => Err(f),
                        Ok((t, m)) => Ok((t, ((k2 - j) + n + m) as nat)),
                    },
                }
            } else {
                Ok((acc, (k2 - j) as nat))
            }
        }
    }
}

pub open spec fn multiplication_at<T: Scalar>(s: Seq<char>, read: spec_fn(int) -> Option<T>, i: int) -> Result<(Tree<T>, nat), Failure>
    decreases rem(s, i), 6int,
{
    match unary_at(s, read, i) {
        Err(f) => Err(f),
        Ok((e, n)) => match multiplication_rest_at(s, read, e, i + n) {
            Err(f) => Err(f),
            Ok((t, m)) => Ok((t, n + m)),
        },
    }
}

/// Further `* factor` and `/ factor` after `acc`, read from `j`, associating to the left.
#[verifier::opaque]
pub open spec fn multiplication_rest_at<T: Scalar>(s: Seq<char>, read: spec_fn(int) -> Option<T>, acc: Tree<T>, j: int) -> Result<
    (Tree<T>, nat),
    Failure,
>
    decreases rem(s, j), 5int,
{
    if !(0 <= j <= s.len()) {
        Ok((acc, 0))
    } else {
        let (times, k) = consume(s, j, '*');
        proof {
            lemma_consume(s, j, '*');
        }
        if times {
            match unary_at(s, read, k) {
                Err(f) => Err(f),
                Ok((r, n)) => match multiplication_rest_at(
                    s,
                    read,
                    node2(Symbol::Multiply, acc, r),
                    k + n,
                ) {
                    Err(f) => Err(f),
                    Ok((t, m)) => Ok((t, ((k - j) + n + m) as nat)),
                },
            }
        } else {
            let (over, k2) = consume(s, k, '/');
            proof {
                lemma_consume(s, k, '/');
            }
            if over {
                match unary_at(s, read, k2) {
                    Err(f) => Err(f),
                    Ok((r, n)) => match multiplication_rest_at(
                        s,
                        read,
                        node2(Symbol::Divide, acc, r),
                        k2 + n,
                    ) {
                        Err(f) => Err(f),
                        Ok((t, m)) => Ok((t, ((k2 - j) + n + m) as nat)),
                    },
                }
            } else {
                Ok((acc, (k2 - j) as nat))
            }
        }
    }
}

/// Any number of leading `-`, applied to a power.
pub open spec fn unary_at<T: Scalar>(s: Seq<char>, read: spec_fn(int) -> Option<T>, i: int) -> Result<(Tree<T>, nat), Failure>
    decreases rem(s, i), 4int,
{
    if !(0 <= i <= s.len()) {
        Err(Failure { at: i, message: "expected an expression"@ })
    } else {
        let (minus, k) = consume(s, i, '-');
        proof {
            lemma_consume(s, i, '-');
        }
        if minus {
            match unary_at(s, read, k) {
                Err(f) => Err(f),
                Ok((e, n)) => Ok((node1(Symbol::Negate, e), ((k - i) + n) as nat)),
            }
        } else {
            match power_at(s, read, k) {
                Err(f) => Err(f),
                Ok((e, n)) => Ok((e, ((k - i) + n) as nat)),
            }
        }
    }
}

/// A primary, optionally raised by `^` to a unary expression (so powers
/// associate to the right and bind tighter than negation on their left).
pub open spec fn power_at<T: Scalar>(s: Seq<char>, read: spec_fn(int) -> Option<T>, i: int) -> Result<(Tree<T>, nat), Failure>
    decreases rem(s, i), 3int,
{
    if !(0 <= i <= s.len()) {
        Err(Failure { at: i, message: "expected an expression"@ })
    } else {
        match primary_at(s, read, i) {
            Err(f) => Err(f),
            Ok((b, n)) => if i + n <= s.len() {
                let (hat, k) = consume(s, i + n, '^');
                proof {
                    lemma_consume(s, i + n, '^');
                }
                if hat {
                    match unary_at(s, read, k) {
                        Err(f) => Err(f),
                        Ok((x, m)) => Ok((power_tree(b, x), ((k - i) + m) as nat)),
                    }
                } else {
                    Ok((b, (k - i) as nat))
                }
            } else {
                Ok((b, n))
            },
        }
    }
}

/// A parenthesized expression, a number, or a name (a call, a numeric name, or a variable).
pub open spec fn primary_at<T: Scalar>(s: Seq<char>, read: spec_fn(int) -> Option<T>, i: int) -> Result<(Tree<T>, nat), Failure>
    decreases rem(s, i), 2int,
{
    if !(0 <= i <= s.len()) {
        Err(Failure { at: i, message: "expected an expression"@ })
    } else {
        let j = skip_ws(s, i);
        proof {
            lemma_skip_ws(s, i);
        }
        let (open, k) = consume(s, j, '(');
        proof {
            lemma_consume(s, j, '(');
        }
        if open {
            match expression_at(s, read, k) {
                Err(f) => Err(f),
                Ok((e, n)) => match expect(s, k + n, ')') {
                    Err(f) => Err(f),
                    Ok(m) => Ok((e, (m - i) as nat)),
                },
            }
        } else if k < s.len() {
            let c = s[k];
            if is_ascii_digit(c) || c == '.' {
                match number_at::<T>(s, read, k) {
                    Err(f) => Err(f),
                    Ok((v, n)) => Ok((leaf(Symbol::Const(v)), ((k - i) + n) as nat)),
                }
            } else if char_is_alphabetic(c) || c == '_' {
                match name_at::<T>(s, read, k) {
                    Err(f) => Err(f),
                    Ok((e, n)) => Ok((e, ((k - i) + n) as nat)),
                }
            } else {
                Err(Failure { at: k, message: "unexpected character '"@ + seq![c] + "'"@ })
            }
        } else {
            Err(Failure { at: k, message: "expected an expression"@ })
        }
    }
}

/// A name that starts at `i`: `iif(check, negative, otherwise)`, a call of a
/// one-operand function, a numeric name such as `inf`, or a variable.
pub open spec fn name_at<T: Scalar>(s: Seq<char>, read: spec_fn(int) -> Option<T>, i: int) -> Result<(Tree<T>, nat), Failure>
    decreases rem(s, i), 1int,
{
    if !(0 <= i < s.len()) {
        Err(Failure { at: i, message: "expected an expression"@ })
    } else {
        let j = name_end(s, i + 1);
        proof {
            lemma_name_end(s, i + 1);
        }
        let name = s.subrange(i, j);
        let k = skip_ws(s, j);
        proof {
            lemma_skip_ws(s, j);
        }
        let (open, k2) = consume(s, k, '(');
        proof {
            lemma_consume(s, k, '(');
        }
        if open {
            if name == seq!['i', 'i', 'f'] {
                shifted(iif_arguments_at(s, read, k2), k2 - i)
            } else {
                shifted(call_at(s, read, name, i, k2), k2 - i)
            }
        } else {
            match read(i) {
                Some(v) => Ok((leaf(Symbol::Const(v)), (k2 - i) as nat)),
                None => Ok((leaf(Symbol::Var(name)), (k2 - i) as nat)),
            }
        }
    }
}

/// The arguments of `iif`, from `k` (after the opening parenthesis): three
/// expressions separated by commas, and the closing parenthesis.
pub open spec fn iif_arguments_at<T: Scalar>(s: Seq<char>, read: spec_fn(int) -> Option<T>, k: int) -> Result<(Tree<T>, nat), Failure>
    decreases rem(s, k), 10int,
{
    if !(0 <= k <= s.len()) {
        Err(Failure { at: k, message: "expected an expression"@ })
    } else {
        match expression_at(s, read, k) {
            Err(f) => Err(f),
            Ok((check, n1)) => match expect(s, k + n1, ',') {
                Err(f) => Err(f),
                Ok(m1) => {
                    proof {
                        lemma_consume(s, k + n1, ',');
                    }
                    match expression_at(s, read, m1) {
                        Err(f) => Err(f),
                        Ok((negative, n2)) => match expect(s, m1 + n2, ',') {
                            Err(f) => Err(f),
                            Ok(m2) => {
                                proof {
                                    lemma_consume(s, m1 + n2, ',');
                                }
                                match expression_at(s, read, m2) {
                                    Err(f) => Err(f),
                                    Ok((otherwise, n3)) => match expect(s, m2 + n3, ')') {
                                        Err(f) => Err(f),
                                        Ok(m3) => Ok(
                                            (
                                                node3(Symbol::ImmediateIf, check, negative, otherwise),
                                                (m3 - k) as nat,
                                            ),
                                        ),
                                    },
                                }
                            },
                        },
                    }
                },
            },
        }
    }
}

/// The operand of a one-operand function call, from `k` (after the opening
/// parenthesis), and the closing parenthesis; fails at `at` (where the name
/// starts) when the name is no such function.
pub open spec fn call_at<T: Scalar>(
    s: Seq<char>,
    read: spec_fn(int) -> Option<T>,
    name: Seq<char>,
    at: int,
    k: int,
) -> Result<(Tree<T>, nat), Failure>
    decreases rem(s, k), 10int,
{
    match expression_at(s, read, k) {
        Err(f) => Err(f),
        Ok((operand, n)) => match expect(s, k + n, ')') {
            Err(f) => Err(f),
            Ok(m) => match function_symbol::<T>(name) {
                Some(head) => Ok((node1(head, operand), (m - k) as nat)),
                None => Err(Failure { at, message: "unknown function '"@ + name + "'"@ }),
            },
        },
    }
}

pub proof fn lemma_name_end(s: Seq<char>, i: int)
    requires
        0 <= i <= s.len(),
    ensures
        i <= name_end(s, i) <= s.len(),
    decreases rem(s, i),
{
    if 0 <= i < s.len() && (char_is_alphanumeric(s[i]) || s[i] == '_') {
        lemma_name_end(s, i + 1);
    }
}

pub proof fn lemma_digits_end(s: Seq<char>, i: int)
    requires
        0 <= i <= s.len(),
    ensures
        i <= digits_end(s, i) <= s.len(),
        forall|k: int| i <= k < digits_end(s, i) ==> is_ascii_digit(#[trigger] s[k]),
    decreases rem(s, i),
{
    if 0 <= i < s.len() && is_ascii_digit(s[i]) {
        lemma_digits_end(s, i + 1);
    }
}

/// The whole text as one expression, with nothing but whitespace after it.
pub open spec fn parse_text<T: Scalar>(s: Seq<char>, read: spec_fn(int) -> Option<T>) -> Result<Tree<T>, Failure> {
    match expression_at::<T>(s, read, 0) {
        Err(f) => Err(f),
        Ok((e, n)) => {
            let j = skip_ws(s, n as int);
            if j == s.len() {
                Ok(e)
            } else {
                Err(Failure { at: j, message: "unexpected trailing input"@ })
            }
        },
    }
}


/// A reading result whose consumed count is `d` larger.
pub open spec fn shifted<T>(r: Result<(Tree<T>, nat), Failure>, d: int) -> Result<(Tree<T>, nat), Failure> {
    match r {
        Ok((t, m)) => Ok((t, (d + m) as nat)),
        Err(f) => Err(f),
    }
}

pub proof fn lemma_shifted_twice<T>(r: Result<(Tree<T>, nat), Failure>, d1: int, d2: int)
    requires
        0 <= d1,
        0 <= d2,
    ensures
        shifted(shifted(r, d1), d2) == shifted(r, d1 + d2),
{
}

pub proof fn lemma_addition_rest_step<T: Scalar>(s: Seq<char>, read: spec_fn(int) -> Option<T>, acc: Tree<T>, j: int)
    requires
        0 <= j <= s.len(),
    ensures
        ({
            let (plus, k) = consume(s, j, '+');
            let (minus, k2) = consume(s, k, '-');
            addition_rest_at(s, read, acc, j) == if plus {
                match multiplication_at::<T>(s, read, k) {
                    Err(f) => Err(f),
                    Ok((r, n)) => shifted(
                        addition_rest_at(s, read, node2(Symbol::Add, acc, r), k + n),
                        (k - j) + n,
                    ),
                }
            } else if minus {
                match multiplication_at::<T>(s, read, k2) {
                    Err(f) => Err(f),
                    Ok((r, n)) => shifted(
                        addition_rest_at(s, read, node2(Symbol::Subtract, acc, r), k2 + n),
                        (k2 - j) + n,
                    ),
                }
            } else {
                Ok((acc, (k2 - j) as nat))
            }
        }),
{
    reveal(addition_rest_at);
    lemma_consume(s, j, '+');
    lemma_consume(s, consume(s, j, '+').1, '-');
}

pub proof fn lemma_multiplication_rest_step<T: Scalar>(s: Seq<char>, read: spec_fn(int) -> Option<T>, acc: Tree<T>, j: int)
    requires
        0 <= j <= s.len(),
    ensures
        ({
            let (times, k) = consume(s, j, '*');
            let (over, k2) = consume(s, k, '/');
            multiplication_rest_at(s, read, acc, j) == if times {
                match unary_at::<T>(s, read, k) {
                    Err(f) => Err(f),
                    Ok((r, n)) => shifted(
                        multiplication_rest_at(s, read, node2(Symbol::Multiply, acc, r), k + n),
                        (k - j) + n,
                    ),
                }
            } else if over {
                match unary_at::<T>(s, read, k2) {
                    Err(f) => Err(f),
                    Ok((r, n)) => shifted(
                        multiplication_rest_at(s, read, node2(Symbol::Divide, acc, r), k2 + n),
                        (k2 - j) + n,
                    ),
                }
            } else {
                Ok((acc, (k2 - j) as nat))
            }
        }),
{
    reveal(multiplication_rest_at);
    lemma_consume(s, j, '*');
    lemma_consume(s, consume(s, j, '*').1, '/');
}
/// `read` gives every recorded reading: a function that agrees with what
/// the scalar type read at each recorded token start.
pub open spec fn consistent<T>(read: spec_fn(int) -> Option<T>, m: Map<int, Option<T>>) -> bool {
    forall|k: int| #[trigger] m.dom().contains(k) ==> read(k) == m[k]
}

pub broadcast proof fn lemma_consistent_submap<T>(
    read: spec_fn(int) -> Option<T>,
    m1: Map<int, Option<T>>,
    m2: Map<int, Option<T>>,
)
    requires
        #[trigger] consistent(read, m2),
        #[trigger] m1.submap_of(m2),
    ensures
        consistent(read, m1),
{
    assert forall|k: int| m1.dom().contains(k) implies read(k) == m1[k] by {
        assert(m2.dom().contains(k));
    }
}


} // verus!
