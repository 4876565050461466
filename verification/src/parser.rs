//! Reading expressions from text.
use vstd::prelude::*;
use vstd::string::StringExecFns;
use crate::grammar::{
    Failure, rem, skip_ws, consume, expect, digits_end, name_end, expected_message, function_symbol,
    number_at, expression_at, shifted, lemma_shifted_twice,
    lemma_addition_rest_step, lemma_multiplication_rest_step, addition_at, addition_rest_at, multiplication_at,
    multiplication_rest_at, unary_at, power_at, primary_at, name_at, parse_text, iif_arguments_at,
    call_at, lemma_skip_ws, number_end, token_end, token_reading, token_reads,
    lemma_consume, lemma_digits_end, lemma_name_end, consistent, lemma_consistent_submap,
};
use crate::math_expr::{MathExpr, lemma_power_tree_wf};
use crate::scalar::Scalar;
use crate::text::{
    is_ascii_digit, utf8_len,
    is_whitespace, is_alphabetic, is_alphanumeric, char_to_string, len_utf8,
    lemma_utf8_len_take_next, collect_chars,
};
use crate::tree::{Symbol, Tree, node1, node2, wf};

verus! {

broadcast use crate::grammar::lemma_consistent_submap, vstd::map_lib::lemma_submap_of_trans;

/// Where (a byte offset into the text) and why an expression could not be read.
#[derive(Clone, Debug, PartialEq, Eq)]
pub struct ParseError {
    pub position: usize,
    pub message: String,
}

impl ParseError {
    /// The error reports the failure `f` met while reading the characters `s`.
    pub open spec fn reports(self, s: Seq<char>, f: Failure) -> bool {
        &&& self.position == utf8_len(s.take(f.at))
        &&& self.message@ == f.message
    }

    /// The error as text: `parse error at byte <position>: <message>`.
    pub fn to_text(&self) -> (r: String)
        ensures
            r@ == "parse error at byte "@ + crate::decimal::decimal(self.position as nat) + ": "@
                + self.message@,
    {
        let mut r = String::from_str("parse error at byte ");
        let digits = crate::decimal::usize_to_text(self.position);
        r.append(digits.as_str());
        r.append(": ");
        r.append(self.message.as_str());
        r
    }
}

/// The outcome of reading from `i` agrees with the grammar's `spec`: the same
/// tree and the same end, or the same failure.
pub open spec fn agrees<'a, T: Scalar>(
    s: Seq<char>,
    i: int,
    spec: Result<(Tree<T>, nat), Failure>,
    r: Result<MathExpr<'a, T>, ParseError>,
    end: int,
) -> bool {
    match spec {
        Ok((t, n)) => r is Ok && r->Ok_0@ == t && end == i + n,
        Err(f) => r is Err && r->Err_0.reports(s, f),
    }
}

struct Parser<'a, T> {
    input: &'a str,
    chars: Vec<char>,
    position: usize,
    byte: usize,
    /// What the scalar type read at each token start read so far.
    readings: Ghost<Map<int, Option<T>>>,
}

impl<'a, T: Scalar> Parser<'a, T> {
    spec fn inv(&self) -> bool {
        &&& self.chars@ == self.input@
        &&& self.position <= self.chars@.len()
        &&& self.byte == utf8_len(self.chars@.take(self.position as int))
        &&& utf8_len(self.chars@) <= usize::MAX
        &&& forall|k: int| self.readings@.dom().contains(k) ==> k < self.position
        &&& forall|k: int|
            #[trigger] self.readings@.dom().contains(k) ==> self.readings@[k] == token_reading::<T>(
                self.chars@,
                k,
            )
    }

    spec fn text(&self) -> Seq<char> {
        self.chars@
    }

    spec fn same_input(&self, other: &Self) -> bool {
        &&& self.input == other.input
        &&& self.chars@ == other.chars@
    }

    spec fn same_text(&self, other: &Self) -> bool {
        &&& self.same_input(other)
        &&& self.readings == other.readings
    }

    fn new(input: &'a str) -> (p: Self)
        ensures
            p.inv(),
            p.input == input,
            p.position == 0,
    {
        let total = input.as_bytes().len();
        let chars = collect_chars(input);
        proof {
            assert(chars@.take(0) =~= Seq::<char>::empty());
            assert(vstd::utf8::encode_utf8(Seq::<char>::empty()) =~= Seq::<u8>::empty());
        }
        Parser { input, chars, position: 0, byte: 0, readings: Ghost(Map::empty()) }
    }

    fn peek_char(&self) -> (r: Option<char>)
        requires
            self.inv(),
        ensures
            r == (if self.position < self.chars@.len() {
                Some(self.chars@[self.position as int])
            } else {
                None::<char>
            }),
    {
        if self.position < self.chars.len() {
            Some(self.chars[self.position])
        } else {
            None
        }
    }

    fn advance_char(&mut self)
        requires
            old(self).inv(),
        ensures
            final(self).inv(),
            final(self).same_text(old(self)),
            final(self).position == (if old(self).position < old(self).chars@.len() {
                old(self).position + 1
            } else {
                old(self).position as int
            }),
    {
        if self.position < self.chars.len() {
            let c = self.chars[self.position];
            proof {
                lemma_utf8_len_take_next(self.chars@, self.position as int);
            }
            self.byte = self.byte + len_utf8(c);
            self.position = self.position + 1;
        }
    }

    fn is_at_end(&self) -> (r: bool)
        requires
            self.inv(),
        ensures
            r == (self.position == self.chars@.len()),
    {
        self.position == self.chars.len()
    }

    fn error(&self, message: String) -> (e: ParseError)
        requires
            self.inv(),
        ensures
            e.reports(self.chars@, Failure { at: self.position as int, message: message@ }),
    {
        ParseError { position: self.byte, message }
    }

    fn skip_whitespace(&mut self)
        requires
            old(self).inv(),
        ensures
            final(self).inv(),
            final(self).same_text(old(self)),
            final(self).position == skip_ws(old(self).chars@, old(self).position as int),
    {
        proof {
            lemma_skip_ws(self.chars@, self.position as int);
        }
        while self.position < self.chars.len() && is_whitespace(self.chars[self.position])
            invariant
                self.inv(),
                self.same_text(old(self)),
                skip_ws(self.chars@, self.position as int) == skip_ws(
                    old(self).chars@,
                    old(self).position as int,
                ),
            decreases self.chars@.len() - self.position,
        {
            self.advance_char();
        }
    }

    fn consume_digits(&mut self)
        requires
            old(self).inv(),
        ensures
            final(self).inv(),
            final(self).same_text(old(self)),
            final(self).position == digits_end(old(self).chars@, old(self).position as int),
    {
        while self.position < self.chars.len() && '0' <= self.chars[self.position]
            && self.chars[self.position] <= '9'
            invariant
                self.inv(),
                self.same_text(old(self)),
                digits_end(self.chars@, self.position as int) == digits_end(
                    old(self).chars@,
                    old(self).position as int,
                ),
            decreases self.chars@.len() - self.position,
        {
            self.advance_char();
        }
    }

    fn consume_symbol(&mut self, expected: char) -> (found: bool)
        requires
            old(self).inv(),
        ensures
            final(self).inv(),
            final(self).same_text(old(self)),
            (found, final(self).position as int) == consume(
                old(self).chars@,
                old(self).position as int,
                expected,
            ),
            old(self).position <= final(self).position,
    {
        proof {
            lemma_skip_ws(self.chars@, self.position as int);
        }
        self.skip_whitespace();
        match self.peek_char() {
            Some(c) => {
                if c == expected {
                    self.advance_char();
                    true
                } else {
                    false
                }
            },
            None => false,
        }
    }

    fn expect_symbol(&mut self, expected: char) -> (r: Result<(), ParseError>)
        requires
            old(self).inv(),
        ensures
            final(self).inv(),
            final(self).same_text(old(self)),
            old(self).position <= final(self).position,
            match expect(old(self).chars@, old(self).position as int, expected) {
                Ok(k) => r is Ok && final(self).position == k,
                Err(f) => r is Err && r->Err_0.reports(old(self).chars@, f),
            },
    {
        if self.consume_symbol(expected) {
            Ok(())
        } else {
            let mut message = String::from_str("expected '");
            let quoted = char_to_string(expected);
            message.append(quoted.as_str());
            message.append("'");
            assert(message@ == expected_message(expected));
            Err(self.error(message))
        }
    }
}


impl<'a, T: Scalar> Parser<'a, T> {
    fn parse_expression(&mut self) -> (r: Result<MathExpr<'a, T>, ParseError>)
        requires
            old(self).inv(),
        ensures
            final(self).inv(),
            r is Ok ==> wf(r->Ok_0@),
            final(self).same_input(old(self)),
            old(self).readings@.submap_of(final(self).readings@),
            old(self).position <= final(self).position,
            forall|read: spec_fn(int) -> Option<T>|
                #[trigger] consistent(read, final(self).readings@) ==> agrees(
                    old(self).chars@,
                    old(self).position as int,
                    expression_at::<T>(old(self).chars@, read, old(self).position as int),
                    r,
                    final(self).position as int,
                ),
        decreases rem(self.chars@, self.position as int), 9int,
    {
        self.parse_addition()
    }

    fn parse_addition(&mut self) -> (r: Result<MathExpr<'a, T>, ParseError>)
        requires
            old(self).inv(),
        ensures
            final(self).inv(),
            r is Ok ==> wf(r->Ok_0@),
            final(self).same_input(old(self)),
            old(self).readings@.submap_of(final(self).readings@),
            old(self).position <= final(self).position,
            forall|read: spec_fn(int) -> Option<T>|
                #[trigger] consistent(read, final(self).readings@) ==> agrees(
                    old(self).chars@,
                    old(self).position as int,
                    addition_at::<T>(old(self).chars@, read, old(self).position as int),
                    r,
                    final(self).position as int,
                ),
        decreases rem(self.chars@, self.position as int), 8int,
    {
        let ghost s = self.chars@;
        let ghost i = self.position as int;
        let mut expression = self.parse_multiplication()?;
        loop
            invariant
                self.inv(),
                wf(expression@),
                self.same_input(old(self)),
                old(self).readings@.submap_of(self.readings@),
                s == self.chars@,
                s == old(self).chars@,
                i == old(self).position,
                i <= self.position,
                forall|read: spec_fn(int) -> Option<T>|
                    #[trigger] consistent(read, self.readings@) ==> addition_at::<T>(s, read, i)
                        == shifted(addition_rest_at(s, read, expression@, self.position as int), self.position - i),
            decreases rem(s, self.position as int),
        {
            let ghost j = self.position as int;
            let ghost acc = expression@;
            let ghost m0 = self.readings@;
            proof {
                lemma_consume(s, j, '+');
            }
            if self.consume_symbol('+') {
                let right = match self.parse_multiplication() {
                    Ok(e) => e,
                    Err(e) => {
                        proof {
                            assert forall|read: spec_fn(int) -> Option<T>|
                                #[trigger] consistent(read, self.readings@) implies agrees(
                                s,
                                i,
                                addition_at::<T>(s, read, i),
                                Err::<MathExpr<'a, T>, ParseError>(e),
                                self.position as int,
                            ) by {
                                lemma_consistent_submap(read, m0, self.readings@);
                                lemma_addition_rest_step(s, read, acc, j);
                            }
                        }
                        return Err(e);
                    },
                };
                proof {
                    assert forall|read: spec_fn(int) -> Option<T>|
                        #[trigger] consistent(read, self.readings@) implies addition_at::<T>(s, read, i)
                        == shifted(
                        addition_rest_at(s, read, node2(Symbol::Add, acc, right@), self.position as int),
                        self.position - i,
                    ) by {
                        lemma_consistent_submap(read, m0, self.readings@);
                        lemma_addition_rest_step(s, read, acc, j);
                        lemma_shifted_twice(
                            addition_rest_at(s, read, node2(Symbol::Add, acc, right@), self.position as int),
                            self.position - j,
                            j - i,
                        );
                    }
                }
                expression = MathExpr::new_add(expression, right);
            } else {
                let ghost k = self.position as int;
                proof {
                    lemma_consume(s, k, '-');
                }
                if self.consume_symbol('-') {
                    let right = match self.parse_multiplication() {
                        Ok(e) => e,
                        Err(e) => {
                            proof {
                                assert forall|read: spec_fn(int) -> Option<T>|
                                    #[trigger] consistent(read, self.readings@) implies agrees(
                                    s,
                                    i,
                                    addition_at::<T>(s, read, i),
                                    Err::<MathExpr<'a, T>, ParseError>(e),
                                    self.position as int,
                                ) by {
                                    lemma_consistent_submap(read, m0, self.readings@);
                                    lemma_addition_rest_step(s, read, acc, j);
                                }
                            }
                            return Err(e);
                        },
                    };
                    proof {
                        assert forall|read: spec_fn(int) -> Option<T>|
                            #[trigger] consistent(read, self.readings@) implies addition_at::<T>(s, read, i)
                            == shifted(
                            addition_rest_at(s, read, node2(Symbol::Subtract, acc, right@), self.position as int),
                            self.position - i,
                        ) by {
                            lemma_consistent_submap(read, m0, self.readings@);
                            lemma_addition_rest_step(s, read, acc, j);
                            lemma_shifted_twice(
                                addition_rest_at(s, read, node2(Symbol::Subtract, acc, right@), self.position as int),
                                self.position - j,
                                j - i,
                            );
                        }
                    }
                    expression = MathExpr::new_subtract(expression, right);
                } else {
                    proof {
                        assert forall|read: spec_fn(int) -> Option<T>|
                            #[trigger] consistent(read, self.readings@) implies agrees(
                            s,
                            i,
                            addition_at::<T>(s, read, i),
                            Ok::<MathExpr<'a, T>, ParseError>(expression),
                            self.position as int,
                        ) by {
                            lemma_addition_rest_step(s, read, acc, j);
                        }
                    }
                    return Ok(expression);
                }
            }
        }
    }

    fn parse_multiplication(&mut self) -> (r: Result<MathExpr<'a, T>, ParseError>)
        requires
            old(self).inv(),
        ensures
            final(self).inv(),
            r is Ok ==> wf(r->Ok_0@),
            final(self).same_input(old(self)),
            old(self).readings@.submap_of(final(self).readings@),
            old(self).position <= final(self).position,
            forall|read: spec_fn(int) -> Option<T>|
                #[trigger] consistent(read, final(self).readings@) ==> agrees(
                    old(self).chars@,
                    old(self).position as int,
                    multiplication_at::<T>(old(self).chars@, read, old(self).position as int),
                    r,
                    final(self).position as int,
                ),
        decreases rem(self.chars@, self.position as int), 6int,
    {
        let ghost s = self.chars@;
        let ghost i = self.position as int;
        let mut expression = self.parse_unary()?;
        loop
            invariant
                self.inv(),
                wf(expression@),
                self.same_input(old(self)),
                old(self).readings@.submap_of(self.readings@),
                s == self.chars@,
                s == old(self).chars@,
                i == old(self).position,
                i <= self.position,
                forall|read: spec_fn(int) -> Option<T>|
                    #[trigger] consistent(read, self.readings@) ==> multiplication_at::<T>(s, read, i)
                        == shifted(multiplication_rest_at(s, read, expression@, self.position as int), self.position - i),
            decreases rem(s, self.position as int),
        {
            let ghost j = self.position as int;
            let ghost acc = expression@;
            let ghost m0 = self.readings@;
            proof {
                lemma_consume(s, j, '*');
            }
            if self.consume_symbol('*') {
                let right = match self.parse_unary() {
                    Ok(e) => e,
                    Err(e) => {
                        proof {
                            assert forall|read: spec_fn(int) -> Option<T>|
                                #[trigger] consistent(read, self.readings@) implies agrees(
                                s,
                                i,
                                multiplication_at::<T>(s, read, i),
                                Err::<MathExpr<'a, T>, ParseError>(e),
                                self.position as int,
                            ) by {
                                lemma_consistent_submap(read, m0, self.readings@);
                                lemma_multiplication_rest_step(s, read, acc, j);
                            }
                        }
                        return Err(e);
                    },
                };
                proof {
                    assert forall|read: spec_fn(int) -> Option<T>|
                        #[trigger] consistent(read, self.readings@) implies multiplication_at::<T>(s, read, i)
                        == shifted(
                        multiplication_rest_at(s, read, node2(Symbol::Multiply, acc, right@), self.position as int),
                        self.position - i,
                    ) by {
                        lemma_consistent_submap(read, m0, self.readings@);
                        lemma_multiplication_rest_step(s, read, acc, j);
                        lemma_shifted_twice(
                            multiplication_rest_at(s, read, node2(Symbol::Multiply, acc, right@), self.position as int),
                            self.position - j,
                            j - i,
                        );
                    }
                }
                expression = MathExpr::new_multiply(expression, right);
            } else {
                let ghost k = self.position as int;
                proof {
                    lemma_consume(s, k, '/');
                }
                if self.consume_symbol('/') {
                    let right = match self.parse_unary() {
                        Ok(e) => e,
                        Err(e) => {
                            proof {
                                assert forall|read: spec_fn(int) -> Option<T>|
                                    #[trigger] consistent(read, self.readings@) implies agrees(
                                    s,
                                    i,
                                    multiplication_at::<T>(s, read, i),
                                    Err::<MathExpr<'a, T>, ParseError>(e),
                                    self.position as int,
                                ) by {
                                    lemma_consistent_submap(read, m0, self.readings@);
                                    lemma_multiplication_rest_step(s, read, acc, j);
                                }
                            }
                            return Err(e);
                        },
                    };
                    proof {
                        assert forall|read: spec_fn(int) -> Option<T>|
                            #[trigger] consistent(read, self.readings@) implies multiplication_at::<T>(s, read, i)
                            == shifted(
                            multiplication_rest_at(s, read, node2(Symbol::Divide, acc, right@), self.position as int),
                            self.position - i,
                        ) by {
                            lemma_consistent_submap(read, m0, self.readings@);
                            lemma_multiplication_rest_step(s, read, acc, j);
                            lemma_shifted_twice(
                                multiplication_rest_at(s, read, node2(Symbol::Divide, acc, right@), self.position as int),
                                self.position - j,
                                j - i,
                            );
                        }
                    }
                    expression = MathExpr::new_divide(expression, right);
                } else {
                    proof {
                        assert forall|read: spec_fn(int) -> Option<T>|
                            #[trigger] consistent(read, self.readings@) implies agrees(
                            s,
                            i,
                            multiplication_at::<T>(s, read, i),
                            Ok::<MathExpr<'a, T>, ParseError>(expression),
                            self.position as int,
                        ) by {
                            lemma_multiplication_rest_step(s, read, acc, j);
                        }
                    }
                    return Ok(expression);
                }
            }
        }
    }

    fn parse_unary(&mut self) -> (r: Result<MathExpr<'a, T>, ParseError>)
        requires
            old(self).inv(),
        ensures
            final(self).inv(),
            r is Ok ==> wf(r->Ok_0@),
            final(self).same_input(old(self)),
            old(self).readings@.submap_of(final(self).readings@),
            old(self).position <= final(self).position,
            forall|read: spec_fn(int) -> Option<T>|
                #[trigger] consistent(read, final(self).readings@) ==> agrees(
                    old(self).chars@,
                    old(self).position as int,
                    unary_at::<T>(old(self).chars@, read, old(self).position as int),
                    r,
                    final(self).position as int,
                ),
        decreases rem(self.chars@, self.position as int), 4int,
    {
        proof {
            lemma_consume(self.chars@, self.position as int, '-');
        }
        if self.consume_symbol('-') {
            let operand = self.parse_unary()?;
            Ok(MathExpr::new_negate(operand))
        } else {
            self.parse_power()
        }
    }

    fn parse_power(&mut self) -> (r: Result<MathExpr<'a, T>, ParseError>)
        requires
            old(self).inv(),
        ensures
            final(self).inv(),
            r is Ok ==> wf(r->Ok_0@),
            final(self).same_input(old(self)),
            old(self).readings@.submap_of(final(self).readings@),
            old(self).position <= final(self).position,
            forall|read: spec_fn(int) -> Option<T>|
                #[trigger] consistent(read, final(self).readings@) ==> agrees(
                    old(self).chars@,
                    old(self).position as int,
                    power_at::<T>(old(self).chars@, read, old(self).position as int),
                    r,
                    final(self).position as int,
                ),
        decreases rem(self.chars@, self.position as int), 3int,
    {
        let ghost s = self.chars@;
        let ghost i = self.position as int;
        let base = self.parse_primary()?;
        let ghost j = self.position as int;
        proof {
            lemma_consume(s, j, '^');
        }
        if self.consume_symbol('^') {
            let exponent = self.parse_unary()?;
            proof {
                lemma_power_tree_wf(base@, exponent@);
            }
            Ok(MathExpr::new_power(base, exponent))
        } else {
            Ok(base)
        }
    }

    fn parse_primary(&mut self) -> (r: Result<MathExpr<'a, T>, ParseError>)
        requires
            old(self).inv(),
        ensures
            final(self).inv(),
            r is Ok ==> wf(r->Ok_0@),
            final(self).same_input(old(self)),
            old(self).readings@.submap_of(final(self).readings@),
            old(self).position <= final(self).position,
            forall|read: spec_fn(int) -> Option<T>|
                #[trigger] consistent(read, final(self).readings@) ==> agrees(
                    old(self).chars@,
                    old(self).position as int,
                    primary_at::<T>(old(self).chars@, read, old(self).position as int),
                    r,
                    final(self).position as int,
                ),
        decreases rem(self.chars@, self.position as int), 2int,
    {
        let ghost s = self.chars@;
        let ghost i = self.position as int;
        proof {
            lemma_skip_ws(s, i);
        }
        self.skip_whitespace();
        proof {
            lemma_consume(s, self.position as int, '(');
        }
        if self.consume_symbol('(') {
            let expression = self.parse_expression()?;
            self.expect_symbol(')')?;
            return Ok(expression);
        }
        match self.peek_char() {
            Some(character) => {
                if ('0' <= character && character <= '9') || character == '.' {
                    let value = self.parse_number_value()?;
                    Ok(MathExpr::new_const(value))
                } else if is_alphabetic(character) || character == '_' {
                    self.parse_name()
                } else {
                    let mut message = String::from_str("unexpected character '");
                    let quoted = char_to_string(character);
                    message.append(quoted.as_str());
                    message.append("'");
                    Err(self.error(message))
                }
            },
            None => Err(self.error(String::from_str("expected an expression"))),
        }
    }

    fn parse_number_value(&mut self) -> (r: Result<T, ParseError>)
        requires
            old(self).inv(),
            old(self).position < old(self).chars@.len(),
            is_ascii_digit(old(self).chars@[old(self).position as int]) || old(self).chars@[old(
                self,
            ).position as int] == '.',
        ensures
            final(self).inv(),
            final(self).same_input(old(self)),
            old(self).readings@.submap_of(final(self).readings@),
            old(self).position <= final(self).position,
            forall|read: spec_fn(int) -> Option<T>|
                #[trigger] consistent(read, final(self).readings@) ==> match number_at::<T>(
                    old(self).chars@,
                    read,
                    old(self).position as int,
                ) {
                    Ok((v, n)) => r == Ok::<T, ParseError>(v) && final(self).position
                        == old(self).position + n,
                    Err(f) => r is Err && r->Err_0.reports(old(self).chars@, f),
                },
    {
        let ghost s = self.chars@;
        self.skip_whitespace();
        let start = self.position;
        let start_byte = self.byte;
        proof {
            lemma_digits_end(s, start as int);
            lemma_digits_end(s, start + 1);
        }
        self.consume_digits();
        if self.position < self.chars.len() && self.chars[self.position] == '.' {
            self.advance_char();
            proof {
                lemma_digits_end(s, self.position as int);
            }
            self.consume_digits();
        }
        let ghost j2 = self.position as int;
        if self.position < self.chars.len() && (self.chars[self.position] == 'e'
            || self.chars[self.position] == 'E') {
            self.advance_char();
            if self.position < self.chars.len() && (self.chars[self.position] == '+'
                || self.chars[self.position] == '-') {
                self.advance_char();
            }
            let exponent_start = self.position;
            proof {
                lemma_digits_end(s, exponent_start as int);
            }
            self.consume_digits();
            if exponent_start == self.position {
                return Err(self.error(String::from_str("expected digits after the exponent")));
            }
        }
        let token = self.input.substring_char(start, self.position);
        proof {
            assert(token@ == s.subrange(start as int, self.position as int));
        }
        let reading = T::from_text(token);
        proof {
            assert(self.position == number_end(s, start as int));
            assert(reading == token_reading::<T>(s, start as int));
            let before = self.readings@;
            assert(!before.dom().contains(start as int));
            self.readings = Ghost(before.insert(start as int, reading));
            assert(before.submap_of(self.readings@));
            assert(start < self.position);
        }
        let r = match reading {
            Some(value) => Ok(value),
            None => {
                let mut message = String::from_str("invalid number '");
                message.append(token);
                message.append("'");
                proof {
                    assert(start_byte == utf8_len(s.take(start as int)));
                }
                Err(ParseError { position: start_byte, message })
            },
        };
        proof {
            assert forall|read: spec_fn(int) -> Option<T>|
                #[trigger] consistent(read, self.readings@) implies match number_at::<T>(
                s,
                read,
                start as int,
            ) {
                Ok((v, n)) => r == Ok::<T, ParseError>(v) && self.position == start + n,
                Err(f) => r is Err && r->Err_0.reports(s, f),
            } by {
                assert(self.readings@.dom().contains(start as int));
                assert(self.readings@[start as int] == reading);
            }
        }
        r
    }
}

impl<'a, T: Scalar> Parser<'a, T> {
    /// Whether the characters from `start` to `end` spell `word`.
    fn name_is(&self, start: usize, end: usize, word: &[char]) -> (r: bool)
        requires
            self.inv(),
            start <= end <= self.chars@.len(),
        ensures
            r == (self.chars@.subrange(start as int, end as int) == word@),
    {
        if end - start != word.len() {
            return false;
        }
        let mut k: usize = 0;
        while k < word.len()
            invariant
                self.inv(),
                end - start == word@.len(),
                start <= end <= self.chars@.len(),
                k <= word@.len(),
                forall|m: int| 0 <= m < k ==> self.chars@[start + m] == word@[m],
            decreases word@.len() - k,
        {
            if self.chars[start + k] != word[k] {
                assert(self.chars@.subrange(start as int, end as int)[k as int] != word@[k as int]);
                return false;
            }
            k += 1;
        }
        assert(self.chars@.subrange(start as int, end as int) =~= word@);
        true
    }

    /// A one-operand function applied to `operand`, chosen by the name from
    /// `start` to `end`, if the name is one.
    fn apply_function(&self, start: usize, end: usize, operand: MathExpr<'a, T>) -> (r:
        Option<MathExpr<'a, T>>)
        requires
            self.inv(),
            start <= end <= self.chars@.len(),
            wf(operand@),
        ensures
            r is Some ==> wf(r->Some_0@),
            match function_symbol::<T>(self.chars@.subrange(start as int, end as int)) {
                Some(head) => r is Some && r->Some_0@ == node1(head, operand@),
                None => r is None,
            },
    {
        proof {
            assert(['s', 'i', 'n']@ =~= seq!['s', 'i', 'n']);
            assert(['c', 'o', 's']@ =~= seq!['c', 'o', 's']);
            assert(['t', 'a', 'n']@ =~= seq!['t', 'a', 'n']);
            assert(['a', 's', 'i', 'n']@ =~= seq!['a', 's', 'i', 'n']);
            assert(['a', 'c', 'o', 's']@ =~= seq!['a', 'c', 'o', 's']);
            assert(['a', 't', 'a', 'n']@ =~= seq!['a', 't', 'a', 'n']);
            assert(['s', 'i', 'n', 'h']@ =~= seq!['s', 'i', 'n', 'h']);
            assert(['c', 'o', 's', 'h']@ =~= seq!['c', 'o', 's', 'h']);
            assert(['t', 'a', 'n', 'h']@ =~= seq!['t', 'a', 'n', 'h']);
            assert(['s', 'i', 'g', 'n']@ =~= seq!['s', 'i', 'g', 'n']);
            assert(['a', 'b', 's']@ =~= seq!['a', 'b', 's']);
            assert(['e', 'x', 'p']@ =~= seq!['e', 'x', 'p']);
            assert(['s', 'q', 'r', 't']@ =~= seq!['s', 'q', 'r', 't']);
            assert(['l', 'o', 'g']@ =~= seq!['l', 'o', 'g']);
            assert(['l', 'n']@ =~= seq!['l', 'n']);
            assert(['l', 'o', 'g', '1', '0']@ =~= seq!['l', 'o', 'g', '1', '0']);
        }
        if self.name_is(start, end, &['s', 'i', 'n']) {
            Some(MathExpr::new_sin(operand))
        } else if self.name_is(start, end, &['c', 'o', 's']) {
            Some(MathExpr::new_cos(operand))
        } else if self.name_is(start, end, &['t', 'a', 'n']) {
            Some(MathExpr::new_tan(operand))
        } else if self.name_is(start, end, &['a', 's', 'i', 'n']) {
            Some(MathExpr::new_asin(operand))
        } else if self.name_is(start, end, &['a', 'c', 'o', 's']) {
            Some(MathExpr::new_acos(operand))
        } else if self.name_is(start, end, &['a', 't', 'a', 'n']) {
            Some(MathExpr::new_atan(operand))
        } else if self.name_is(start, end, &['s', 'i', 'n', 'h']) {
            Some(MathExpr::new_sinh(operand))
        } else if self.name_is(start, end, &['c', 'o', 's', 'h']) {
            Some(MathExpr::new_cosh(operand))
        } else if self.name_is(start, end, &['t', 'a', 'n', 'h']) {
            Some(MathExpr::new_tanh(operand))
        } else if self.name_is(start, end, &['s', 'i', 'g', 'n']) {
            Some(MathExpr::new_sign(operand))
        } else if self.name_is(start, end, &['a', 'b', 's']) {
            Some(MathExpr::new_abs(operand))
        } else if self.name_is(start, end, &['e', 'x', 'p']) {
            Some(MathExpr::new_exp(operand))
        } else if self.name_is(start, end, &['s', 'q', 'r', 't']) {
            Some(MathExpr::new_sqrt(operand))
        } else if self.name_is(start, end, &['l', 'o', 'g']) || self.name_is(
            start,
            end,
            &['l', 'n'],
        ) {
            Some(MathExpr::new_ln(operand))
        } else if self.name_is(start, end, &['l', 'o', 'g', '1', '0']) {
            Some(MathExpr::new_log10(operand))
        } else {
            None
        }
    }

    fn parse_iif_arguments(&mut self) -> (r: Result<MathExpr<'a, T>, ParseError>)
        requires
            old(self).inv(),
        ensures
            final(self).inv(),
            r is Ok ==> wf(r->Ok_0@),
            final(self).same_input(old(self)),
            old(self).readings@.submap_of(final(self).readings@),
            old(self).position <= final(self).position,
            forall|read: spec_fn(int) -> Option<T>|
                #[trigger] consistent(read, final(self).readings@) ==> agrees(
                    old(self).chars@,
                    old(self).position as int,
                    iif_arguments_at::<T>(old(self).chars@, read, old(self).position as int),
                    r,
                    final(self).position as int,
                ),
        decreases rem(self.chars@, self.position as int), 10int,
    {
        let check = self.parse_expression()?;
        self.expect_symbol(',')?;
        let if_less_than_zero = self.parse_expression()?;
        self.expect_symbol(',')?;
        let otherwise = self.parse_expression()?;
        self.expect_symbol(')')?;
        Ok(MathExpr::new_iif(check, if_less_than_zero, otherwise))
    }

    fn parse_call(&mut self, start: usize, end: usize, start_byte: usize, name: &'a str) -> (r: Result<
        MathExpr<'a, T>,
        ParseError,
    >)
        requires
            old(self).inv(),
            start <= end <= old(self).chars@.len(),
            name@ == old(self).chars@.subrange(start as int, end as int),
            start_byte == utf8_len(old(self).chars@.take(start as int)),
        ensures
            final(self).inv(),
            r is Ok ==> wf(r->Ok_0@),
            final(self).same_input(old(self)),
            old(self).readings@.submap_of(final(self).readings@),
            old(self).position <= final(self).position,
            forall|read: spec_fn(int) -> Option<T>|
                #[trigger] consistent(read, final(self).readings@) ==> agrees(
                    old(self).chars@,
                    old(self).position as int,
                    call_at::<T>(
                        old(self).chars@,
                        read,
                        old(self).chars@.subrange(start as int, end as int),
                        start as int,
                        old(self).position as int,
                    ),
                    r,
                    final(self).position as int,
                ),
        decreases rem(self.chars@, self.position as int), 10int,
    {
        let operand = self.parse_expression()?;
        self.expect_symbol(')')?;
        match self.apply_function(start, end, operand) {
            Some(expression) => Ok(expression),
            None => {
                let mut message = String::from_str("unknown function '");
                message.append(name);
                message.append("'");
                Err(ParseError { position: start_byte, message })
            },
        }
    }

    fn parse_name(&mut self) -> (r: Result<MathExpr<'a, T>, ParseError>)
        requires
            old(self).inv(),
            old(self).position < old(self).chars@.len(),
            !is_ascii_digit(old(self).chars@[old(self).position as int]),
            old(self).chars@[old(self).position as int] != '.',
        ensures
            final(self).inv(),
            r is Ok ==> wf(r->Ok_0@),
            final(self).same_input(old(self)),
            old(self).readings@.submap_of(final(self).readings@),
            old(self).position <= final(self).position,
            forall|read: spec_fn(int) -> Option<T>|
                #[trigger] consistent(read, final(self).readings@) ==> agrees(
                    old(self).chars@,
                    old(self).position as int,
                    name_at::<T>(old(self).chars@, read, old(self).position as int),
                    r,
                    final(self).position as int,
                ),
        decreases rem(self.chars@, self.position as int), 1int,
    {
        let ghost s = self.chars@;
        let start = self.position;
        let start_byte = self.byte;
        self.advance_char();
        proof {
            lemma_name_end(s, self.position as int);
        }
        while self.position < self.chars.len() && (is_alphanumeric(self.chars[self.position])
            || self.chars[self.position] == '_')
            invariant
                self.inv(),
                self.same_text(old(self)),
                s == self.chars@,
                start < self.position,
                name_end(s, self.position as int) == name_end(s, start + 1),
            decreases self.chars@.len() - self.position,
        {
            self.advance_char();
        }
        let end = self.position;
        let name = self.input.substring_char(start, end);
        proof {
            lemma_skip_ws(s, end as int);
        }
        self.skip_whitespace();
        proof {
            lemma_consume(s, self.position as int, '(');
        }
        if self.consume_symbol('(') {
            let ghost k2 = self.position as int;
            assert(['i', 'i', 'f']@ =~= seq!['i', 'i', 'f']);
            let r = if self.name_is(start, end, &['i', 'i', 'f']) {
                self.parse_iif_arguments()
            } else {
                self.parse_call(start, end, start_byte, name)
            };
            proof {
                assert forall|read: spec_fn(int) -> Option<T>|
                    #[trigger] consistent(read, self.readings@) implies agrees(
                    s,
                    start as int,
                    name_at::<T>(s, read, start as int),
                    r,
                    self.position as int,
                ) by {
                    if s.subrange(start as int, end as int) == seq!['i', 'i', 'f'] {
                        assert(agrees(s, k2, iif_arguments_at::<T>(s, read, k2), r, self.position as int));
                    } else {
                        assert(agrees(
                            s,
                            k2,
                            call_at::<T>(s, read, s.subrange(start as int, end as int), start as int, k2),
                            r,
                            self.position as int,
                        ));
                    }
                }
            }
            return r;
        }
        let reading = T::from_text(name);
        proof {
            assert(end == token_end(s, start as int));
            assert(reading == token_reading::<T>(s, start as int));
            let before = self.readings@;
            assert(!before.dom().contains(start as int));
            self.readings = Ghost(before.insert(start as int, reading));
            assert(before.submap_of(self.readings@));
        }
        let r = match reading {
            Some(value) => Ok(MathExpr::new_const(value)),
            None => Ok(MathExpr::new_var(name)),
        };
        proof {
            assert forall|read: spec_fn(int) -> Option<T>|
                #[trigger] consistent(read, self.readings@) implies agrees(
                s,
                start as int,
                name_at::<T>(s, read, start as int),
                r,
                self.position as int,
            ) by {
                assert(self.readings@.dom().contains(start as int));
                assert(self.readings@[start as int] == reading);
            }
        }
        r
    }
}

impl<'a, T: Scalar> MathExpr<'a, T> {
    /// Reads the whole text as one expression (see the grammar in
    /// `crate::grammar`), each numeric literal and each name that is no call
    /// read by the scalar type. Names borrow from the text.
    pub fn parse(input: &'a str) -> (r: Result<Self, ParseError>)
        ensures
            r is Ok ==> wf(r->Ok_0@),
            match parse_text::<T>(input@, token_reads::<T>(input@)) {
                Ok(t) => r is Ok && r->Ok_0@ == t,
                Err(f) => r is Err && r->Err_0.reports(input@, f),
            },
    {
        let mut parser = Parser::<T>::new(input);
        let result = parser.parse_expression();
        let ghost read = token_reads::<T>(input@);
        proof {
            assert(consistent(read, parser.readings@));
        }
        let expression = match result {
            Ok(e) => e,
            Err(e) => {
                assert(match parse_text::<T>(input@, read) {
                    Ok(t) => false,
                    Err(f) => e.reports(input@, f),
                });
                return Err(e);
            },
        };
        parser.skip_whitespace();
        if parser.is_at_end() {
            assert(parse_text::<T>(input@, read) == Ok::<Tree<T>, Failure>(expression@));
            Ok(expression)
        } else {
            let e = parser.error(String::from_str("unexpected trailing input"));
            assert(match parse_text::<T>(input@, read) {
                Ok(t) => false,
                Err(f) => e.reports(input@, f),
            });
            Err(e)
        }
    }
}
} // verus!
