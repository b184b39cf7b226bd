//! The lexer's cursor over one line and the evaluator that drives it.
use vstd::prelude::*;

use crate::chars::{digit_of, is_digit, is_digit_char, is_space};
use crate::grammar::{
    decimal_value, digits_end, evaluate_from, kind_error, lemma_digits_end_bounds,
    lemma_run_overflows, lex, same_kind, skip_spaces,
};
use crate::token::{ParseError, Token};

verus! {

/// One evaluation of one line: the line's characters, the cursor into them,
/// the character under the cursor and the token read last.
pub struct Interpreter {
    text: Vec<char>,
    pos: usize,
    current_token: Token,
    current_char: Option<char>,
}

impl Interpreter {
    /// The characters of the line.
    pub closed spec fn chars(&self) -> Seq<char> {
        self.text@
    }

    /// The cursor: how many characters have been passed over.
    pub closed spec fn cursor(&self) -> nat {
        self.pos as nat
    }

    /// The token read last.
    pub closed spec fn token(&self) -> Token {
        self.current_token
    }

    /// The cursor lies within the line, and the cached character is the one
    /// under it, or none at the end of the line.
    pub closed spec fn wf(&self) -> bool {
        &&& self.pos <= self.text.len()
        &&& self.current_char == if self.pos < self.text.len() {
            Some(self.text@[self.pos as int])
        } else {
            None::<char>
        }
    }

    /// Starts an evaluation of `text`, with the cursor on its first character.
    pub fn new(text: String) -> (r: Self)
        ensures
            r.wf(),
            r.chars() == text@,
            r.cursor() == 0,
            r.token() == Token::EndOfInput,
    {
        let mut chars: Vec<char> = Vec::new();
        for c in it: text.as_str().chars()
            invariant
                chars@ == it.seq().take(it.index() as int),
        {
            chars.push(c);
        }
        assert(chars@ == text@);
        let first = if chars.len() > 0 {
            Some(chars[0])
        } else {
            None
        };
        Interpreter { text: chars, pos: 0, current_token: Token::EndOfInput, current_char: first }
    }

    /// The failure for the character under the cursor, which no token
    /// starts with.
    pub fn error(&self) -> (r: ParseError)
        requires
            self.wf(),
            self.cursor() < self.chars().len(),
        ensures
            r == (ParseError::UnexpectedCharacter {
                ch: self.chars()[self.cursor() as int],
                pos: self.cursor() as usize,
            }),
    {
        ParseError::UnexpectedCharacter { ch: self.text[self.pos], pos: self.pos }
    }

    /// Moves the cursor one character forward; at the end of the line it
    /// stays where it is.
    pub fn advanve(&mut self)
        requires
            old(self).wf(),
        ensures
            final(self).wf(),
            final(self).chars() == old(self).chars(),
            final(self).token() == old(self).token(),
            final(self).cursor() == if old(self).cursor() < old(self).chars().len() {
                old(self).cursor() + 1
            } else {
                old(self).cursor()
            },
    {
        if self.pos < self.text.len() {
            self.pos = self.pos + 1;
        }
        self.current_char = if self.pos < self.text.len() {
            Some(self.text[self.pos])
        } else {
            None
        };
    }

    /// Passes over the white space under the cursor.
    pub fn skip_white_space(&mut self)
        requires
            old(self).wf(),
        ensures
            final(self).wf(),
            final(self).chars() == old(self).chars(),
            final(self).token() == old(self).token(),
            final(self).cursor() == skip_spaces(old(self).chars(), old(self).cursor()),
    {
        while self.current_char.is_some() && is_space(self.current_char.unwrap())
            invariant
                self.wf(),
                self.chars() == old(self).chars(),
                self.token() == old(self).token(),
                skip_spaces(self.chars(), self.cursor()) == skip_spaces(
                    old(self).chars(),
                    old(self).cursor(),
                ),
            decreases self.chars().len() - self.cursor(),
        {
            self.advanve();
        }
    }

    /// Reads the run of digits that starts under the cursor and passes over
    /// it. Fails with `MalformedNumber` where its value does not fit in a `u32`.
    pub fn integer(&mut self) -> (r: Result<u32, ParseError>)
        requires
            old(self).wf(),
            old(self).cursor() < old(self).chars().len(),
            is_digit_char(old(self).chars()[old(self).cursor() as int]),
        ensures
            final(self).wf(),
            final(self).chars() == old(self).chars(),
            final(self).token() == old(self).token(),
            ({
                let s = old(self).chars();
                let i = old(self).cursor();
                let k = digits_end(s, i);
                let v = decimal_value(s.subrange(i as int, k as int));
                if v <= u32::MAX {
                    r == Ok::<u32, ParseError>(v as u32) && final(self).cursor() == k
                } else {
                    r == Err::<u32, ParseError>(ParseError::MalformedNumber { pos: i as usize })
                }
            }),
    {
        let start = self.pos;
        let ghost s = self.chars();
        let ghost k = digits_end(s, start as nat);
        let mut result: u32 = 0;
        proof {
            lemma_digits_end_bounds(s, start as nat);
        }
        while self.current_char.is_some() && is_digit(self.current_char.unwrap())
            invariant
                self.wf(),
                self.chars() == s,
                self.token() == old(self).token(),
                s == old(self).chars(),
                start == old(self).cursor(),
                start <= self.pos <= k <= s.len(),
                k == digits_end(s, start as nat),
                digits_end(s, self.pos as nat) == k,
                result == decimal_value(s.subrange(start as int, self.pos as int)),
            decreases s.len() - self.cursor(),
        {
            let c = self.current_char.unwrap();
            let ghost p = self.pos as int;
            proof {
                assert(s.subrange(start as int, p + 1).drop_last() == s.subrange(start as int, p));
                assert(digits_end(s, p as nat) == digits_end(s, (p + 1) as nat));
                lemma_digits_end_bounds(s, (p + 1) as nat);
            }
            let d = digit_of(c);
            match result.checked_mul(10) {
                Some(m) => match m.checked_add(d) {
                    Some(n) => {
                        result = n;
                    },
                    None => {
                        proof {
                            lemma_run_overflows(s, start as nat, (p + 1) as nat);
                        }
                        return Err(ParseError::MalformedNumber { pos: start });
                    },
                },
                None => {
                    proof {
                        lemma_run_overflows(s, start as nat, (p + 1) as nat);
                    }
                    return Err(ParseError::MalformedNumber { pos: start });
                },
            }
            self.advanve();
        }
        Ok(result)
    }

    /// Reads the next token: passes over white space, then reads an integer,
    /// `+` or `-`, or finds the end of the line. At the end of the line the
    /// cursor stays put, so every further call gives `EndOfInput` again.
    pub fn get_next_token(&mut self) -> (r: Result<Token, ParseError>)
        requires
            old(self).wf(),
        ensures
            final(self).wf(),
            final(self).chars() == old(self).chars(),
            final(self).token() == old(self).token(),
            match lex(old(self).chars(), old(self).cursor()) {
                Ok((t, j)) => r == Ok::<Token, ParseError>(t) && final(self).cursor() == j,
                Err(e) => r == Err::<Token, ParseError>(e),
            },
            r == Ok::<Token, ParseError>(Token::EndOfInput) ==> final(self).cursor()
                == final(self).chars().len(),
            old(self).cursor() == old(self).chars().len() ==> r == Ok::<Token, ParseError>(
                Token::EndOfInput,
            ) && final(self).cursor() == old(self).cursor(),
    {
        self.skip_white_space();
        match self.current_char {
            None => Ok(Token::EndOfInput),
            Some(c) => {
                if is_digit(c) {
                    match self.integer() {
                        Ok(value) => Ok(Token::Integer(value)),
                        Err(e) => Err(e),
                    }
                } else if c == '+' {
                    self.advanve();
                    Ok(Token::Plus)
                } else if c == '-' {
                    self.advanve();
                    Ok(Token::Minus)
                } else {
                    Err(self.error())
                }
            },
        }
    }

    /// Where the token read last is of the same kind as `ttype`, reads the
    /// next one in its place; otherwise fails, naming the token found.
    pub fn eat(&mut self, ttype: Token) -> (r: Result<(), ParseError>)
        requires
            old(self).wf(),
        ensures
            final(self).wf(),
            final(self).chars() == old(self).chars(),
            same_kind(old(self).token(), ttype) ==> match lex(
                old(self).chars(),
                old(self).cursor(),
            ) {
                Ok((t, j)) => r == Ok::<(), ParseError>(()) && final(self).token() == t
                    && final(self).cursor() == j,
                Err(e) => r == Err::<(), ParseError>(e),
            },
            !same_kind(old(self).token(), ttype) ==> r == Err::<(), ParseError>(
                kind_error(ttype, old(self).token()),
            ) && *final(self) == *old(self),
    {
        let matches = match (self.current_token, ttype) {
            (Token::Integer(_), Token::Integer(_)) => true,
            (Token::Plus, Token::Plus) => true,
            (Token::Minus, Token::Minus) => true,
            (Token::EndOfInput, Token::EndOfInput) => true,
            _ => false,
        };
        if !matches {
            return Err(
                match ttype {
                    Token::Integer(_) => ParseError::ExpectedOperand { found: self.current_token },
                    _ => ParseError::ExpectedOperator { found: self.current_token },
                },
            );
        }
        match self.get_next_token() {
            Ok(t) => {
                self.current_token = t;
                Ok(())
            },
            Err(e) => Err(e),
        }
    }

    /// Evaluates `INTEGER (+|-) INTEGER` from the cursor on. After the right
    /// operand one more token is read, and whatever it is, it is ignored.
    /// The result is signed and wide enough for every sum and difference of
    /// two `u32`s.
    pub fn expr(&mut self) -> (r: Result<i64, ParseError>)
        requires
            old(self).wf(),
        ensures
            final(self).wf(),
            final(self).chars() == old(self).chars(),
            r == evaluate_from(old(self).chars(), old(self).cursor()),
    {
        match self.get_next_token() {
            Ok(t) => {
                self.current_token = t;
            },
            Err(e) => {
                return Err(e);
            },
        }
        let left = self.current_token;
        match self.eat(Token::Integer(0)) {
            Ok(()) => {},
            Err(e) => {
                return Err(e);
            },
        }
        let op = self.current_token;
        let eaten = match op {
            Token::Plus => self.eat(Token::Plus),
            Token::Minus => self.eat(Token::Minus),
            _ => {
                return Err(ParseError::ExpectedOperator { found: op });
            },
        };
        match eaten {
            Ok(()) => {},
            Err(e) => {
                return Err(e);
            },
        }
        let right = self.current_token;
        match self.eat(Token::Integer(0)) {
            Ok(()) => {},
            Err(e) => {
                return Err(e);
            },
        }
        let a = left.int_value() as i64;
        let b = right.int_value() as i64;
        match op {
            Token::Plus => Ok(a + b),
            _ => Ok(a - b),
        }
    }
}

} // verus!
