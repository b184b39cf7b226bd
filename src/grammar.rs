//! What a line means: the tokens read from a position, and the value of
//! the whole line, as functions on its characters.
use vstd::prelude::*;

use crate::chars::{digit_value, is_digit_char, is_space_char};
use crate::token::{ParseError, Token};

verus! {

/// The first position at or after `i` that holds no white space.
pub open spec fn skip_spaces(s: Seq<char>, i: nat) -> nat
    decreases s.len() - i,
{
    if i < s.len() && is_space_char(s[i as int]) {
        skip_spaces(s, i + 1)
    } else {
        i
    }
}

/// The first position at or after `i` that holds no decimal digit.
pub open spec fn digits_end(s: Seq<char>, i: nat) -> nat
    decreases s.len() - i,
{
    if i < s.len() && is_digit_char(s[i as int]) {
        digits_end(s, i + 1)
    } else {
        i
    }
}

/// The number that a run of decimal digits writes, most significant first.
pub open spec fn decimal_value(d: Seq<char>) -> nat
    decreases d.len(),
{
    if d.len() == 0 {
        0
    } else {
        decimal_value(d.drop_last()) * 10 + digit_value(d.last())
    }
}

/// The token read from position `i` of `s`, and the position after it.
/// White space before the token is passed over; at the end of `s` the token
/// is `EndOfInput` and the position stays where the white space ended.
pub open spec fn lex(s: Seq<char>, i: nat) -> Result<(Token, nat), ParseError> {
    let j = skip_spaces(s, i);
    if j >= s.len() {
        Ok((Token::EndOfInput, j))
    } else if is_digit_char(s[j as int]) {
        let k = digits_end(s, j);
        let v = decimal_value(s.subrange(j as int, k as int));
        if v <= u32::MAX {
            Ok((Token::Integer(v as u32), k))
        } else {
            Err(ParseError::MalformedNumber { pos: j as usize })
        }
    } else if s[j as int] == '+' {
        Ok((Token::Plus, j + 1))
    } else if s[j as int] == '-' {
        Ok((Token::Minus, j + 1))
    } else {
        Err(ParseError::UnexpectedCharacter { ch: s[j as int], pos: j as usize })
    }
}

/// Both tokens are of one variant; integer values are not compared.
pub open spec fn same_kind(a: Token, b: Token) -> bool {
    match (a, b) {
        (Token::Integer(_), Token::Integer(_)) => true,
        (Token::Plus, Token::Plus) => true,
        (Token::Minus, Token::Minus) => true,
        (Token::EndOfInput, Token::EndOfInput) => true,
        _ => false,
    }
}

/// The failure for `found` standing where a token like `expected` was
/// wanted: an operand where `expected` is an integer, an operator otherwise.
pub open spec fn kind_error(expected: Token, found: Token) -> ParseError {
    if expected is Integer {
        ParseError::ExpectedOperand { found }
    } else {
        ParseError::ExpectedOperator { found }
    }
}

/// The result of `a op b`, where `op` is `Plus` or `Minus`.
pub open spec fn apply(op: Token, a: u32, b: u32) -> i64 {
    if op is Plus {
        (a + b) as i64
    } else {
        (a - b) as i64
    }
}

/// The value of `INTEGER (+|-) INTEGER` read from position `i` of `s`.
/// Four tokens are read: the two operands, the operator, and one more, whose
/// kind is not looked at (a failure to read it still fails the line).
pub open spec fn evaluate_from(s: Seq<char>, i: nat) -> Result<i64, ParseError> {
    match lex(s, i) {
        Err(e) => Err(e),
        Ok((left, i1)) => if !(left is Integer) {
            Err(ParseError::ExpectedOperand { found: left })
        } else {
            match lex(s, i1) {
                Err(e) => Err(e),
                Ok((op, i2)) => if !(op is Plus || op is Minus) {
                    Err(ParseError::ExpectedOperator { found: op })
                } else {
                    match lex(s, i2) {
                        Err(e) => Err(e),
                        Ok((right, i3)) => if !(right is Integer) {
                            Err(ParseError::ExpectedOperand { found: right })
                        } else {
                            match lex(s, i3) {
                                Err(e) => Err(e),
                                Ok(_) => Ok(apply(op, left->Integer_0, right->Integer_0)),
                            }
                        }
                    }
                }
            }
        }
    }
}

/// The value of a whole line.
pub open spec fn evaluate(s: Seq<char>) -> Result<i64, ParseError> {
    evaluate_from(s, 0)
}

/// A run of digits is worth at least as much as any run it begins with.
pub proof fn lemma_decimal_value_prefix(d: Seq<char>, n: int)
    requires
        0 <= n <= d.len(),
    ensures
        decimal_value(d.take(n)) <= decimal_value(d),
    decreases d.len(),
{
    if n < d.len() {
        assert(d.drop_last().take(n) == d.take(n));
        lemma_decimal_value_prefix(d.drop_last(), n);
    } else {
        assert(d.take(n) == d);
    }
}

/// A run of digits from a position within `s` ends within `s`.
pub proof fn lemma_digits_end_bounds(s: Seq<char>, i: nat)
    requires
        i <= s.len(),
    ensures
        i <= digits_end(s, i) <= s.len(),
    decreases s.len() - i,
{
    if i < s.len() && is_digit_char(s[i as int]) {
        lemma_digits_end_bounds(s, i + 1);
    }
}

/// Where the digits of `s` from `start` to `p` are already worth more than a
/// `u32` holds, so is the whole run of digits from `start`.
pub proof fn lemma_run_overflows(s: Seq<char>, start: nat, p: nat)
    requires
        start <= p <= digits_end(s, start),
        start <= s.len(),
        decimal_value(s.subrange(start as int, p as int)) > u32::MAX,
    ensures
        decimal_value(s.subrange(start as int, digits_end(s, start) as int)) > u32::MAX,
{
    lemma_digits_end_bounds(s, start);
    let whole = s.subrange(start as int, digits_end(s, start) as int);
    assert(whole.take(p - start) == s.subrange(start as int, p as int));
    lemma_decimal_value_prefix(whole, p - start);
}

/// The decimal digit character for `d < 10`.
pub open spec fn digit_char(d: nat) -> char {
    if d == 0 {
        '0'
    } else if d == 1 {
        '1'
    } else if d == 2 {
        '2'
    } else if d == 3 {
        '3'
    } else if d == 4 {
        '4'
    } else if d == 5 {
        '5'
    } else if d == 6 {
        '6'
    } else if d == 7 {
        '7'
    } else if d == 8 {
        '8'
    } else {
        '9'
    }
}

/// The digit character for `d` is a digit, and is worth `d`.
pub proof fn lemma_digit_char(d: nat)
    requires
        d < 10,
    ensures
        is_digit_char(digit_char(d)),
        digit_value(digit_char(d)) == d,
{
}

/// `n` written in decimal, with no leading zero.
pub open spec fn decimal(n: nat) -> Seq<char>
    decreases n,
{
    if n < 10 {
        seq![digit_char(n)]
    } else {
        decimal(n / 10).push(digit_char(n % 10))
    }
}

/// The decimal writing of `n` is a nonempty run of digits worth `n`.
pub proof fn lemma_decimal(n: nat)
    ensures
        decimal(n).len() >= 1,
        forall|k: int| 0 <= k < decimal(n).len() ==> is_digit_char(#[trigger] decimal(n)[k]),
        decimal_value(decimal(n)) == n,
    decreases n,
{
    if n < 10 {
        lemma_digit_char(n);
        assert(decimal(n).drop_last() == Seq::<char>::empty());
        assert(decimal(n).last() == digit_char(n));
        assert(decimal_value(decimal(n)) == decimal_value(Seq::<char>::empty()) * 10
            + digit_value(digit_char(n)));
    } else {
        lemma_decimal(n / 10);
        lemma_digit_char(n % 10);
        assert(decimal(n).drop_last() == decimal(n / 10));
        assert(decimal(n).last() == digit_char(n % 10));
        assert((n / 10) * 10 + n % 10 == n) by (nonlinear_arith);
    }
}

/// A run of digits from `i` up to `m`, followed by the end of `s` or by a
/// character that is no digit, ends at `m`.
pub proof fn lemma_digits_end_at(s: Seq<char>, i: nat, m: nat)
    requires
        i <= m <= s.len(),
        forall|k: int| i <= k < m ==> is_digit_char(#[trigger] s[k]),
        m == s.len() || !is_digit_char(s[m as int]),
    ensures
        digits_end(s, i) == m,
    decreases m - i,
{
    if i < m {
        lemma_digits_end_at(s, i + 1, m);
    }
}

/// Where `s` holds the decimal writing of `n <= u32::MAX` from `i` on, with
/// no digit right after it, the token read from `i` is that integer.
pub proof fn lemma_lex_decimal(s: Seq<char>, i: nat, n: nat)
    requires
        n <= u32::MAX,
        i + decimal(n).len() <= s.len(),
        s.subrange(i as int, i + decimal(n).len() as int) == decimal(n),
        i + decimal(n).len() == s.len() || !is_digit_char(s[i + decimal(n).len() as int]),
    ensures
        lex(s, i) == Ok::<(Token, nat), ParseError>(
            (Token::Integer(n as u32), i + decimal(n).len()),
        ),
{
    let m = i + decimal(n).len();
    lemma_decimal(n);
    assert(s[i as int] == decimal(n)[0]);
    assert forall|k: int| i <= k < m implies is_digit_char(#[trigger] s[k]) by {
        assert(s[k] == decimal(n)[k - i]);
    }
    lemma_digits_end_at(s, i, m as nat);
}

/// At the end of the line, reading again gives `EndOfInput` again, from the
/// same position.
pub proof fn lemma_end_of_input_stays(s: Seq<char>, i: nat)
    requires
        lex(s, i) matches Ok((Token::EndOfInput, _)),
    ensures
        lex(s, i)->Ok_0.1 >= s.len(),
        lex(s, lex(s, i)->Ok_0.1) == lex(s, i),
{
}

/// A line that writes two `u32`s in decimal with `+` between them evaluates
/// to their sum; with `-` between them, to their difference, which is
/// negative where the right one is the larger.
pub proof fn lemma_sum_and_difference(a: u32, b: u32)
    ensures
        evaluate(decimal(a as nat) + seq!['+'] + decimal(b as nat)) == Ok::<i64, ParseError>(
            (a + b) as i64,
        ),
        (a + b) as i64 == a + b,
        evaluate(decimal(a as nat) + seq!['-'] + decimal(b as nat)) == Ok::<i64, ParseError>(
            (a - b) as i64,
        ),
        (a - b) as i64 == a - b,
{
    let da = decimal(a as nat);
    let db = decimal(b as nat);
    lemma_decimal(a as nat);
    lemma_decimal(b as nat);
    let plus = da + seq!['+'] + db;
    let minus = da + seq!['-'] + db;
    assert(plus.subrange(0, da.len() as int) == da);
    assert(minus.subrange(0, da.len() as int) == da);
    assert(plus.subrange(da.len() + 1 as int, plus.len() as int) == db);
    assert(minus.subrange(da.len() + 1 as int, minus.len() as int) == db);
    assert(plus[da.len() as int] == '+');
    assert(minus[da.len() as int] == '-');
    lemma_lex_decimal(plus, 0, a as nat);
    lemma_lex_decimal(minus, 0, a as nat);
    lemma_lex_decimal(plus, da.len() + 1, b as nat);
    lemma_lex_decimal(minus, da.len() + 1, b as nat);
}

} // verus!
