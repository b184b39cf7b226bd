use calc_interpreter::interpreter::Interpreter;
use calc_interpreter::token::{ParseError, Token};

fn eval(text: &str) -> Result<i64, ParseError> {
    Interpreter::new(text.to_string()).expr()
}

#[test]
fn interpreter() {
    let mut interpreter = Interpreter::new("345  +  432".to_string());
    assert_eq!(interpreter.expr(), Ok(345 + 432));
}

#[test]
fn interpreter_02() {
    let mut interpreter = Interpreter::new("123  -  73".to_string());
    assert_eq!(interpreter.expr(), Ok(123 - 73));
}

#[test]
fn sums_and_differences_of_decimals() {
    assert_eq!(eval("0+0"), Ok(0));
    assert_eq!(eval("17+25"), Ok(42));
    assert_eq!(eval("100-100"), Ok(0));
    assert_eq!(eval("4294967295+4294967295"), Ok(8589934590));
    assert_eq!(eval("4294967295-0"), Ok(4294967295));
}

#[test]
fn difference_below_zero_is_negative() {
    assert_eq!(eval("3-9"), Ok(-6));
    assert_eq!(eval("0-4294967295"), Ok(-4294967295));
}

#[test]
fn white_space_is_passed_over() {
    assert_eq!(eval("5+2"), Ok(7));
    assert_eq!(eval(" 5 + 2 "), Ok(7));
    assert_eq!(eval("5  +  2"), Ok(7));
    assert_eq!(eval("\t5\n+\r2\n"), Ok(7));
    assert_eq!(eval("5\u{3000}+\u{a0}2"), Ok(7));
}

#[test]
fn tokens_after_the_right_operand_are_ignored() {
    assert_eq!(eval("5+2+9"), Ok(7));
    assert_eq!(eval("5+2 9"), Ok(7));
    assert_eq!(eval("5-2-"), Ok(3));
}

#[test]
fn a_bad_fourth_token_fails_the_line() {
    assert_eq!(
        eval("5+2*"),
        Err(ParseError::UnexpectedCharacter { ch: '*', pos: 3 })
    );
    assert_eq!(
        eval("5+2 99999999999"),
        Err(ParseError::MalformedNumber { pos: 4 })
    );
}

#[test]
fn malformed_lines_fail() {
    assert_eq!(
        eval("+5"),
        Err(ParseError::ExpectedOperand { found: Token::Plus })
    );
    assert_eq!(
        eval("5+"),
        Err(ParseError::ExpectedOperand { found: Token::EndOfInput })
    );
    assert_eq!(
        eval("5*2"),
        Err(ParseError::UnexpectedCharacter { ch: '*', pos: 1 })
    );
    assert_eq!(
        eval(""),
        Err(ParseError::ExpectedOperand { found: Token::EndOfInput })
    );
}

#[test]
fn missing_operator_fails() {
    assert_eq!(
        eval("5 5"),
        Err(ParseError::ExpectedOperator { found: Token::Integer(5) })
    );
    assert_eq!(
        eval("5"),
        Err(ParseError::ExpectedOperator { found: Token::EndOfInput })
    );
    assert_eq!(
        eval("   "),
        Err(ParseError::ExpectedOperand { found: Token::EndOfInput })
    );
}

#[test]
fn nul_is_an_unexpected_character() {
    assert_eq!(
        eval("5\u{0}+2"),
        Err(ParseError::UnexpectedCharacter { ch: '\u{0}', pos: 1 })
    );
    assert_eq!(
        eval("5+x"),
        Err(ParseError::UnexpectedCharacter { ch: 'x', pos: 2 })
    );
}

#[test]
fn end_of_input_repeats() {
    let mut lexer = Interpreter::new(" 7 ".to_string());
    assert_eq!(lexer.get_next_token(), Ok(Token::Integer(7)));
    for _ in 0..5 {
        assert_eq!(lexer.get_next_token(), Ok(Token::EndOfInput));
    }
    let mut empty = Interpreter::new(String::new());
    for _ in 0..3 {
        assert_eq!(empty.get_next_token(), Ok(Token::EndOfInput));
    }
}

#[test]
fn largest_operand_round_trips() {
    assert_eq!(eval("4294967295+0"), Ok(4294967295));
    assert_eq!(eval("0+4294967295"), Ok(4294967295));
}

#[test]
fn operand_beyond_the_largest_is_malformed() {
    assert_eq!(
        eval("4294967296+0"),
        Err(ParseError::MalformedNumber { pos: 0 })
    );
    assert_eq!(
        eval("0 + 4294967296"),
        Err(ParseError::MalformedNumber { pos: 4 })
    );
    assert_eq!(
        eval("99999999999999999999+1"),
        Err(ParseError::MalformedNumber { pos: 0 })
    );
}

#[test]
fn leading_zeros_are_read() {
    assert_eq!(eval("007+1"), Ok(8));
    assert_eq!(eval("00000000004294967295+0"), Ok(4294967295));
}

#[test]
fn tokens_are_read_one_by_one() {
    let mut lexer = Interpreter::new("12 +-  345".to_string());
    assert_eq!(lexer.get_next_token(), Ok(Token::Integer(12)));
    assert_eq!(lexer.get_next_token(), Ok(Token::Plus));
    assert_eq!(lexer.get_next_token(), Ok(Token::Minus));
    assert_eq!(lexer.get_next_token(), Ok(Token::Integer(345)));
    assert_eq!(lexer.get_next_token(), Ok(Token::EndOfInput));
}

#[test]
fn cursor_moves_and_stops_at_the_end() {
    let mut lexer = Interpreter::new("  9x".to_string());
    lexer.skip_white_space();
    assert_eq!(lexer.integer(), Ok(9));
    assert_eq!(
        lexer.error(),
        ParseError::UnexpectedCharacter { ch: 'x', pos: 3 }
    );
    lexer.advanve();
    lexer.advanve();
    lexer.advanve();
    assert_eq!(lexer.get_next_token(), Ok(Token::EndOfInput));
}

#[test]
fn integer_reports_overflow() {
    let mut lexer = Interpreter::new("12345678901".to_string());
    assert_eq!(lexer.integer(), Err(ParseError::MalformedNumber { pos: 0 }));
}

#[test]
fn eat_checks_the_kind_of_the_last_token() {
    let mut lexer = Interpreter::new("+ 4".to_string());
    assert_eq!(
        lexer.eat(Token::Integer(0)),
        Err(ParseError::ExpectedOperand { found: Token::EndOfInput })
    );
    assert_eq!(lexer.eat(Token::EndOfInput), Ok(()));
    assert_eq!(
        lexer.eat(Token::Integer(0)),
        Err(ParseError::ExpectedOperand { found: Token::Plus })
    );
    assert_eq!(
        lexer.eat(Token::Minus),
        Err(ParseError::ExpectedOperator { found: Token::Plus })
    );
    assert_eq!(lexer.eat(Token::Plus), Ok(()));
    assert_eq!(lexer.eat(Token::Integer(0)), Ok(()));
}

#[test]
fn int_value_of_an_integer_token() {
    assert_eq!(Token::Integer(42).int_value(), 42);
    assert_eq!(Token::Integer(u32::MAX).int_value(), u32::MAX);
}
