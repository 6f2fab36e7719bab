//! How tokens, values and types are written in error messages.
//!
//! Text and characters are written as std's `Debug` writes them, quoted
//! and escaped; that rendering is std's own and is known here by name.

use vstd::prelude::*;
use crate::lexer::{Token, TokenView};
use crate::parser::{Value, ValueView, VarType};

verus! {

/// `s` as `Debug` writes a string: between double quotes, with escapes.
pub uninterp spec fn debug_text(s: Seq<char>) -> Seq<char>;

/// `c` as `Debug` writes a character: between single quotes, with escapes.
pub uninterp spec fn debug_char(c: char) -> Seq<char>;

/// `<str as Debug>::fmt`, through `format!`: the rendering depends on the
/// characters of the string alone.
#[verifier::external_body]
fn quote_text(s: &str) -> (r: String)
    ensures
        r@ == debug_text(s@),
{
    format!("{:?}", s)
}

/// `<char as Debug>::fmt`, through `format!`: the rendering depends on the
/// character alone.
#[verifier::external_body]
fn quote_char(c: char) -> (r: String)
    ensures
        r@ == debug_char(c),
{
    format!("{:?}", c)
}

/// The character that writes the digit `d`.
pub open spec fn digit_char(d: int) -> char {
    ('0' as int + d) as char
}

/// A natural number in decimal digits, without leading zeros.
pub open spec fn decimal_digits(n: nat) -> Seq<char>
    decreases n,
{
    if n < 10 {
        seq![digit_char(n as int)]
    } else {
        decimal_digits(n / 10).push(digit_char((n % 10) as int))
    }
}

/// An integer in decimal digits, with a minus sign if it is negative.
pub open spec fn decimal_text(n: int) -> Seq<char> {
    if n < 0 {
        seq!['-'] + decimal_digits((-n) as nat)
    } else {
        decimal_digits(n as nat)
    }
}

/// Writes `n` in decimal digits at the end of `text`.
pub fn push_decimal(text: &mut String, n: u64)
    ensures
        final(text)@ == old(text)@ + decimal_digits(n as nat),
    decreases n,
{
    if n >= 10 {
        push_decimal(text, n / 10);
    }
    let digit = (n % 10) as u8;
    let c = if digit == 0 {
        '0'
    } else if digit == 1 {
        '1'
    } else if digit == 2 {
        '2'
    } else if digit == 3 {
        '3'
    } else if digit == 4 {
        '4'
    } else if digit == 5 {
        '5'
    } else if digit == 6 {
        '6'
    } else if digit == 7 {
        '7'
    } else if digit == 8 {
        '8'
    } else {
        '9'
    };
    assert(c == digit_char((n % 10) as int));
    text.push(c);
    assert(text@ =~= old(text)@ + decimal_digits(n as nat));
}

/// Writes `n` in decimal at the end of `text`.
pub fn push_integer(text: &mut String, n: i64)
    ensures
        final(text)@ == old(text)@ + decimal_text(n as int),
{
    if n < 0 {
        text.push('-');
        push_decimal(text, (-(n as i128)) as u64);
        assert(text@ =~= old(text)@ + decimal_text(n as int));
    } else {
        push_decimal(text, n as u64);
    }
}

/// A token as it is written in messages: the name of its kind and, in
/// brackets, what it holds.
pub open spec fn token_debug(token: TokenView) -> Seq<char> {
    match token {
        TokenView::Ident(name) => "Ident("@ + debug_text(name) + ")"@,
        TokenView::StringLiteral(value) => "StringLiteral("@ + debug_text(value) + ")"@,
        TokenView::NumberLiteral(text) => "NumberLiteral("@ + debug_text(text) + ")"@,
        TokenView::LParen => "LParen"@,
        TokenView::RParen => "RParen"@,
        TokenView::Semicolon => "Semicolon"@,
        TokenView::Equals => "Equals"@,
        TokenView::EOF => "EOF"@,
        TokenView::Illegal(c) => "Illegal("@ + debug_char(c) + ")"@,
        TokenView::StringType => "StringType"@,
        TokenView::IntegerType => "IntegerType"@,
        TokenView::FloatType => "FloatType"@,
        TokenView::BooleanType => "BooleanType"@,
        TokenView::True => "True"@,
        TokenView::False => "False"@,
    }
}

/// A declared type as it is written in messages: its name.
pub open spec fn var_type_debug(var_type: VarType) -> Seq<char> {
    match var_type {
        VarType::String => "String"@,
        VarType::Integer => "Integer"@,
        VarType::Float => "Float"@,
        VarType::Boolean => "Boolean"@,
    }
}

/// A value as it is written in messages: the name of its kind and, in
/// brackets, the value; a fraction as its literal writes it.
pub open spec fn value_debug(value: ValueView) -> Seq<char> {
    match value {
        ValueView::String(text) => "String("@ + debug_text(text) + ")"@,
        ValueView::Integer(number) => "Integer("@ + decimal_text(number) + ")"@,
        ValueView::Float(text) => "Float("@ + text + ")"@,
        ValueView::Boolean(truth) => if truth {
            "Boolean(true)"@
        } else {
            "Boolean(false)"@
        },
    }
}

/// Writes `token` at the end of `text`, as [`token_debug`] says.
pub fn push_token(text: &mut String, token: &Token)
    ensures
        final(text)@ == old(text)@ + token_debug(token@),
{
    match token {
        Token::Ident(name) => {
            text.append("Ident(");
            text.append(quote_text(name.as_str()).as_str());
            text.append(")");
            assert(text@ =~= old(text)@ + token_debug(token@));
        },
        Token::StringLiteral(value) => {
            text.append("StringLiteral(");
            text.append(quote_text(value.as_str()).as_str());
            text.append(")");
            assert(text@ =~= old(text)@ + token_debug(token@));
        },
        Token::NumberLiteral(number) => {
            text.append("NumberLiteral(");
            text.append(quote_text(number.as_str()).as_str());
            text.append(")");
            assert(text@ =~= old(text)@ + token_debug(token@));
        },
        Token::LParen => text.append("LParen"),
        Token::RParen => text.append("RParen"),
        Token::Semicolon => text.append("Semicolon"),
        Token::Equals => text.append("Equals"),
        Token::EOF => text.append("EOF"),
        Token::Illegal(c) => {
            text.append("Illegal(");
            text.append(quote_char(*c).as_str());
            text.append(")");
            assert(text@ =~= old(text)@ + token_debug(token@));
        },
        Token::StringType => text.append("StringType"),
        Token::IntegerType => text.append("IntegerType"),
        Token::FloatType => text.append("FloatType"),
        Token::BooleanType => text.append("BooleanType"),
        Token::True => text.append("True"),
        Token::False => text.append("False"),
    }
}

/// Writes `var_type` at the end of `text`, as [`var_type_debug`] says.
pub fn push_var_type(text: &mut String, var_type: VarType)
    ensures
        final(text)@ == old(text)@ + var_type_debug(var_type),
{
    match var_type {
        VarType::String => text.append("String"),
        VarType::Integer => text.append("Integer"),
        VarType::Float => text.append("Float"),
        VarType::Boolean => text.append("Boolean"),
    }
}

/// Writes `value` at the end of `text`, as [`value_debug`] says.
pub fn push_value(text: &mut String, value: &Value)
    ensures
        final(text)@ == old(text)@ + value_debug(value@),
{
    match value {
        Value::String(s) => {
            text.append("String(");
            text.append(quote_text(s.as_str()).as_str());
            text.append(")");
            assert(text@ =~= old(text)@ + value_debug(value@));
        },
        Value::Integer(number) => {
            text.append("Integer(");
            push_integer(text, *number);
            text.append(")");
            assert(text@ =~= old(text)@ + value_debug(value@));
        },
        Value::Float(literal) => {
            text.append("Float(");
            text.append(literal.as_str());
            text.append(")");
            assert(text@ =~= old(text)@ + value_debug(value@));
        },
        Value::Boolean(truth) => {
            if *truth {
                text.append("Boolean(true)");
            } else {
                text.append("Boolean(false)");
            }
        },
    }
}

} // verus!
