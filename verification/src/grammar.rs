//! The grammar, as functions on the token sequence.
//!
//! Every function reads the tokens from a position on and says what the
//! parser finds there and how many tokens it takes, whether it succeeds
//! or fails.  Parsing looks one token ahead and never goes back.

use vstd::prelude::*;
use crate::lexer::TokenView;
use crate::number::{fraction_literal, integer_literal};
use crate::parser::{BinOp, ExprView, ParseErrorKind, ParseFailure, StmtView, ValueView, VarType};
use crate::render::{token_debug, value_debug, var_type_debug};

verus! {

/// What the parser finds at a position: a result or the error, and the
/// number of tokens that it took on the way.
pub struct Parsed<T> {
    pub result: Result<T, ParseFailure>,
    pub used: nat,
}

impl<T> Parsed<T> {
    /// The same outcome behind `before` tokens that were taken first.
    pub open spec fn behind(self, before: nat) -> Parsed<T> {
        Parsed { result: self.result, used: before + self.used }
    }
}

/// Success with `value`, after `used` tokens.
pub open spec fn found<T>(value: T, used: nat) -> Parsed<T> {
    Parsed { result: Ok(value), used }
}

/// The error of `kind` that says `message`, after `used` tokens.
pub open spec fn failed<T>(kind: ParseErrorKind, message: Seq<char>, used: nat) -> Parsed<T> {
    Parsed { result: Err(ParseFailure { kind, message }), used }
}

/// The token at `at`, if there is one.
pub open spec fn token_at(ts: Seq<TokenView>, at: int) -> Option<TokenView> {
    if 0 <= at < ts.len() {
        Some(ts[at])
    } else {
        None
    }
}

/// The number of tokens that taking the token at `at` uses: one, or
/// none behind the last token.
pub open spec fn taken(ts: Seq<TokenView>, at: int) -> nat {
    if 0 <= at < ts.len() {
        1
    } else {
        0
    }
}

/// Whether two tokens are of the same kind, whatever they hold.
pub open spec fn same_kind(a: TokenView, b: TokenView) -> bool {
    match (a, b) {
        (TokenView::Ident(_), TokenView::Ident(_)) => true,
        (TokenView::StringLiteral(_), TokenView::StringLiteral(_)) => true,
        (TokenView::NumberLiteral(_), TokenView::NumberLiteral(_)) => true,
        (TokenView::LParen, TokenView::LParen) => true,
        (TokenView::RParen, TokenView::RParen) => true,
        (TokenView::Semicolon, TokenView::Semicolon) => true,
        (TokenView::Equals, TokenView::Equals) => true,
        (TokenView::EOF, TokenView::EOF) => true,
        (TokenView::Illegal(_), TokenView::Illegal(_)) => true,
        (TokenView::StringType, TokenView::StringType) => true,
        (TokenView::IntegerType, TokenView::IntegerType) => true,
        (TokenView::FloatType, TokenView::FloatType) => true,
        (TokenView::BooleanType, TokenView::BooleanType) => true,
        (TokenView::True, TokenView::True) => true,
        (TokenView::False, TokenView::False) => true,
        _ => false,
    }
}

/// Whether a token is the addition operator.  The scanner has no token
/// of its own for `+`: it hands the character on as one that begins no
/// token, and the parser knows it by that.
pub open spec fn is_plus(token: TokenView) -> bool {
    token == TokenView::Illegal('+')
}

/// Whether an addition operator stands at `at`.
pub open spec fn plus_at(ts: Seq<TokenView>, at: int) -> bool {
    token_at(ts, at) matches Some(token) && is_plus(token)
}

/// The declared type that a keyword names.
pub open spec fn type_of_keyword(token: TokenView) -> Option<VarType> {
    match token {
        TokenView::StringType => Some(VarType::String),
        TokenView::IntegerType => Some(VarType::Integer),
        TokenView::FloatType => Some(VarType::Float),
        TokenView::BooleanType => Some(VarType::Boolean),
        _ => None,
    }
}

/// The name of the one builtin.
pub open spec fn builtin_name() -> Seq<char> {
    "echo"@
}

/// A required token of the kind of `expected`: the token at `at` is
/// taken, and must be of that kind.
pub open spec fn expect(ts: Seq<TokenView>, at: int, expected: TokenView) -> Parsed<()> {
    match token_at(ts, at) {
        Some(token) => if same_kind(token, expected) {
            found((), 1)
        } else {
            failed(
                ParseErrorKind::MissingToken,
                "Expected "@ + token_debug(expected) + ", got "@ + token_debug(token),
                1,
            )
        },
        None => failed(
            ParseErrorKind::MissingToken,
            "Expected "@ + token_debug(expected) + ", but no more tokens"@,
            0,
        ),
    }
}

/// A declared type: one of the four type keywords.
pub open spec fn declared_type(ts: Seq<TokenView>, at: int) -> Parsed<VarType> {
    match token_at(ts, at) {
        Some(token) => match type_of_keyword(token) {
            Some(var_type) => found(var_type, 1),
            None => failed(
                ParseErrorKind::MissingToken,
                "Expected type, got "@ + token_debug(token),
                1,
            ),
        },
        None => failed(ParseErrorKind::MissingToken, "Expected type"@, 0),
    }
}

/// The value of a numeric literal.  With a dot in it the text is a
/// fraction, and must be written as one; without, it is an integer, and
/// must be one that 64 bits can hold.
pub open spec fn number(text: Seq<char>) -> Result<ValueView, ParseFailure> {
    if text.contains('.') {
        if fraction_literal(text) {
            Ok(ValueView::Float(text))
        } else {
            Err(
                ParseFailure {
                    kind: ParseErrorKind::InvalidNumber,
                    message: "Invalid float literal: "@ + text,
                },
            )
        }
    } else {
        match integer_literal(text) {
            Some(value) => Ok(ValueView::Integer(value)),
            None => Err(
                ParseFailure {
                    kind: ParseErrorKind::InvalidNumber,
                    message: "Invalid integer literal: "@ + text,
                },
            ),
        }
    }
}

/// The value of a token that is a literal: a string, a number, `true`
/// or `false`.  A number may fail to have one.
pub open spec fn value_of(token: TokenView) -> Option<Result<ValueView, ParseFailure>> {
    match token {
        TokenView::StringLiteral(value) => Some(Ok(ValueView::String(value))),
        TokenView::NumberLiteral(text) => Some(number(text)),
        TokenView::True => Some(Ok(ValueView::Boolean(true))),
        TokenView::False => Some(Ok(ValueView::Boolean(false))),
        _ => None,
    }
}

/// A literal: the token at `at` is taken, and must be one.
pub open spec fn literal(ts: Seq<TokenView>, at: int) -> Parsed<ValueView> {
    match token_at(ts, at) {
        Some(token) => match value_of(token) {
            Some(result) => Parsed { result, used: 1 },
            None => failed(
                ParseErrorKind::MissingToken,
                "Expected value, got "@ + token_debug(token),
                1,
            ),
        },
        None => failed(ParseErrorKind::MissingToken, "Expected value"@, 0),
    }
}

/// `right` alone, or added to what stands on its left.
pub open spec fn join(left: Option<ExprView>, right: ExprView) -> ExprView {
    match left {
        None => right,
        Some(left) => ExprView::BinaryOp {
            left: Box::new(left),
            op: BinOp::Add,
            right: Box::new(right),
        },
    }
}

/// A primary expression: a literal, a variable, or an expression in
/// parentheses.
pub open spec fn primary(ts: Seq<TokenView>, at: int) -> Parsed<ExprView>
    decreases ts.len() - at, 0int,
{
    match token_at(ts, at) {
        Some(TokenView::Ident(name)) => found(ExprView::Variable(name), 1),
        Some(TokenView::LParen) => {
            let inner = sum(ts, None, at + 1);
            let close = expect(ts, at + 1 + inner.used, TokenView::RParen);
            match inner.result {
                Err(failure) => Parsed { result: Err(failure), used: 1 + inner.used },
                Ok(expr) => match close.result {
                    Err(failure) => Parsed {
                        result: Err(failure),
                        used: 1 + inner.used + close.used,
                    },
                    Ok(_) => found(expr, 1 + inner.used + close.used),
                },
            }
        },
        Some(token) => match value_of(token) {
            Some(Ok(value)) => found(ExprView::Literal(value), 1),
            Some(Err(failure)) => Parsed { result: Err(failure), used: 1 },
            None => failed(ParseErrorKind::MissingToken, "Expected expression"@, 0),
        },
        None => failed(ParseErrorKind::MissingToken, "Expected expression"@, 0),
    }
}

/// The primary expressions from `at` on that addition operators join,
/// added one by one to `left`: of `a + b + c`, first `a`, then `a + b`,
/// then `(a + b) + c`.
pub open spec fn sum(ts: Seq<TokenView>, left: Option<ExprView>, at: int) -> Parsed<ExprView>
    decreases ts.len() - at, 1int,
{
    let operand = primary(ts, at);
    match operand.result {
        Err(failure) => Parsed { result: Err(failure), used: operand.used },
        Ok(right) => if plus_at(ts, at + operand.used) && 0 <= at {
            sum(ts, Some(join(left, right)), at + operand.used + 1).behind(operand.used + 1)
        } else {
            found(join(left, right), operand.used)
        },
    }
}

/// An expression: primary expressions joined by addition operators,
/// grouped from the left.
pub open spec fn expression(ts: Seq<TokenView>, at: int) -> Parsed<ExprView> {
    sum(ts, None, at)
}

/// The message of a literal that is not of the declared type.
pub open spec fn mismatch_message(value: ValueView, declared: VarType) -> Seq<char> {
    "Type mismatch: cannot assign "@ + value_debug(value) + " to "@ + var_type_debug(declared)
}

/// The end of a declaration of `name` as `declared`: a literal, which must
/// be of the declared type as it stands, and `;`.
pub open spec fn initializer(
    ts: Seq<TokenView>,
    at: int,
    declared: VarType,
    name: Seq<char>,
) -> Parsed<StmtView> {
    let value = literal(ts, at);
    let semicolon = expect(ts, at + value.used, TokenView::Semicolon);
    match value.result {
        Err(failure) => Parsed { result: Err(failure), used: value.used },
        Ok(value_found) => if value_found.var_type() != declared {
            failed(ParseErrorKind::TypeMismatch, mismatch_message(value_found, declared), value.used)
        } else {
            match semicolon.result {
                Err(failure) => Parsed { result: Err(failure), used: value.used + semicolon.used },
                Ok(_) => found(
                    StmtView::Declaration { var_type: declared, name, value: value_found },
                    value.used + semicolon.used,
                ),
            }
        },
    }
}

/// A declaration behind its type keyword: a name, `=`, and the rest.
pub open spec fn declarator(ts: Seq<TokenView>, at: int, declared: VarType) -> Parsed<StmtView> {
    match token_at(ts, at) {
        Some(TokenView::Ident(name)) => {
            let equals = expect(ts, at + 1, TokenView::Equals);
            match equals.result {
                Err(failure) => Parsed { result: Err(failure), used: 1 + equals.used },
                Ok(_) => initializer(ts, at + 1 + equals.used, declared, name).behind(
                    1 + equals.used,
                ),
            }
        },
        Some(token) => failed(
            ParseErrorKind::MissingToken,
            "Expected variable name, got "@ + token_debug(token),
            1,
        ),
        None => failed(ParseErrorKind::MissingToken, "Expected variable name"@, 0),
    }
}

/// A declaration: a type, a name, `=`, a literal of that type, `;`.
pub open spec fn declaration(ts: Seq<TokenView>, at: int) -> Parsed<StmtView> {
    let var_type = declared_type(ts, at);
    match var_type.result {
        Err(failure) => Parsed { result: Err(failure), used: var_type.used },
        Ok(declared) => declarator(ts, at + var_type.used, declared).behind(var_type.used),
    }
}

/// The end of a call of `name` with `args`: `)` and `;`.
pub open spec fn call_end(
    ts: Seq<TokenView>,
    at: int,
    name: Seq<char>,
    args: Seq<ExprView>,
) -> Parsed<ExprView> {
    let close = expect(ts, at, TokenView::RParen);
    let semicolon = expect(ts, at + close.used, TokenView::Semicolon);
    match close.result {
        Err(failure) => Parsed { result: Err(failure), used: close.used },
        Ok(_) => match semicolon.result {
            Err(failure) => Parsed { result: Err(failure), used: close.used + semicolon.used },
            Ok(_) => found(ExprView::Call { name, args }, close.used + semicolon.used),
        },
    }
}

/// A call of `name`, behind the name: `(`, no argument or one expression,
/// `)` and `;`.
pub open spec fn call(ts: Seq<TokenView>, at: int, name: Seq<char>) -> Parsed<ExprView> {
    let open = expect(ts, at, TokenView::LParen);
    let args_at = at + open.used;
    let argument = expression(ts, args_at);
    match open.result {
        Err(failure) => Parsed { result: Err(failure), used: open.used },
        Ok(_) => if token_at(ts, args_at) == Some(TokenView::RParen) {
            call_end(ts, args_at, name, Seq::empty()).behind(open.used)
        } else {
            match argument.result {
                Err(failure) => Parsed { result: Err(failure), used: open.used + argument.used },
                Ok(expr) => call_end(ts, args_at + argument.used, name, seq![expr]).behind(
                    open.used + argument.used,
                ),
            }
        },
    }
}

/// The statement at `at`, which `first` begins: a declaration behind a
/// type keyword, a call behind the builtin's name.  Nothing else begins
/// a statement.
pub open spec fn statement(ts: Seq<TokenView>, at: int, first: TokenView) -> Parsed<StmtView> {
    match first {
        TokenView::Ident(name) => if name == builtin_name() {
            let called = call(ts, at + 1, name);
            match called.result {
                Ok(expr) => found(StmtView::Expression(expr), 1 + called.used),
                Err(failure) => Parsed { result: Err(failure), used: 1 + called.used },
            }
        } else {
            failed(ParseErrorKind::UnknownName, "Unknown function or variable: "@ + name, 1)
        },
        TokenView::Illegal(c) => failed(
            ParseErrorKind::UnexpectedToken,
            "Invalid character: '"@.push(c).push('\''),
            0,
        ),
        _ => if type_of_keyword(first) is Some {
            declaration(ts, at)
        } else {
            failed(ParseErrorKind::UnexpectedToken, "Unexpected token: "@ + token_debug(first), 1)
        },
    }
}

/// Whether the statements end at `at`: at the end-of-input token, or
/// behind the last token.
pub open spec fn at_end(ts: Seq<TokenView>, at: int) -> bool {
    token_at(ts, at) is None || token_at(ts, at) == Some(TokenView::EOF)
}

/// The outcome `rest` of the statements that follow `front`, which took
/// `used` tokens.
pub open spec fn following(front: Seq<StmtView>, used: nat, rest: Parsed<Seq<StmtView>>) -> Parsed<
    Seq<StmtView>,
> {
    Parsed {
        result: match rest.result {
            Ok(stmts) => Ok(front + stmts),
            Err(failure) => Err(failure),
        },
        used: used + rest.used,
    }
}

/// The statements from `at` on, up to the end of the input or to the
/// first error.
pub open spec fn program(ts: Seq<TokenView>, at: int) -> Parsed<Seq<StmtView>>
    decreases ts.len() - at,
{
    if at_end(ts, at) {
        found(Seq::empty(), 0)
    } else {
        let first = statement(ts, at, ts[at]);
        match first.result {
            Err(failure) => Parsed { result: Err(failure), used: first.used },
            Ok(stmt) => {
                proof {
                    lemma_statement_used(ts, at);
                }
                following(seq![stmt], first.used, program(ts, at + first.used))
            },
        }
    }
}

/// A primary expression and a sum stay within the tokens, and take at
/// least one token where they succeed.
pub proof fn lemma_primary_used(ts: Seq<TokenView>, at: int)
    requires
        0 <= at <= ts.len(),
    ensures
        at + primary(ts, at).used <= ts.len(),
        primary(ts, at).result is Ok ==> primary(ts, at).used >= 1,
    decreases ts.len() - at, 0int,
{
    if token_at(ts, at) == Some(TokenView::LParen) {
        lemma_sum_used(ts, None, at + 1);
    }
}

/// See [`lemma_primary_used`].
pub proof fn lemma_sum_used(ts: Seq<TokenView>, left: Option<ExprView>, at: int)
    requires
        0 <= at <= ts.len(),
    ensures
        at + sum(ts, left, at).used <= ts.len(),
        sum(ts, left, at).result is Ok ==> sum(ts, left, at).used >= 1,
    decreases ts.len() - at, 1int,
{
    lemma_primary_used(ts, at);
    let operand = primary(ts, at);
    if let Ok(right) = operand.result {
        if plus_at(ts, at + operand.used) {
            lemma_sum_used(ts, Some(join(left, right)), at + operand.used + 1);
        }
    }
}

/// A call stays within the tokens.
pub proof fn lemma_call_used(ts: Seq<TokenView>, at: int, name: Seq<char>)
    requires
        0 <= at <= ts.len(),
    ensures
        at + call(ts, at, name).used <= ts.len(),
{
    let open = expect(ts, at, TokenView::LParen);
    lemma_sum_used(ts, None, at + open.used);
}

/// A statement stays within the tokens, and takes at least one token
/// where it succeeds.
pub proof fn lemma_statement_used(ts: Seq<TokenView>, at: int)
    requires
        0 <= at < ts.len(),
    ensures
        at + statement(ts, at, ts[at]).used <= ts.len(),
        statement(ts, at, ts[at]).result is Ok ==> statement(ts, at, ts[at]).used >= 1,
{
    lemma_call_used(ts, at + 1, builtin_name());
}

/// A number that a literal writes is a value that a literal can have.
pub proof fn lemma_number_wf(text: Seq<char>)
    ensures
        number(text) matches Ok(value) ==> value.wf(),
{
}

/// Every literal in a primary expression has a value that a literal can
/// have; so in a sum, if that holds of what stands on its left.
pub proof fn lemma_primary_wf(ts: Seq<TokenView>, at: int)
    ensures
        primary(ts, at).result matches Ok(expr) ==> expr.wf(),
    decreases ts.len() - at, 0int,
{
    match token_at(ts, at) {
        Some(TokenView::LParen) => {
            lemma_sum_wf(ts, None, at + 1);
        },
        Some(TokenView::NumberLiteral(text)) => {
            lemma_number_wf(text);
        },
        _ => {},
    }
}

/// See [`lemma_primary_wf`].
pub proof fn lemma_sum_wf(ts: Seq<TokenView>, left: Option<ExprView>, at: int)
    requires
        left matches Some(expr) ==> expr.wf(),
    ensures
        sum(ts, left, at).result matches Ok(expr) ==> expr.wf(),
    decreases ts.len() - at, 1int,
{
    lemma_primary_wf(ts, at);
    let operand = primary(ts, at);
    if let Ok(right) = operand.result {
        if plus_at(ts, at + operand.used) && 0 <= at {
            lemma_sum_wf(ts, Some(join(left, right)), at + operand.used + 1);
        }
    }
}

/// A statement that parses is well typed.
pub proof fn lemma_statement_wf(ts: Seq<TokenView>, at: int, first: TokenView)
    ensures
        statement(ts, at, first).result matches Ok(stmt) ==> stmt.wf(),
{
    match first {
        TokenView::Ident(name) => {
            let open = expect(ts, at + 1, TokenView::LParen);
            lemma_sum_wf(ts, None, at + 1 + open.used);
        },
        _ => {
            if let Some(declared) = type_of_keyword(first) {
                let var_type = declared_type(ts, at);
                let name_at = at + var_type.used;
                let equals = expect(ts, name_at + 1, TokenView::Equals);
                if let Some(TokenView::NumberLiteral(text)) = token_at(
                    ts,
                    name_at + 1 + equals.used,
                ) {
                    lemma_number_wf(text);
                }
            }
        },
    }
}

/// A program that parses is well typed: every declaration holds a value
/// of its declared type.
pub proof fn lemma_program_well_typed(ts: Seq<TokenView>, at: int)
    ensures
        program(ts, at).result matches Ok(stmts) ==> crate::parser::well_typed(stmts),
    decreases ts.len() - at,
{
    if !at_end(ts, at) {
        let first = statement(ts, at, ts[at]);
        lemma_statement_wf(ts, at, ts[at]);
        if first.result is Ok {
            lemma_statement_used(ts, at);
            lemma_program_well_typed(ts, at + first.used);
        }
    }
}

} // verus!
