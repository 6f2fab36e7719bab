//! The program tree and the parser that builds it.

use vstd::prelude::*;
use crate::grammar::{
    call, declaration, declared_type, expect, expression, following, found, join,
    lemma_primary_used, lemma_program_well_typed, lemma_statement_used, literal, number, plus_at,
    primary, program, same_kind, statement, sum, taken, token_at, Parsed,
};
use crate::lexer::{token_views, Token, TokenView};
use crate::number::{fraction_literal, has_dot, is_fraction, parse_integer};
use crate::render::{decimal_digits, push_decimal, push_token, push_value, push_var_type};
use crate::text::same_text;

verus! {

/// The one binary operator of the language.
#[derive(Debug, Clone, Copy, PartialEq, Eq, Structural)]
pub enum BinOp {
    Add,
}

/// The type that a declaration gives its variable.
#[derive(Debug, Clone, Copy, PartialEq, Eq, Structural)]
pub enum VarType {
    String,
    Integer,
    Float,
    Boolean,
}

/// The value of a literal.  A fraction is kept as the literal writes it,
/// a text that [`fraction_literal`] accepts; the number it stands for is
/// for the caller to compute.
#[derive(Debug, Clone, PartialEq, Eq)]
pub enum Value {
    String(String),
    Integer(i64),
    Float(String),
    Boolean(bool),
}

/// A value as contracts see it.
pub enum ValueView {
    String(Seq<char>),
    Integer(int),
    Float(Seq<char>),
    Boolean(bool),
}

impl View for Value {
    type V = ValueView;

    open spec fn view(&self) -> ValueView {
        match self {
            Value::String(text) => ValueView::String(text@),
            Value::Integer(number) => ValueView::Integer(*number as int),
            Value::Float(text) => ValueView::Float(text@),
            Value::Boolean(truth) => ValueView::Boolean(*truth),
        }
    }
}

impl ValueView {
    /// The type of variable that can hold the value.
    pub open spec fn var_type(self) -> VarType {
        match self {
            ValueView::String(_) => VarType::String,
            ValueView::Integer(_) => VarType::Integer,
            ValueView::Float(_) => VarType::Float,
            ValueView::Boolean(_) => VarType::Boolean,
        }
    }

    /// Whether the value is one that a literal can have: an integer of 64
    /// bits, a fraction written as one.
    pub open spec fn wf(self) -> bool {
        match self {
            ValueView::Integer(number) => i64::MIN <= number <= i64::MAX,
            ValueView::Float(text) => text.contains('.') && fraction_literal(text),
            _ => true,
        }
    }
}

impl Value {
    /// The type of variable that can hold the value.
    pub fn var_type(&self) -> (var_type: VarType)
        ensures
            var_type == self@.var_type(),
    {
        match self {
            Value::String(_) => VarType::String,
            Value::Integer(_) => VarType::Integer,
            Value::Float(_) => VarType::Float,
            Value::Boolean(_) => VarType::Boolean,
        }
    }
}

/// An expression.
#[derive(Debug, PartialEq, Eq)]
pub enum Expr {
    /// A call of a builtin, with its arguments in order.
    Call { name: String, args: Vec<Expr> },
    /// A variable, by its name.
    Variable(String),
    /// A literal.
    Literal(Value),
    /// Two expressions joined by an operator.
    BinaryOp { left: Box<Expr>, op: BinOp, right: Box<Expr> },
}

/// An expression as contracts see it.
pub enum ExprView {
    Call { name: Seq<char>, args: Seq<ExprView> },
    Variable(Seq<char>),
    Literal(ValueView),
    BinaryOp { left: Box<ExprView>, op: BinOp, right: Box<ExprView> },
}

impl Expr {
    /// The expression as contracts see it.
    pub open spec fn model(self) -> ExprView
        decreases self,
    {
        match self {
            Expr::Call { name, args } => ExprView::Call {
                name: name@,
                args: Seq::new(
                    args@.len(),
                    |i: int|
                        if 0 <= i < args@.len() {
                            args@[i].model()
                        } else {
                            arbitrary()
                        },
                ),
            },
            Expr::Variable(name) => ExprView::Variable(name@),
            Expr::Literal(value) => ExprView::Literal(value@),
            Expr::BinaryOp { left, op, right } => ExprView::BinaryOp {
                left: Box::new((*left).model()),
                op,
                right: Box::new((*right).model()),
            },
        }
    }
}

impl View for Expr {
    type V = ExprView;

    open spec fn view(&self) -> ExprView {
        self.model()
    }
}

impl Clone for Expr {
    fn clone(&self) -> (copy: Self)
        ensures
            copy@ == self@,
        decreases self,
    {
        match self {
            Expr::Call { name, args } => {
                let mut copies: Vec<Expr> = Vec::new();
                let mut i: usize = 0;
                while i < args.len()
                    invariant
                        i <= args.len(),
                        copies.len() == i,
                        decreases_to!(self => args),
                        forall|k: int| 0 <= k < i ==> copies@[k]@ == args@[k]@,
                    decreases args.len() - i,
                {
                    proof {
                        vstd::std_specs::vec::axiom_vec_index_decreases(*args, i as int);
                    }
                    copies.push(args[i].clone());
                    i += 1;
                }
                let copy = Expr::Call { name: name.clone(), args: copies };
                assert(copy@->Call_args =~= self@->Call_args);
                copy
            },
            Expr::Variable(name) => Expr::Variable(name.clone()),
            Expr::Literal(value) => Expr::Literal(
                match value {
                    Value::String(text) => Value::String(text.clone()),
                    Value::Integer(number) => Value::Integer(*number),
                    Value::Float(text) => Value::Float(text.clone()),
                    Value::Boolean(truth) => Value::Boolean(*truth),
                },
            ),
            Expr::BinaryOp { left, op, right } => Expr::BinaryOp {
                left: Box::new((&**left).clone()),
                op: *op,
                right: Box::new((&**right).clone()),
            },
        }
    }
}

impl ExprView {
    /// Whether every literal in the expression has a value that a literal
    /// can have.
    pub open spec fn wf(self) -> bool
        decreases self,
    {
        match self {
            ExprView::Call { name, args } => forall|i: int|
                0 <= i < args.len() ==> (#[trigger] args[i]).wf(),
            ExprView::Variable(_) => true,
            ExprView::Literal(value) => value.wf(),
            ExprView::BinaryOp { left, op, right } => (*left).wf() && (*right).wf(),
        }
    }
}

/// A statement.
#[derive(Debug, Clone, PartialEq, Eq)]
pub enum Stmt {
    /// A variable of a declared type, with the literal it starts with.
    Declaration { var_type: VarType, name: String, value: Value },
    /// An expression that stands alone.
    Expression(Expr),
}

/// A statement as contracts see it.
pub enum StmtView {
    Declaration { var_type: VarType, name: Seq<char>, value: ValueView },
    Expression(ExprView),
}

impl View for Stmt {
    type V = StmtView;

    open spec fn view(&self) -> StmtView {
        match self {
            Stmt::Declaration { var_type, name, value } => StmtView::Declaration {
                var_type: *var_type,
                name: name@,
                value: value@,
            },
            Stmt::Expression(expr) => StmtView::Expression(expr@),
        }
    }
}

impl StmtView {
    /// Whether the statement is well typed: a declaration's value is of
    /// the declared type, with no conversion, and every literal has a
    /// value that a literal can have.
    pub open spec fn wf(self) -> bool {
        match self {
            StmtView::Declaration { var_type, name, value } => value.var_type() == var_type
                && value.wf(),
            StmtView::Expression(expr) => expr.wf(),
        }
    }
}

/// The views of a sequence of statements.
pub open spec fn stmt_views(statements: Seq<Stmt>) -> Seq<StmtView> {
    Seq::new(statements.len(), |i: int| statements[i]@)
}

/// Whether every statement of a program is well typed.
pub open spec fn well_typed(statements: Seq<StmtView>) -> bool {
    forall|i: int| 0 <= i < statements.len() ==> (#[trigger] statements[i]).wf()
}

/// A program: its statements, in the order of the source.
#[derive(Debug, Clone, PartialEq, Eq)]
pub struct Program {
    pub statements: Vec<Stmt>,
}

impl View for Program {
    type V = Seq<StmtView>;

    open spec fn view(&self) -> Seq<StmtView> {
        stmt_views(self.statements@)
    }
}

/// What was wrong with the tokens.
#[derive(Debug, Clone, Copy, PartialEq, Eq, Structural)]
pub enum ParseErrorKind {
    /// A token that can begin no statement.
    UnexpectedToken,
    /// A token that the grammar requires is not there.
    MissingToken,
    /// A name at the start of a statement that is no builtin.
    UnknownName,
    /// A declaration whose literal is not of the declared type.
    TypeMismatch,
    /// A numeric literal whose text writes no number.
    InvalidNumber,
}

/// A parse error: what was wrong, in words, and a position in the source.
///
/// The parser does not follow the source positions of its tokens: the
/// position is the one it was made with, line 1 and column 1, whatever
/// token the error is about.
#[derive(Debug, Clone, PartialEq, Eq)]
pub struct ParseError {
    pub kind: ParseErrorKind,
    pub message: String,
    pub line: usize,
    pub column: usize,
}

/// What a parse error says, as the grammar gives it: the grammar knows
/// of no positions in the source.
pub struct ParseFailure {
    pub kind: ParseErrorKind,
    pub message: Seq<char>,
}

/// A parse error as contracts see it.
pub struct ParseErrorView {
    pub kind: ParseErrorKind,
    pub message: Seq<char>,
    pub line: int,
    pub column: int,
}

impl View for ParseError {
    type V = ParseErrorView;

    open spec fn view(&self) -> ParseErrorView {
        ParseErrorView {
            kind: self.kind,
            message: self.message@,
            line: self.line as int,
            column: self.column as int,
        }
    }
}

impl ParseFailure {
    /// The error that the parser gives for the failure: it says what
    /// the failure says, with the position that the parser was made
    /// with, line 1 and column 1.
    pub open spec fn reported(self) -> ParseErrorView {
        ParseErrorView { kind: self.kind, message: self.message, line: 1, column: 1 }
    }
}

impl ParseError {
    /// The error in one line: what it says, then its line and column.
    pub fn describe(&self) -> (text: String)
        ensures
            text@ == self.message@ + " at line "@ + decimal_digits(self.line as nat) + ":"@
                + decimal_digits(self.column as nat),
    {
        let mut text = self.message.clone();
        text.append(" at line ");
        push_decimal(&mut text, self.line as u64);
        text.append(":");
        push_decimal(&mut text, self.column as u64);
        text
    }
}

/// Whether what the parser gave back is what the grammar says: the value
/// by its view, the error as the parser reports the grammar's failure.
pub open spec fn agrees<T: View>(given: Result<T, ParseError>, said: Result<T::V, ParseFailure>) -> bool {
    match said {
        Ok(value) => given matches Ok(v) && v@ == value,
        Err(failure) => given matches Err(e) && e@ == failure.reported(),
    }
}

/// Decides [`same_kind`].
fn is_same_kind(a: &Token, b: &Token) -> (same: bool)
    ensures
        same == same_kind(a@, b@),
{
    match (a, b) {
        (Token::Ident(_), Token::Ident(_)) => true,
        (Token::StringLiteral(_), Token::StringLiteral(_)) => true,
        (Token::NumberLiteral(_), Token::NumberLiteral(_)) => true,
        (Token::LParen, Token::LParen) => true,
        (Token::RParen, Token::RParen) => true,
        (Token::Semicolon, Token::Semicolon) => true,
        (Token::Equals, Token::Equals) => true,
        (Token::EOF, Token::EOF) => true,
        (Token::Illegal(_), Token::Illegal(_)) => true,
        (Token::StringType, Token::StringType) => true,
        (Token::IntegerType, Token::IntegerType) => true,
        (Token::FloatType, Token::FloatType) => true,
        (Token::BooleanType, Token::BooleanType) => true,
        (Token::True, Token::True) => true,
        (Token::False, Token::False) => true,
        _ => false,
    }
}

/// Reads the text of a numeric literal, as [`number`] says.
pub fn parse_number(text: &str) -> (r: Result<Value, ParseError>)
    ensures
        agrees(r, number(text@)),
{
    if has_dot(text) {
        if is_fraction(text) {
            Ok(Value::Float(String::from_str(text)))
        } else {
            let mut message = String::from_str("Invalid float literal: ");
            message.append(text);
            Err(ParseError { kind: ParseErrorKind::InvalidNumber, message, line: 1, column: 1 })
        }
    } else {
        match parse_integer(text) {
            Some(value) => Ok(Value::Integer(value)),
            None => {
                let mut message = String::from_str("Invalid integer literal: ");
                message.append(text);
                Err(ParseError { kind: ParseErrorKind::InvalidNumber, message, line: 1, column: 1 })
            },
        }
    }
}

/// What the first token of a statement calls for.
enum Opening {
    /// A declaration: the token is a type keyword.
    Declaration,
    /// A call, if the name is the builtin's: the token is this name.
    Name(String),
    /// An error that says `message`, once the token is taken if `taken`
    /// says so.
    Unexpected { message: String, taken: bool },
}

/// A parser over a token sequence: the tokens, and the position of the
/// next token to read.
pub struct Parser {
    tokens: Vec<Token>,
    position: usize,
    current_line: usize,
    current_column: usize,
}

impl Parser {
    #[verifier::type_invariant]
    spec fn within_tokens(&self) -> bool {
        &&& self.position <= self.tokens.len()
        &&& self.current_line == 1
        &&& self.current_column == 1
    }

    /// The tokens.
    pub closed spec fn tokens(&self) -> Seq<TokenView> {
        token_views(self.tokens@)
    }

    /// The position of the next token to read.
    pub closed spec fn cursor(&self) -> int {
        self.position as int
    }

    /// A parser at the first of `tokens`.
    pub fn new(tokens: Vec<Token>) -> (parser: Self)
        ensures
            parser.tokens() == token_views(tokens@),
            parser.cursor() == 0,
    {
        Parser { tokens, position: 0, current_line: 1, current_column: 1 }
    }

    /// The error of `kind` that says `message`, at the parser's position
    /// in the source.
    fn error(&self, kind: ParseErrorKind, message: String) -> (error: ParseError)
        ensures
            error@ == (ParseFailure { kind, message: message@ }).reported(),
    {
        proof {
            use_type_invariant(self);
        }
        ParseError { kind, message, line: self.current_line, column: self.current_column }
    }

    /// The next token, if there is one.
    fn peek(&self) -> (next: Option<&Token>)
        ensures
            0 <= self.cursor() <= self.tokens().len(),
            match token_at(self.tokens(), self.cursor()) {
                Some(token) => next matches Some(t) && t@ == token,
                None => next is None,
            },
    {
        proof {
            use_type_invariant(self);
        }
        if self.position < self.tokens.len() {
            Some(&self.tokens[self.position])
        } else {
            None
        }
    }

    /// Takes the next token, if there is one.
    fn advance(&mut self) -> (next: Option<&Token>)
        ensures
            final(self).tokens() == old(self).tokens(),
            0 <= old(self).cursor() <= old(self).tokens().len(),
            final(self).cursor() == old(self).cursor() + taken(old(self).tokens(), old(self).cursor()),
            match token_at(old(self).tokens(), old(self).cursor()) {
                Some(token) => next matches Some(t) && t@ == token,
                None => next is None,
            },
    {
        proof {
            use_type_invariant(&*self);
        }
        if self.position < self.tokens.len() {
            let at = self.position;
            self.position += 1;
            Some(&self.tokens[at])
        } else {
            None
        }
    }

    /// Takes the next token, which must be of the kind of `expected`.
    fn expect(&mut self, expected: Token) -> (r: Result<(), ParseError>)
        ensures
            final(self).tokens() == old(self).tokens(),
            final(self).cursor() == old(self).cursor() + expect(
                old(self).tokens(),
                old(self).cursor(),
                expected@,
            ).used,
            match expect(old(self).tokens(), old(self).cursor(), expected@).result {
                Ok(_) => r is Ok,
                Err(failure) => r matches Err(e) && e@ == failure.reported(),
            },
    {
        let message = match self.advance() {
            Some(token) => {
                if is_same_kind(token, &expected) {
                    return Ok(());
                }
                let mut message = String::from_str("Expected ");
                push_token(&mut message, &expected);
                message.append(", got ");
                push_token(&mut message, token);
                message
            },
            None => {
                let mut message = String::from_str("Expected ");
                push_token(&mut message, &expected);
                message.append(", but no more tokens");
                message
            },
        };
        Err(self.error(ParseErrorKind::MissingToken, message))
    }

    /// Takes a type keyword.
    fn parse_type(&mut self) -> (r: Result<VarType, ParseError>)
        ensures
            final(self).tokens() == old(self).tokens(),
            final(self).cursor() == old(self).cursor() + declared_type(
                old(self).tokens(),
                old(self).cursor(),
            ).used,
            match declared_type(old(self).tokens(), old(self).cursor()).result {
                Ok(var_type) => r == Ok::<VarType, ParseError>(var_type),
                Err(failure) => r matches Err(e) && e@ == failure.reported(),
            },
    {
        let message = match self.advance() {
            Some(Token::StringType) => {
                return Ok(VarType::String);
            },
            Some(Token::IntegerType) => {
                return Ok(VarType::Integer);
            },
            Some(Token::FloatType) => {
                return Ok(VarType::Float);
            },
            Some(Token::BooleanType) => {
                return Ok(VarType::Boolean);
            },
            Some(token) => {
                let mut message = String::from_str("Expected type, got ");
                push_token(&mut message, token);
                message
            },
            None => String::from_str("Expected type"),
        };
        Err(self.error(ParseErrorKind::MissingToken, message))
    }

    /// Takes a literal and gives its value.
    fn parse_value(&mut self) -> (r: Result<Value, ParseError>)
        ensures
            final(self).tokens() == old(self).tokens(),
            final(self).cursor() == old(self).cursor() + literal(
                old(self).tokens(),
                old(self).cursor(),
            ).used,
            agrees(r, literal(old(self).tokens(), old(self).cursor()).result),
    {
        let message = match self.advance() {
            Some(Token::StringLiteral(value)) => {
                return Ok(Value::String(value.clone()));
            },
            Some(Token::NumberLiteral(text)) => {
                return parse_number(text.as_str());
            },
            Some(Token::True) => {
                return Ok(Value::Boolean(true));
            },
            Some(Token::False) => {
                return Ok(Value::Boolean(false));
            },
            Some(token) => {
                let mut message = String::from_str("Expected value, got ");
                push_token(&mut message, token);
                message
            },
            None => String::from_str("Expected value"),
        };
        Err(self.error(ParseErrorKind::MissingToken, message))
    }

    /// Takes a primary expression: a literal, a variable, or an
    /// expression in parentheses.
    fn parse_primary_expression(&mut self) -> (r: Result<Expr, ParseError>)
        ensures
            final(self).tokens() == old(self).tokens(),
            final(self).cursor() == old(self).cursor() + primary(
                old(self).tokens(),
                old(self).cursor(),
            ).used,
            agrees(r, primary(old(self).tokens(), old(self).cursor()).result),
        decreases old(self).tokens().len() - old(self).cursor(), 0int,
    {
        match self.peek() {
            Some(Token::StringLiteral(_)) | Some(Token::NumberLiteral(_)) | Some(Token::True) | Some(
                Token::False,
            ) => {
                match self.parse_value() {
                    Ok(value) => Ok(Expr::Literal(value)),
                    Err(error) => Err(error),
                }
            },
            Some(Token::Ident(name)) => {
                let name = name.clone();
                self.advance();
                Ok(Expr::Variable(name))
            },
            Some(Token::LParen) => {
                self.advance();
                let expr = match self.parse_expression() {
                    Ok(expr) => expr,
                    Err(error) => {
                        return Err(error);
                    },
                };
                match self.expect(Token::RParen) {
                    Ok(_) => Ok(expr),
                    Err(error) => Err(error),
                }
            },
            _ => Err(
                self.error(ParseErrorKind::MissingToken, String::from_str("Expected expression")),
            ),
        }
    }

    /// Takes an expression from the parser's position on: primary
    /// expressions joined by `+`, grouped from the left, as
    /// [`expression`] says.  The parser is left behind the tokens that
    /// were taken, on success and on failure.
    pub fn parse_expression(&mut self) -> (r: Result<Expr, ParseError>)
        ensures
            final(self).tokens() == old(self).tokens(),
            final(self).cursor() == old(self).cursor() + expression(
                old(self).tokens(),
                old(self).cursor(),
            ).used,
            agrees(r, expression(old(self).tokens(), old(self).cursor()).result),
        decreases old(self).tokens().len() - old(self).cursor(), 1int,
    {
        let ghost ts = self.tokens();
        let ghost start = self.cursor();
        let mut left = match self.parse_primary_expression() {
            Ok(expr) => expr,
            Err(error) => {
                return Err(error);
            },
        };
        loop
            invariant
                self.tokens() == ts,
                ts == old(self).tokens(),
                start == old(self).cursor(),
                0 <= start <= self.cursor() <= ts.len(),
                start < self.cursor(),
                expression(ts, start) == sum_rest(
                    ts,
                    left@,
                    self.cursor(),
                    (self.cursor() - start) as nat,
                ),
            decreases ts.len() - self.cursor(),
        {
            let plus = match self.peek() {
                Some(Token::Illegal(c)) => *c == '+',
                _ => false,
            };
            if !plus {
                return Ok(left);
            }
            let ghost here = self.cursor();
            let ghost so_far = left@;
            self.advance();
            proof {
                lemma_primary_used(ts, here + 1);
            }
            let right = match self.parse_primary_expression() {
                Ok(expr) => expr,
                Err(error) => {
                    return Err(error);
                },
            };
            left = Expr::BinaryOp { left: Box::new(left), op: BinOp::Add, right: Box::new(right) };
            assert(left@ == join(Some(so_far), right@));
        }
    }

    /// Takes a declaration from the parser's position on: a type, a
    /// name, `=`, a literal of that type, `;`, as [`declaration`] says.
    /// The parser is left behind the tokens that were taken, on success
    /// and on failure.
    pub fn parse_declaration(&mut self) -> (r: Result<Stmt, ParseError>)
        ensures
            final(self).tokens() == old(self).tokens(),
            final(self).cursor() == old(self).cursor() + declaration(
                old(self).tokens(),
                old(self).cursor(),
            ).used,
            agrees(r, declaration(old(self).tokens(), old(self).cursor()).result),
    {
        let var_type = match self.parse_type() {
            Ok(var_type) => var_type,
            Err(error) => {
                return Err(error);
            },
        };
        let found_name = match self.advance() {
            Some(Token::Ident(name)) => Ok(name.clone()),
            Some(token) => {
                let mut message = String::from_str("Expected variable name, got ");
                push_token(&mut message, token);
                Err(message)
            },
            None => Err(String::from_str("Expected variable name")),
        };
        let name = match found_name {
            Ok(name) => name,
            Err(message) => {
                return Err(self.error(ParseErrorKind::MissingToken, message));
            },
        };
        match self.expect(Token::Equals) {
            Ok(_) => {},
            Err(error) => {
                return Err(error);
            },
        }
        let value = match self.parse_value() {
            Ok(value) => value,
            Err(error) => {
                return Err(error);
            },
        };
        if value.var_type() != var_type {
            let mut message = String::from_str("Type mismatch: cannot assign ");
            push_value(&mut message, &value);
            message.append(" to ");
            push_var_type(&mut message, var_type);
            return Err(self.error(ParseErrorKind::TypeMismatch, message));
        }
        match self.expect(Token::Semicolon) {
            Ok(_) => {},
            Err(error) => {
                return Err(error);
            },
        }
        Ok(Stmt::Declaration { var_type, name, value })
    }

    /// Takes a call of `name`, from behind the name on: `(`, no
    /// argument or one expression, `)` and `;`.
    fn parse_call(&mut self, name: String) -> (r: Result<Expr, ParseError>)
        ensures
            final(self).tokens() == old(self).tokens(),
            final(self).cursor() == old(self).cursor() + call(
                old(self).tokens(),
                old(self).cursor(),
                name@,
            ).used,
            agrees(r, call(old(self).tokens(), old(self).cursor(), name@).result),
    {
        match self.expect(Token::LParen) {
            Ok(_) => {},
            Err(error) => {
                return Err(error);
            },
        }
        let mut args: Vec<Expr> = Vec::new();
        let closed = match self.peek() {
            Some(Token::RParen) => true,
            _ => false,
        };
        if !closed {
            match self.parse_expression() {
                Ok(expr) => {
                    args.push(expr);
                },
                Err(error) => {
                    return Err(error);
                },
            }
        }
        let ghost given = Seq::new(args@.len(), |i: int| args@[i]@);
        assert(given =~= (if closed {
            Seq::<ExprView>::empty()
        } else {
            seq![args@[0]@]
        }));
        match self.expect(Token::RParen) {
            Ok(_) => {},
            Err(error) => {
                return Err(error);
            },
        }
        match self.expect(Token::Semicolon) {
            Ok(_) => {},
            Err(error) => {
                return Err(error);
            },
        }
        let called = Expr::Call { name, args };
        assert(called@->Call_args =~= given);
        Ok(called)
    }

    /// Parses the tokens from the parser's position on: the statements up
    /// to the end-of-input token or the last token, as [`program`] says, or
    /// the first error.  A program that is given back is well typed.
    pub fn parse(&mut self) -> (r: Result<Program, ParseError>)
        ensures
            final(self).tokens() == old(self).tokens(),
            final(self).cursor() == old(self).cursor() + program(
                old(self).tokens(),
                old(self).cursor(),
            ).used,
            agrees(r, program(old(self).tokens(), old(self).cursor()).result),
            r matches Ok(p) ==> well_typed(p@),
    {
        let ghost ts = self.tokens();
        let ghost start = self.cursor();
        let mut statements: Vec<Stmt> = Vec::new();
        proof {
            use_type_invariant(&*self);
            lemma_program_well_typed(ts, start);
            assert(stmt_views(statements@) =~= Seq::<StmtView>::empty());
            lemma_following_nothing(program(ts, start));
        }
        loop
            invariant
                self.tokens() == ts,
                ts == old(self).tokens(),
                start == old(self).cursor(),
                0 <= start <= self.cursor() <= ts.len(),
                program(ts, start).result matches Ok(p) ==> well_typed(p),
                program(ts, start) == following(
                    stmt_views(statements@),
                    (self.cursor() - start) as nat,
                    program(ts, self.cursor()),
                ),
            decreases ts.len() - self.cursor(),
        {
            let ghost here = self.cursor();
            let ghost front = stmt_views(statements@);
            let opening = match self.peek() {
                None => {
                    return Ok(Program { statements });
                },
                Some(Token::EOF) => {
                    return Ok(Program { statements });
                },
                Some(Token::StringType) | Some(Token::IntegerType) | Some(Token::FloatType) | Some(
                    Token::BooleanType,
                ) => Opening::Declaration,
                Some(Token::Ident(name)) => Opening::Name(name.clone()),
                Some(Token::Illegal(c)) => {
                    let mut message = String::from_str("Invalid character: '");
                    message.push(*c);
                    message.push('\'');
                    Opening::Unexpected { message, taken: false }
                },
                Some(token) => {
                    let mut message = String::from_str("Unexpected token: ");
                    push_token(&mut message, token);
                    Opening::Unexpected { message, taken: true }
                },
            };
            proof {
                lemma_statement_used(ts, here);
            }
            let parsed = match opening {
                Opening::Unexpected { message, taken } => {
                    if taken {
                        self.advance();
                    }
                    return Err(self.error(ParseErrorKind::UnexpectedToken, message));
                },
                Opening::Declaration => self.parse_declaration(),
                Opening::Name(name) => {
                    self.advance();
                    if same_text(name.as_str(), "echo") {
                        match self.parse_call(name) {
                            Ok(expr) => Ok(Stmt::Expression(expr)),
                            Err(error) => Err(error),
                        }
                    } else {
                        let mut message = String::from_str("Unknown function or variable: ");
                        message.append(name.as_str());
                        Err(self.error(ParseErrorKind::UnknownName, message))
                    }
                },
            };
            match parsed {
                Err(error) => {
                    return Err(error);
                },
                Ok(stmt) => {
                    let ghost view = stmt@;
                    statements.push(stmt);
                    proof {
                        assert(stmt_views(statements@) =~= front.push(view));
                        lemma_following_one(
                            front,
                            view,
                            (here - start) as nat,
                            statement(ts, here, ts[here]).used,
                            program(ts, self.cursor()),
                        );
                    }
                },
            }
        }
    }
}

/// What is left of a sum when `so_far` has been read in `used` tokens
/// and the next token is the one at `at`.
pub open spec fn sum_rest(ts: Seq<TokenView>, so_far: ExprView, at: int, used: nat) -> Parsed<
    ExprView,
> {
    if plus_at(ts, at) {
        sum(ts, Some(so_far), at + 1).behind(used + 1)
    } else {
        found(so_far, used)
    }
}

/// Behind no statements an outcome is what it is.
proof fn lemma_following_nothing(rest: Parsed<Seq<StmtView>>)
    ensures
        following(Seq::empty(), 0, rest) == rest,
{
    if let Ok(stmts) = rest.result {
        assert(Seq::<StmtView>::empty() + stmts =~= stmts);
    }
}

/// A statement may be counted with those in front or with the rest.
proof fn lemma_following_one(
    front: Seq<StmtView>,
    stmt: StmtView,
    used: nat,
    stmt_used: nat,
    rest: Parsed<Seq<StmtView>>,
)
    ensures
        following(front, used, following(seq![stmt], stmt_used, rest)) == following(
            front.push(stmt),
            used + stmt_used,
            rest,
        ),
{
    if let Ok(stmts) = rest.result {
        assert(front + (seq![stmt] + stmts) =~= front.push(stmt) + stmts);
    }
}

} // verus!
