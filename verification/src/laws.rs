//! What holds of the scanner and the parser on every input.

use vstd::prelude::*;
use crate::chars::{lemma_run_end, run_end, unicode_whitespace, CharClass};
use crate::grammar::{
    at_end, declaration, declarator, expression, failed, found, initializer, join,
    mismatch_message, plus_at, primary, program, statement, sum, token_at, type_of_keyword,
    value_of,
};
use crate::number::integer_literal;
use crate::lexer::TokenView;
use crate::parser::{BinOp, ExprView, ParseErrorKind, ParseFailure, StmtView, ValueView, VarType};
use crate::scan::{
    comment_at, escape, escape_char, lex, quoted, scan, token_start, Lexed, Quoted, Scan,
};

verus! {

/// Whether `s` holds nothing from `i` on but white space and line
/// comments, each comment running from two slashes to the end of its line.
pub open spec fn blank(s: Seq<char>, i: int) -> bool
    decreases s.len() - i,
{
    if !(0 <= i < s.len()) {
        true
    } else if unicode_whitespace(s[i]) {
        blank(s, i + 1)
    } else if comment_at(s, i) {
        proof {
            lemma_run_end(s, i + 2, CharClass::LineBody);
        }
        blank(s, run_end(s, i + 2, CharClass::LineBody))
    } else {
        false
    }
}

/// Behind the white space at its start, a blank text is blank.
proof fn lemma_blank_behind_whitespace(s: Seq<char>, i: int)
    requires
        0 <= i <= s.len(),
        blank(s, i),
    ensures
        blank(s, run_end(s, i, CharClass::Whitespace)),
    decreases s.len() - i,
{
    if i < s.len() && unicode_whitespace(s[i]) {
        lemma_blank_behind_whitespace(s, i + 1);
    }
}

/// In a blank text no token starts before the end.
proof fn lemma_blank_has_no_token(s: Seq<char>, i: int)
    requires
        0 <= i <= s.len(),
        blank(s, i),
    ensures
        token_start(s, i) == s.len(),
    decreases s.len() - i,
{
    let k = run_end(s, i, CharClass::Whitespace);
    lemma_run_end(s, i, CharClass::Whitespace);
    lemma_blank_behind_whitespace(s, i);
    if k < s.len() {
        let e = run_end(s, k + 2, CharClass::LineBody);
        lemma_run_end(s, k + 2, CharClass::LineBody);
        lemma_blank_has_no_token(s, e);
    }
}

/// A source text of white space and comments alone tokenizes to one
/// token, the end of input.
pub proof fn lemma_blank_text_is_end_of_input(s: Seq<char>)
    requires
        blank(s, 0),
    ensures
        lex(s, 0) == (Lexed { tokens: Ok(seq![TokenView::EOF]), end: s.len() as int }),
{
    lemma_blank_has_no_token(s, 0);
}

/// Whether a character stands for itself in a string literal: any but
/// the quote, the backslash and the line feed.
pub open spec fn plain(c: char) -> bool {
    c != '"' && c != '\\' && c != '\n'
}

/// A text of plain characters is its own escaped form.
pub proof fn lemma_plain_text_escapes_to_itself(body: Seq<char>)
    requires
        forall|k: int| 0 <= k < body.len() ==> plain(#[trigger] body[k]),
    ensures
        escape(body) == body,
    decreases body.len(),
{
    if body.len() > 0 {
        let rest = body.drop_first();
        assert forall|k: int| 0 <= k < rest.len() implies plain(#[trigger] rest[k]) by {
            assert(rest[k] == body[k + 1]);
        }
        lemma_plain_text_escapes_to_itself(rest);
        assert(seq![body.first()] + rest =~= body);
    }
}

/// Where the escaped form of `value` stands in a text with a quote
/// behind it, a string literal that ends with that quote is read, and
/// stands for `value`.
pub proof fn lemma_escaped_text_reads_back(s: Seq<char>, i: int, value: Seq<char>)
    requires
        0 <= i,
        i + escape(value).len() < s.len(),
        s.subrange(i, i + escape(value).len()) == escape(value),
        s[i + escape(value).len()] == '"',
    ensures
        quoted(s, i) == (Quoted::Closed { value, end: i + escape(value).len() + 1 }),
    decreases value.len(),
{
    let written = escape(value);
    if value.len() == 0 {
        assert(value =~= Seq::<char>::empty());
    } else {
        let c = value.first();
        let rest = value.drop_first();
        let head = escape_char(c);
        assert(written == head + escape(rest));
        assert forall|k: int| 0 <= k < written.len() implies s[i + k] == #[trigger] written[k] by {
            assert(s.subrange(i, i + written.len())[k] == s[i + k]);
        }
        assert(s[i] == written[0]);
        assert(written[0] == head[0]);
        if head.len() == 2 {
            assert(s[i + 1] == written[1]);
            assert(written[1] == head[1]);
        }
        let next = i + head.len();
        assert(s.subrange(next, next + escape(rest).len()) =~= escape(rest)) by {
            assert forall|k: int| 0 <= k < escape(rest).len() implies s.subrange(
                next,
                next + escape(rest).len(),
            )[k] == escape(rest)[k] by {
                assert(s[next + k] == written[head.len() + k]);
            }
        }
        lemma_escaped_text_reads_back(s, next, rest);
        assert(seq![c] + rest =~= value);
    }
}

/// A text between two quotes.
pub open spec fn in_quotes(body: Seq<char>) -> Seq<char> {
    seq!['"'] + body + seq!['"']
}

/// Escaping then lexing gives every value back: the scanner reads the
/// escaped form of `value` between two quotes as one string literal
/// that stands for `value`, and tokenizing gives that literal and the
/// end of input.
pub proof fn lemma_literal_of_escaped_text(value: Seq<char>)
    ensures
        scan(in_quotes(escape(value)), 0) == (Scan::Token {
            token: TokenView::StringLiteral(value),
            end: escape(value).len() as int + 2,
        }),
        lex(in_quotes(escape(value)), 0) == (Lexed {
            tokens: Ok(seq![TokenView::StringLiteral(value), TokenView::EOF]),
            end: escape(value).len() as int + 2,
        }),
{
    let s = in_quotes(escape(value));
    let end = escape(value).len() as int + 2;
    assert(s.subrange(1, 1 + escape(value).len() as int) =~= escape(value));
    lemma_escaped_text_reads_back(s, 1, value);
    assert(token_start(s, 0) == 0);
    assert(token_start(s, end) == end);
    assert(scan(s, end) == (Scan::Token { token: TokenView::EOF, end }));
    assert(lex(s, end) == (Lexed { tokens: Ok(seq![TokenView::EOF]), end }));
    assert(seq![TokenView::StringLiteral(value)] + seq![TokenView::EOF] =~= seq![
        TokenView::StringLiteral(value),
        TokenView::EOF,
    ]);
}

/// Lexing then escaping gives a string literal back as it was written,
/// if its body holds only plain characters: the scanner reads `body`
/// between two quotes as a literal that stands for `body`, and `body`
/// is the escaped form of that value.
pub proof fn lemma_plain_literal_round_trip(body: Seq<char>)
    requires
        forall|k: int| 0 <= k < body.len() ==> plain(#[trigger] body[k]),
    ensures
        scan(in_quotes(body), 0) == (Scan::Token {
            token: TokenView::StringLiteral(body),
            end: body.len() as int + 2,
        }),
        lex(in_quotes(body), 0) == (Lexed {
            tokens: Ok(seq![TokenView::StringLiteral(body), TokenView::EOF]),
            end: body.len() as int + 2,
        }),
        escape(body) == body,
{
    lemma_plain_text_escapes_to_itself(body);
    lemma_literal_of_escaped_text(body);
}

/// The tokens of a declaration of `name`, with `keyword` for the type
/// and `given` for the literal, and the end of input behind it.
pub open spec fn declaration_tokens(keyword: TokenView, name: Seq<char>, given: TokenView) -> Seq<
    TokenView,
> {
    seq![
        keyword,
        TokenView::Ident(name),
        TokenView::Equals,
        given,
        TokenView::Semicolon,
        TokenView::EOF,
    ]
}

/// The type of a literal's value is the one that the literal is
/// written as: text for a string, a fraction for a number with a dot,
/// an integer for a number without, a truth value for `true` and
/// `false`.  No literal has a value of another type.
pub proof fn lemma_literal_keeps_its_type(given: TokenView, value: ValueView)
    requires
        value_of(given) == Some(Ok::<ValueView, ParseFailure>(value)),
    ensures
        value.var_type() == (match given {
            TokenView::StringLiteral(_) => VarType::String,
            TokenView::NumberLiteral(text) => if text.contains('.') {
                VarType::Float
            } else {
                VarType::Integer
            },
            _ => VarType::Boolean,
        }),
        given matches TokenView::StringLiteral(text) ==> value == ValueView::String(text),
        given matches TokenView::NumberLiteral(text) ==> (if text.contains('.') {
            value == ValueView::Float(text)
        } else {
            integer_literal(text) == Some(value->Integer_0)
        }),
        given is True ==> value == ValueView::Boolean(true),
        given is False ==> value == ValueView::Boolean(false),
{
}

/// Wherever a type keyword, a name, `=` and a literal follow one
/// another, the declaration is one of the name with the literal's value
/// if the literal is of the declared type and `;` follows, and a type
/// mismatch if the literal is of any other type: no value is converted.
pub proof fn lemma_declaration_checks_its_literal(
    ts: Seq<TokenView>,
    at: int,
    declared: VarType,
    name: Seq<char>,
    given: TokenView,
    value: ValueView,
)
    requires
        token_at(ts, at) matches Some(keyword) && type_of_keyword(keyword) == Some(declared),
        token_at(ts, at + 1) == Some(TokenView::Ident(name)),
        token_at(ts, at + 2) == Some(TokenView::Equals),
        token_at(ts, at + 3) == Some(given),
        value_of(given) == Some(Ok::<ValueView, ParseFailure>(value)),
    ensures
        value.var_type() == declared && token_at(ts, at + 4) == Some(TokenView::Semicolon)
            ==> declaration(ts, at) == found(
            StmtView::Declaration { var_type: declared, name, value },
            5,
        ),
        value.var_type() != declared ==> declaration(ts, at) == failed::<StmtView>(
            ParseErrorKind::TypeMismatch,
            mismatch_message(value, declared),
            4,
        ),
{
    assert(declaration(ts, at) == declarator(ts, at + 1, declared).behind(1));
    assert(declarator(ts, at + 1, declared) == initializer(ts, at + 3, declared, name).behind(2));
}

/// A declaration with a literal, alone in a source, is a program of
/// that one declaration if the literal is of the declared type, and a
/// type mismatch if it is of any other.
pub proof fn lemma_program_of_one_declaration(
    keyword: TokenView,
    name: Seq<char>,
    given: TokenView,
    declared: VarType,
    value: ValueView,
)
    requires
        type_of_keyword(keyword) == Some(declared),
        value_of(given) == Some(Ok::<ValueView, ParseFailure>(value)),
    ensures
        value.var_type() == declared ==> program(declaration_tokens(keyword, name, given), 0)
            == found(seq![StmtView::Declaration { var_type: declared, name, value }], 5),
        value.var_type() != declared ==> program(declaration_tokens(keyword, name, given), 0)
            == failed::<Seq<StmtView>>(
            ParseErrorKind::TypeMismatch,
            mismatch_message(value, declared),
            4,
        ),
{
    let ts = declaration_tokens(keyword, name, given);
    lemma_declaration_checks_its_literal(ts, 0, declared, name, given, value);
    assert(statement(ts, 0, ts[0]) == declaration(ts, 0));
    if value.var_type() == declared {
        assert(at_end(ts, 5));
        assert(program(ts, 5) == found(Seq::<StmtView>::empty(), 0));
        assert(seq![StmtView::Declaration { var_type: declared, name, value }] + Seq::<
            StmtView,
        >::empty() =~= seq![StmtView::Declaration { var_type: declared, name, value }]);
    }
}

/// The sum of two expressions.
pub open spec fn added(left: ExprView, right: ExprView) -> ExprView {
    ExprView::BinaryOp { left: Box::new(left), op: BinOp::Add, right: Box::new(right) }
}

/// The sum of one or more operands, grouped from the left: the last
/// operand is added to the sum of all before it, so that every right
/// child is an operand and the nesting grows to the left only.
pub open spec fn left_sum(operands: Seq<ExprView>) -> ExprView
    decreases operands.len(),
{
    if operands.len() <= 1 {
        operands[0]
    } else {
        added(left_sum(operands.drop_last()), operands.last())
    }
}

/// Whether the tokens from `at` on are the primary expressions
/// `operands`, each taking as many tokens as `used` says, with an
/// addition operator between each two and none behind the last.
pub open spec fn operands_at(
    ts: Seq<TokenView>,
    at: int,
    operands: Seq<ExprView>,
    used: Seq<nat>,
) -> bool
    decreases operands.len(),
{
    &&& operands.len() >= 1
    &&& used.len() == operands.len()
    &&& primary(ts, at) == found(operands[0], used[0])
    &&& if operands.len() == 1 {
        !plus_at(ts, at + used[0])
    } else {
        &&& plus_at(ts, at + used[0])
        &&& operands_at(ts, at + used[0] + 1, operands.drop_first(), used.drop_first())
    }
}

/// The number of tokens of a sum whose operands take as many as `used`
/// says: those of the operands, and one operator between each two.
pub open spec fn sum_used(used: Seq<nat>) -> nat
    decreases used.len(),
{
    if used.len() == 0 {
        0
    } else if used.len() == 1 {
        used[0]
    } else {
        used[0] + 1 + sum_used(used.drop_first())
    }
}

/// The operands added one by one to what stands on their left.
pub open spec fn joined(left: Option<ExprView>, operands: Seq<ExprView>) -> ExprView
    decreases operands.len(),
{
    if operands.len() <= 1 {
        join(left, operands[0])
    } else {
        joined(Some(join(left, operands[0])), operands.drop_first())
    }
}

/// Adding operands one by one ends with adding the last.
proof fn lemma_joined_ends_with_the_last(left: Option<ExprView>, operands: Seq<ExprView>)
    requires
        operands.len() >= 2,
    ensures
        joined(left, operands) == added(joined(left, operands.drop_last()), operands.last()),
    decreases operands.len(),
{
    let rest = operands.drop_first();
    let front = operands.drop_last();
    let first = Some(join(left, operands[0]));
    assert(joined(left, operands) == joined(first, rest));
    assert(front[0] == operands[0]);
    assert(rest.last() == operands.last());
    if operands.len() == 2 {
        assert(joined(first, rest) == join(first, rest[0]));
        assert(joined(left, front) == join(left, front[0]));
    } else {
        lemma_joined_ends_with_the_last(first, rest);
        assert(rest.drop_last() =~= front.drop_first());
        assert(joined(left, front) == joined(first, front.drop_first()));
    }
}

/// Adding operands one by one to nothing gives their sum grouped from
/// the left.
proof fn lemma_joined_is_left_sum(operands: Seq<ExprView>)
    requires
        operands.len() >= 1,
    ensures
        joined(None, operands) == left_sum(operands),
    decreases operands.len(),
{
    if operands.len() >= 2 {
        lemma_joined_ends_with_the_last(None, operands);
        lemma_joined_is_left_sum(operands.drop_last());
    }
}

/// A sum adds its operands one by one to what stands on its left.
proof fn lemma_sum_joins(
    ts: Seq<TokenView>,
    left: Option<ExprView>,
    at: int,
    operands: Seq<ExprView>,
    used: Seq<nat>,
)
    requires
        0 <= at,
        operands_at(ts, at, operands, used),
    ensures
        sum(ts, left, at) == found(joined(left, operands), sum_used(used)),
    decreases operands.len(),
{
    if operands.len() > 1 {
        lemma_sum_joins(
            ts,
            Some(join(left, operands[0])),
            at + used[0] + 1,
            operands.drop_first(),
            used.drop_first(),
        );
    }
}

/// Addition groups from the left: any number of primary expressions
/// with an addition operator between each two, and none behind the
/// last, make the sum in which the last is added to the sum of all
/// before it.
pub proof fn lemma_addition_groups_from_the_left(
    ts: Seq<TokenView>,
    at: int,
    operands: Seq<ExprView>,
    used: Seq<nat>,
)
    requires
        0 <= at,
        operands_at(ts, at, operands, used),
    ensures
        expression(ts, at) == found(left_sum(operands), sum_used(used)),
{
    lemma_sum_joins(ts, None, at, operands, used);
    lemma_joined_is_left_sum(operands);
}

} // verus!
