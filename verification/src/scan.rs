//! The lexical grammar, as functions on the source text.
//!
//! A position is an index into the text.  Before each token, white space
//! and line comments are skipped; the token that follows is chosen by its
//! first character.

use vstd::prelude::*;
use crate::chars::{
    ascii, ascii_digit, ident_start, lemma_run_end, run_end, unicode_whitespace, CharClass,
};
use crate::lexer::{LexErrorKind, LexFailure, TokenView};

verus! {

/// Whether a line comment starts at `i`: two slashes in a row.
pub open spec fn comment_at(s: Seq<char>, i: int) -> bool {
    0 <= i && i + 1 < s.len() && s[i] == '/' && s[i + 1] == '/'
}

/// The end of the line comment that starts at `i`, and of the white space
/// behind it: a comment runs up to the next line feed or the end of the text.
pub open spec fn comment_end(s: Seq<char>, i: int) -> int {
    run_end(s, run_end(s, i + 2, CharClass::LineBody), CharClass::Whitespace)
}

/// The position reached from `i` by skipping line comments, each with the
/// white space behind it, until something else is found.
pub open spec fn comments_end(s: Seq<char>, i: int) -> int
    decreases s.len() - i,
{
    if comment_at(s, i) {
        proof {
            lemma_comment_end(s, i);
        }
        comments_end(s, comment_end(s, i))
    } else {
        i
    }
}

/// A comment and the white space behind it end after the two slashes and
/// within the text.
pub proof fn lemma_comment_end(s: Seq<char>, i: int)
    requires
        comment_at(s, i),
    ensures
        i + 2 <= comment_end(s, i) <= s.len(),
{
    lemma_run_end(s, i + 2, CharClass::LineBody);
    lemma_run_end(s, run_end(s, i + 2, CharClass::LineBody), CharClass::Whitespace);
}

/// Where the next token starts, seen from `i`: behind the white space at
/// `i` and the comments that follow it.
pub open spec fn token_start(s: Seq<char>, i: int) -> int {
    comments_end(s, run_end(s, i, CharClass::Whitespace))
}

/// The next token starts at or after `i` and within the text, where
/// neither skipping applies: on a character that is no white space and
/// begins no comment.
pub proof fn lemma_token_start(s: Seq<char>, i: int)
    requires
        0 <= i <= s.len(),
    ensures
        i <= token_start(s, i) <= s.len(),
        !comment_at(s, token_start(s, i)),
        token_start(s, i) < s.len() ==> !unicode_whitespace(s[token_start(s, i)]),
{
    lemma_run_end(s, i, CharClass::Whitespace);
    lemma_comments_end(s, run_end(s, i, CharClass::Whitespace));
}

/// Skipping comments moves forward, stays within the text and stops where
/// no comment begins; and on no white space, if it did not start on one.
pub proof fn lemma_comments_end(s: Seq<char>, i: int)
    requires
        0 <= i <= s.len(),
    ensures
        i <= comments_end(s, i) <= s.len(),
        !comment_at(s, comments_end(s, i)),
        (i < s.len() ==> !unicode_whitespace(s[i])) ==> (comments_end(s, i) < s.len()
            ==> !unicode_whitespace(s[comments_end(s, i)])),
    decreases s.len() - i,
{
    if comment_at(s, i) {
        lemma_comment_end(s, i);
        lemma_run_end(s, run_end(s, i + 2, CharClass::LineBody), CharClass::Whitespace);
        lemma_comments_end(s, comment_end(s, i));
    }
}

/// The character that an escape stands for: what follows the backslash
/// decides, and only five characters are escapes.
pub open spec fn unescape(c: char) -> Option<char> {
    if c == 'n' {
        Some('\n')
    } else if c == 't' {
        Some('\t')
    } else if c == 'r' {
        Some('\r')
    } else if c == '"' {
        Some('"')
    } else if c == '\\' {
        Some('\\')
    } else {
        None
    }
}

/// The error of a character outside ASCII, `c` at `at`, where a token
/// should start.
pub open spec fn invalid_character(c: char, at: int) -> LexFailure {
    LexFailure {
        kind: LexErrorKind::InvalidCharacter,
        message: "Invalid character: '"@.push(c).push('\''),
        position: at,
    }
}

/// The error of a backslash with `c` behind it, at `at`, which is no
/// escape.
pub open spec fn unknown_escape(c: char, at: int) -> LexFailure {
    LexFailure {
        kind: LexErrorKind::UnknownEscape,
        message: "Unknown escape sequence: \\"@.push(c),
        position: at,
    }
}

/// The error of a line feed at `at` inside a string literal.
pub open spec fn unclosed_string(at: int) -> LexFailure {
    LexFailure { kind: LexErrorKind::UnclosedString, message: "Unclosed string"@, position: at }
}

/// The error of a string literal that the end of the input, at `at`, cuts
/// short.
pub open spec fn unterminated_string(at: int) -> LexFailure {
    LexFailure {
        kind: LexErrorKind::UnterminatedString,
        message: "Unterminated string constant"@,
        position: at,
    }
}

/// What reading a string literal gives.
pub enum Quoted {
    /// The literal is closed: its decoded value, and the position behind
    /// the closing quote.
    Closed { value: Seq<char>, end: int },
    /// The literal is broken: the error, which the scanner is left at.
    Broken { failure: LexFailure },
}

impl Quoted {
    /// The same outcome for a literal that has `front` before it.
    pub open spec fn behind(self, front: Seq<char>) -> Quoted {
        match self {
            Quoted::Closed { value, end } => Quoted::Closed { value: front + value, end },
            Quoted::Broken { .. } => self,
        }
    }
}

/// Reads the rest of a string literal from `i`, a position behind the
/// opening quote.  Characters stand for themselves up to the closing
/// quote, but for a backslash, which makes an escape of the character
/// behind it, and a line feed, which is not allowed.  A literal that the
/// end of the input cuts short is unterminated, behind a backslash as
/// anywhere else.
pub open spec fn quoted(s: Seq<char>, i: int) -> Quoted
    decreases s.len() - i,
{
    if !(0 <= i < s.len()) {
        Quoted::Broken { failure: unterminated_string(i) }
    } else if s[i] == '"' {
        Quoted::Closed { value: Seq::empty(), end: i + 1 }
    } else if s[i] == '\\' {
        if i + 1 >= s.len() {
            Quoted::Broken { failure: unterminated_string(i + 1) }
        } else {
            match unescape(s[i + 1]) {
                Some(c) => quoted(s, i + 2).behind(seq![c]),
                None => Quoted::Broken { failure: unknown_escape(s[i + 1], i + 1) },
            }
        }
    } else if s[i] == '\n' {
        Quoted::Broken { failure: unclosed_string(i) }
    } else {
        quoted(s, i + 1).behind(seq![s[i]])
    }
}

/// The end of the numeric literal at `i`: a run of digits and, if a dot
/// with a digit behind it follows, the dot and the digits behind it.
pub open spec fn number_end(s: Seq<char>, i: int) -> int {
    let whole = run_end(s, i, CharClass::Digit);
    if 0 <= whole && whole + 1 < s.len() && s[whole] == '.' && ascii_digit(s[whole + 1]) {
        run_end(s, whole + 1, CharClass::Digit)
    } else {
        whole
    }
}

/// The token that a word makes: one of the six keywords, or an identifier.
pub open spec fn word(text: Seq<char>) -> TokenView {
    if text == "String"@ {
        TokenView::StringType
    } else if text == "Integer"@ {
        TokenView::IntegerType
    } else if text == "Float"@ {
        TokenView::FloatType
    } else if text == "Boolean"@ {
        TokenView::BooleanType
    } else if text == "true"@ {
        TokenView::True
    } else if text == "false"@ {
        TokenView::False
    } else {
        TokenView::Ident(text)
    }
}

/// One step of the scanner.
pub enum Scan {
    /// A token, and the position behind it.
    Token { token: TokenView, end: int },
    /// A lexical error, and the position at which the scanner is left.
    Fail { failure: LexFailure, end: int },
}

impl Scan {
    /// The position at which the scanner is left.
    pub open spec fn end(self) -> int {
        match self {
            Scan::Token { end, .. } => end,
            Scan::Fail { end, .. } => end,
        }
    }
}

/// The token at `i`, a position at which no white space and no comment
/// starts.  The first character decides: punctuation, a string literal, a
/// number, a word, or a single character that is no token of the language.
/// Outside the text there is only the end of input.
pub open spec fn scan_at(s: Seq<char>, i: int) -> Scan {
    if !(0 <= i < s.len()) {
        Scan::Token { token: TokenView::EOF, end: i }
    } else if s[i] == '(' {
        Scan::Token { token: TokenView::LParen, end: i + 1 }
    } else if s[i] == ')' {
        Scan::Token { token: TokenView::RParen, end: i + 1 }
    } else if s[i] == ';' {
        Scan::Token { token: TokenView::Semicolon, end: i + 1 }
    } else if s[i] == '=' {
        Scan::Token { token: TokenView::Equals, end: i + 1 }
    } else if s[i] == '"' {
        match quoted(s, i + 1) {
            Quoted::Closed { value, end } => Scan::Token {
                token: TokenView::StringLiteral(value),
                end,
            },
            Quoted::Broken { failure } => Scan::Fail { failure, end: failure.position },
        }
    } else if ascii_digit(s[i]) {
        Scan::Token {
            token: TokenView::NumberLiteral(s.subrange(i, number_end(s, i))),
            end: number_end(s, i),
        }
    } else if ident_start(s[i]) {
        Scan::Token {
            token: word(s.subrange(i, run_end(s, i, CharClass::IdentPart))),
            end: run_end(s, i, CharClass::IdentPart),
        }
    } else if ascii(s[i]) {
        Scan::Token { token: TokenView::Illegal(s[i]), end: i + 1 }
    } else {
        Scan::Fail { failure: invalid_character(s[i], i), end: i + 1 }
    }
}

/// The next token from `i` on: what is found behind white space and comments.
pub open spec fn scan(s: Seq<char>, i: int) -> Scan {
    scan_at(s, token_start(s, i))
}

/// A string literal is left behind its opening quote at the latest, and
/// within the text.
pub proof fn lemma_quoted_end(s: Seq<char>, i: int)
    requires
        0 <= i <= s.len(),
    ensures
        match quoted(s, i) {
            Quoted::Closed { end, .. } => i < end <= s.len(),
            Quoted::Broken { failure } => i <= failure.position <= s.len(),
        },
    decreases s.len() - i,
{
    if i < s.len() {
        if s[i] == '\\' {
            if i + 1 < s.len() && unescape(s[i + 1]) is Some {
                lemma_quoted_end(s, i + 2);
            }
        } else if s[i] != '"' && s[i] != '\n' {
            lemma_quoted_end(s, i + 1);
        }
    }
}

/// A numeric literal ends within the text, and behind its first digit.
pub proof fn lemma_number_end(s: Seq<char>, i: int)
    requires
        0 <= i <= s.len(),
    ensures
        i <= number_end(s, i) <= s.len(),
        i < s.len() && ascii_digit(s[i]) ==> i < number_end(s, i),
{
    lemma_run_end(s, i, CharClass::Digit);
    let whole = run_end(s, i, CharClass::Digit);
    if whole + 1 < s.len() {
        lemma_run_end(s, whole + 1, CharClass::Digit);
    }
}

/// Every step of the scanner ends within the text; one that gives a token
/// other than the end of input, or fails, moves forward.
pub proof fn lemma_scan_end(s: Seq<char>, i: int)
    requires
        0 <= i <= s.len(),
    ensures
        i <= scan(s, i).end() <= s.len(),
        scan(s, i) matches Scan::Token { token, end } ==> (token is EOF || i < end),
        scan(s, i) matches Scan::Token { token, end } ==> (token is EOF <==> token_start(s, i) == s.len()),
{
    lemma_token_start(s, i);
    let at = token_start(s, i);
    if at < s.len() {
        lemma_quoted_end(s, at + 1);
        lemma_number_end(s, at);
        lemma_run_end(s, at, CharClass::IdentPart);
    }
}

/// What tokenizing gives: the tokens up to and with the end of input, or
/// the first lexical error; and the position at which the scanner is left.
pub struct Lexed {
    pub tokens: Result<Seq<TokenView>, LexFailure>,
    pub end: int,
}

impl Lexed {
    /// The same outcome with `front` before the tokens.
    pub open spec fn behind(self, front: Seq<TokenView>) -> Lexed {
        Lexed {
            tokens: match self.tokens {
                Ok(tokens) => Ok(front + tokens),
                Err(failure) => Err(failure),
            },
            end: self.end,
        }
    }
}

/// Tokenizes `s` from `i` on: the scanner's steps one after another, up to
/// the end of input, which is the last token, or to the first error.
pub open spec fn lex(s: Seq<char>, i: int) -> Lexed
    decreases s.len() - i,
{
    match scan(s, i) {
        Scan::Fail { failure, end } => Lexed { tokens: Err(failure), end },
        Scan::Token { token, end } => if token is EOF {
            Lexed { tokens: Ok(seq![token]), end }
        } else {
            proof {
                if 0 <= i <= s.len() {
                    lemma_scan_end(s, i);
                }
            }
            lex(s, end).behind(seq![token])
        },
    }
}

/// Tokens that tokenizing gives end with the end of input, which occurs
/// nowhere before; and the whole text was read for them.
pub proof fn lemma_lex_ends_with_end_of_input(s: Seq<char>, i: int)
    requires
        0 <= i <= s.len(),
    ensures
        i <= lex(s, i).end <= s.len(),
        lex(s, i).tokens matches Ok(tokens) ==> {
            &&& tokens.len() >= 1
            &&& tokens.last() is EOF
            &&& forall|k: int| 0 <= k < tokens.len() - 1 ==> !(#[trigger] tokens[k] is EOF)
            &&& lex(s, i).end == s.len()
        },
    decreases s.len() - i,
{
    lemma_scan_end(s, i);
    match scan(s, i) {
        Scan::Fail { .. } => {},
        Scan::Token { token, end } => {
            if !(token is EOF) {
                lemma_lex_ends_with_end_of_input(s, end);
                if let Ok(rest) = lex(s, end).tokens {
                    let tokens = seq![token] + rest;
                    assert(tokens.last() == rest.last());
                    assert forall|k: int| 0 <= k < tokens.len() - 1 implies !(
                    #[trigger] tokens[k] is EOF) by {
                        if k > 0 {
                            assert(tokens[k] == rest[k - 1]);
                        }
                    }
                }
            }
        },
    }
}

/// How a character is written in the body of a string literal: as it
/// is, but for the three that cannot stand there, which are escaped.
pub open spec fn escape_char(c: char) -> Seq<char> {
    if c == '"' {
        seq!['\\', '"']
    } else if c == '\\' {
        seq!['\\', '\\']
    } else if c == '\n' {
        seq!['\\', 'n']
    } else {
        seq![c]
    }
}

/// The body of a string literal that stands for `value`.
pub open spec fn escape(value: Seq<char>) -> Seq<char>
    decreases value.len(),
{
    if value.len() == 0 {
        Seq::empty()
    } else {
        escape_char(value.first()) + escape(value.drop_first())
    }
}

} // verus!
