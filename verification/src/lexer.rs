//! The tokenizer.

use vstd::prelude::*;
use crate::chars::{
    ascii_digit, is_ascii, is_ascii_digit, is_ident_start, lemma_run_end, run_end, CharClass,
};
use crate::scan::{
    comments_end, invalid_character, lemma_comment_end, lemma_lex_ends_with_end_of_input,
    lemma_scan_end, lex, number_end, quoted, scan, unclosed_string, unescape, unknown_escape,
    unterminated_string, word, Quoted, Scan,
};
use crate::text::{chars_of, same_text};

verus! {

/// One lexical unit of the source text.
#[derive(Debug, Clone, PartialEq, Eq)]
pub enum Token {
    /// A name that is no keyword.
    Ident(String),
    /// A string literal, with its escapes decoded.
    StringLiteral(String),
    /// A numeric literal, as it is written.
    NumberLiteral(String),
    LParen,
    RParen,
    Semicolon,
    Equals,
    /// The end of the input.
    EOF,
    /// An ASCII character that begins no token.
    Illegal(char),
    /// The keyword `String`.
    StringType,
    /// The keyword `Integer`.
    IntegerType,
    /// The keyword `Float`.
    FloatType,
    /// The keyword `Boolean`.
    BooleanType,
    /// The keyword `true`.
    True,
    /// The keyword `false`.
    False,
}

/// A token as contracts see it: text is a sequence of characters.
pub enum TokenView {
    Ident(Seq<char>),
    StringLiteral(Seq<char>),
    NumberLiteral(Seq<char>),
    LParen,
    RParen,
    Semicolon,
    Equals,
    EOF,
    Illegal(char),
    StringType,
    IntegerType,
    FloatType,
    BooleanType,
    True,
    False,
}

impl View for Token {
    type V = TokenView;

    open spec fn view(&self) -> TokenView {
        match self {
            Token::Ident(name) => TokenView::Ident(name@),
            Token::StringLiteral(value) => TokenView::StringLiteral(value@),
            Token::NumberLiteral(text) => TokenView::NumberLiteral(text@),
            Token::LParen => TokenView::LParen,
            Token::RParen => TokenView::RParen,
            Token::Semicolon => TokenView::Semicolon,
            Token::Equals => TokenView::Equals,
            Token::EOF => TokenView::EOF,
            Token::Illegal(c) => TokenView::Illegal(*c),
            Token::StringType => TokenView::StringType,
            Token::IntegerType => TokenView::IntegerType,
            Token::FloatType => TokenView::FloatType,
            Token::BooleanType => TokenView::BooleanType,
            Token::True => TokenView::True,
            Token::False => TokenView::False,
        }
    }
}

/// The views of a sequence of tokens.
pub open spec fn token_views(tokens: Seq<Token>) -> Seq<TokenView> {
    Seq::new(tokens.len(), |i: int| tokens[i]@)
}

/// What went wrong in the source text.
#[derive(Debug, Clone, Copy, PartialEq, Eq, Structural)]
pub enum LexErrorKind {
    /// A character outside ASCII, where a token should start.
    InvalidCharacter,
    /// A backslash in a string literal with a character behind it that is
    /// no escape.
    UnknownEscape,
    /// A line feed inside a string literal.
    UnclosedString,
    /// The end of the input inside a string literal, which is then left
    /// without its closing quote.
    UnterminatedString,
}

/// A lexical error: what went wrong, in words, and the position of the
/// character that the scanner could not take.
#[derive(Debug, Clone, PartialEq, Eq)]
pub struct LexError {
    pub kind: LexErrorKind,
    pub message: String,
    pub position: usize,
}

/// A lexical error as contracts see it.
pub struct LexFailure {
    pub kind: LexErrorKind,
    pub message: Seq<char>,
    pub position: int,
}

impl View for LexError {
    type V = LexFailure;

    open spec fn view(&self) -> LexFailure {
        LexFailure { kind: self.kind, message: self.message@, position: self.position as int }
    }
}

impl LexError {
    /// The error [`invalid_character`].
    fn invalid_character(c: char, position: usize) -> (error: LexError)
        ensures
            error@ == invalid_character(c, position as int),
    {
        let mut message = String::from_str("Invalid character: '");
        message.push(c);
        message.push('\'');
        LexError { kind: LexErrorKind::InvalidCharacter, message, position }
    }

    /// The error [`unknown_escape`].
    fn unknown_escape(c: char, position: usize) -> (error: LexError)
        ensures
            error@ == unknown_escape(c, position as int),
    {
        let mut message = String::from_str("Unknown escape sequence: \\");
        message.push(c);
        LexError { kind: LexErrorKind::UnknownEscape, message, position }
    }

    /// The error [`unclosed_string`].
    fn unclosed_string(position: usize) -> (error: LexError)
        ensures
            error@ == unclosed_string(position as int),
    {
        LexError {
            kind: LexErrorKind::UnclosedString,
            message: String::from_str("Unclosed string"),
            position,
        }
    }

    /// The error [`unterminated_string`].
    fn unterminated_string(position: usize) -> (error: LexError)
        ensures
            error@ == unterminated_string(position as int),
    {
        LexError {
            kind: LexErrorKind::UnterminatedString,
            message: String::from_str("Unterminated string constant"),
            position,
        }
    }
}

/// The token that a word makes: a keyword's token, or an identifier.
fn classify(text: String) -> (token: Token)
    ensures
        token@ == word(text@),
{
    if same_text(text.as_str(), "String") {
        Token::StringType
    } else if same_text(text.as_str(), "Integer") {
        Token::IntegerType
    } else if same_text(text.as_str(), "Float") {
        Token::FloatType
    } else if same_text(text.as_str(), "Boolean") {
        Token::BooleanType
    } else if same_text(text.as_str(), "true") {
        Token::True
    } else if same_text(text.as_str(), "false") {
        Token::False
    } else {
        Token::Ident(text)
    }
}

/// Decides [`unescape`].
fn decode_escape(c: char) -> (decoded: Option<char>)
    ensures
        decoded == unescape(c),
{
    if c == 'n' {
        Some('\n')
    } else if c == 't' {
        Some('\t')
    } else if c == 'r' {
        Some('\r')
    } else if c == '"' {
        Some('"')
    } else if c == '\\' {
        Some('\\')
    } else {
        None
    }
}

/// Writes `value` as the body of a string literal: a quote, a backslash
/// and a line feed are escaped, every other character stands as it is.
/// Between two quotes the scanner reads the body back as a literal that
/// stands for `value`.
pub fn escape(value: &str) -> (body: String)
    ensures
        body@ == crate::scan::escape(value@),
{
    let chars = chars_of(value);
    let mut body = String::new();
    let mut i: usize = 0;
    assert(chars@.subrange(0, chars@.len() as int) =~= chars@);
    while i < chars.len()
        invariant
            i <= chars.len(),
            chars@ == value@,
            crate::scan::escape(chars@) == body@ + crate::scan::escape(
                chars@.subrange(i as int, chars@.len() as int),
            ),
        decreases chars.len() - i,
    {
        let c = chars[i];
        let ghost front = body@;
        let ghost rest = chars@.subrange(i as int, chars@.len() as int);
        assert(rest.first() == c);
        assert(rest.drop_first() =~= chars@.subrange(i as int + 1, chars@.len() as int));
        if c == '"' {
            body.push('\\');
            body.push('"');
        } else if c == '\\' {
            body.push('\\');
            body.push('\\');
        } else if c == '\n' {
            body.push('\\');
            body.push('n');
        } else {
            body.push(c);
        }
        assert(body@ =~= front + crate::scan::escape_char(c));
        assert(front + (crate::scan::escape_char(c) + crate::scan::escape(rest.drop_first()))
            =~= front + crate::scan::escape_char(c) + crate::scan::escape(rest.drop_first()));
        i += 1;
    }
    assert(body@ + Seq::<char>::empty() =~= body@);
    body
}

/// A scanner over a source text: the text, and the position of the next
/// character to read.
pub struct Lexer {
    input: Vec<char>,
    position: usize,
}

impl Lexer {
    #[verifier::type_invariant]
    spec fn within_input(&self) -> bool {
        self.position <= self.input.len()
    }

    /// The source text.
    pub closed spec fn source(&self) -> Seq<char> {
        self.input@
    }

    /// The position of the next character to read.
    pub closed spec fn offset(&self) -> int {
        self.position as int
    }

    /// A scanner at the start of `input`.
    pub fn new(input: &str) -> (lexer: Self)
        ensures
            lexer.source() == input@,
            lexer.offset() == 0,
    {
        Lexer { input: chars_of(input), position: 0 }
    }

    /// The next character, if there is one.
    fn peek(&self) -> (next: Option<char>)
        ensures
            self.offset() <= self.source().len(),
            next == (if self.offset() < self.source().len() {
                Some(self.source()[self.offset()])
            } else {
                None
            }),
    {
        proof {
            use_type_invariant(self);
        }
        if self.position < self.input.len() {
            Some(self.input[self.position])
        } else {
            None
        }
    }

    /// The character behind the next one, if there is one.
    fn peek_second(&self) -> (second: Option<char>)
        ensures
            second == (if self.offset() + 1 < self.source().len() {
                Some(self.source()[self.offset() + 1])
            } else {
                None
            }),
    {
        proof {
            use_type_invariant(self);
        }
        if self.position < self.input.len() && self.position + 1 < self.input.len() {
            Some(self.input[self.position + 1])
        } else {
            None
        }
    }

    /// Reads the next character, if there is one.
    fn advance(&mut self) -> (next: Option<char>)
        ensures
            final(self).source() == old(self).source(),
            next == (if old(self).offset() < old(self).source().len() {
                Some(old(self).source()[old(self).offset()])
            } else {
                None
            }),
            final(self).offset() == (if next is Some {
                old(self).offset() + 1
            } else {
                old(self).offset()
            }),
    {
        if self.position < self.input.len() {
            let c = self.input[self.position];
            self.position += 1;
            Some(c)
        } else {
            None
        }
    }

    /// Reads the run of characters of `class` at the scanner's position.
    fn skip_run(&mut self, class: CharClass)
        ensures
            final(self).source() == old(self).source(),
            final(self).offset() == run_end(old(self).source(), old(self).offset(), class),
    {
        proof {
            use_type_invariant(&*self);
        }
        loop
            invariant
                self.input@ == old(self).input@,
                old(self).position <= self.position <= self.input.len(),
                run_end(self.input@, self.position as int, class) == run_end(
                    self.input@,
                    old(self).position as int,
                    class,
                ),
            ensures
                self.position as int == run_end(self.input@, old(self).position as int, class),
            decreases self.input.len() - self.position,
        {
            match self.peek() {
                Some(c) => {
                    if class.contains(c) {
                        self.advance();
                    } else {
                        break;
                    }
                },
                None => {
                    break;
                },
            }
        }
    }

    /// Reads the white space at the scanner's position.
    fn skip_whitespace(&mut self)
        ensures
            final(self).source() == old(self).source(),
            final(self).offset() == run_end(
                old(self).source(),
                old(self).offset(),
                CharClass::Whitespace,
            ),
    {
        self.skip_run(CharClass::Whitespace);
    }

    /// Reads the line comments at the scanner's position, each with the
    /// white space behind it.
    fn skip_comments(&mut self)
        ensures
            final(self).source() == old(self).source(),
            final(self).offset() == comments_end(old(self).source(), old(self).offset()),
    {
        proof {
            use_type_invariant(&*self);
        }
        loop
            invariant
                self.input@ == old(self).input@,
                self.position <= self.input.len(),
                comments_end(self.input@, self.position as int) == comments_end(
                    self.input@,
                    old(self).position as int,
                ),
            ensures
                self.input@ == old(self).input@,
                self.position as int == comments_end(self.input@, old(self).position as int),
            decreases self.input.len() - self.position,
        {
            let first = self.peek();
            let second = self.peek_second();
            if first == Some('/') && second == Some('/') {
                proof {
                    lemma_comment_end(self.input@, self.position as int);
                }
                self.advance();
                self.advance();
                self.skip_run(CharClass::LineBody);
                self.skip_whitespace();
            } else {
                break;
            }
        }
    }

    /// Reads the run of identifier characters at the scanner's position,
    /// and gives it back.
    fn read_ident(&mut self) -> (ident: String)
        ensures
            final(self).source() == old(self).source(),
            final(self).offset() == run_end(
                old(self).source(),
                old(self).offset(),
                CharClass::IdentPart,
            ),
            old(self).offset() <= final(self).offset() <= old(self).source().len(),
            ident@ == old(self).source().subrange(old(self).offset(), final(self).offset()),
    {
        proof {
            use_type_invariant(&*self);
        }
        let mut ident = String::new();
        loop
            invariant
                self.input@ == old(self).input@,
                old(self).position <= self.position <= self.input.len(),
                run_end(self.input@, self.position as int, CharClass::IdentPart) == run_end(
                    self.input@,
                    old(self).position as int,
                    CharClass::IdentPart,
                ),
                ident@ == self.input@.subrange(old(self).position as int, self.position as int),
            ensures
                self.input@ == old(self).input@,
                old(self).position <= self.position <= self.input.len(),
                self.position as int == run_end(
                    self.input@,
                    old(self).position as int,
                    CharClass::IdentPart,
                ),
                ident@ == self.input@.subrange(old(self).position as int, self.position as int),
            decreases self.input.len() - self.position,
        {
            match self.peek() {
                Some(c) => {
                    if CharClass::IdentPart.contains(c) {
                        ident.push(c);
                        self.advance();
                        assert(ident@ =~= self.input@.subrange(
                            old(self).position as int,
                            self.position as int,
                        ));
                    } else {
                        break;
                    }
                },
                None => {
                    break;
                },
            }
        }
        ident
    }

    /// Reads the numeric literal at the scanner's position, and gives it
    /// back as it is written.
    fn read_number(&mut self) -> (number: String)
        ensures
            final(self).source() == old(self).source(),
            final(self).offset() == number_end(old(self).source(), old(self).offset()),
            old(self).offset() <= final(self).offset() <= old(self).source().len(),
            number@ == old(self).source().subrange(old(self).offset(), final(self).offset()),
    {
        proof {
            use_type_invariant(&*self);
        }
        let ghost s = self.input@;
        let ghost start = self.position as int;
        let ghost whole = run_end(s, start, CharClass::Digit);
        proof {
            lemma_run_end(s, start, CharClass::Digit);
            if whole + 1 < s.len() {
                lemma_run_end(s, whole + 1, CharClass::Digit);
            }
        }
        let mut number = String::new();
        let mut has_dot = false;
        loop
            invariant
                self.input@ == s,
                start == old(self).position,
                whole == run_end(s, start, CharClass::Digit),
                start <= whole <= s.len(),
                start <= self.position <= s.len(),
                number@ == s.subrange(start, self.position as int),
                !has_dot ==> self.position <= whole && run_end(
                    s,
                    self.position as int,
                    CharClass::Digit,
                ) == whole,
                has_dot ==> whole + 1 < s.len() && s[whole] == '.' && ascii_digit(s[whole + 1])
                    && whole + 1 <= self.position && run_end(
                    s,
                    self.position as int,
                    CharClass::Digit,
                ) == run_end(s, whole + 1, CharClass::Digit),
            ensures
                self.input@ == s,
                start <= self.position <= s.len(),
                number@ == s.subrange(start, self.position as int),
                self.position as int == number_end(s, start),
            decreases s.len() - self.position,
        {
            match self.peek() {
                Some(ch) => {
                    if is_ascii_digit(ch) {
                        proof {
                            lemma_run_end(s, self.position as int + 1, CharClass::Digit);
                        }
                        number.push(ch);
                        self.advance();
                        assert(number@ =~= s.subrange(start, self.position as int));
                    } else if ch == '.' && !has_dot {
                        match self.peek_second() {
                            Some(next) => {
                                if is_ascii_digit(next) {
                                    number.push(ch);
                                    self.advance();
                                    has_dot = true;
                                    assert(number@ =~= s.subrange(start, self.position as int));
                                } else {
                                    break;
                                }
                            },
                            None => {
                                break;
                            },
                        }
                    } else {
                        break;
                    }
                },
                None => {
                    break;
                },
            }
        }
        number
    }

    /// Reads a string literal whose opening quote is the next character:
    /// takes that character, then reads up to the closing quote, as
    /// [`quoted`] says, and gives back the value that the literal stands
    /// for.  After an error the scanner stands at the character that it
    /// could not take.
    pub fn read_string(&mut self) -> (r: Result<String, LexError>)
        ensures
            final(self).source() == old(self).source(),
            match quoted(
                old(self).source(),
                if old(self).offset() < old(self).source().len() {
                    old(self).offset() + 1
                } else {
                    old(self).offset()
                },
            ) {
                Quoted::Closed { value, end } => r matches Ok(text) && text@ == value
                    && final(self).offset() == end,
                Quoted::Broken { failure } => r matches Err(e) && e@ == failure
                    && final(self).offset() == failure.position,
            },
    {
        self.advance();
        proof {
            use_type_invariant(&*self);
        }
        let ghost s = self.input@;
        let ghost start = self.position as int;
        let mut string = String::new();
        loop
            invariant
                self.input@ == s,
                s == old(self).input@,
                start == (if old(self).position < s.len() {
                    old(self).position + 1
                } else {
                    old(self).position as int
                }),
                start <= self.position <= s.len(),
                quoted(s, start) == quoted(s, self.position as int).behind(string@),
            decreases s.len() - self.position,
        {
            let ghost here = self.position as int;
            let ghost front = string@;
            match self.peek() {
                None => {
                    return Err(LexError::unterminated_string(self.position));
                },
                Some(ch) => {
                    if ch == '"' {
                        self.advance();
                        assert(front + Seq::<char>::empty() =~= front);
                        return Ok(string);
                    } else if ch == '\\' {
                        self.advance();
                        match self.peek() {
                            Some(c) => {
                                match decode_escape(c) {
                                    Some(decoded) => {
                                        string.push(decoded);
                                        self.advance();
                                        assert(quoted(s, here + 2).behind(seq![decoded]).behind(front)
                                            == quoted(s, here + 2).behind(string@)) by {
                                            if let Quoted::Closed { value, end } = quoted(s, here + 2) {
                                                assert(front + (seq![decoded] + value)
                                                    =~= front.push(decoded) + value);
                                            }
                                        }
                                    },
                                    None => {
                                        return Err(LexError::unknown_escape(c, self.position));
                                    },
                                }
                            },
                            None => {
                                return Err(LexError::unterminated_string(self.position));
                            },
                        }
                    } else if ch == '\n' {
                        return Err(LexError::unclosed_string(self.position));
                    } else {
                        string.push(ch);
                        self.advance();
                        assert(quoted(s, here + 1).behind(seq![ch]).behind(front) == quoted(
                            s,
                            here + 1,
                        ).behind(string@)) by {
                            if let Quoted::Closed { value, end } = quoted(s, here + 1) {
                                assert(front + (seq![ch] + value) =~= front.push(ch) + value);
                            }
                        }
                    }
                },
            }
        }
    }

    /// Reads the next token: skips white space and comments, then takes
    /// the token that the next character begins, as [`scan`] says.  A
    /// lexical error is given back in place of the token; the scanner is
    /// then left where [`scan`] says.
    pub fn next_token(&mut self) -> (r: Result<Token, LexError>)
        ensures
            final(self).source() == old(self).source(),
            final(self).offset() == scan(old(self).source(), old(self).offset()).end(),
            match scan(old(self).source(), old(self).offset()) {
                Scan::Token { token, .. } => r matches Ok(t) && t@ == token,
                Scan::Fail { failure, .. } => r matches Err(e) && e@ == failure,
            },
    {
        self.skip_whitespace();
        self.skip_comments();
        match self.peek() {
            None => Ok(Token::EOF),
            Some(ch) => {
                if ch == '(' {
                    self.advance();
                    Ok(Token::LParen)
                } else if ch == ')' {
                    self.advance();
                    Ok(Token::RParen)
                } else if ch == ';' {
                    self.advance();
                    Ok(Token::Semicolon)
                } else if ch == '=' {
                    self.advance();
                    Ok(Token::Equals)
                } else if ch == '"' {
                    match self.read_string() {
                        Ok(value) => Ok(Token::StringLiteral(value)),
                        Err(error) => Err(error),
                    }
                } else if is_ascii_digit(ch) {
                    Ok(Token::NumberLiteral(self.read_number()))
                } else if is_ident_start(ch) {
                    Ok(classify(self.read_ident()))
                } else if is_ascii(ch) {
                    self.advance();
                    Ok(Token::Illegal(ch))
                } else {
                    let error = LexError::invalid_character(ch, self.position);
                    self.advance();
                    Err(error)
                }
            },
        }
    }

    /// Tokenizes the rest of the source text: the tokens up to and with
    /// the end of input, or the first lexical error.
    pub fn tokenize(&mut self) -> (r: Result<Vec<Token>, LexError>)
        ensures
            final(self).source() == old(self).source(),
            final(self).offset() == lex(old(self).source(), old(self).offset()).end,
            match lex(old(self).source(), old(self).offset()).tokens {
                Ok(tokens) => r matches Ok(v) && token_views(v@) == tokens,
                Err(failure) => r matches Err(e) && e@ == failure,
            },
            r matches Ok(v) ==> {
                &&& v@.len() >= 1
                &&& v@.last()@ is EOF
                &&& forall|k: int| 0 <= k < v@.len() - 1 ==> !(#[trigger] v@[k]@ is EOF)
                &&& final(self).offset() == old(self).source().len()
            },
    {
        proof {
            use_type_invariant(&*self);
        }
        let ghost s = self.input@;
        let ghost start = self.position as int;
        let mut tokens: Vec<Token> = Vec::new();
        assert(token_views(tokens@) =~= Seq::<TokenView>::empty());
        assert(lex(s, start).behind(Seq::<TokenView>::empty()) == lex(s, start)) by {
            if let Ok(ts) = lex(s, start).tokens {
                assert(Seq::<TokenView>::empty() + ts =~= ts);
            }
        }
        loop
            invariant
                self.input@ == s,
                s == old(self).input@,
                start == old(self).position,
                0 <= start <= self.position <= s.len(),
                lex(s, start) == lex(s, self.position as int).behind(token_views(tokens@)),
            decreases s.len() - self.position,
        {
            let ghost here = self.position as int;
            let ghost front = token_views(tokens@);
            proof {
                lemma_scan_end(s, here);
            }
            match self.next_token() {
                Err(error) => {
                    return Err(error);
                },
                Ok(token) => {
                    let is_eof = match token {
                        Token::EOF => true,
                        _ => false,
                    };
                    let ghost view = token@;
                    tokens.push(token);
                    assert(token_views(tokens@) =~= front.push(view));
                    if is_eof {
                        proof {
                            assert(front + seq![view] =~= front.push(view));
                            lemma_lex_ends_with_end_of_input(s, start);
                            let views = token_views(tokens@);
                            assert(views.last() == tokens@.last()@);
                            assert forall|k: int| 0 <= k < tokens@.len() - 1 implies !(
                            #[trigger] tokens@[k]@ is EOF) by {
                                assert(views[k] == tokens@[k]@);
                            }
                        }
                        return Ok(tokens);
                    }
                    assert(lex(s, self.position as int).behind(seq![view]).behind(front) == lex(
                        s,
                        self.position as int,
                    ).behind(front.push(view))) by {
                        if let Ok(ts) = lex(s, self.position as int).tokens {
                            assert(front + (seq![view] + ts) =~= front.push(view) + ts);
                        }
                    }
                },
            }
        }
    }
}

} // verus!
