//! The front end of a compiler for a small scripting language: a tokenizer
//! and a recursive-descent parser that checks each declaration's literal
//! against its declared type.
//!
//! Every executable function carries a contract over a mathematical model
//! of its data: source text is a `Seq<char>`, a token sequence a
//! `Seq<TokenView>`, a program a `Seq<StmtView>`.  The lexical rules are
//! written down in [`scan`], the grammar in [`grammar`]; [`lexer`] and
//! [`parser`] implement them, and [`laws`] proves what holds of them on
//! every input.
//!
//! ```text
//! source text --Lexer::tokenize--> tokens --Parser::parse--> program
//! ```

pub mod chars;
pub mod text;
pub mod number;
pub mod render;
pub mod scan;
pub mod lexer;
pub mod grammar;
pub mod parser;
pub mod laws;
