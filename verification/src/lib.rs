//! Front end of a compiler for Cool, the Classroom Object-Oriented Language.
//!
//! Source text is scanned into located tokens, tokens are parsed into a parse
//! tree, and both can be written out in the textual dump format that the tools
//! of the Cool course exchange.
//!
//! - [`lexer`] scans: [`lexer::lex_tokens`] turns source text into tokens.
//! - [`tokens`] holds the tokens and writes the token dump.
//! - [`parser`] parses: [`parser::parse_program`] turns tokens into a tree.
//! - [`ptree`] holds the tree; [`ptree::format`] writes the tree dump, and
//!   [`ptree::printer`] writes it under a file label of the caller's choice.
//!
//! Every function states what it returns over a mathematical model: text is
//! a sequence of characters, the scanner and the parser are spec functions of
//! that text and of the token sequence, and the dumps are spec functions of
//! the values of tokens and trees.

pub mod lexer;
pub mod parser;
pub mod ptree;
pub mod tokens;
pub mod util;
