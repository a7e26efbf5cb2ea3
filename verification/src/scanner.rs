//! Lexical scanning of namelist text, in two modes: whitespace filtered
//! for structural parsing, or fully preserved for format-preserving
//! rewriting.

pub mod formatting;
pub mod lexer;
pub mod scanner;
pub mod token;

pub use formatting::{BufferedFormattingPreserver, FormattingPreserver};
pub use lexer::Lexer;
pub use scanner::{scan, scan_with_whitespace, Scanner};
pub use token::{FormattingToken, Token, TokenType};
