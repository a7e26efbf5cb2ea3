//! Tokens of the namelist lexical grammar.

use vstd::prelude::*;

verus! {

/// The kind of a token.
#[derive(Debug, Clone, Copy, PartialEq, Eq, Structural)]
pub enum TokenType {
    /// Group start (`&`)
    GroupStart,
    /// Group end (`/`)
    GroupEnd,
    /// Alternative group start (`$`)
    GroupStartAlt,
    /// Alternative group end (`$`)
    GroupEndAlt,
    /// Assignment (`=`)
    Assign,
    /// Separator (`,`)
    Comma,
    /// Left parenthesis
    LeftParen,
    /// Right parenthesis
    RightParen,
    /// Colon
    Colon,
    /// Percent sign
    Percent,
    /// Plus operator
    Plus,
    /// Minus operator
    Minus,
    /// Star operator
    Star,
    /// Identifier
    Identifier,
    /// Integer literal
    Integer,
    /// Real literal
    Real,
    /// Complex literal
    Complex,
    /// Logical literal
    Logical,
    /// String literal
    String,
    /// Comment
    Comment,
    /// Whitespace run
    Whitespace,
    /// End of input
    Eof,
    /// Invalid character
    Invalid,
}

/// A token: kind, raw text, and 1-based position.
#[derive(Debug, Clone, PartialEq)]
pub struct Token {
    /// The kind of token
    pub token_type: TokenType,
    /// The raw text of the token
    pub lexeme: String,
    /// Line number (1-based)
    pub line: usize,
    /// Column number (1-based)
    pub column: usize,
}

/// Mathematical image of a token.
pub struct TokenModel {
    pub kind: TokenType,
    pub text: Seq<char>,
    pub line: int,
    pub column: int,
}

impl Token {
    /// The model of this token.
    pub open spec fn deep_view(&self) -> TokenModel {
        TokenModel {
            kind: self.token_type,
            text: self.lexeme@,
            line: self.line as int,
            column: self.column as int,
        }
    }

    /// Build a token.
    pub fn new(token_type: TokenType, lexeme: String, line: usize, column: usize) -> (r: Token)
        ensures
            r.deep_view() == (TokenModel {
                kind: token_type,
                text: lexeme@,
                line: line as int,
                column: column as int,
            }),
    {
        Token { token_type, lexeme, line, column }
    }
}

/// A token together with the formatting that surrounds it in the text.
#[derive(Debug, Clone, PartialEq)]
pub struct FormattingToken {
    /// The token itself
    pub token: Token,
    /// Whitespace and comments that follow the token
    pub trailing_whitespace: String,
    /// Whether the token starts a new line
    pub starts_new_line: bool,
    /// Indentation carried in front of the token
    pub indentation: String,
}

impl FormattingToken {
    /// Wrap a token with empty formatting.
    pub fn new(token: Token) -> (r: FormattingToken)
        ensures
            r.token == token,
            r.trailing_whitespace@ == Seq::<char>::empty(),
            !r.starts_new_line,
            r.indentation@ == Seq::<char>::empty(),
    {
        FormattingToken {
            token,
            trailing_whitespace: String::new(),
            starts_new_line: false,
            indentation: String::new(),
        }
    }

    /// The same token with the given trailing text.
    pub fn with_trailing_whitespace(self, whitespace: String) -> (r: FormattingToken)
        ensures
            r.token == self.token,
            r.trailing_whitespace == whitespace,
            r.starts_new_line == self.starts_new_line,
            r.indentation == self.indentation,
    {
        FormattingToken { trailing_whitespace: whitespace, ..self }
    }

    /// The same token with the given indentation.
    pub fn with_indentation(self, indentation: String) -> (r: FormattingToken)
        ensures
            r.token == self.token,
            r.trailing_whitespace == self.trailing_whitespace,
            r.starts_new_line == self.starts_new_line,
            r.indentation == indentation,
    {
        FormattingToken { indentation, ..self }
    }

    /// The same token with the line flag set as given.
    pub fn with_new_line(self, starts_new_line: bool) -> (r: FormattingToken)
        ensures
            r.token == self.token,
            r.trailing_whitespace == self.trailing_whitespace,
            r.starts_new_line == starts_new_line,
            r.indentation == self.indentation,
    {
        FormattingToken { starts_new_line, ..self }
    }
}

} // verus!
