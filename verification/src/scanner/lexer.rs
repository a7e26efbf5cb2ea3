//! The lexer: one token per call from a cursor over the input text.
//! Every token's text is exactly the span of characters it consumed, so
//! a scan of the whole input partitions the text.

use vstd::prelude::*;

verus! {

use crate::error::F90nmlError;
use crate::scanner::token::Token;
use crate::scanner::token::TokenType;
use crate::text::spec_is_space;
use crate::text::spec_is_digit;
use crate::text::spec_is_alpha;
use crate::text::chars_to_string;
use crate::text::subvec;

/// 1-based line number of a position: one more than the newlines before it.
pub open spec fn spec_line_at(s: Seq<char>, pos: int) -> int
    decreases pos,
{
    if pos <= 0 {
        1
    } else if s[pos - 1] == '\n' {
        spec_line_at(s, pos - 1) + 1
    } else {
        spec_line_at(s, pos - 1)
    }
}

/// 1-based column number of a position: distance past the last newline.
pub open spec fn spec_col_at(s: Seq<char>, pos: int) -> int
    decreases pos,
{
    if pos <= 0 {
        1
    } else if s[pos - 1] == '\n' {
        1
    } else {
        spec_col_at(s, pos - 1) + 1
    }
}

/// Lines and columns stay within one past the position.
pub proof fn lemma_line_col_bounds(s: Seq<char>, pos: int)
    requires
        pos >= 0,
    ensures
        1 <= spec_line_at(s, pos) <= pos + 1,
        1 <= spec_col_at(s, pos) <= pos + 1,
    decreases pos,
{
    if pos > 0 {
        lemma_line_col_bounds(s, pos - 1);
    }
}


/// End of the whitespace run starting at a position.
pub open spec fn spec_space_end(s: Seq<char>, i: int) -> int
    decreases s.len() - i,
{
    if i < 0 || i >= s.len() || !spec_is_space(s[i]) {
        i
    } else {
        spec_space_end(s, i + 1)
    }
}

/// End of the digit run starting at a position.
pub open spec fn spec_digits_end(s: Seq<char>, i: int) -> int
    decreases s.len() - i,
{
    if i < 0 || i >= s.len() || !spec_is_digit(s[i]) {
        i
    } else {
        spec_digits_end(s, i + 1)
    }
}

/// End of the run of identifier characters (and quote characters when
/// undelimited strings are accepted) starting at a position.
pub open spec fn spec_word_end(s: Seq<char>, i: int, nds: bool) -> int
    decreases s.len() - i,
{
    if i < 0 || i >= s.len() || !(crate::text::spec_is_alnum(s[i]) || (nds && (s[i] == '\''
        || s[i] == '"'))) {
        i
    } else {
        spec_word_end(s, i + 1, nds)
    }
}

/// End of the run of letters, digits and underscores at a position.
pub open spec fn spec_alnum_end(s: Seq<char>, i: int) -> int
    decreases s.len() - i,
{
    if i < 0 || i >= s.len() || !crate::text::spec_is_alnum(s[i]) {
        i
    } else {
        spec_alnum_end(s, i + 1)
    }
}

/// Whether a character marks an exponent.
pub open spec fn spec_is_marker(c: char) -> bool {
    c == 'e' || c == 'E' || c == 'd' || c == 'D'
}

/// End of an optional kind suffix at a position: an underscore, then a
/// name or digits.
pub open spec fn spec_kind_end(s: Seq<char>, i: int) -> int {
    if 0 <= i < s.len() && s[i] == '_' {
        if i + 1 < s.len() && spec_is_alpha(s[i + 1]) {
            spec_alnum_end(s, i + 1)
        } else {
            spec_digits_end(s, i + 1)
        }
    } else {
        i
    }
}

/// End of an optional tolerant exponent at a position: a marker, an
/// optional sign, and however many digits follow.
pub open spec fn spec_exp_end(s: Seq<char>, i: int) -> int {
    if 0 <= i < s.len() && spec_is_marker(s[i]) {
        let j = if i + 1 < s.len() && (s[i + 1] == '+' || s[i + 1] == '-') {
            i + 2
        } else {
            i + 1
        };
        spec_digits_end(s, j)
    } else {
        i
    }
}

/// End of a signed number's continuation: digits, an optional fraction,
/// a tolerant exponent, and a kind suffix.
pub open spec fn spec_cont_end(s: Seq<char>, i: int) -> int {
    let a = spec_digits_end(s, i);
    let b = if 0 <= a < s.len() && s[a] == '.' {
        spec_digits_end(s, a + 1)
    } else {
        a
    };
    spec_kind_end(s, spec_exp_end(s, b))
}

/// Whether the span holds a decimal point, exponent marker or kind
/// suffix: what makes a signed numeral a real.
pub open spec fn spec_has_real_mark(s: Seq<char>, a: int, b: int) -> bool {
    exists|j: int|
        a <= j < b && ((#[trigger] s[j]) == '.' || spec_is_marker(s[j]) || s[j] == '_')
}

/// Scanning a string body from a position: the cursor after the
/// matching close quote (doubled quotes escape; the end of input closes
/// silently), or nothing when a newline comes first.
pub open spec fn spec_string_scan(s: Seq<char>, i: int, q: char) -> Option<int>
    decreases s.len() - i,
{
    if i < 0 || i >= s.len() {
        Some(i)
    } else if s[i] == '\n' {
        None
    } else if s[i] == q {
        if i + 1 < s.len() && s[i + 1] == q {
            spec_string_scan(s, i + 2, q)
        } else {
            Some(i + 1)
        }
    } else {
        spec_string_scan(s, i + 1, q)
    }
}

/// Scanning a number after its first digit: the end cursor and whether
/// the token is real (a fraction, exponent or kind suffix appeared), or
/// nothing when an exponent marker has no digits.
pub open spec fn spec_number_scan(s: Seq<char>, i: int) -> Option<(int, bool)> {
    let a = spec_digits_end(s, i);
    let dotted = 0 <= a < s.len() && s[a] == '.' && a + 1 < s.len() && (spec_is_digit(s[a + 1])
        || spec_is_marker(s[a + 1]));
    let b = if dotted {
        spec_digits_end(s, a + 1)
    } else {
        a
    };
    if 0 <= b < s.len() && spec_is_marker(s[b]) {
        let j = if b + 1 < s.len() && (s[b + 1] == '+' || s[b + 1] == '-') {
            b + 2
        } else {
            b + 1
        };
        if 0 <= j < s.len() && spec_is_digit(s[j]) {
            Some((spec_kind_end(s, spec_digits_end(s, j)), true))
        } else {
            None
        }
    } else {
        let suffixed = 0 <= b < s.len() && s[b] == '_';
        Some((spec_kind_end(s, b), dotted || suffixed))
    }
}

/// Scanning after a sign at position `p`: a signed numeral is one
/// token, real exactly when it carries a mark; a sign before letters is
/// an identifier; anything else leaves the bare operator.
pub open spec fn spec_sign_scan(s: Seq<char>, p: int, nds: bool) -> (TokenType, int) {
    let i = p + 1;
    if 0 <= i < s.len() && spec_is_digit(s[i]) {
        let e = spec_cont_end(s, i);
        ((if spec_has_real_mark(s, p, e) {
            TokenType::Real
        } else {
            TokenType::Integer
        }), e)
    } else if 0 <= i < s.len() && s[i] == '.' && i + 1 < s.len() && spec_is_digit(s[i + 1]) {
        (TokenType::Real, spec_cont_end(s, i + 1))
    } else if 0 <= i < s.len() && spec_is_alpha(s[i]) {
        (TokenType::Identifier, spec_word_end(s, i, nds))
    } else {
        ((if 0 <= p < s.len() && s[p] == '+' {
            TokenType::Plus
        } else {
            TokenType::Minus
        }), i)
    }
}

/// Scanning after a dot at position `p`: digits make a real (with an
/// optional exponent); letters make a logical when they start `t`/`f`,
/// else an identifier, taking an optional closing dot; a lone dot is
/// invalid.
pub open spec fn spec_dot_scan(s: Seq<char>, p: int) -> (TokenType, int) {
    let i = p + 1;
    if 0 <= i < s.len() && spec_is_digit(s[i]) {
        (TokenType::Real, spec_exp_end(s, spec_digits_end(s, i)))
    } else if 0 <= i < s.len() && spec_is_alpha(s[i]) {
        let w = spec_alnum_end(s, i);
        let e = if 0 <= w < s.len() && s[w] == '.' {
            w + 1
        } else {
            w
        };
        ((if crate::text::spec_lower(s[i]) == 't' || crate::text::spec_lower(s[i]) == 'f' {
            TokenType::Logical
        } else {
            TokenType::Identifier
        }), e)
    } else {
        (TokenType::Invalid, i)
    }
}

/// Scanning an identifier whose first character sits at `p`: the
/// logical spellings are recognised whole.
pub open spec fn spec_ident_scan(s: Seq<char>, p: int, nds: bool) -> (TokenType, int) {
    let e = spec_word_end(s, p + 1, nds);
    let lw = crate::text::spec_lower_seq(s.subrange(p, e));
    ((if lw == "true"@ || lw == "t"@ || lw == "false"@ || lw == "f"@ {
        TokenType::Logical
    } else {
        TokenType::Identifier
    }), e)
}

/// End of a comment: the next newline, or the end of input.
pub open spec fn spec_comment_end(s: Seq<char>, i: int) -> int
    decreases s.len() - i,
{
    if i < 0 || i >= s.len() || s[i] == '\n' {
        i
    } else {
        spec_comment_end(s, i + 1)
    }
}

/// One token scanned at a position: its kind and end cursor, or
/// nothing on a lexical error (an unterminated string or an exponent
/// with no digits). The end of input is the end marker; an
/// unrecognised character is an `Invalid` token, not an error.
pub open spec fn spec_scan_token(s: Seq<char>, pos: int, ct: Seq<char>, nds: bool) -> Option<
    (TokenType, int),
> {
    if pos < 0 || pos >= s.len() {
        Some((TokenType::Eof, pos))
    } else {
        let c = s[pos];
        if spec_is_space(c) {
            Some((TokenType::Whitespace, spec_space_end(s, pos)))
        } else if c == '&' {
            Some((TokenType::GroupStart, pos + 1))
        } else if c == '$' {
            Some((TokenType::GroupStartAlt, pos + 1))
        } else if c == '/' {
            Some((TokenType::GroupEnd, pos + 1))
        } else if c == '=' {
            Some((TokenType::Assign, pos + 1))
        } else if c == ',' {
            Some((TokenType::Comma, pos + 1))
        } else if c == '(' {
            Some((TokenType::LeftParen, pos + 1))
        } else if c == ')' {
            Some((TokenType::RightParen, pos + 1))
        } else if c == ':' {
            Some((TokenType::Colon, pos + 1))
        } else if c == '%' {
            Some((TokenType::Percent, pos + 1))
        } else if c == '*' {
            Some((TokenType::Star, pos + 1))
        } else if c == '+' || c == '-' {
            Some(spec_sign_scan(s, pos, nds))
        } else if c == '\'' || c == '"' {
            match spec_string_scan(s, pos + 1, c) {
                None => None,
                Some(e) => Some((TokenType::String, e)),
            }
        } else if c == '.' {
            Some(spec_dot_scan(s, pos))
        } else if spec_is_alpha(c) || c == '_' {
            Some(spec_ident_scan(s, pos, nds))
        } else if spec_is_digit(c) {
            match spec_number_scan(s, pos + 1) {
                None => None,
                Some((e, isreal)) => Some(
                    ((if isreal {
                        TokenType::Real
                    } else {
                        TokenType::Integer
                    }), e),
                ),
            }
        } else if crate::text::spec_find(ct, c) >= 0 {
            Some((TokenType::Comment, spec_comment_end(s, pos + 1)))
        } else {
            Some((TokenType::Invalid, pos + 1))
        }
    }
}

/// Low-level lexer over the input text.
pub struct Lexer {
    input: Vec<char>,
    current: usize,
    line: usize,
    column: usize,
    comment_tokens: Vec<char>,
    non_delimited_strings: bool,
}

impl Lexer {
    /// The input text.
    pub closed spec fn spec_input(&self) -> Seq<char> {
        self.input@
    }

    /// The cursor position.
    pub closed spec fn spec_pos(&self) -> int {
        self.current as int
    }

    /// The configured comment-introducer characters.
    pub closed spec fn spec_comment_tokens(&self) -> Seq<char> {
        self.comment_tokens@
    }

    /// Whether undelimited strings are accepted inside identifiers.
    pub closed spec fn spec_nds(&self) -> bool {
        self.non_delimited_strings
    }

    /// The cursor is inside the text and the position counters agree
    /// with it.
    pub closed spec fn wf(&self) -> bool {
        &&& self.current <= self.input@.len()
        &&& self.input@.len() < usize::MAX as int
        &&& self.line as int == spec_line_at(self.input@, self.current as int)
        &&& self.column as int == spec_col_at(self.input@, self.current as int)
    }

    /// A lexer at the start of the input, with `!` and `#` introducing
    /// comments and undelimited strings accepted.
    pub fn new(input: &str) -> (r: Lexer)
        ensures
            r.wf(),
            input@.len() < usize::MAX as int ==> r.spec_input() == input@,
            r.spec_pos() == 0,
            r.spec_comment_tokens() =~= seq!['!', '#'],
            r.spec_nds(),
    {
        let mut comment_tokens: Vec<char> = Vec::new();
        comment_tokens.push('!');
        comment_tokens.push('#');
        let mut text = crate::text::str_to_chars(input);
        if text.len() == usize::MAX {
            // unreachable for any text a machine can hold; keeps the
            // position counters free of overflow
            text.pop();
        }
        Lexer {
            input: text,
            current: 0,
            line: 1,
            column: 1,
            comment_tokens,
            non_delimited_strings: true,
        }
    }

    /// The same lexer with the given comment-introducer characters.
    pub fn with_comment_tokens(self, tokens: Vec<char>) -> (r: Lexer)
        ensures
            r.wf() == self.wf(),
            r.spec_input() == self.spec_input(),
            r.spec_pos() == self.spec_pos(),
            r.spec_comment_tokens() == tokens@,
            r.spec_nds() == self.spec_nds(),
    {
        Lexer { comment_tokens: tokens, ..self }
    }

    /// The same lexer with undelimited strings accepted or not.
    pub fn with_non_delimited_strings(self, enabled: bool) -> (r: Lexer)
        ensures
            r.wf() == self.wf(),
            r.spec_input() == self.spec_input(),
            r.spec_pos() == self.spec_pos(),
            r.spec_comment_tokens() == self.spec_comment_tokens(),
            r.spec_nds() == enabled,
    {
        Lexer { non_delimited_strings: enabled, ..self }
    }

    /// Whether the cursor is at the end of the input.
    fn is_at_end(&self) -> (r: bool)
        requires
            self.wf(),
        ensures
            r == (self.spec_pos() == self.spec_input().len()),
    {
        self.current >= self.input.len()
    }

    /// The character under the cursor.
    fn peek(&self) -> (r: Option<char>)
        requires
            self.wf(),
        ensures
            r is Some <==> self.spec_pos() < self.spec_input().len(),
            r is Some ==> r->0 == self.spec_input()[self.spec_pos()],
    {
        if self.current < self.input.len() {
            Some(self.input[self.current])
        } else {
            None
        }
    }

    /// The character at the given distance past the cursor.
    fn peek_ahead(&self, distance: usize) -> (r: Option<char>)
        requires
            self.wf(),
        ensures
            r is Some <==> self.spec_pos() + distance < self.spec_input().len(),
            r is Some ==> r->0 == self.spec_input()[self.spec_pos() + distance],
    {
        if self.current < self.input.len() && distance < self.input.len() - self.current {
            Some(self.input[self.current + distance])
        } else {
            None
        }
    }

    /// Move the cursor one character forward.
    fn advance(&mut self)
        requires
            old(self).wf(),
            old(self).spec_pos() < old(self).spec_input().len(),
        ensures
            final(self).wf(),
            final(self).spec_input() == old(self).spec_input(),
            final(self).spec_comment_tokens() == old(self).spec_comment_tokens(),
            final(self).spec_nds() == old(self).spec_nds(),
            final(self).spec_pos() == old(self).spec_pos() + 1,
    {
        proof {
            lemma_line_col_bounds(self.input@, self.current as int);
        }
        let c = self.input[self.current];
        self.current = self.current + 1;
        if c == '\n' {
            self.line = self.line + 1;
            self.column = 1;
        } else {
            self.column = self.column + 1;
        }
    }

    /// Scan the next token, exactly as `spec_scan_token` reads it: the
    /// token's text is the span of characters consumed, an empty `Eof`
    /// token marks the end, an unrecognised character is an `Invalid`
    /// token, and the only errors are an unterminated string and an
    /// exponent with no digits. The token carries the line and column
    /// of its first character.
    #[verifier::loop_isolation(false)]
    pub fn scan_token(&mut self) -> (r: Result<Token, F90nmlError>)
        requires
            old(self).wf(),
        ensures
            final(self).wf(),
            final(self).spec_input() == old(self).spec_input(),
            final(self).spec_comment_tokens() == old(self).spec_comment_tokens(),
            final(self).spec_nds() == old(self).spec_nds(),
            old(self).spec_pos() <= final(self).spec_pos() <= old(self).spec_input().len(),
            r is Ok <==> spec_scan_token(
                old(self).spec_input(),
                old(self).spec_pos(),
                old(self).spec_comment_tokens(),
                old(self).spec_nds(),
            ) is Some,
            r matches Ok(t) ==> Some((t.token_type, final(self).spec_pos())) == spec_scan_token(
                old(self).spec_input(),
                old(self).spec_pos(),
                old(self).spec_comment_tokens(),
                old(self).spec_nds(),
            ),
            r matches Ok(t) ==> {
                &&& t.lexeme@ == old(self).spec_input().subrange(
                    old(self).spec_pos(),
                    final(self).spec_pos(),
                )
                &&& t.line as int == spec_line_at(old(self).spec_input(), old(self).spec_pos())
                &&& t.column as int == spec_col_at(old(self).spec_input(), old(self).spec_pos())
                &&& (t.token_type == TokenType::Eof <==> old(self).spec_pos() == old(
                    self,
                ).spec_input().len())
                &&& (t.token_type != TokenType::Eof ==> final(self).spec_pos() > old(
                    self,
                ).spec_pos())
                &&& (t.token_type == TokenType::Eof ==> final(self).spec_pos() == old(
                    self,
                ).spec_pos())
                &&& (t.token_type == TokenType::Whitespace <==> (old(self).spec_pos() < old(
                    self,
                ).spec_input().len() && spec_is_space(
                    old(self).spec_input()[old(self).spec_pos()],
                )))
            },
            r is Err ==> r->Err_0 matches F90nmlError::InvalidSyntax { .. },
    {
        let ghost input0 = self.input@;
        let start = self.current;
        let start_line = self.line;
        let start_column = self.column;
        if self.is_at_end() {
            proof {
                assert(input0.subrange(start as int, start as int) =~= Seq::<char>::empty());
            }
            return Ok(Token::new(TokenType::Eof, String::new(), start_line, start_column));
        }
        let c = self.input[self.current];
        if crate::text::is_space(c) {
            while !self.is_at_end() && crate::text::is_space(self.input[self.current])
                invariant
                    self.wf(),
                    self.input@ == input0,
                    start <= self.current <= self.input@.len(),
                    self.comment_tokens@ == old(self).comment_tokens@,
                    self.non_delimited_strings == old(self).non_delimited_strings,
                    spec_space_end(self.input@, start as int) == spec_space_end(
                        self.input@,
                        self.current as int,
                    ),
                decreases self.input@.len() - self.current,
            {
                self.advance();
            }
            let lexeme = chars_to_string(subvec(
                self.input.as_slice(),
                start,
                self.current,
            ).as_slice());
            return Ok(Token::new(TokenType::Whitespace, lexeme, start_line, start_column));
        }
        // from here the first character is not whitespace
        self.advance();
        let kind: TokenType = if c == '&' {
            TokenType::GroupStart
        } else if c == '$' {
            TokenType::GroupStartAlt
        } else if c == '/' {
            TokenType::GroupEnd
        } else if c == '=' {
            TokenType::Assign
        } else if c == ',' {
            TokenType::Comma
        } else if c == '(' {
            TokenType::LeftParen
        } else if c == ')' {
            TokenType::RightParen
        } else if c == ':' {
            TokenType::Colon
        } else if c == '%' {
            TokenType::Percent
        } else if c == '*' {
            TokenType::Star
        } else if c == '+' || c == '-' {
            self.scan_sign(c)
        } else if c == '\'' || c == '"' {
            match self.scan_string(c) {
                Ok(k) => k,
                Err(e) => {
                    return Err(e);
                },
            }
        } else if c == '.' {
            self.scan_decimal_or_logical()
        } else if crate::text::is_alpha(c) || c == '_' {
            self.scan_identifier()
        } else if crate::text::is_digit(c) {
            match self.scan_number() {
                Ok(k) => k,
                Err(e) => {
                    return Err(e);
                },
            }
        } else if self.has_comment_char(c) {
            self.scan_comment()
        } else {
            TokenType::Invalid
        };
        let lexeme = chars_to_string(subvec(self.input.as_slice(), start, self.current).as_slice());
        Ok(Token::new(kind, lexeme, start_line, start_column))
    }

    /// Whether the character introduces a comment.
    fn has_comment_char(&self, c: char) -> (r: bool)
        ensures
            r == (crate::text::spec_find(self.spec_comment_tokens(), c) >= 0),
    {
        let mut i: usize = 0;
        while i < self.comment_tokens.len()
            invariant
                i <= self.comment_tokens@.len(),
                forall|j: int| 0 <= j < i ==> #[trigger] self.comment_tokens@[j] != c,
            decreases self.comment_tokens@.len() - i,
        {
            if self.comment_tokens[i] == c {
                proof {
                    crate::text::lemma_find_at(self.comment_tokens@, c, i as int);
                }
                return true;
            }
            i += 1;
        }
        proof {
            crate::text::lemma_find_none(self.comment_tokens@, c);
        }
        false
    }

    /// Consume the run of digits under the cursor.
    fn eat_digits(&mut self)
        requires
            old(self).wf(),
        ensures
            final(self).wf(),
            final(self).spec_input() == old(self).spec_input(),
            final(self).spec_comment_tokens() == old(self).spec_comment_tokens(),
            final(self).spec_nds() == old(self).spec_nds(),
            old(self).spec_pos() <= final(self).spec_pos() <= old(self).spec_input().len(),
            final(self).spec_pos() == spec_digits_end(old(self).spec_input(), old(self).spec_pos()),
    {
        while self.current < self.input.len() && crate::text::is_digit(self.input[self.current])
            invariant
                self.wf(),
                self.input@ == old(self).input@,
                self.comment_tokens@ == old(self).comment_tokens@,
                self.non_delimited_strings == old(self).non_delimited_strings,
                old(self).current <= self.current <= self.input@.len(),
                spec_digits_end(self.input@, old(self).current as int) == spec_digits_end(
                    self.input@,
                    self.current as int,
                ),
            decreases self.input@.len() - self.current,
        {
            self.advance();
        }
    }

    /// Consume alphanumerics, underscores, and (when accepted) quote
    /// characters: the continuation of an identifier.
    fn eat_identifier(&mut self)
        requires
            old(self).wf(),
        ensures
            final(self).wf(),
            final(self).spec_input() == old(self).spec_input(),
            final(self).spec_comment_tokens() == old(self).spec_comment_tokens(),
            final(self).spec_nds() == old(self).spec_nds(),
            old(self).spec_pos() <= final(self).spec_pos() <= old(self).spec_input().len(),
            final(self).spec_pos() == spec_word_end(
                old(self).spec_input(),
                old(self).spec_pos(),
                old(self).spec_nds(),
            ),
    {
        while self.current < self.input.len() && (crate::text::is_alnum(self.input[self.current])
            || (self.non_delimited_strings && (self.input[self.current] == '\''
            || self.input[self.current] == '"')))
            invariant
                self.wf(),
                self.input@ == old(self).input@,
                self.comment_tokens@ == old(self).comment_tokens@,
                self.non_delimited_strings == old(self).non_delimited_strings,
                old(self).current <= self.current <= self.input@.len(),
                spec_word_end(self.input@, old(self).current as int, self.non_delimited_strings)
                    == spec_word_end(
                    self.input@,
                    self.current as int,
                    self.non_delimited_strings,
                ),
            decreases self.input@.len() - self.current,
        {
            self.advance();
        }
    }

    /// After a sign character: a number when digits or a fraction
    /// follow, an identifier when letters follow, the bare operator
    /// otherwise.
    fn scan_sign(&mut self, sign: char) -> (kind: TokenType)
        requires
            old(self).wf(),
            old(self).spec_pos() >= 1,
            old(self).spec_input()[old(self).spec_pos() - 1] == sign,
            sign == '+' || sign == '-',
        ensures
            final(self).wf(),
            final(self).spec_input() == old(self).spec_input(),
            final(self).spec_comment_tokens() == old(self).spec_comment_tokens(),
            final(self).spec_nds() == old(self).spec_nds(),
            old(self).spec_pos() <= final(self).spec_pos() <= old(self).spec_input().len(),
            (kind, final(self).spec_pos()) == spec_sign_scan(
                old(self).spec_input(),
                old(self).spec_pos() - 1,
                old(self).spec_nds(),
            ),
    {
        let from = self.current - 1;
        let next_digit = match self.peek() {
            Some(c) => crate::text::is_digit(c),
            None => false,
        };
        if next_digit {
            self.scan_number_continuation();
            return self.classify_number_from(from);
        }
        let next_dot_digit = match self.peek() {
            Some(c) => c == '.' && (match self.peek_ahead(1) {
                Some(d) => crate::text::is_digit(d),
                None => false,
            }),
            None => false,
        };
        if next_dot_digit {
            self.advance();
            self.scan_number_continuation();
            return TokenType::Real;
        }
        let next_alpha = match self.peek() {
            Some(c) => crate::text::is_alpha(c),
            None => false,
        };
        if next_alpha {
            self.eat_identifier();
            return TokenType::Identifier;
        }
        if sign == '+' {
            TokenType::Plus
        } else {
            TokenType::Minus
        }
    }

    /// The kind of a numeric span: a decimal point, exponent marker or
    /// kind suffix makes it real.
    fn classify_number_from(&self, from: usize) -> (kind: TokenType)
        requires
            self.wf(),
            from <= self.spec_pos(),
        ensures
            kind == (if spec_has_real_mark(self.spec_input(), from as int, self.spec_pos()) {
                TokenType::Real
            } else {
                TokenType::Integer
            }),
    {
        let mut i: usize = from;
        while i < self.current
            invariant
                self.wf(),
                from <= i <= self.current <= self.input@.len(),
                forall|j: int|
                    from <= j < i ==> !((#[trigger] self.input@[j]) == '.' || spec_is_marker(
                        self.input@[j],
                    ) || self.input@[j] == '_'),
            decreases self.current - i,
        {
            let c = self.input[i];
            if c == '.' || c == 'e' || c == 'E' || c == 'd' || c == 'D' || c == '_' {
                proof {
                    assert(spec_has_real_mark(self.spec_input(), from as int, self.spec_pos()));
                }
                return TokenType::Real;
            }
            i += 1;
        }
        proof {
            assert(!spec_has_real_mark(self.spec_input(), from as int, self.spec_pos())) by {
                if spec_has_real_mark(self.spec_input(), from as int, self.spec_pos()) {
                    let j = choose|j: int|
                        from <= j < self.spec_pos() && ((#[trigger] self.spec_input()[j]) == '.'
                            || spec_is_marker(self.spec_input()[j]) || self.spec_input()[j] == '_');
                    assert(false);
                }
            }
        }
        TokenType::Integer
    }

    /// After the leading digits of a signed number: fraction, exponent
    /// and kind suffix.
    fn scan_number_continuation(&mut self)
        requires
            old(self).wf(),
        ensures
            final(self).wf(),
            final(self).spec_input() == old(self).spec_input(),
            final(self).spec_comment_tokens() == old(self).spec_comment_tokens(),
            final(self).spec_nds() == old(self).spec_nds(),
            old(self).spec_pos() <= final(self).spec_pos() <= old(self).spec_input().len(),
            final(self).spec_pos() == spec_cont_end(old(self).spec_input(), old(self).spec_pos()),
    {
        self.eat_digits();
        let has_dot = match self.peek() {
            Some(c) => c == '.',
            None => false,
        };
        if has_dot {
            self.advance();
            self.eat_digits();
        }
        self.eat_exponent();
        self.eat_kind_suffix();
    }

    /// An optional exponent: marker, optional sign, digits.
    fn eat_exponent(&mut self)
        requires
            old(self).wf(),
        ensures
            final(self).wf(),
            final(self).spec_input() == old(self).spec_input(),
            final(self).spec_comment_tokens() == old(self).spec_comment_tokens(),
            final(self).spec_nds() == old(self).spec_nds(),
            old(self).spec_pos() <= final(self).spec_pos() <= old(self).spec_input().len(),
            final(self).spec_pos() == spec_exp_end(old(self).spec_input(), old(self).spec_pos()),
    {
        let marker = match self.peek() {
            Some(c) => c == 'e' || c == 'E' || c == 'd' || c == 'D',
            None => false,
        };
        if marker {
            self.advance();
            let sign = match self.peek() {
                Some(c) => c == '+' || c == '-',
                None => false,
            };
            if sign {
                self.advance();
            }
            self.eat_digits();
        }
    }

    /// An optional kind suffix: underscore, then a name or digits.
    #[verifier::loop_isolation(false)]
    fn eat_kind_suffix(&mut self)
        requires
            old(self).wf(),
        ensures
            final(self).wf(),
            final(self).spec_input() == old(self).spec_input(),
            final(self).spec_comment_tokens() == old(self).spec_comment_tokens(),
            final(self).spec_nds() == old(self).spec_nds(),
            old(self).spec_pos() <= final(self).spec_pos() <= old(self).spec_input().len(),
            final(self).spec_pos() == spec_kind_end(old(self).spec_input(), old(self).spec_pos()),
    {
        let underscore = match self.peek() {
            Some(c) => c == '_',
            None => false,
        };
        if underscore {
            self.advance();
            let named = match self.peek() {
                Some(c) => crate::text::is_alpha(c),
                None => false,
            };
            if named {
                while self.current < self.input.len() && (crate::text::is_alnum(
                    self.input[self.current],
                ) || self.input[self.current] == '_')
                    invariant
                        self.wf(),
                        self.input@ == old(self).input@,
                        self.comment_tokens@ == old(self).comment_tokens@,
                        self.non_delimited_strings == old(self).non_delimited_strings,
                        old(self).current < self.current <= self.input@.len(),
                        spec_alnum_end(self.input@, old(self).current + 1) == spec_alnum_end(
                            self.input@,
                            self.current as int,
                        ),
                    decreases self.input@.len() - self.current,
                {
                    self.advance();
                }
            } else {
                self.eat_digits();
            }
        }
    }

    /// After an opening quote: consume up to the matching quote, with a
    /// doubled quote standing for a literal one. A newline before the
    /// close is an error; the end of input closes the string silently.
    fn scan_string(&mut self, quote: char) -> (r: Result<TokenType, F90nmlError>)
        requires
            old(self).wf(),
        ensures
            final(self).wf(),
            final(self).spec_input() == old(self).spec_input(),
            final(self).spec_comment_tokens() == old(self).spec_comment_tokens(),
            final(self).spec_nds() == old(self).spec_nds(),
            old(self).spec_pos() <= final(self).spec_pos() <= old(self).spec_input().len(),
            r is Ok <==> spec_string_scan(old(self).spec_input(), old(self).spec_pos(), quote)
                is Some,
            r matches Ok(k) ==> k == TokenType::String && Some(final(self).spec_pos())
                == spec_string_scan(old(self).spec_input(), old(self).spec_pos(), quote),
            r is Err ==> r->Err_0 matches F90nmlError::InvalidSyntax { .. },
    {
        while self.current < self.input.len()
            invariant
                self.wf(),
                self.input@ == old(self).input@,
                self.comment_tokens@ == old(self).comment_tokens@,
                self.non_delimited_strings == old(self).non_delimited_strings,
                old(self).current <= self.current <= self.input@.len(),
                spec_string_scan(self.input@, old(self).current as int, quote)
                    == spec_string_scan(self.input@, self.current as int, quote),
            decreases self.input@.len() - self.current,
        {
            let c = self.input[self.current];
            self.advance();
            if c == '\n' {
                return Err(F90nmlError::invalid_syntax("Unterminated string literal",
                    self.current));
            }
            if c == quote {
                let doubled = match self.peek() {
                    Some(n) => n == quote,
                    None => false,
                };
                if doubled {
                    self.advance();
                } else {
                    return Ok(TokenType::String);
                }
            }
        }
        Ok(TokenType::String)
    }

    /// After a dot: a real number when digits follow, a logical or an
    /// identifier when letters follow, an invalid lone dot otherwise.
    #[verifier::loop_isolation(false)]
    fn scan_decimal_or_logical(&mut self) -> (kind: TokenType)
        requires
            old(self).wf(),
            old(self).spec_pos() >= 1,
        ensures
            final(self).wf(),
            final(self).spec_input() == old(self).spec_input(),
            final(self).spec_comment_tokens() == old(self).spec_comment_tokens(),
            final(self).spec_nds() == old(self).spec_nds(),
            old(self).spec_pos() <= final(self).spec_pos() <= old(self).spec_input().len(),
            (kind, final(self).spec_pos()) == spec_dot_scan(
                old(self).spec_input(),
                old(self).spec_pos() - 1,
            ),
    {
        let digit = match self.peek() {
            Some(c) => crate::text::is_digit(c),
            None => false,
        };
        if digit {
            self.eat_digits();
            self.eat_exponent();
            return TokenType::Real;
        }
        let alpha = match self.peek() {
            Some(c) => crate::text::is_alpha(c),
            None => false,
        };
        if alpha {
            let word_start = self.current;
            while self.current < self.input.len() && (crate::text::is_alnum(
                self.input[self.current],
            ) || self.input[self.current] == '_')
                invariant
                    self.wf(),
                    self.input@ == old(self).input@,
                    self.comment_tokens@ == old(self).comment_tokens@,
                    self.non_delimited_strings == old(self).non_delimited_strings,
                    word_start <= self.current <= self.input@.len(),
                    old(self).current <= self.current,
                    spec_alnum_end(self.input@, word_start as int) == spec_alnum_end(
                        self.input@,
                        self.current as int,
                    ),
                decreases self.input@.len() - self.current,
            {
                self.advance();
            }
            let closing = match self.peek() {
                Some(c) => c == '.',
                None => false,
            };
            if closing {
                self.advance();
            }
            // the dot opened the span, so a leading `.t`/`.f` marks a logical
            let first = self.input[word_start];
            let lower = crate::text::lower_char(first);
            if lower == 't' || lower == 'f' {
                return TokenType::Logical;
            }
            return TokenType::Identifier;
        }
        TokenType::Invalid
    }

    /// After a letter or underscore: the identifier continuation, with
    /// the logical spellings recognised.
    fn scan_identifier(&mut self) -> (kind: TokenType)
        requires
            old(self).wf(),
            old(self).spec_pos() >= 1,
        ensures
            final(self).wf(),
            final(self).spec_input() == old(self).spec_input(),
            final(self).spec_comment_tokens() == old(self).spec_comment_tokens(),
            final(self).spec_nds() == old(self).spec_nds(),
            old(self).spec_pos() <= final(self).spec_pos() <= old(self).spec_input().len(),
            (kind, final(self).spec_pos()) == spec_ident_scan(
                old(self).spec_input(),
                old(self).spec_pos() - 1,
                old(self).spec_nds(),
            ),
    {
        let start = self.current - 1;
        self.eat_identifier();
        let word = subvec(self.input.as_slice(), start, self.current);
        let lower = crate::text::lower_chars(word.as_slice());
        if crate::fortran_types::realnum::chars_eq_str(lower.as_slice(), "true")
            || crate::fortran_types::realnum::chars_eq_str(lower.as_slice(), "t")
            || crate::fortran_types::realnum::chars_eq_str(lower.as_slice(), "false")
            || crate::fortran_types::realnum::chars_eq_str(lower.as_slice(), "f") {
            TokenType::Logical
        } else {
            TokenType::Identifier
        }
    }

    /// After a comment introducer: the rest of the line.
    fn scan_comment(&mut self) -> (kind: TokenType)
        requires
            old(self).wf(),
        ensures
            final(self).wf(),
            final(self).spec_input() == old(self).spec_input(),
            final(self).spec_comment_tokens() == old(self).spec_comment_tokens(),
            final(self).spec_nds() == old(self).spec_nds(),
            old(self).spec_pos() <= final(self).spec_pos() <= old(self).spec_input().len(),
            kind == TokenType::Comment,
            final(self).spec_pos() == spec_comment_end(old(self).spec_input(), old(self).spec_pos()),
    {
        while self.current < self.input.len() && self.input[self.current] != '\n'
            invariant
                self.wf(),
                self.input@ == old(self).input@,
                self.comment_tokens@ == old(self).comment_tokens@,
                self.non_delimited_strings == old(self).non_delimited_strings,
                old(self).current <= self.current <= self.input@.len(),
                spec_comment_end(self.input@, old(self).current as int) == spec_comment_end(
                    self.input@,
                    self.current as int,
                ),
            decreases self.input@.len() - self.current,
        {
            self.advance();
        }
        TokenType::Comment
    }
}

impl Lexer {
    /// After a leading digit: the rest of the number. The fraction is
    /// taken only when a digit or exponent marker follows the dot; an
    /// exponent marker must be followed by digits.
    fn scan_number(&mut self) -> (r: Result<TokenType, F90nmlError>)
        requires
            old(self).wf(),
        ensures
            final(self).wf(),
            final(self).spec_input() == old(self).spec_input(),
            final(self).spec_comment_tokens() == old(self).spec_comment_tokens(),
            final(self).spec_nds() == old(self).spec_nds(),
            old(self).spec_pos() <= final(self).spec_pos() <= old(self).spec_input().len(),
            r is Ok <==> spec_number_scan(old(self).spec_input(), old(self).spec_pos()) is Some,
            r matches Ok(k) ==> (spec_number_scan(old(self).spec_input(), old(self).spec_pos())
                matches Some((e, isreal)) && final(self).spec_pos() == e && k == (if isreal {
                TokenType::Real
            } else {
                TokenType::Integer
            })),
            r is Err ==> r->Err_0 matches F90nmlError::InvalidSyntax { .. },
    {
        self.eat_digits();
        let mut is_real = false;
        let dot_fraction = match self.peek() {
            Some(c) => c == '.' && (match self.peek_ahead(1) {
                Some(n) => crate::text::is_digit(n) || n == 'e' || n == 'E' || n == 'd' || n
                    == 'D',
                None => false,
            }),
            None => false,
        };
        if dot_fraction {
            is_real = true;
            self.advance();
            self.eat_digits();
        }
        let marker = match self.peek() {
            Some(c) => c == 'e' || c == 'E' || c == 'd' || c == 'D',
            None => false,
        };
        if marker {
            is_real = true;
            self.advance();
            let sign = match self.peek() {
                Some(c) => c == '+' || c == '-',
                None => false,
            };
            if sign {
                self.advance();
            }
            let has_digit = match self.peek() {
                Some(c) => crate::text::is_digit(c),
                None => false,
            };
            if !has_digit {
                return Err(F90nmlError::invalid_syntax("Invalid exponent in number",
                    self.current));
            }
            self.eat_digits();
        }
        let suffix = match self.peek() {
            Some(c) => c == '_',
            None => false,
        };
        if suffix {
            is_real = true;
            self.eat_kind_suffix();
        }
        if is_real {
            Ok(TokenType::Real)
        } else {
            Ok(TokenType::Integer)
        }
    }
}

} // verus!
