//! Formatting-preserving scans: each structural token carries the
//! whitespace and comments that follow it, with the indentation in
//! front of it, so that a rewriter can reproduce a document's layout.

use vstd::prelude::*;

verus! {

use crate::error::F90nmlError;
use crate::parser::lemma_cat_range_one;
use crate::parser::lemma_cat_range_split;
use crate::parser::spec_cat_range;
use crate::scanner::scanner::Scanner;
use crate::scanner::scanner::spec_cat_tokens;
use crate::scanner::scanner::spec_tokens_from;
use crate::scanner::token::FormattingToken;
use crate::scanner::token::Token;
use crate::scanner::token::TokenType;

/// The concatenated text of formatting tokens: each token's own text
/// followed by its trailing whitespace and comments.
pub open spec fn spec_cat_formatting(ts: Seq<FormattingToken>) -> Seq<char>
    decreases ts,
{
    if ts.len() == 0 {
        Seq::empty()
    } else {
        spec_cat_formatting(ts.drop_last()) + ts.last().token.lexeme@
            + ts.last().trailing_whitespace@
    }
}

/// The text after the last line break, if the text has one.
fn after_last_newline(cs: &Vec<char>) -> Option<Vec<char>> {
    let mut last: Option<usize> = None;
    let mut i: usize = 0;
    while i < cs.len()
        invariant
            i <= cs@.len(),
            last matches Some(p) ==> p < cs@.len(),
        decreases cs@.len() - i,
    {
        if cs[i] == '\n' {
            last = Some(i);
        }
        i += 1;
    }
    match last {
        Some(p) => {
            let mut out: Vec<char> = Vec::new();
            let mut k = p + 1;
            while k < cs.len()
                invariant
                    k <= cs@.len(),
                decreases cs@.len() - k,
            {
                out.push(cs[k]);
                k += 1;
            }
            Some(out)
        },
        None => None,
    }
}

/// Group a preserving token list: every run of whitespace and comment
/// tokens is attached to the token before it as trailing text, the
/// indentation in front of a token is carried with it, and the
/// concatenated text is kept unchanged.
#[verifier::loop_isolation(false)]
#[verifier::rlimit(100)]
fn attach_trailing(raw: &Vec<Token>) -> (r: Vec<FormattingToken>)
    ensures
        spec_cat_formatting(r@) == spec_cat_tokens(raw@),
{
    let ghost toks = raw@;
    let n = raw.len();
    let mut out: Vec<FormattingToken> = Vec::new();
    let mut pending: Vec<char> = Vec::new();
    let mut i: usize = 0;
    proof {
        assert(toks.subrange(0, 0).len() == 0);
        assert(spec_cat_formatting(out@) =~= spec_cat_tokens(toks.subrange(0, 0)));
    }
    while i < n
        invariant
            i <= n,
            spec_cat_formatting(out@) == spec_cat_tokens(toks.subrange(0, i as int)),
        decreases n - i,
    {
        let ghost i0 = i as int;
        let ghost out0 = out@;
        let tok = Token {
            token_type: raw[i].token_type,
            lexeme: raw[i].lexeme.clone(),
            line: raw[i].line,
            column: raw[i].column,
        };
        let is_ws_head = tok.token_type == TokenType::Whitespace || tok.token_type
            == TokenType::Comment;
        let mut trailing: Vec<char> = Vec::new();
        let mut found_newline = false;
        let mut j = i + 1;
        proof {
            assert(toks.subrange(i0 + 1, i0 + 1).len() == 0);
            assert(trailing@ =~= spec_cat_range(toks, i0 + 1, i0 + 1));
        }
        while j < n && (raw[j].token_type == TokenType::Whitespace || raw[j].token_type
            == TokenType::Comment)
            invariant
                i < j <= n,
                trailing@ == spec_cat_range(toks, i0 + 1, j as int),
            decreases n - j,
        {
            let lx = crate::text::str_to_chars(raw[j].lexeme.as_str());
            let mut k: usize = 0;
            while k < lx.len()
                invariant
                    k <= lx@.len(),
                decreases lx@.len() - k,
            {
                if lx[k] == '\n' {
                    found_newline = true;
                }
                k += 1;
            }
            crate::fortran_types::realnum::append_chars(&mut trailing, lx.as_slice());
            j += 1;
            proof {
                lemma_cat_range_split(toks, i0 + 1, j - 1, j as int);
                lemma_cat_range_one(toks, j - 1);
            }
        }
        let mut ft = FormattingToken::new(tok);
        if !is_ws_head || i > 0 {
            ft = ft.with_indentation(crate::text::chars_to_string(pending.as_slice()));
        }
        match after_last_newline(&trailing) {
            Some(ind) => {
                pending = ind;
            },
            None => {
                if i == 0 && is_ws_head && !found_newline {
                    pending = crate::text::str_to_chars(ft.token.lexeme.as_str());
                }
            },
        }
        ft = ft.with_trailing_whitespace(crate::text::chars_to_string(trailing.as_slice()));
        ft = ft.with_new_line(found_newline);
        out.push(ft);
        i = j;
        proof {
            assert(out@.drop_last() =~= out0);
            assert(out@.last().token.lexeme@ == toks[i0].lexeme@);
            lemma_cat_range_split(toks, 0, i0, i as int);
            lemma_cat_range_split(toks, i0, i0 + 1, i as int);
            lemma_cat_range_one(toks, i0);
            assert(spec_cat_formatting(out@) =~= spec_cat_tokens(toks.subrange(0, i as int)));
        }
    }
    proof {
        assert(toks.subrange(0, n as int) =~= toks);
    }
    out
}

/// A scan that keeps each token's surrounding layout, collecting the
/// trailing run as it goes.
pub struct FormattingPreserver {
    input: String,
    comment_tokens: Vec<char>,
}

impl FormattingPreserver {
    /// The input text.
    pub closed spec fn spec_input(&self) -> Seq<char> {
        self.input@
    }

    /// The comment-introducer characters.
    pub closed spec fn spec_comment_tokens(&self) -> Seq<char> {
        self.comment_tokens@
    }

    /// A preserver over the input, with `!` and `#` introducing
    /// comments.
    pub fn new(input: &str) -> (r: FormattingPreserver)
        ensures
            r.spec_input() == input@,
            r.spec_comment_tokens() =~= seq!['!', '#'],
    {
        let mut comment_tokens: Vec<char> = Vec::new();
        comment_tokens.push('!');
        comment_tokens.push('#');
        FormattingPreserver { input: input.to_owned(), comment_tokens }
    }

    /// The same preserver with the given comment-introducer characters.
    pub fn with_comment_tokens(self, tokens: Vec<char>) -> (r: FormattingPreserver)
        ensures
            r.spec_input() == self.spec_input(),
            r.spec_comment_tokens() == tokens@,
    {
        FormattingPreserver { comment_tokens: tokens, ..self }
    }

    /// Scan the whole input into formatting tokens: each token carries
    /// the whitespace and comments that follow it, and the texts
    /// concatenate to the input. It fails exactly when the text has a
    /// lexical error.
    pub fn scan_all_with_formatting(&self) -> (r: Result<Vec<FormattingToken>, F90nmlError>)
        requires
            self.spec_input().len() < usize::MAX as int,
        ensures
            r is Ok <==> spec_tokens_from(
                self.spec_input(),
                0,
                self.spec_comment_tokens(),
                true,
            ) is Some,
            r matches Ok(ts) ==> spec_cat_formatting(ts@) == self.spec_input(),
            r is Err ==> r->Err_0 matches F90nmlError::InvalidSyntax { .. },
    {
        let scanner = Scanner::new(self.input.as_str()).with_comment_tokens(
            crate::fortran_types::value::copy_chars(&self.comment_tokens),
        );
        let raw = match scanner.scan_all_including_whitespace() {
            Ok(ts) => ts,
            Err(e) => {
                return Err(e);
            },
        };
        Ok(attach_trailing(&raw))
    }
}

/// A scan that keeps each token's surrounding layout, buffering the
/// whole token list first. It renders the same grouping as the
/// one-pass preserver.
pub struct BufferedFormattingPreserver {
    input: String,
    comment_tokens: Vec<char>,
}

impl BufferedFormattingPreserver {
    /// The input text.
    pub closed spec fn spec_input(&self) -> Seq<char> {
        self.input@
    }

    /// The comment-introducer characters.
    pub closed spec fn spec_comment_tokens(&self) -> Seq<char> {
        self.comment_tokens@
    }

    /// A preserver over the input, with `!` and `#` introducing
    /// comments.
    pub fn new(input: &str) -> (r: BufferedFormattingPreserver)
        ensures
            r.spec_input() == input@,
            r.spec_comment_tokens() =~= seq!['!', '#'],
    {
        let mut comment_tokens: Vec<char> = Vec::new();
        comment_tokens.push('!');
        comment_tokens.push('#');
        BufferedFormattingPreserver { input: input.to_owned(), comment_tokens }
    }

    /// The same preserver with the given comment-introducer characters.
    pub fn with_comment_tokens(self, tokens: Vec<char>) -> (r: BufferedFormattingPreserver)
        ensures
            r.spec_input() == self.spec_input(),
            r.spec_comment_tokens() == tokens@,
    {
        BufferedFormattingPreserver { comment_tokens: tokens, ..self }
    }

    /// Scan the whole input into formatting tokens: the token list is
    /// buffered first, then each run of whitespace and comments is
    /// attached to the token before it, and the texts concatenate to
    /// the input. It fails exactly when the text has a lexical error.
    pub fn scan_all_with_formatting(&self) -> (r: Result<Vec<FormattingToken>, F90nmlError>)
        requires
            self.spec_input().len() < usize::MAX as int,
        ensures
            r is Ok <==> spec_tokens_from(
                self.spec_input(),
                0,
                self.spec_comment_tokens(),
                true,
            ) is Some,
            r matches Ok(ts) ==> spec_cat_formatting(ts@) == self.spec_input(),
            r is Err ==> r->Err_0 matches F90nmlError::InvalidSyntax { .. },
    {
        let scanner = Scanner::new(self.input.as_str()).with_comment_tokens(
            crate::fortran_types::value::copy_chars(&self.comment_tokens),
        );
        let raw = match scanner.scan_all_including_whitespace() {
            Ok(ts) => ts,
            Err(e) => {
                return Err(e);
            },
        };
        Ok(attach_trailing(&raw))
    }
}

} // verus!
