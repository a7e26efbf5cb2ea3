//! Scanning a whole input into a token list, with whitespace either
//! filtered out or preserved. A preserved scan partitions the text: the
//! concatenation of the token texts is exactly the input.

use vstd::prelude::*;

verus! {

use crate::error::F90nmlError;
use crate::scanner::lexer::Lexer;
use crate::scanner::token::Token;
use crate::scanner::token::TokenType;

use crate::scanner::lexer::spec_scan_token;
use crate::scanner::lexer::spec_line_at;
use crate::scanner::lexer::spec_col_at;

/// The token list a text scans to: kind, start and end of each token,
/// closed by the end marker; nothing when the text has a lexical error.
pub open spec fn spec_tokens_from(s: Seq<char>, pos: int, ct: Seq<char>, nds: bool) -> Option<
    Seq<(TokenType, int, int)>,
>
    decreases s.len() - pos + 1,
{
    if pos < 0 || pos >= s.len() {
        Some(seq![(TokenType::Eof, pos, pos)])
    } else {
        match spec_scan_token(s, pos, ct, nds) {
            None => None,
            Some((k, end)) => {
                let step = if end > pos {
                    end
                } else {
                    pos + 1
                };
                let next = if step > s.len() {
                    s.len() as int
                } else {
                    step
                };
                match spec_tokens_from(s, next, ct, nds) {
                    None => None,
                    Some(rest) => Some(seq![(k, pos, end)] + rest),
                }
            },
        }
    }
}

/// The same token list with the whitespace tokens removed.
pub open spec fn spec_nonws_from(s: Seq<char>, pos: int, ct: Seq<char>, nds: bool) -> Option<
    Seq<(TokenType, int, int)>,
>
    decreases s.len() - pos + 1,
{
    if pos < 0 || pos >= s.len() {
        Some(seq![(TokenType::Eof, pos, pos)])
    } else {
        match spec_scan_token(s, pos, ct, nds) {
            None => None,
            Some((k, end)) => {
                let step = if end > pos {
                    end
                } else {
                    pos + 1
                };
                let next = if step > s.len() {
                    s.len() as int
                } else {
                    step
                };
                match spec_nonws_from(s, next, ct, nds) {
                    None => None,
                    Some(rest) => if k == TokenType::Whitespace {
                        Some(rest)
                    } else {
                        Some(seq![(k, pos, end)] + rest)
                    },
                }
            },
        }
    }
}

/// The whitespace-free scan renders exactly the preserving scan with
/// its whitespace entries filtered out.
pub proof fn lemma_nonws_is_filtered(s: Seq<char>, pos: int, ct: Seq<char>, nds: bool)
    requires
        spec_tokens_from(s, pos, ct, nds) is Some,
    ensures
        spec_nonws_from(s, pos, ct, nds) == Some(
            spec_tokens_from(s, pos, ct, nds)->0.filter(
                |e: (TokenType, int, int)| e.0 != TokenType::Whitespace,
            ),
        ),
    decreases s.len() - pos + 1,
{
    broadcast use Seq::lemma_filter_push;

    let pred = |e: (TokenType, int, int)| e.0 != TokenType::Whitespace;
    if pos < 0 || pos >= s.len() {
        let one = seq![(TokenType::Eof, pos, pos)];
        assert(one.drop_last() =~= Seq::<(TokenType, int, int)>::empty());
        assert(Seq::<(TokenType, int, int)>::empty().push(one.last()) =~= one);
        assert(Seq::<(TokenType, int, int)>::empty().filter(pred)
            =~= Seq::<(TokenType, int, int)>::empty()) by {
            reveal(Seq::filter);
        }
        assert(one.filter(pred) =~= one);
    } else {
        match spec_scan_token(s, pos, ct, nds) {
            None => {},
            Some((k, end)) => {
                let step = if end > pos {
                    end
                } else {
                    pos + 1
                };
                let next = if step > s.len() {
                    s.len() as int
                } else {
                    step
                };
                lemma_nonws_is_filtered(s, next, ct, nds);
                let rest = spec_tokens_from(s, next, ct, nds)->0;
                let one = seq![(k, pos, end)];
                Seq::filter_distributes_over_add(one, rest, pred);
                assert(one.drop_last() =~= Seq::<(TokenType, int, int)>::empty());
                assert(Seq::<(TokenType, int, int)>::empty().push(one.last()) =~= one);
                assert(Seq::<(TokenType, int, int)>::empty().filter(pred)
                    =~= Seq::<(TokenType, int, int)>::empty()) by {
                    reveal(Seq::filter);
                }
                if k == TokenType::Whitespace {
                    assert(one.filter(pred) =~= Seq::<(TokenType, int, int)>::empty());
                    assert((one + rest).filter(pred) =~= rest.filter(pred));
                } else {
                    assert(one.filter(pred) =~= one);
                }
            },
        }
    }
}

/// The two scans fail together: dropping whitespace entries never
/// changes whether the text lexes.
pub proof fn lemma_nonws_iff_tokens(s: Seq<char>, pos: int, ct: Seq<char>, nds: bool)
    ensures
        spec_nonws_from(s, pos, ct, nds) is Some <==> spec_tokens_from(s, pos, ct, nds) is Some,
    decreases s.len() - pos + 1,
{
    if pos < 0 || pos >= s.len() {
    } else {
        match spec_scan_token(s, pos, ct, nds) {
            None => {},
            Some((k, end)) => {
                let step = if end > pos {
                    end
                } else {
                    pos + 1
                };
                let next = if step > s.len() {
                    s.len() as int
                } else {
                    step
                };
                lemma_nonws_iff_tokens(s, next, ct, nds);
            },
        }
    }
}

/// Each produced token renders the corresponding entry of a scanned
/// list: same kind, the text of its span, and the position of its
/// first character.
pub open spec fn spec_tokens_match(
    ts: Seq<Token>,
    entries: Seq<(TokenType, int, int)>,
    s: Seq<char>,
) -> bool {
    &&& ts.len() == entries.len()
    &&& forall|i: int|
        0 <= i < ts.len() ==> {
            let e = #[trigger] entries[i];
            &&& ts[i].token_type == e.0
            &&& 0 <= e.1 <= e.2 <= s.len()
            &&& ts[i].lexeme@ == s.subrange(e.1, e.2)
            &&& ts[i].line as int == spec_line_at(s, e.1)
            &&& ts[i].column as int == spec_col_at(s, e.1)
        }
}

/// The concatenation of the tokens' texts.
pub open spec fn spec_cat_tokens(ts: Seq<Token>) -> Seq<char>
    decreases ts,
{
    if ts.len() == 0 {
        Seq::empty()
    } else {
        spec_cat_tokens(ts.drop_last()) + ts.last().lexeme@
    }
}

/// Every token but the last is a proper token; the last is the end
/// marker.
pub open spec fn spec_token_shape(ts: Seq<Token>) -> bool {
    &&& ts.len() >= 1
    &&& ts.last().token_type == TokenType::Eof
    &&& ts.last().lexeme@ == Seq::<char>::empty()
    &&& forall|i: int| 0 <= i < ts.len() - 1 ==> (#[trigger] ts[i].token_type) != TokenType::Eof
}

/// Lexical scanner for whole inputs.
pub struct Scanner {
    input: String,
    comment_tokens: Vec<char>,
    non_delimited_strings: bool,
}

impl Scanner {
    /// The input text.
    pub closed spec fn spec_input(&self) -> Seq<char> {
        self.input@
    }

    /// The configured comment-introducer characters.
    pub closed spec fn spec_comment_tokens(&self) -> Seq<char> {
        self.comment_tokens@
    }

    /// Whether undelimited strings are accepted inside identifiers.
    pub closed spec fn spec_nds(&self) -> bool {
        self.non_delimited_strings
    }

    /// A scanner over the input, with `!` and `#` introducing comments.
    pub fn new(input: &str) -> (r: Scanner)
        ensures
            r.spec_input() == input@,
            r.spec_comment_tokens() =~= seq!['!', '#'],
            r.spec_nds(),
    {
        let mut comment_tokens: Vec<char> = Vec::new();
        comment_tokens.push('!');
        comment_tokens.push('#');
        Scanner { input: input.to_owned(), comment_tokens, non_delimited_strings: true }
    }

    /// The same scanner with the given comment-introducer characters.
    pub fn with_comment_tokens(self, tokens: Vec<char>) -> (r: Scanner)
        ensures
            r.spec_input() == self.spec_input(),
            r.spec_comment_tokens() == tokens@,
            r.spec_nds() == self.spec_nds(),
    {
        Scanner { comment_tokens: tokens, ..self }
    }

    /// The same scanner with undelimited strings accepted or not.
    pub fn with_non_delimited_strings(self, enabled: bool) -> (r: Scanner)
        ensures
            r.spec_input() == self.spec_input(),
            r.spec_comment_tokens() == self.spec_comment_tokens(),
            r.spec_nds() == enabled,
    {
        Scanner { non_delimited_strings: enabled, ..self }
    }

    /// Scan the whole input keeping every token: the result renders
    /// the scanned token list entry for entry, the token texts
    /// concatenate to the input, and a final end marker closes the
    /// list. It fails exactly when the text has a lexical error.
    pub fn scan_all_including_whitespace(&self) -> (r: Result<Vec<Token>, F90nmlError>)
        requires
            self.spec_input().len() < usize::MAX as int,
        ensures
            r is Ok <==> spec_tokens_from(
                self.spec_input(),
                0,
                self.spec_comment_tokens(),
                self.spec_nds(),
            ) is Some,
            r matches Ok(ts) ==> {
                &&& spec_tokens_match(
                    ts@,
                    spec_tokens_from(
                        self.spec_input(),
                        0,
                        self.spec_comment_tokens(),
                        self.spec_nds(),
                    )->0,
                    self.spec_input(),
                )
                &&& spec_cat_tokens(ts@) == self.spec_input()
                &&& spec_token_shape(ts@)
            },
            r is Err ==> r->Err_0 matches F90nmlError::InvalidSyntax { .. },
    {
        let mut lexer = Lexer::new(self.input.as_str()).with_comment_tokens(
            crate::fortran_types::value::copy_chars(&self.comment_tokens),
        ).with_non_delimited_strings(self.non_delimited_strings);
        let ghost text = self.input@;
        let ghost ct = self.comment_tokens@;
        let ghost nds = self.non_delimited_strings;
        let mut tokens: Vec<Token> = Vec::new();
        loop
            invariant_except_break
                forall|i: int|
                    0 <= i < tokens@.len() ==> (#[trigger] tokens@[i].token_type)
                        != TokenType::Eof,
                spec_tokens_from(text, 0, ct, nds) matches Some(full) ==> {
                    &&& spec_tokens_from(text, lexer.spec_pos(), ct, nds) matches Some(rest)
                        && full.len() == tokens@.len() + rest.len() && full.skip(
                        tokens@.len() as int,
                    ) == rest
                    &&& spec_tokens_match(tokens@, full.subrange(0, tokens@.len() as int), text)
                },
            invariant
                text == self.spec_input(),
                ct == self.spec_comment_tokens(),
                nds == self.spec_nds(),
                lexer.wf(),
                lexer.spec_input() == text,
                lexer.spec_comment_tokens() == ct,
                lexer.spec_nds() == nds,
                0 <= lexer.spec_pos() <= text.len(),
                spec_cat_tokens(tokens@) == text.subrange(0, lexer.spec_pos()),
                spec_tokens_from(text, 0, ct, nds) is Some <==> spec_tokens_from(
                    text,
                    lexer.spec_pos(),
                    ct,
                    nds,
                ) is Some,
            ensures
                spec_cat_tokens(tokens@) == text,
                spec_token_shape(tokens@),
                spec_tokens_from(text, 0, ct, nds) is Some,
                spec_tokens_from(text, 0, ct, nds) matches Some(full) && spec_tokens_match(
                    tokens@,
                    full,
                    text,
                ),
            decreases text.len() - lexer.spec_pos() + 1,
        {
            let ghost pos0 = lexer.spec_pos();
            let token = match lexer.scan_token() {
                Ok(t) => t,
                Err(e) => {
                    proof {
                        assert(spec_tokens_from(text, pos0, ct, nds) is None);
                    }
                    return Err(e);
                },
            };
            let is_eof = token.token_type == TokenType::Eof;
            let ghost toks0 = tokens@;
            tokens.push(token);
            proof {
                assert(tokens@.drop_last() =~= toks0);
                assert(spec_cat_tokens(tokens@) =~= text.subrange(0, lexer.spec_pos()));
                if spec_tokens_from(text, 0, ct, nds) is Some {
                    let full = spec_tokens_from(text, 0, ct, nds)->0;
                    let rest0 = spec_tokens_from(text, pos0, ct, nds)->0;
                    if pos0 == text.len() {
                        assert(rest0 =~= seq![(TokenType::Eof, pos0, pos0)]);
                    } else {
                        assert(token.token_type != TokenType::Eof);
                    }
                    assert(rest0[0] == (token.token_type, pos0, lexer.spec_pos()));
                    assert(full[toks0.len() as int] == rest0[0]);
                    assert(full.subrange(0, tokens@.len() as int).drop_last() =~= full.subrange(
                        0,
                        toks0.len() as int,
                    ));
                    assert(spec_tokens_match(tokens@, full.subrange(0, tokens@.len() as int),
                        text)) by {
                        let pre = full.subrange(0, tokens@.len() as int);
                        assert forall|i: int| 0 <= i < tokens@.len() implies {
                            let e = #[trigger] pre[i];
                            &&& tokens@[i].token_type == e.0
                            &&& 0 <= e.1 <= e.2 <= text.len()
                            &&& tokens@[i].lexeme@ == text.subrange(e.1, e.2)
                            &&& tokens@[i].line as int == spec_line_at(text, e.1)
                            &&& tokens@[i].column as int == spec_col_at(text, e.1)
                        } by {
                            if i < toks0.len() {
                                assert(pre[i] == full.subrange(0, toks0.len() as int)[i]);
                                assert(tokens@[i] == toks0[i]);
                            } else {
                                assert(pre[i] == rest0[0]);
                            }
                        }
                    }
                    if !is_eof {
                        assert(full.skip(tokens@.len() as int) =~= rest0.skip(1));
                        assert(rest0.skip(1) == spec_tokens_from(text, lexer.spec_pos(), ct,
                            nds)->0);
                    }
                }
            }
            if is_eof {
                proof {
                    assert(pos0 == text.len());
                    assert(spec_tokens_from(text, pos0, ct, nds) is Some);
                    assert(text.subrange(0, text.len() as int) =~= text);
                    assert(tokens@.last().lexeme@ =~= Seq::<char>::empty());
                    if spec_tokens_from(text, 0, ct, nds) is Some {
                        let full = spec_tokens_from(text, 0, ct, nds)->0;
                        assert(full.subrange(0, tokens@.len() as int) =~= full);
                    }
                }
                break;
            }
        }
        Ok(tokens)
    }

    /// Scan the whole input with the whitespace tokens removed: the
    /// result renders the preserving scan's list, whitespace entries
    /// dropped. It fails exactly when the text has a lexical error.
    pub fn scan_all(&self) -> (r: Result<Vec<Token>, F90nmlError>)
        requires
            self.spec_input().len() < usize::MAX as int,
        ensures
            r is Ok <==> spec_nonws_from(
                self.spec_input(),
                0,
                self.spec_comment_tokens(),
                self.spec_nds(),
            ) is Some,
            r matches Ok(ts) ==> {
                &&& spec_tokens_match(
                    ts@,
                    spec_nonws_from(
                        self.spec_input(),
                        0,
                        self.spec_comment_tokens(),
                        self.spec_nds(),
                    )->0,
                    self.spec_input(),
                )
                &&& spec_token_shape(ts@)
                &&& forall|i: int|
                    0 <= i < ts@.len() ==> (#[trigger] ts@[i].token_type) != TokenType::Whitespace
            },
            r is Err ==> r->Err_0 matches F90nmlError::InvalidSyntax { .. },
    {
        let mut lexer = Lexer::new(self.input.as_str()).with_comment_tokens(
            crate::fortran_types::value::copy_chars(&self.comment_tokens),
        ).with_non_delimited_strings(self.non_delimited_strings);
        let ghost text = self.input@;
        let ghost ct = self.comment_tokens@;
        let ghost nds = self.non_delimited_strings;
        let mut tokens: Vec<Token> = Vec::new();
        loop
            invariant_except_break
                forall|i: int|
                    0 <= i < tokens@.len() ==> (#[trigger] tokens@[i].token_type)
                        != TokenType::Eof,
                spec_nonws_from(text, 0, ct, nds) matches Some(full) ==> {
                    &&& spec_nonws_from(text, lexer.spec_pos(), ct, nds) matches Some(rest)
                        && full.len() == tokens@.len() + rest.len() && full.skip(
                        tokens@.len() as int,
                    ) == rest
                    &&& spec_tokens_match(tokens@, full.subrange(0, tokens@.len() as int), text)
                },
            invariant
                text == self.spec_input(),
                ct == self.spec_comment_tokens(),
                nds == self.spec_nds(),
                lexer.wf(),
                lexer.spec_input() == text,
                lexer.spec_comment_tokens() == ct,
                lexer.spec_nds() == nds,
                0 <= lexer.spec_pos() <= text.len(),
                forall|i: int|
                    0 <= i < tokens@.len() ==> (#[trigger] tokens@[i].token_type)
                        != TokenType::Whitespace,
                spec_nonws_from(text, 0, ct, nds) is Some <==> spec_nonws_from(
                    text,
                    lexer.spec_pos(),
                    ct,
                    nds,
                ) is Some,
            ensures
                spec_token_shape(tokens@),
                forall|i: int|
                    0 <= i < tokens@.len() ==> (#[trigger] tokens@[i].token_type)
                        != TokenType::Whitespace,
                spec_nonws_from(text, 0, ct, nds) is Some,
                spec_nonws_from(text, 0, ct, nds) matches Some(full) && spec_tokens_match(
                    tokens@,
                    full,
                    text,
                ),
            decreases text.len() - lexer.spec_pos() + 1,
        {
            let ghost pos0 = lexer.spec_pos();
            let token = match lexer.scan_token() {
                Ok(t) => t,
                Err(e) => {
                    proof {
                        assert(spec_nonws_from(text, pos0, ct, nds) is None);
                    }
                    return Err(e);
                },
            };
            let is_eof = token.token_type == TokenType::Eof;
            if token.token_type == TokenType::Whitespace {
                proof {
                    assert(pos0 < text.len());
                    assert(spec_nonws_from(text, pos0, ct, nds)->0 == spec_nonws_from(text,
                        lexer.spec_pos(), ct, nds)->0);
                }
                continue ;
            }
            let ghost toks0 = tokens@;
            tokens.push(token);
            proof {
                assert(tokens@.drop_last() =~= toks0);
                if spec_nonws_from(text, 0, ct, nds) is Some {
                    let full = spec_nonws_from(text, 0, ct, nds)->0;
                    let rest0 = spec_nonws_from(text, pos0, ct, nds)->0;
                    if pos0 == text.len() {
                        assert(rest0 =~= seq![(TokenType::Eof, pos0, pos0)]);
                    } else {
                        assert(token.token_type != TokenType::Eof);
                    }
                    assert(rest0[0] == (token.token_type, pos0, lexer.spec_pos()));
                    assert(full[toks0.len() as int] == rest0[0]);
                    assert(spec_tokens_match(tokens@, full.subrange(0, tokens@.len() as int),
                        text)) by {
                        let pre = full.subrange(0, tokens@.len() as int);
                        assert forall|i: int| 0 <= i < tokens@.len() implies {
                            let e = #[trigger] pre[i];
                            &&& tokens@[i].token_type == e.0
                            &&& 0 <= e.1 <= e.2 <= text.len()
                            &&& tokens@[i].lexeme@ == text.subrange(e.1, e.2)
                            &&& tokens@[i].line as int == spec_line_at(text, e.1)
                            &&& tokens@[i].column as int == spec_col_at(text, e.1)
                        } by {
                            if i < toks0.len() {
                                assert(pre[i] == full.subrange(0, toks0.len() as int)[i]);
                                assert(tokens@[i] == toks0[i]);
                            } else {
                                assert(pre[i] == rest0[0]);
                            }
                        }
                    }
                    if !is_eof {
                        assert(full.skip(tokens@.len() as int) =~= rest0.skip(1));
                        assert(rest0.skip(1) == spec_nonws_from(text, lexer.spec_pos(), ct,
                            nds)->0);
                    }
                }
            }
            if is_eof {
                proof {
                    assert(pos0 == text.len());
                    assert(spec_nonws_from(text, pos0, ct, nds) is Some);
                    assert(tokens@.last().lexeme@ =~= Seq::<char>::empty());
                    if spec_nonws_from(text, 0, ct, nds) is Some {
                        let full = spec_nonws_from(text, 0, ct, nds)->0;
                        assert(full.subrange(0, tokens@.len() as int) =~= full);
                    }
                }
                break;
            }
        }
        Ok(tokens)
    }

    /// Scan just the first token of the input: it renders the first
    /// entry a fresh scan of the text would give, and fails exactly
    /// when that scan finds no token at the start.
    pub fn scan_token(&self) -> (r: Result<Token, F90nmlError>)
        requires
            self.spec_input().len() < usize::MAX as int,
        ensures
            r is Ok <==> spec_scan_token(
                self.spec_input(),
                0,
                self.spec_comment_tokens(),
                self.spec_nds(),
            ) is Some,
            r matches Ok(t) ==> {
                let sc = spec_scan_token(
                    self.spec_input(),
                    0,
                    self.spec_comment_tokens(),
                    self.spec_nds(),
                )->0;
                &&& t.token_type == sc.0
                &&& t.lexeme@ == self.spec_input().subrange(0, sc.1)
                &&& t.line == 1
                &&& t.column == 1
            },
            r is Err ==> r->Err_0 matches F90nmlError::InvalidSyntax { .. },
    {
        let mut lexer = Lexer::new(self.input.as_str()).with_comment_tokens(
            crate::fortran_types::value::copy_chars(&self.comment_tokens),
        ).with_non_delimited_strings(self.non_delimited_strings);
        lexer.scan_token()
    }
}

/// Scan a string into tokens with whitespace removed.
pub fn scan(input: &str) -> (r: Result<Vec<Token>, F90nmlError>)
    requires
        input@.len() < usize::MAX as int,
    ensures
        r is Ok <==> spec_nonws_from(input@, 0, seq!['!', '#'], true) is Some,
        r matches Ok(ts) ==> spec_tokens_match(
            ts@,
            spec_nonws_from(input@, 0, seq!['!', '#'], true)->0,
            input@,
        ),
        r matches Ok(ts) ==> spec_token_shape(ts@) && forall|i: int|
            0 <= i < ts@.len() ==> (#[trigger] ts@[i].token_type) != TokenType::Whitespace,
        r is Err ==> r->Err_0 matches F90nmlError::InvalidSyntax { .. },
{
    let scanner = Scanner::new(input);
    scanner.scan_all()
}

/// Scan a string into tokens keeping whitespace and comments.
pub fn scan_with_whitespace(input: &str) -> (r: Result<Vec<Token>, F90nmlError>)
    requires
        input@.len() < usize::MAX as int,
    ensures
        r is Ok <==> spec_tokens_from(input@, 0, seq!['!', '#'], true) is Some,
        r matches Ok(ts) ==> spec_tokens_match(
            ts@,
            spec_tokens_from(input@, 0, seq!['!', '#'], true)->0,
            input@,
        ),
        r matches Ok(ts) ==> spec_cat_tokens(ts@) == input@ && spec_token_shape(ts@),
        r is Err ==> r->Err_0 matches F90nmlError::InvalidSyntax { .. },
{
    let scanner = Scanner::new(input);
    scanner.scan_all_including_whitespace()
}

} // verus!
