//! The streaming parser: a structural parse into a document, and the
//! simultaneous parse-and-rewrite that copies a document's text
//! verbatim except for the values a patch replaces. With an empty
//! patch, the rewritten text is the input, byte for byte.

use vstd::prelude::*;

verus! {

use crate::error::F90nmlError;
use crate::fortran_types::parsing::parse_fortran_value;
use crate::fortran_types::value::FortranValue;
use crate::namelist::document::Namelist;
use crate::namelist::document::WriteOptions;
use crate::namelist::group::NamelistGroup;
use crate::scanner::scanner::Scanner;
use crate::scanner::scanner::spec_cat_tokens;
use crate::scanner::token::Token;
use crate::scanner::token::TokenType;

/// A parser over a scanned token list.
pub struct StreamingParser {
    tokens: Vec<Token>,
}

/// The concatenated text of a token range.
pub open spec fn spec_cat_range(ts: Seq<Token>, from: int, to: int) -> Seq<char> {
    spec_cat_tokens(ts.subrange(from, to))
}

/// Concatenation over an adjacent split of a range.
pub proof fn lemma_cat_range_split(ts: Seq<Token>, a: int, b: int, c: int)
    requires
        0 <= a <= b <= c <= ts.len(),
    ensures
        spec_cat_range(ts, a, c) == spec_cat_range(ts, a, b) + spec_cat_range(ts, b, c),
    decreases c - b,
{
    if b == c {
        assert(ts.subrange(b, c).len() == 0);
        assert(spec_cat_range(ts, a, c) =~= spec_cat_range(ts, a, b) + spec_cat_range(ts, b, c));
    } else {
        lemma_cat_range_split(ts, a, b, c - 1);
        assert(ts.subrange(a, c).drop_last() =~= ts.subrange(a, c - 1));
        assert(ts.subrange(b, c).drop_last() =~= ts.subrange(b, c - 1));
        assert(ts.subrange(a, c).last() == ts[c - 1]);
        assert(ts.subrange(b, c).last() == ts[c - 1]);
        assert(spec_cat_range(ts, a, c) =~= spec_cat_range(ts, a, b) + spec_cat_range(ts, b, c));
    }
}

/// One token's text is the concatenation over its singleton range.
pub proof fn lemma_cat_range_one(ts: Seq<Token>, i: int)
    requires
        0 <= i < ts.len(),
    ensures
        spec_cat_range(ts, i, i + 1) == ts[i].lexeme@,
{
    assert(ts.subrange(i, i + 1).drop_last() =~= Seq::<Token>::empty());
    assert(ts.subrange(i, i + 1).last() == ts[i]);
    assert(spec_cat_tokens(Seq::<Token>::empty()) =~= Seq::<char>::empty());
    assert(spec_cat_range(ts, i, i + 1) =~= ts[i].lexeme@);
}

/// The kinds of a token list, in order.
pub open spec fn spec_kinds(ts: Seq<Token>) -> Seq<TokenType> {
    ts.map_values(|t: Token| t.token_type)
}

/// The entry kinds of a scanned entry list, in order.
pub open spec fn spec_entry_kinds(entries: Seq<(TokenType, int, int)>) -> Seq<TokenType> {
    entries.map_values(|e: (TokenType, int, int)| e.0)
}

/// The first position at or past `i` whose kind is not whitespace.
pub open spec fn spec_ws_end(ks: Seq<TokenType>, i: int) -> int
    decreases ks.len() - i when 0 <= i <= ks.len()
{
    if i < ks.len() && ks[i] == TokenType::Whitespace {
        spec_ws_end(ks, i + 1)
    } else {
        i
    }
}

/// The position just past a parenthesised span entered at nesting
/// `depth`, stepping as the rewriter does.
pub open spec fn spec_paren_end(ks: Seq<TokenType>, i: int, depth: int) -> int
    decreases ks.len() - i when 0 <= i <= ks.len() && 0 <= depth
{
    if i < ks.len() && depth > 0 {
        let d2 = if ks[i] == TokenType::LeftParen {
            if depth < usize::MAX as int {
                depth + 1
            } else {
                depth
            }
        } else if ks[i] == TokenType::RightParen {
            depth - 1
        } else {
            depth
        };
        spec_paren_end(ks, i + 1, d2)
    } else {
        i
    }
}

/// Whether the identifier at a position starts an assignment: the
/// next structural token is an assignment mark or an index span.
pub open spec fn spec_next_assigns(ks: Seq<TokenType>, at: int) -> bool {
    let l = spec_ws_end(ks, at + 1);
    l < ks.len() && (ks[l] == TokenType::Assign || ks[l] == TokenType::LeftParen)
}

/// The position of the assignment mark after the variable name at
/// `start`, past whitespace and an optional index span, if one stands
/// there.
pub open spec fn spec_assign_pos(ks: Seq<TokenType>, start: int) -> Option<int> {
    let i1 = spec_ws_end(ks, start + 1);
    let i2 = if i1 < ks.len() && ks[i1] == TokenType::LeftParen {
        spec_paren_end(ks, i1 + 1, 1)
    } else {
        i1
    };
    let i3 = spec_ws_end(ks, i2);
    if i3 < ks.len() && ks[i3] == TokenType::Assign {
        Some(i3)
    } else {
        None
    }
}

/// The position just past a value's tokens: the walk stops at the end
/// marker, a separator or group close outside parentheses, or an
/// identifier that starts the next assignment.
pub open spec fn spec_value_end(ks: Seq<TokenType>, i: int, depth: int) -> int
    decreases ks.len() - i when 0 <= i <= ks.len() && 0 <= depth
{
    if i >= ks.len() {
        i
    } else {
        let k = ks[i];
        if k == TokenType::Eof {
            i
        } else if k == TokenType::Comma && depth == 0 {
            i
        } else if (k == TokenType::GroupEnd || k == TokenType::GroupEndAlt) && depth == 0 {
            i
        } else if k == TokenType::Identifier && depth == 0 && spec_next_assigns(ks, i) {
            i
        } else {
            let d2 = if k == TokenType::LeftParen {
                if depth < usize::MAX as int {
                    depth + 1
                } else {
                    depth
                }
            } else if k == TokenType::RightParen {
                if depth > 0 {
                    depth - 1
                } else {
                    0
                }
            } else {
                depth
            };
            spec_value_end(ks, i + 1, d2)
        }
    }
}

/// The verdict and end of a group body walked by the rewriter: the
/// position just past the group close, or nothing when an assignment
/// in the body has no assignment mark.
pub open spec fn spec_body_end(ks: Seq<TokenType>, i: int) -> Option<int>
    decreases ks.len() - i when 0 <= i <= ks.len()
{
    if i >= ks.len() {
        Some(i)
    } else {
        let k = ks[i];
        if k == TokenType::GroupEnd || k == TokenType::GroupEndAlt {
            Some(i + 1)
        } else if k == TokenType::Identifier && spec_next_assigns(ks, i) {
            match spec_assign_pos(ks, i) {
                Some(a) => {
                    let ve = spec_value_end(ks, spec_ws_end(ks, a + 1), 0);
                    let nx = if ve > i {
                        ve
                    } else {
                        i + 1
                    };
                    let nx2 = if nx <= ks.len() {
                        nx
                    } else {
                        ks.len() as int
                    };
                    spec_body_end(ks, nx2)
                },
                None => None,
            }
        } else {
            spec_body_end(ks, i + 1)
        }
    }
}

/// The verdict and end of a whole group rewritten from its introducer:
/// a group name must follow the introducer, and the body must walk
/// through.
pub open spec fn spec_group_end(ks: Seq<TokenType>, start: int) -> Option<int> {
    let p = spec_ws_end(ks, start + 1);
    if p < ks.len() && ks[p] == TokenType::Identifier {
        spec_body_end(ks, p + 1)
    } else {
        None
    }
}

/// Whether the rewriter walks the whole preserving token list through:
/// every group openend by an introducer has a name and a well-marked
/// body.
pub open spec fn spec_patch_ok(ks: Seq<TokenType>, i: int) -> bool
    decreases ks.len() - i when 0 <= i <= ks.len()
{
    if i >= ks.len() {
        true
    } else {
        let k = ks[i];
        if k == TokenType::GroupStart || k == TokenType::GroupStartAlt {
            match spec_group_end(ks, i) {
                Some(e) => {
                    let nx = if e > i {
                        e
                    } else {
                        i + 1
                    };
                    let nx2 = if nx <= ks.len() {
                        nx
                    } else {
                        ks.len() as int
                    };
                    spec_patch_ok(ks, nx2)
                },
                None => false,
            }
        } else if k == TokenType::Eof {
            true
        } else {
            spec_patch_ok(ks, i + 1)
        }
    }
}

/// The verdict and end of a group body walked by the structural
/// parser over the whitespace-free token list: each assignment is a
/// name, an optional index span, the assignment mark, and one value
/// token.
pub open spec fn spec_parse_body(ks: Seq<TokenType>, i: int) -> Option<int>
    decreases ks.len() - i when 0 <= i <= ks.len()
{
    if i >= ks.len() {
        Some(i)
    } else {
        let k = ks[i];
        if k == TokenType::GroupEnd || k == TokenType::GroupEndAlt {
            Some(i + 1)
        } else if k == TokenType::Identifier {
            let j0 = i + 1;
            let j = if j0 < ks.len() && ks[j0] == TokenType::LeftParen {
                spec_paren_end(ks, j0 + 1, 1)
            } else {
                j0
            };
            if j < ks.len() && ks[j] == TokenType::Assign && j + 1 < ks.len() {
                let nx = if j + 2 > i {
                    j + 2
                } else {
                    i + 1
                };
                let nx2 = if nx <= ks.len() {
                    nx
                } else {
                    ks.len() as int
                };
                spec_parse_body(ks, nx2)
            } else {
                None
            }
        } else {
            spec_parse_body(ks, i + 1)
        }
    }
}

/// The verdict and end of a whole group parsed from its introducer in
/// the whitespace-free token list.
pub open spec fn spec_parse_group_end(ks: Seq<TokenType>, start: int) -> Option<int> {
    if start + 1 < ks.len() && ks[start + 1] == TokenType::Identifier {
        spec_parse_body(ks, start + 2)
    } else {
        None
    }
}

/// Whether the structural parser walks the whole whitespace-free token
/// list through.
pub open spec fn spec_parse_ok(ks: Seq<TokenType>, i: int) -> bool
    decreases ks.len() - i when 0 <= i <= ks.len()
{
    if i >= ks.len() {
        true
    } else {
        let k = ks[i];
        if k == TokenType::GroupStart || k == TokenType::GroupStartAlt {
            match spec_parse_group_end(ks, i) {
                Some(e) => {
                    let nx = if e > i {
                        e
                    } else {
                        i + 1
                    };
                    let nx2 = if nx <= ks.len() {
                        nx
                    } else {
                        ks.len() as int
                    };
                    spec_parse_ok(ks, nx2)
                },
                None => false,
            }
        } else {
            spec_parse_ok(ks, i + 1)
        }
    }
}

/// The whitespace walk stays within the list and never steps back.
pub proof fn lemma_ws_end_bounds(ks: Seq<TokenType>, i: int)
    requires
        0 <= i <= ks.len(),
    ensures
        i <= spec_ws_end(ks, i) <= ks.len(),
    decreases ks.len() - i,
{
    if i < ks.len() && ks[i] == TokenType::Whitespace {
        lemma_ws_end_bounds(ks, i + 1);
    }
}

/// The index-span walk stays within the list and never steps back.
pub proof fn lemma_paren_end_bounds(ks: Seq<TokenType>, i: int, depth: int)
    requires
        0 <= i <= ks.len(),
        0 <= depth,
    ensures
        i <= spec_paren_end(ks, i, depth) <= ks.len(),
    decreases ks.len() - i,
{
    if i < ks.len() && depth > 0 {
        let d2 = if ks[i] == TokenType::LeftParen {
            if depth < usize::MAX as int {
                depth + 1
            } else {
                depth
            }
        } else if ks[i] == TokenType::RightParen {
            depth - 1
        } else {
            depth
        };
        lemma_paren_end_bounds(ks, i + 1, d2);
    }
}

/// The value walk stays within the list and never steps back.
pub proof fn lemma_value_end_bounds(ks: Seq<TokenType>, i: int, depth: int)
    requires
        0 <= i <= ks.len(),
        0 <= depth,
    ensures
        i <= spec_value_end(ks, i, depth) <= ks.len(),
    decreases ks.len() - i,
{
    if i >= ks.len() {
    } else {
        let k = ks[i];
        if k == TokenType::Eof {
        } else if k == TokenType::Comma && depth == 0 {
        } else if (k == TokenType::GroupEnd || k == TokenType::GroupEndAlt) && depth == 0 {
        } else if k == TokenType::Identifier && depth == 0 && spec_next_assigns(ks, i) {
        } else {
            let d2 = if k == TokenType::LeftParen {
                if depth < usize::MAX as int {
                    depth + 1
                } else {
                    depth
                }
            } else if k == TokenType::RightParen {
                if depth > 0 {
                    depth - 1
                } else {
                    0
                }
            } else {
                depth
            };
            lemma_value_end_bounds(ks, i + 1, d2);
        }
    }
}

/// An assignment mark found after a name stands strictly past it and
/// within the list.
pub proof fn lemma_assign_pos_bounds(ks: Seq<TokenType>, start: int)
    requires
        0 <= start < ks.len(),
    ensures
        spec_assign_pos(ks, start) matches Some(a) ==> start < a < ks.len(),
{
    lemma_ws_end_bounds(ks, start + 1);
    let i1 = spec_ws_end(ks, start + 1);
    if i1 < ks.len() && ks[i1] == TokenType::LeftParen {
        lemma_paren_end_bounds(ks, i1 + 1, 1);
    }
    let i2 = if i1 < ks.len() && ks[i1] == TokenType::LeftParen {
        spec_paren_end(ks, i1 + 1, 1)
    } else {
        i1
    };
    lemma_ws_end_bounds(ks, i2);
}

impl StreamingParser {
    /// The scanned token list the parser walks.
    pub closed spec fn spec_toks(&self) -> Seq<Token> {
        self.tokens@
    }

    /// Build a parser over the structural token list of the input: it
    /// fails exactly when the text has a lexical error, and otherwise
    /// holds the whitespace-free token list of the text.
    pub fn new(input: &str) -> (r: Result<StreamingParser, F90nmlError>)
        requires
            input@.len() < usize::MAX as int,
        ensures
            r is Ok <==> crate::scanner::scanner::spec_nonws_from(
                input@,
                0,
                seq!['!', '#'],
                true,
            ) is Some,
            r matches Ok(p) ==> spec_kinds(p.spec_toks()) == spec_entry_kinds(
                crate::scanner::scanner::spec_nonws_from(input@, 0, seq!['!', '#'], true)->0,
            ),
            r is Err ==> r->Err_0 matches F90nmlError::InvalidSyntax { .. },
    {
        let scanner = Scanner::new(input);
        let tokens = match scanner.scan_all() {
            Ok(ts) => ts,
            Err(e) => {
                return Err(e);
            },
        };
        proof {
            assert(spec_kinds(tokens@) =~= spec_entry_kinds(
                crate::scanner::scanner::spec_nonws_from(input@, 0, seq!['!', '#'], true)->0,
            ));
        }
        Ok(StreamingParser { tokens })
    }

    /// Parse the token list into a document: each group introducer
    /// starts a group of `name = value` assignments up to the group
    /// end; anything before the first group is skipped. Every value
    /// carried in the result is well-formed.
    pub fn parse(&mut self) -> (r: Result<Namelist, F90nmlError>)
        ensures
            r matches Ok(nml) ==> nml.wf(),
            r is Ok <==> spec_parse_ok(spec_kinds(old(self).spec_toks()), 0),
    {
        let ghost ks = spec_kinds(self.tokens@);
        let mut namelist = Namelist::new();
        let n = self.tokens.len();
        let mut i: usize = 0;
        proof {
            lemma_empty_namelist_wf(namelist);
        }
        while i < n
            invariant
                self.tokens@ == old(self).tokens@,
                ks == spec_kinds(self.tokens@),
                n == self.tokens@.len(),
                i <= n,
                namelist.wf(),
                spec_parse_ok(ks, i as int) == spec_parse_ok(ks, 0),
            decreases n - i,
        {
            let kind = self.tokens[i].token_type;
            if kind == TokenType::GroupStart || kind == TokenType::GroupStartAlt {
                let (group_name, group, next) = match self.parse_group(i) {
                    Ok(t) => t,
                    Err(e) => {
                        proof {
                            assert(!spec_parse_ok(ks, i as int));
                        }
                        return Err(e);
                    },
                };
                proof {
                    assert(spec_parse_group_end(ks, i as int) == Some(next as int));
                    assert(spec_parse_ok(ks, i as int) == spec_parse_ok(ks, next as int));
                }
                let ghost pre_full = namelist.spec_full();
                namelist.insert_group_object(group_name.as_str(), group);
                proof {
                    crate::namelist::document::lemma_full_update_wf(
                        pre_full,
                        crate::text::spec_lower_seq(group_name@),
                        group.model(),
                    );
                }
                i = next;
            } else {
                i += 1;
            }
        }
        Ok(namelist)
    }

    /// Parse one group starting at its introducer token.
    fn parse_group(&self, start: usize) -> (r: Result<(String, NamelistGroup, usize), F90nmlError>)
        requires
            start < self.tokens@.len(),
        ensures
            r matches Ok(t) ==> start < t.2 <= self.tokens@.len(),
            r matches Ok(t) ==> crate::fortran_types::value::spec_field_models_wf(
                t.1.spec_vars(),
            ),
            r is Ok <==> spec_parse_group_end(spec_kinds(self.tokens@), start as int) is Some,
            r matches Ok(t) ==> Some(t.2 as int) == spec_parse_group_end(
                spec_kinds(self.tokens@),
                start as int,
            ),
    {
        let ghost ks = spec_kinds(self.tokens@);
        let n = self.tokens.len();
        let mut i = start + 1;
        if i >= n {
            return Err(F90nmlError::UnexpectedEof);
        }
        let name_token = &self.tokens[i];
        if name_token.token_type != TokenType::Identifier {
            return Err(F90nmlError::parse_error(
                "Expected group name after the group introducer",
                name_token.line,
                name_token.column,
            ));
        }
        let group_name = name_token.lexeme.clone();
        i += 1;
        let mut group = NamelistGroup::new();
        proof {
            lemma_empty_group_wf(group);
        }
        while i < n
            invariant
                ks == spec_kinds(self.tokens@),
                n == self.tokens@.len(),
                start < i,
                i <= n,
                start + 1 < n && ks[start + 1] == TokenType::Identifier,
                spec_parse_body(ks, i as int) == spec_parse_body(ks, start + 2),
                crate::fortran_types::value::spec_field_models_wf(group.spec_vars()),
            decreases n - i,
        {
            let kind = self.tokens[i].token_type;
            if kind == TokenType::GroupEnd || kind == TokenType::GroupEndAlt {
                i += 1;
                return Ok((group_name, group, i));
            }
            if kind == TokenType::Identifier {
                let var_name = self.tokens[i].lexeme.clone();
                let mut j = i + 1;
                // skip an index span in parentheses
                if j < n && self.tokens[j].token_type == TokenType::LeftParen {
                    let mut depth: usize = 1;
                    j += 1;
                    while j < n && depth > 0
                        invariant
                            ks == spec_kinds(self.tokens@),
                            n == self.tokens@.len(),
                            i < j,
                            j <= n,
                            spec_paren_end(ks, j as int, depth as int) == spec_paren_end(
                                ks,
                                i + 2,
                                1,
                            ),
                        decreases n - j,
                    {
                        let k2 = self.tokens[j].token_type;
                        if k2 == TokenType::LeftParen {
                            if depth < usize::MAX {
                                depth = depth + 1;
                            }
                        } else if k2 == TokenType::RightParen {
                            depth = depth - 1;
                        }
                        j += 1;
                    }
                }
                proof {
                    if i + 1 < n && ks[i + 1] == TokenType::LeftParen {
                        assert(j as int == spec_paren_end(ks, i + 2, 1));
                    } else {
                        assert(j == i + 1);
                    }
                }
                if j >= n {
                    return Err(F90nmlError::UnexpectedEof);
                }
                if self.tokens[j].token_type != TokenType::Assign {
                    return Err(F90nmlError::parse_error(
                        "Expected '=' after the variable name",
                        self.tokens[j].line,
                        self.tokens[j].column,
                    ));
                }
                proof {
                    lemma_paren_end_bounds(ks, i + 2, 1);
                }
                j += 1;
                if j >= n {
                    return Err(F90nmlError::UnexpectedEof);
                }
                let value = match parse_fortran_value(self.tokens[j].lexeme.as_str(), None) {
                    Ok(v) => v,
                    Err(e) => {
                        return Err(e);
                    },
                };
                let ghost pre_vars = group.spec_vars();
                group.insert_value(var_name.as_str(), value);
                proof {
                    crate::namelist::patching::lemma_entry_update_preserves_wf(
                        pre_vars,
                        crate::text::spec_lower_seq(var_name@),
                        value.deep_view(),
                    );
                }
                i = j + 1;
            } else {
                i += 1;
            }
        }
        Ok((group_name, group, i))
    }
}

/// An empty namelist is well-formed.
proof fn lemma_empty_namelist_wf(nml: Namelist)
    requires
        nml.spec_full().len() == 0,
    ensures
        nml.wf(),
{
}

/// An empty group's variable models are well-formed.
proof fn lemma_empty_group_wf(g: NamelistGroup)
    requires
        g.spec_vars().len() == 0,
    ensures
        crate::fortran_types::value::spec_field_models_wf(g.spec_vars()),
{
}

impl StreamingParser {
    /// Parse the original text while writing a patched copy: every
    /// token is copied verbatim except the value of a variable the
    /// patch replaces, patch-only variables join their group before its
    /// close, and patch-only groups are appended in canonical form.
    /// With an empty patch the output is the input, byte for byte.
    #[verifier::loop_isolation(false)]
    #[verifier::rlimit(100)]
    pub fn parse_and_patch(&mut self, patch: &Namelist, original: &str) -> (r: Result<
        (String, Namelist),
        F90nmlError,
    >)
        requires
            original@.len() < usize::MAX as int,
            patch.wf(),
        ensures
            r matches Ok(pr) ==> pr.1.wf(),
            r matches Ok(pr) ==> (patch.spec_full().len() == 0 ==> pr.0@ == original@),
            r is Ok <==> ({
                let lx = crate::scanner::scanner::spec_tokens_from(
                    original@,
                    0,
                    seq!['!', '#'],
                    true,
                );
                lx is Some && spec_patch_ok(spec_entry_kinds(lx->0), 0)
            }),
    {
        let scanner = Scanner::new(original);
        let ghost lx = crate::scanner::scanner::spec_tokens_from(original@, 0, seq!['!', '#'], true);
        let all = match scanner.scan_all_including_whitespace() {
            Ok(ts) => ts,
            Err(e) => {
                return Err(e);
            },
        };
        let ghost toks = all@;
        let ghost ks = spec_kinds(all@);
        proof {
            assert(ks =~= spec_entry_kinds(lx->0));
        }
        let ghost empty_patch = patch.spec_full().len() == 0;
        proof {
            crate::namelist::document::lemma_models_agree(patch);
        }
        let n = all.len();
        let mut out: Vec<char> = Vec::new();
        let mut nml = Namelist::new();
        let mut idx: usize = 0;
        proof {
            assert(toks.subrange(0, 0).len() == 0);
            assert(spec_cat_range(toks, 0, 0) =~= Seq::<char>::empty());
        }
        while idx < n
            invariant
                n == toks.len(),
                idx <= n,
                all@ == toks,
                nml.wf(),
                empty_patch ==> out@ == spec_cat_range(toks, 0, idx as int),
                spec_patch_ok(ks, idx as int) == spec_patch_ok(ks, 0),
            decreases n - idx,
        {
            let kind = all[idx].token_type;
            if kind == TokenType::GroupStart || kind == TokenType::GroupStartAlt {
                let ghost out0 = out@;
                let (gname, group, next) = match self.patch_group(&all, idx, &mut out, patch) {
                    Ok(t) => t,
                    Err(e) => {
                        proof {
                            assert(!spec_patch_ok(ks, idx as int));
                        }
                        return Err(e);
                    },
                };
                proof {
                    assert(spec_group_end(ks, idx as int) == Some(next as int));
                    assert(spec_patch_ok(ks, idx as int) == spec_patch_ok(ks, next as int));
                }
                let ghost pre_full = nml.spec_full();
                nml.insert_group_object(gname.as_str(), group);
                proof {
                    crate::namelist::document::lemma_full_update_wf(
                        pre_full,
                        crate::text::spec_lower_seq(gname@),
                        group.model(),
                    );
                    if empty_patch {
                        lemma_cat_range_split(toks, 0, idx as int, next as int);
                    }
                }
                idx = next;
            } else if kind == TokenType::Eof {
                proof {
                    assert(spec_patch_ok(ks, idx as int));
                    assert(spec_patch_ok(ks, n as int));
                    if empty_patch {
                        assert(idx == n - 1);
                        lemma_cat_range_split(toks, 0, idx as int, n as int);
                        lemma_cat_range_one(toks, idx as int);
                        assert(out@ =~= spec_cat_range(toks, 0, n as int));
                    }
                }
                idx = n;
            } else {
                crate::fortran_types::realnum::append_chars(
                    &mut out,
                    crate::text::str_to_chars(all[idx].lexeme.as_str()).as_slice(),
                );
                idx += 1;
                proof {
                    if empty_patch {
                        lemma_cat_range_split(toks, 0, idx - 1, idx as int);
                        lemma_cat_range_one(toks, idx - 1);
                    }
                }
            }
        }
        proof {
            assert(spec_patch_ok(ks, 0));
            if empty_patch {
                assert(toks.subrange(0, n as int) =~= toks);
                assert(out@ == spec_cat_tokens(toks));
            }
        }
        // groups only the patch holds are appended in canonical form
        let pn = patch.len();
        let mut pi: usize = 0;
        while pi < pn
            invariant
                pn == patch.spec_full().len(),
                pi <= pn,
                patch.wf(),
                nml.wf(),
                empty_patch ==> out@ == spec_cat_tokens(toks),
            decreases pn - pi,
        {
            proof {
                crate::namelist::document::lemma_models_agree(patch);
            }
            let (pgname, pgroup) = patch.group_at(pi);
            let pgname = pgname.clone();
            if !nml.has_group(pgname.as_str()) {
                proof {
                    crate::namelist::document::lemma_full_wf_at(patch, pi as int);
                }
                let block = crate::namelist::document::group_block(
                    &pgname,
                    pgroup,
                    &WriteOptions::default(),
                    false,
                );
                crate::fortran_types::realnum::append_chars(&mut out, block.as_slice());
                let ghost pre_full = nml.spec_full();
                let copied = pgroup.dup();
                nml.insert_group_object(pgname.as_str(), copied);
                proof {
                    crate::namelist::document::lemma_full_update_wf(
                        pre_full,
                        crate::text::spec_lower_seq(pgname@),
                        copied.model(),
                    );
                }
            }
            pi += 1;
        }
        proof {
            if empty_patch {
                assert(out@ == original@);
            }
        }
        Ok((crate::text::chars_to_string(out.as_slice()), nml))
    }

    /// Rewrite one group: the introducer, name, untouched tokens and
    /// unpatched values are copied verbatim; patched variables get the
    /// patch value's canonical text; patch-only variables are written
    /// before the group close.
    #[verifier::loop_isolation(false)]
    #[verifier::rlimit(100)]
    fn patch_group(
        &self,
        all: &Vec<Token>,
        start: usize,
        out: &mut Vec<char>,
        patch: &Namelist,
    ) -> (r: Result<(String, NamelistGroup, usize), F90nmlError>)
        requires
            start < all@.len(),
            patch.wf(),
        ensures
            r matches Ok(t) ==> {
                &&& start < t.2 <= all@.len()
                &&& crate::fortran_types::value::spec_field_models_wf(t.1.spec_vars())
                &&& (patch.spec_full().len() == 0 ==> final(out)@ == old(out)@ + spec_cat_range(
                    all@,
                    start as int,
                    t.2 as int,
                ))
            },
            r is Ok <==> spec_group_end(spec_kinds(all@), start as int) is Some,
            r matches Ok(t) ==> Some(t.2 as int) == spec_group_end(spec_kinds(all@), start as int),
    {
        let ghost toks = all@;
        let ghost ks = spec_kinds(all@);
        let ghost empty_patch = patch.spec_full().len() == 0;
        let ghost out0 = out@;
        let n = all.len();
        // the introducer
        crate::fortran_types::realnum::append_chars(
            out,
            crate::text::str_to_chars(all[start].lexeme.as_str()).as_slice(),
        );
        let mut idx = start + 1;
        proof {
            lemma_cat_range_one(toks, start as int);
        }
        // whitespace between the introducer and the name
        while idx < n && all[idx].token_type == TokenType::Whitespace
            invariant
                n == toks.len(),
                start < idx,
                idx <= n,
                out@ == out0 + spec_cat_range(toks, start as int, idx as int),
                spec_ws_end(ks, idx as int) == spec_ws_end(ks, start + 1),
            decreases n - idx,
        {
            crate::fortran_types::realnum::append_chars(
                out,
                crate::text::str_to_chars(all[idx].lexeme.as_str()).as_slice(),
            );
            idx += 1;
            proof {
                lemma_cat_range_split(toks, start as int, idx - 1, idx as int);
                lemma_cat_range_one(toks, idx - 1);
            }
        }
        let ghost p = idx as int;
        proof {
            assert(p == spec_ws_end(ks, start + 1));
        }
        if idx >= n || all[idx].token_type != TokenType::Identifier {
            proof {
                assert(spec_group_end(ks, start as int) is None);
            }
            return Err(F90nmlError::parse_error("Expected group name after the group introducer",
                0, 0));
        }
        let group_name = all[idx].lexeme.clone();
        crate::fortran_types::realnum::append_chars(
            out,
            crate::text::str_to_chars(all[idx].lexeme.as_str()).as_slice(),
        );
        idx += 1;
        proof {
            lemma_cat_range_split(toks, start as int, idx - 1, idx as int);
            lemma_cat_range_one(toks, idx - 1);
        }
        let mut group = NamelistGroup::new();
        proof {
            lemma_empty_group_wf(group);
        }
        let patch_group = patch.get_group(group_name.as_str());
        proof {
            if empty_patch {
                crate::namelist::document::lemma_empty_patch_no_group(patch,
                    crate::text::spec_lower_seq(group_name@));
            }
            if patch_group is Some {
                crate::namelist::document::lemma_group_lookup_wf(patch,
                    crate::text::spec_lower_seq(group_name@));
            }
        }
        let mut used: Vec<String> = Vec::new();
        while idx < n
            invariant
                n == toks.len(),
                start < idx,
                idx <= n,
                p == spec_ws_end(ks, start + 1) && p < n && ks[p] == TokenType::Identifier,
                spec_body_end(ks, idx as int) == spec_body_end(ks, p + 1),
                crate::fortran_types::value::spec_field_models_wf(group.spec_vars()),
                empty_patch ==> patch_group is None,
                patch_group matches Some(pg)
                    ==> crate::fortran_types::value::spec_field_models_wf(pg.spec_vars()),
                patch_group is None ==> out@ == out0 + spec_cat_range(toks, start as int,
                idx as int),
                patch.wf(),
            decreases n - idx,
        {
            let kind = all[idx].token_type;
            if kind == TokenType::GroupEnd || kind == TokenType::GroupEndAlt {
                // patch-only variables join before the close
                match patch_group {
                    Some(pg) => {
                        let added = self.append_missing(pg, &used, &mut group, out);
                        match added {
                            Ok(..) => {},
                            Err(e) => {
                                return Err(e);
                            },
                        }
                    },
                    None => {},
                }
                crate::fortran_types::realnum::append_chars(
                    out,
                    crate::text::str_to_chars(all[idx].lexeme.as_str()).as_slice(),
                );
                idx += 1;
                proof {
                    if patch_group is None {
                        lemma_cat_range_split(toks, start as int, idx - 1, idx as int);
                        lemma_cat_range_one(toks, idx - 1);
                    }
                }
                return Ok((group_name, group, idx));
            }
            if kind == TokenType::Identifier {
                // assignment when '=' or '(' follows past whitespace
                let is_assign = self.next_assigns(all, idx);
                if is_assign {
                    let stepped = match self.patch_variable(all, idx, out, patch_group, &mut group,
                        &mut used) {
                        Ok(v) => v,
                        Err(e) => {
                            proof {
                                assert(spec_body_end(ks, idx as int) is None);
                                assert(spec_group_end(ks, start as int) is None);
                            }
                            return Err(e);
                        },
                    };
                    proof {
                        if patch_group is None {
                            lemma_cat_range_split(toks, start as int, idx as int,
                                stepped as int);
                        }
                        let a = spec_assign_pos(ks, idx as int)->0;
                        lemma_assign_pos_bounds(ks, idx as int);
                        lemma_ws_end_bounds(ks, a + 1);
                        lemma_value_end_bounds(ks, spec_ws_end(ks, a + 1), 0);
                        let ve = spec_value_end(ks, spec_ws_end(ks, a + 1), 0);
                        assert(idx < ve <= n);
                        assert(spec_body_end(ks, idx as int) == spec_body_end(ks, ve));
                        if stepped as int == ve + 1 && ve < n && ks[ve] == TokenType::Comma {
                            assert(spec_body_end(ks, ve) == spec_body_end(ks, ve + 1));
                        }
                        assert(spec_body_end(ks, stepped as int) == spec_body_end(ks, p + 1));
                    }
                    idx = stepped;
                    continue ;
                }
            }
            crate::fortran_types::realnum::append_chars(
                out,
                crate::text::str_to_chars(all[idx].lexeme.as_str()).as_slice(),
            );
            idx += 1;
            proof {
                if patch_group is None {
                    lemma_cat_range_split(toks, start as int, idx - 1, idx as int);
                    lemma_cat_range_one(toks, idx - 1);
                }
            }
        }
        Ok((group_name, group, idx))
    }
}

impl StreamingParser {
    /// Rewrite one variable assignment. The name, any index span, and
    /// the assignment mark are copied verbatim; the value is copied
    /// verbatim unless the patch group holds the variable, in which
    /// case the patch value's canonical text is written instead and the
    /// original value's tokens are passed over.
    #[verifier::loop_isolation(false)]
    #[verifier::rlimit(100)]
    fn patch_variable(
        &self,
        all: &Vec<Token>,
        start: usize,
        out: &mut Vec<char>,
        patch_group: Option<&NamelistGroup>,
        group: &mut NamelistGroup,
        used: &mut Vec<String>,
    ) -> (r: Result<usize, F90nmlError>)
        requires
            start < all@.len(),
            all@[start as int].token_type == TokenType::Identifier,
            crate::fortran_types::value::spec_field_models_wf(old(group).spec_vars()),
            patch_group matches Some(pg) ==> crate::fortran_types::value::spec_field_models_wf(
                pg.spec_vars(),
            ),
        ensures
            r is Ok <==> spec_assign_pos(spec_kinds(all@), start as int) is Some,
            r matches Ok(v) ==> {
                &&& start < v <= all@.len()
                &&& crate::fortran_types::value::spec_field_models_wf(final(group).spec_vars())
                &&& (patch_group is None ==> final(out)@ == old(out)@ + spec_cat_range(
                    all@,
                    start as int,
                    v as int,
                ))
            },
            r matches Ok(v) ==> ({
                let ks = spec_kinds(all@);
                let a = spec_assign_pos(ks, start as int)->0;
                let ve = spec_value_end(ks, spec_ws_end(ks, a + 1), 0);
                v as int == ve || (ve < ks.len() && ks[ve] == TokenType::Comma && v as int == ve
                    + 1)
            }),
    {
        let ghost toks = all@;
        let ghost ks = spec_kinds(all@);
        let ghost out0 = out@;
        let n = all.len();
        let var_name = all[start].lexeme.clone();
        crate::fortran_types::realnum::append_chars(
            out,
            crate::text::str_to_chars(all[start].lexeme.as_str()).as_slice(),
        );
        let mut i = start + 1;
        proof {
            lemma_cat_range_one(toks, start as int);
        }
        while i < n && all[i].token_type == TokenType::Whitespace
            invariant
                n == toks.len(),
                start < i <= n,
                out@ == out0 + spec_cat_range(toks, start as int, i as int),
                spec_ws_end(ks, i as int) == spec_ws_end(ks, start + 1),
            decreases n - i,
        {
            crate::fortran_types::realnum::append_chars(
                out,
                crate::text::str_to_chars(all[i].lexeme.as_str()).as_slice(),
            );
            i += 1;
            proof {
                lemma_cat_range_split(toks, start as int, i - 1, i as int);
                lemma_cat_range_one(toks, i - 1);
            }
        }
        let ghost i1 = i as int;
        proof {
            assert(i1 == spec_ws_end(ks, start + 1));
        }
        // an index span is copied verbatim, never patched
        if i < n && all[i].token_type == TokenType::LeftParen {
            let mut depth: usize = 1;
            crate::fortran_types::realnum::append_chars(
                out,
                crate::text::str_to_chars(all[i].lexeme.as_str()).as_slice(),
            );
            i += 1;
            proof {
                lemma_cat_range_split(toks, start as int, i - 1, i as int);
                lemma_cat_range_one(toks, i - 1);
            }
            while i < n && depth > 0
                invariant
                    n == toks.len(),
                    start < i <= n,
                    out@ == out0 + spec_cat_range(toks, start as int, i as int),
                    spec_paren_end(ks, i as int, depth as int) == spec_paren_end(ks, i1 + 1, 1),
                decreases n - i,
            {
                let k2 = all[i].token_type;
                if k2 == TokenType::LeftParen {
                    if depth < usize::MAX {
                        depth = depth + 1;
                    }
                } else if k2 == TokenType::RightParen {
                    depth = depth - 1;
                }
                crate::fortran_types::realnum::append_chars(
                    out,
                    crate::text::str_to_chars(all[i].lexeme.as_str()).as_slice(),
                );
                i += 1;
                proof {
                    lemma_cat_range_split(toks, start as int, i - 1, i as int);
                    lemma_cat_range_one(toks, i - 1);
                }
            }
        }
        let ghost i2 = i as int;
        proof {
            if i1 < ks.len() && ks[i1] == TokenType::LeftParen {
                assert(i2 == spec_paren_end(ks, i1 + 1, 1));
            } else {
                assert(i2 == i1);
            }
        }
        while i < n && all[i].token_type == TokenType::Whitespace
            invariant
                n == toks.len(),
                start < i <= n,
                out@ == out0 + spec_cat_range(toks, start as int, i as int),
                spec_ws_end(ks, i as int) == spec_ws_end(ks, i2),
            decreases n - i,
        {
            crate::fortran_types::realnum::append_chars(
                out,
                crate::text::str_to_chars(all[i].lexeme.as_str()).as_slice(),
            );
            i += 1;
            proof {
                lemma_cat_range_split(toks, start as int, i - 1, i as int);
                lemma_cat_range_one(toks, i - 1);
            }
        }
        let ghost i3 = i as int;
        proof {
            assert(i3 == spec_ws_end(ks, i2));
        }
        if i >= n || all[i].token_type != TokenType::Assign {
            proof {
                assert(spec_assign_pos(ks, start as int) is None);
            }
            return Err(F90nmlError::parse_error("Expected '=' in variable assignment", 0, 0));
        }
        let ghost apos = i as int;
        proof {
            assert(spec_assign_pos(ks, start as int) == Some(apos));
        }
        crate::fortran_types::realnum::append_chars(
            out,
            crate::text::str_to_chars(all[i].lexeme.as_str()).as_slice(),
        );
        i += 1;
        proof {
            lemma_cat_range_split(toks, start as int, i - 1, i as int);
            lemma_cat_range_one(toks, i - 1);
        }
        while i < n && all[i].token_type == TokenType::Whitespace
            invariant
                n == toks.len(),
                start < i <= n,
                out@ == out0 + spec_cat_range(toks, start as int, i as int),
                spec_ws_end(ks, i as int) == spec_ws_end(ks, apos + 1),
            decreases n - i,
        {
            crate::fortran_types::realnum::append_chars(
                out,
                crate::text::str_to_chars(all[i].lexeme.as_str()).as_slice(),
            );
            i += 1;
            proof {
                lemma_cat_range_split(toks, start as int, i - 1, i as int);
                lemma_cat_range_one(toks, i - 1);
            }
        }
        let ghost ve = spec_value_end(ks, spec_ws_end(ks, apos + 1), 0);
        proof {
            assert(i as int == spec_ws_end(ks, apos + 1));
        }
        // a patched variable takes the patch value's canonical text
        let substituted: Option<FortranValue> = match patch_group {
            Some(pg) => {
                match pg.get(var_name.as_str()) {
                    Some(pv) => {
                        proof {
                            crate::namelist::group::lemma_assoc_wf(pg.spec_vars(),
                                crate::text::spec_lower_seq(var_name@));
                        }
                        Some(pv.dup())
                    },
                    None => None,
                }
            },
            None => None,
        };
        match substituted {
            Some(pv) => {
                let vtext = pv.format_chars(
                    &crate::fortran_types::formatting::FormatOptions {
                        uppercase: false,
                        float_precision: None,
                        exponential_threshold: None,
                        complex_format:
                            crate::fortran_types::formatting::ComplexFormat::Parentheses,
                        string_quote_style:
                            crate::fortran_types::formatting::QuoteStyle::Single,
                        use_fortran_double: false,
                    },
                );
                crate::fortran_types::realnum::append_chars(out, vtext.as_slice());
                let ghost pre_vars = group.spec_vars();
                let ghost pvm = pv.deep_view();
                group.insert_value(var_name.as_str(), pv);
                proof {
                    crate::namelist::patching::lemma_entry_update_preserves_wf(
                        pre_vars,
                        crate::text::spec_lower_seq(var_name@),
                        pvm,
                    );
                }
                used.push(var_name);
                let end = self.skip_value(all, i);
                Ok(end)
            },
            None => {
                // copy the original value's tokens verbatim and parse them
                let mut text: Vec<char> = Vec::new();
                let mut depth: usize = 0;
                let mut stop = false;
                while i < n && !stop
                    invariant
                        n == toks.len(),
                        start < i <= n,
                        patch_group is None ==> out@ == out0 + spec_cat_range(toks,
                        start as int, i as int),
                        !stop ==> spec_value_end(ks, i as int, depth as int) == ve,
                        stop ==> (i as int == ve || (ve < n && ks[ve] == TokenType::Comma
                            && i as int == ve + 1)),
                    decreases n - i + (if stop { 0int } else { 1int }),
                {
                    let kind = all[i].token_type;
                    if kind == TokenType::Eof {
                        stop = true;
                    } else if kind == TokenType::Comma && depth == 0 {
                        crate::fortran_types::realnum::append_chars(
                            out,
                            crate::text::str_to_chars(all[i].lexeme.as_str()).as_slice(),
                        );
                        i += 1;
                        stop = true;
                        proof {
                            lemma_cat_range_split(toks, start as int, i - 1, i as int);
                            lemma_cat_range_one(toks, i - 1);
                        }
                    } else if (kind == TokenType::GroupEnd || kind == TokenType::GroupEndAlt)
                        && depth == 0 {
                        stop = true;
                    } else if kind == TokenType::Identifier && depth == 0 && self.next_assigns(
                        all,
                        i,
                    ) {
                        stop = true;
                    } else {
                        if kind == TokenType::LeftParen {
                            if depth < usize::MAX {
                                depth = depth + 1;
                            }
                        } else if kind == TokenType::RightParen {
                            if depth > 0 {
                                depth = depth - 1;
                            }
                        }
                        if kind != TokenType::Whitespace && kind != TokenType::Comment {
                            if text.len() > 0 {
                                text.push(' ');
                            }
                            crate::fortran_types::realnum::append_chars(
                                &mut text,
                                crate::text::str_to_chars(all[i].lexeme.as_str()).as_slice(),
                            );
                        }
                        crate::fortran_types::realnum::append_chars(
                            out,
                            crate::text::str_to_chars(all[i].lexeme.as_str()).as_slice(),
                        );
                        i += 1;
                        proof {
                            lemma_cat_range_split(toks, start as int, i - 1, i as int);
                            lemma_cat_range_one(toks, i - 1);
                        }
                    }
                }
                let text_str = crate::text::chars_to_string(text.as_slice());
                let value = match parse_fortran_value(text_str.as_str(), None) {
                    Ok(v) => v,
                    Err(e) => {
                        return Err(e);
                    },
                };
                let ghost pre_vars = group.spec_vars();
                let ghost vm = value.deep_view();
                group.insert_value(var_name.as_str(), value);
                proof {
                    crate::namelist::patching::lemma_entry_update_preserves_wf(
                        pre_vars,
                        crate::text::spec_lower_seq(var_name@),
                        vm,
                    );
                }
                Ok(i)
            },
        }
    }

    /// Whether the identifier at a position starts the next assignment.
    #[verifier::loop_isolation(false)]
    fn next_assigns(&self, all: &Vec<Token>, at: usize) -> (r: bool)
        requires
            at < all@.len(),
        ensures
            r == spec_next_assigns(spec_kinds(all@), at as int),
    {
        let ghost ks = spec_kinds(all@);
        let n = all.len();
        let mut look = at + 1;
        while look < n && all[look].token_type == TokenType::Whitespace
            invariant
                at < look <= n,
                spec_ws_end(ks, look as int) == spec_ws_end(ks, at + 1),
            decreases n - look,
        {
            look += 1;
        }
        look < n && (all[look].token_type == TokenType::Assign || all[look].token_type
            == TokenType::LeftParen)
    }

    /// Pass over the original value's tokens without copying them.
    #[verifier::loop_isolation(false)]
    fn skip_value(&self, all: &Vec<Token>, from: usize) -> (r: usize)
        requires
            from <= all@.len(),
        ensures
            from <= r <= all@.len(),
            r as int == spec_value_end(spec_kinds(all@), from as int, 0),
    {
        let ghost ks = spec_kinds(all@);
        let n = all.len();
        let mut i = from;
        let mut depth: usize = 0;
        while i < n
            invariant
                from <= i <= n,
                spec_value_end(ks, i as int, depth as int) == spec_value_end(ks, from as int, 0),
            decreases n - i,
        {
            let kind = all[i].token_type;
            if kind == TokenType::Eof {
                return i;
            }
            if kind == TokenType::Comma && depth == 0 {
                return i;
            }
            if (kind == TokenType::GroupEnd || kind == TokenType::GroupEndAlt) && depth == 0 {
                return i;
            }
            if kind == TokenType::Identifier && depth == 0 && self.next_assigns(all, i) {
                return i;
            }
            if kind == TokenType::LeftParen {
                if depth < usize::MAX {
                    depth = depth + 1;
                }
            } else if kind == TokenType::RightParen {
                if depth > 0 {
                    depth = depth - 1;
                }
            }
            i += 1;
        }
        i
    }

    /// Write the patch variables the original never mentioned, each as
    /// a fresh canonical assignment line before the group close.
    #[verifier::loop_isolation(false)]
    fn append_missing(
        &self,
        pg: &NamelistGroup,
        used: &Vec<String>,
        group: &mut NamelistGroup,
        out: &mut Vec<char>,
    ) -> (r: Result<(), F90nmlError>)
        requires
            crate::fortran_types::value::spec_field_models_wf(pg.spec_vars()),
            crate::fortran_types::value::spec_field_models_wf(old(group).spec_vars()),
        ensures
            r is Ok,
            crate::fortran_types::value::spec_field_models_wf(final(group).spec_vars()),
    {
        let n = pg.len();
        let mut i: usize = 0;
        while i < n
            invariant
                n == pg.spec_vars().len(),
                i <= n,
                crate::fortran_types::value::spec_field_models_wf(pg.spec_vars()),
                crate::fortran_types::value::spec_field_models_wf(group.spec_vars()),
            decreases n - i,
        {
            let (name, value) = pg.entry_at(i);
            let name = name.clone();
            if !contains_name(used, &name) && !group.has_variable(name.as_str()) {
                proof {
                    crate::namelist::patching::lemma_field_models_wf_at(pg.spec_vars(), i as int);
                }
                out.push('\n');
                out.push(' ');
                out.push(' ');
                out.push(' ');
                out.push(' ');
                crate::fortran_types::realnum::append_chars(
                    out,
                    crate::text::str_to_chars(name.as_str()).as_slice(),
                );
                out.push(' ');
                out.push('=');
                out.push(' ');
                let vtext = value.format_chars(
                    &crate::fortran_types::formatting::FormatOptions {
                        uppercase: false,
                        float_precision: None,
                        exponential_threshold: None,
                        complex_format:
                            crate::fortran_types::formatting::ComplexFormat::Parentheses,
                        string_quote_style:
                            crate::fortran_types::formatting::QuoteStyle::Single,
                        use_fortran_double: false,
                    },
                );
                crate::fortran_types::realnum::append_chars(out, vtext.as_slice());
                let ghost pre_vars = group.spec_vars();
                let copied = value.dup();
                let ghost vm = copied.deep_view();
                group.insert_value(name.as_str(), copied);
                proof {
                    crate::namelist::patching::lemma_entry_update_preserves_wf(
                        pre_vars,
                        crate::text::spec_lower_seq(name@),
                        vm,
                    );
                }
            }
            i += 1;
        }
        Ok(())
    }
}

/// Whether a name is among the collected names.
fn contains_name(names: &Vec<String>, name: &String) -> (r: bool)
{
    let mut i: usize = 0;
    while i < names.len()
        invariant
            i <= names@.len(),
        decreases names@.len() - i,
    {
        if crate::fortran_types::value::string_eq(&names[i], name) {
            return true;
        }
        i += 1;
    }
    false
}

} // verus!
