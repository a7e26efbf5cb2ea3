//! Character classification and conversions between `&str`, `String` and
//! character vectors. The lexer and the value parsers work on `Vec<char>`,
//! so every public entry point converts once at its edge.

use vstd::prelude::*;

verus! {

use vstd::std_specs::iter::IteratorSpec;

/// Decimal digit.
pub open spec fn spec_is_digit(c: char) -> bool {
    '0' <= c && c <= '9'
}

/// ASCII letter.
pub open spec fn spec_is_alpha(c: char) -> bool {
    ('a' <= c && c <= 'z') || ('A' <= c && c <= 'Z')
}

/// ASCII letter, digit, or underscore.
pub open spec fn spec_is_alnum(c: char) -> bool {
    spec_is_alpha(c) || spec_is_digit(c) || c == '_'
}

/// Unicode whitespace, the same set `char::is_whitespace` recognises.
pub open spec fn spec_is_space(c: char) -> bool {
    c == ' ' || c == '\t' || c == '\n' || c == '\r' || c == '\u{b}' || c == '\u{c}'
        || c == '\u{85}' || c == '\u{a0}' || c == '\u{1680}'
        || ('\u{2000}' <= c && c <= '\u{200a}') || c == '\u{2028}' || c == '\u{2029}'
        || c == '\u{202f}' || c == '\u{205f}' || c == '\u{3000}'
}

/// ASCII lower-casing of one character; other characters are unchanged.
pub open spec fn spec_lower(c: char) -> char {
    if 'A' <= c && c <= 'Z' {
        ((c as u32) + 32) as char
    } else {
        c
    }
}

/// ASCII lower-casing of a character sequence.
pub open spec fn spec_lower_seq(s: Seq<char>) -> Seq<char> {
    s.map_values(|c: char| spec_lower(c))
}

pub fn is_digit(c: char) -> (r: bool)
    ensures
        r == spec_is_digit(c),
{
    '0' <= c && c <= '9'
}

pub fn is_alpha(c: char) -> (r: bool)
    ensures
        r == spec_is_alpha(c),
{
    ('a' <= c && c <= 'z') || ('A' <= c && c <= 'Z')
}

pub fn is_alnum(c: char) -> (r: bool)
    ensures
        r == spec_is_alnum(c),
{
    is_alpha(c) || is_digit(c) || c == '_'
}

pub fn is_space(c: char) -> (r: bool)
    ensures
        r == spec_is_space(c),
{
    c == ' ' || c == '\t' || c == '\n' || c == '\r' || c == '\u{b}' || c == '\u{c}'
        || c == '\u{85}' || c == '\u{a0}' || c == '\u{1680}'
        || ('\u{2000}' <= c && c <= '\u{200a}') || c == '\u{2028}' || c == '\u{2029}'
        || c == '\u{202f}' || c == '\u{205f}' || c == '\u{3000}'
}

pub fn lower_char(c: char) -> (r: char)
    ensures
        r == spec_lower(c),
{
    if 'A' <= c && c <= 'Z' {
        (((c as u32) + 32) as u8) as char
    } else {
        c
    }
}

/// Lower-case every character of a vector.
pub fn lower_chars(s: &[char]) -> (r: Vec<char>)
    ensures
        r@ == spec_lower_seq(s@),
{
    let mut r: Vec<char> = Vec::new();
    let mut i: usize = 0;
    while i < s.len()
        invariant
            i <= s@.len(),
            r@ == spec_lower_seq(s@.subrange(0, i as int)),
        decreases s@.len() - i,
    {
        r.push(lower_char(s[i]));
        i += 1;
        proof {
            assert(r@ =~= spec_lower_seq(s@.subrange(0, i as int)));
        }
    }
    proof {
        assert(s@.subrange(0, s@.len() as int) =~= s@);
    }
    r
}

pub assume_specification[ std::string::String::push ](s: &mut String, c: char)
    ensures
        final(s)@ == old(s)@.push(c),
;

/// Build a `String` from a character slice.
pub fn chars_to_string(cs: &[char]) -> (r: String)
    ensures
        r@ == cs@,
{
    let mut r = String::new();
    let mut i: usize = 0;
    while i < cs.len()
        invariant
            i <= cs@.len(),
            r@ == cs@.subrange(0, i as int),
        decreases cs@.len() - i,
    {
        r.push(cs[i]);
        i += 1;
        proof {
            assert(r@ =~= cs@.subrange(0, i as int));
        }
    }
    proof {
        assert(r@ =~= cs@);
    }
    r
}

/// Collect the characters of a string slice into a vector.
pub fn str_to_chars(s: &str) -> (r: Vec<char>)
    ensures
        r@ == s@,
{
    broadcast use vstd::string::next_postcondition;
    broadcast use vstd::string::axiom_spec_iter;

    let mut it = s.chars();
    let mut r: Vec<char> = Vec::new();
    loop
        invariant
            it.obeys_prophetic_iter_laws(),
            IteratorSpec::decrease(&it) is Some,
            r@ + IteratorSpec::remaining(&it) == s@,
        ensures
            r@ == s@,
        decreases IteratorSpec::decrease(&it)->0,
    {
        match it.next() {
            Some(c) => {
                r.push(c);
                proof {
                    assert(r@ + IteratorSpec::remaining(&it) =~= s@);
                }
            },
            None => {
                proof {
                    assert(r@ =~= s@);
                }
                break;
            },
        }
    }
    r
}

/// Copy of a half-open range of a character slice.
pub fn subvec(s: &[char], from: usize, to: usize) -> (r: Vec<char>)
    requires
        from <= to <= s@.len(),
    ensures
        r@ == s@.subrange(from as int, to as int),
{
    let mut r: Vec<char> = Vec::new();
    let mut i: usize = from;
    while i < to
        invariant
            from <= i <= to <= s@.len(),
            r@ == s@.subrange(from as int, i as int),
        decreases to - i,
    {
        r.push(s[i]);
        i += 1;
        proof {
            assert(r@ =~= s@.subrange(from as int, i as int));
        }
    }
    r
}

/// Length of the run of whitespace at the front.
pub open spec fn spec_ws_prefix_len(s: Seq<char>) -> int
    decreases s.len(),
{
    if s.len() == 0 || !spec_is_space(s[0]) {
        0
    } else {
        1 + spec_ws_prefix_len(s.skip(1))
    }
}

/// Length of the run of whitespace at the back.
pub open spec fn spec_ws_suffix_len(s: Seq<char>) -> int
    decreases s.len(),
{
    if s.len() == 0 || !spec_is_space(s.last()) {
        0
    } else {
        1 + spec_ws_suffix_len(s.drop_last())
    }
}

/// The text with leading and trailing whitespace removed.
pub open spec fn spec_trim(s: Seq<char>) -> Seq<char> {
    let t = s.skip(spec_ws_prefix_len(s));
    t.subrange(0, t.len() - spec_ws_suffix_len(t))
}

/// The whitespace prefix is maximal: whitespace before it, none right after.
pub proof fn lemma_ws_prefix(s: Seq<char>)
    ensures
        0 <= spec_ws_prefix_len(s) <= s.len(),
        forall|j: int| 0 <= j < spec_ws_prefix_len(s) ==> spec_is_space(#[trigger] s[j]),
        spec_ws_prefix_len(s) < s.len() ==> !spec_is_space(s[spec_ws_prefix_len(s)]),
    decreases s.len(),
{
    if s.len() > 0 && spec_is_space(s[0]) {
        lemma_ws_prefix(s.skip(1));
        let p = spec_ws_prefix_len(s);
        assert forall|j: int| 0 <= j < p implies spec_is_space(#[trigger] s[j]) by {
            if j > 0 {
                assert(s.skip(1)[j - 1] == s[j]);
            }
        }
        if p < s.len() {
            assert(s.skip(1)[p - 1] == s[p]);
        }
    }
}

/// The whitespace suffix is maximal: whitespace in it, none right before.
pub proof fn lemma_ws_suffix(s: Seq<char>)
    ensures
        0 <= spec_ws_suffix_len(s) <= s.len(),
        forall|j: int|
            s.len() - spec_ws_suffix_len(s) <= j < s.len() ==> spec_is_space(#[trigger] s[j]),
        spec_ws_suffix_len(s) < s.len() ==> !spec_is_space(s[s.len() - spec_ws_suffix_len(s) - 1]),
    decreases s.len(),
{
    if s.len() > 0 && spec_is_space(s.last()) {
        lemma_ws_suffix(s.drop_last());
        let p = spec_ws_suffix_len(s);
        assert forall|j: int| s.len() - p <= j < s.len() implies spec_is_space(#[trigger] s[j]) by {
            if j < s.len() - 1 {
                assert(s.drop_last()[j] == s[j]);
            }
        }
        if p < s.len() {
            assert(s.drop_last()[s.len() - p - 1] == s[s.len() - p - 1]);
        }
    }
}

/// Copy of the text with surrounding whitespace removed.
pub fn trim_chars(s: &[char]) -> (r: Vec<char>)
    ensures
        r@ == spec_trim(s@),
{
    proof {
        lemma_ws_prefix(s@);
    }
    let mut from: usize = 0;
    while from < s.len() && is_space(s[from])
        invariant
            0 <= from <= s@.len(),
            from <= spec_ws_prefix_len(s@),
            forall|j: int| 0 <= j < from ==> spec_is_space(#[trigger] s@[j]),
        decreases s@.len() - from,
    {
        from += 1;
        proof {
            lemma_ws_prefix(s@);
            if from > spec_ws_prefix_len(s@) {
                assert(!spec_is_space(s@[spec_ws_prefix_len(s@)]));
            }
        }
    }
    proof {
        lemma_ws_prefix(s@);
        assert(from == spec_ws_prefix_len(s@));
    }
    proof {
        lemma_ws_suffix(s@.skip(from as int));
    }
    let mut to: usize = s.len();
    while to > from && is_space(s[to - 1])
        invariant
            from <= to <= s@.len(),
            from == spec_ws_prefix_len(s@),
            s@.len() - to <= spec_ws_suffix_len(s@.skip(from as int)),
            forall|j: int| to <= j < s@.len() ==> spec_is_space(#[trigger] s@[j]),
        decreases to,
    {
        to -= 1;
        proof {
            let t = s@.skip(from as int);
            let suf = spec_ws_suffix_len(t);
            lemma_ws_suffix(t);
            if s@.len() - to > suf {
                assert(!spec_is_space(t[t.len() - suf - 1]));
                assert(t[t.len() - suf - 1] == s@[s@.len() - suf - 1]);
            }
        }
    }
    proof {
        let t = s@.skip(from as int);
        let suf = spec_ws_suffix_len(t);
        lemma_ws_prefix(s@);
        lemma_ws_suffix(t);
        if to > from {
            assert(s@.len() - to >= suf) by {
                if s@.len() - to < suf {
                    assert(to - 1 - from >= t.len() - suf);
                    assert(spec_is_space(t[to - 1 - from]));
                    assert(t[to - 1 - from] == s@[to - 1]);
                    assert(!spec_is_space(s@[to - 1]));
                }
            }
        } else {
            assert(to == from);
            assert(t.len() - suf == 0) by {
                if suf < t.len() {
                    assert(!spec_is_space(t[t.len() - suf - 1]));
                    assert(t[t.len() - suf - 1] == s@[from + t.len() - suf - 1]);
                }
            }
        }
        assert(spec_trim(s@) =~= s@.subrange(from as int, to as int));
    }
    subvec(s, from, to)
}

/// Index of the first occurrence of a character, or -1.
pub open spec fn spec_find(s: Seq<char>, sep: char) -> int
    decreases s.len(),
{
    if s.len() == 0 {
        -1
    } else if s[0] == sep {
        0
    } else {
        let r = spec_find(s.skip(1), sep);
        if r < 0 {
            -1
        } else {
            r + 1
        }
    }
}

/// `spec_find` returns the least occurrence, or -1 when there is none.
pub proof fn lemma_find(s: Seq<char>, sep: char)
    ensures
        spec_find(s, sep) == -1 ==> forall|j: int| 0 <= j < s.len() ==> #[trigger] s[j] != sep,
        spec_find(s, sep) >= 0 ==> spec_find(s, sep) < s.len() && s[spec_find(s, sep)] == sep
            && forall|j: int| 0 <= j < spec_find(s, sep) ==> #[trigger] s[j] != sep,
    decreases s.len(),
{
    if s.len() > 0 && s[0] != sep {
        lemma_find(s.skip(1), sep);
        let f = spec_find(s, sep);
        if f == -1 {
            assert forall|j: int| 0 <= j < s.len() implies #[trigger] s[j] != sep by {
                if j > 0 {
                    assert(s.skip(1)[j - 1] == s[j]);
                }
            }
        } else {
            assert(s.skip(1)[f - 1] == s[f]);
            assert forall|j: int| 0 <= j < f implies #[trigger] s[j] != sep by {
                if j > 0 {
                    assert(s.skip(1)[j - 1] == s[j]);
                }
            }
        }
    }
}

/// The text split at each occurrence of the separator; one part more than
/// there are separators, parts in order, separators not included.
pub open spec fn spec_split(s: Seq<char>, sep: char) -> Seq<Seq<char>>
    decreases s.len(),
{
    let i = spec_find(s, sep);
    if i < 0 || i >= s.len() {
        seq![s]
    } else {
        seq![s.subrange(0, i)] + spec_split(s.skip(i + 1), sep)
    }
}

/// Index of the first occurrence of a character at or after `from`.
pub fn find_char(s: &[char], from: usize, sep: char) -> (r: Option<usize>)
    requires
        from <= s@.len(),
    ensures
        r matches Some(i) ==> from <= i < s@.len() && spec_find(s@.skip(from as int), sep) == i
            - from,
        r is None ==> spec_find(s@.skip(from as int), sep) == -1,
{
    proof {
        lemma_find(s@.skip(from as int), sep);
    }
    let mut i: usize = from;
    while i < s.len() && s[i] != sep
        invariant
            from <= i <= s@.len(),
            forall|j: int| from <= j < i ==> #[trigger] s@[j] != sep,
        decreases s@.len() - i,
    {
        i += 1;
    }
    proof {
        let t = s@.skip(from as int);
        if i < s@.len() {
            assert(t[i - from] == sep);
            assert forall|j: int| 0 <= j < i - from implies #[trigger] t[j] != sep by {
                assert(t[j] == s@[from + j]);
            }
            lemma_find_at(t, sep, i - from);
        } else {
            assert forall|j: int| 0 <= j < t.len() implies #[trigger] t[j] != sep by {
                assert(t[j] == s@[from + j]);
            }
            lemma_find_none(t, sep);
        }
    }
    if i < s.len() {
        Some(i)
    } else {
        None
    }
}

/// If position `k` holds the first occurrence, `spec_find` returns `k`.
pub proof fn lemma_find_at(s: Seq<char>, sep: char, k: int)
    requires
        0 <= k < s.len(),
        s[k] == sep,
        forall|j: int| 0 <= j < k ==> #[trigger] s[j] != sep,
    ensures
        spec_find(s, sep) == k,
    decreases s.len(),
{
    if k > 0 {
        lemma_find_at(s.skip(1), sep, k - 1);
    }
}

/// With no occurrence at all, `spec_find` returns -1.
pub proof fn lemma_find_none(s: Seq<char>, sep: char)
    requires
        forall|j: int| 0 <= j < s.len() ==> #[trigger] s[j] != sep,
    ensures
        spec_find(s, sep) == -1,
    decreases s.len(),
{
    if s.len() > 0 {
        lemma_find_none(s.skip(1), sep);
    }
}

/// Split the text at each occurrence of the separator.
pub fn split_chars(s: &[char], sep: char) -> (r: Vec<Vec<char>>)
    ensures
        r.deep_view() == spec_split(s@, sep),
{
    let mut r: Vec<Vec<char>> = Vec::new();
    let v = split_from(s, 0, sep);
    proof {
        assert(s@.skip(0) =~= s@);
    }
    v
}

/// Split the suffix beginning at `from` at each separator occurrence.
fn split_from(s: &[char], from: usize, sep: char) -> (r: Vec<Vec<char>>)
    requires
        from <= s@.len(),
    ensures
        r.deep_view() == spec_split(s@.skip(from as int), sep),
    decreases s@.len() - from,
{
    match find_char(s, from, sep) {
        None => {
            let mut r: Vec<Vec<char>> = Vec::new();
            r.push(subvec(s, from, s.len()));
            proof {
                assert(s@.subrange(from as int, s@.len() as int) =~= s@.skip(from as int));
                assert(r.deep_view() =~~= spec_split(s@.skip(from as int), sep));
            }
            r
        },
        Some(i) => {
            let n = s.len();
            proof {
                assert(i < n);
            }
            let head = subvec(s, from, i);
            let mut rest = split_from(s, i + 1, sep);
            rest.insert(0, head);
            proof {
                let t = s@.skip(from as int);
                let fi = i - from;
                assert(t.subrange(0, fi) =~= s@.subrange(from as int, i as int));
                assert(t.skip(fi + 1) =~= s@.skip(i + 1));
                assert(rest.deep_view() =~~= spec_split(t, sep));
            }
            rest
        },
    }
}

/// Copy of a half-open range of a byte slice.
pub fn subvec_u8(s: &[u8], from: usize, to: usize) -> (r: Vec<u8>)
    requires
        from <= to <= s@.len(),
    ensures
        r@ == s@.subrange(from as int, to as int),
{
    let mut r: Vec<u8> = Vec::new();
    let mut i: usize = from;
    while i < to
        invariant
            from <= i <= to <= s@.len(),
            r@ == s@.subrange(from as int, i as int),
        decreases to - i,
    {
        r.push(s[i]);
        i += 1;
        proof {
            assert(r@ =~= s@.subrange(from as int, i as int));
        }
    }
    r
}

/// ASCII upper-casing of one character; other characters are unchanged.
pub open spec fn spec_upper(c: char) -> char {
    if 'a' <= c && c <= 'z' {
        ((c as u32) - 32) as char
    } else {
        c
    }
}

/// ASCII upper-casing of a character sequence.
pub open spec fn spec_upper_seq(s: Seq<char>) -> Seq<char> {
    s.map_values(|c: char| spec_upper(c))
}

pub fn upper_char(c: char) -> (r: char)
    ensures
        r == spec_upper(c),
{
    if 'a' <= c && c <= 'z' {
        (((c as u32) - 32) as u8) as char
    } else {
        c
    }
}

/// Upper-case every character of a vector.
pub fn upper_chars(s: &[char]) -> (r: Vec<char>)
    ensures
        r@ == spec_upper_seq(s@),
{
    let mut r: Vec<char> = Vec::new();
    let mut i: usize = 0;
    while i < s.len()
        invariant
            i <= s@.len(),
            r@ == spec_upper_seq(s@.subrange(0, i as int)),
        decreases s@.len() - i,
    {
        r.push(upper_char(s[i]));
        i += 1;
        proof {
            assert(r@ =~= spec_upper_seq(s@.subrange(0, i as int)));
        }
    }
    proof {
        assert(s@.subrange(0, s@.len() as int) =~= s@);
    }
    r
}

} // verus!
