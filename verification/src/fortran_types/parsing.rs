//! Parsing text into Fortran values: one parser per kind, and
//! auto-detection trying them in the load-bearing order Logical,
//! Complex, Real, Integer, Character.

use vstd::prelude::*;

verus! {

use crate::error::F90nmlError;
use crate::fortran_types::value::FortranValue;
use crate::fortran_types::value::ValueModel;
use crate::fortran_types::realnum::RealValue;
use crate::fortran_types::realnum::RealModel;
use crate::fortran_types::realnum::spec_real_text;
use crate::fortran_types::realnum::spec_strip_kind;
use crate::fortran_types::realnum::spec_looks_like_integer;
use crate::fortran_types::realnum::parse_real_chars;
use crate::fortran_types::realnum::looks_like_integer_chars;
use crate::fortran_types::realnum::chars_eq_str;
use crate::text::spec_trim;
use crate::text::spec_lower_seq;
use crate::text::spec_find;
use crate::text::spec_split;
use crate::text::trim_chars;
use crate::text::lower_chars;
use crate::text::str_to_chars;
use crate::text::chars_to_string;
use crate::digits::spec_all_digits;
use crate::digits::spec_signed_digits;
use crate::digits::spec_signed_val;

/// The integer a piece of text denotes: an optional kind suffix is
/// dropped, then an optional sign and digits.
pub open spec fn spec_parse_integer(s: Seq<char>) -> Option<int> {
    let clean = spec_strip_kind(s);
    if spec_signed_digits(clean) {
        Some(spec_signed_val(clean))
    } else {
        None
    }
}

/// Parse an integer literal. Succeeds exactly on integer syntax whose
/// value fits the machine.
pub fn parse_integer(value: &str) -> (r: Result<FortranValue, F90nmlError>)
    ensures
        r is Ok <==> (spec_parse_integer(value@) matches Some(n) && i64::MIN <= n && n
            <= i64::MAX),
        r is Ok ==> r->Ok_0.deep_view() == ValueModel::Integer(spec_parse_integer(value@)->0),
        r is Err ==> r->Err_0 matches F90nmlError::InvalidValue { .. },
{
    let chars = str_to_chars(value);
    let clean = strip_kind_vec(chars.as_slice());
    match crate::digits::chars_to_i64(clean.as_slice()) {
        Some(n) => Ok(FortranValue::Integer(n)),
        None => Err(F90nmlError::invalid_value("", value, "integer")),
    }
}

/// The text up to its first underscore.
fn strip_kind_vec(s: &[char]) -> (r: Vec<char>)
    ensures
        r@ == spec_strip_kind(s@),
{
    proof {
        assert(s@.skip(0) =~= s@);
    }
    match crate::text::find_char(s, 0, '_') {
        Some(i) => crate::text::subvec(s, 0, i),
        None => {
            proof {
                assert(s@.subrange(0, s@.len() as int) =~= s@);
            }
            crate::text::subvec(s, 0, s.len())
        },
    }
}

/// Parse a real literal, with the source format's double-precision
/// marker, kind suffixes, and the special values recognised.
pub fn parse_real(value: &str) -> (r: Result<FortranValue, F90nmlError>)
    ensures
        r is Ok <==> spec_real_text(value@) is Some,
        r is Ok ==> r->Ok_0.deep_view() == ValueModel::Real(spec_real_text(value@)->0)
            && r->Ok_0.wf(),
        r is Err ==> r->Err_0 matches F90nmlError::InvalidValue { .. },
{
    let chars = str_to_chars(value);
    match parse_real_chars(chars.as_slice()) {
        Some(v) => Ok(FortranValue::Real(v)),
        None => Err(F90nmlError::invalid_value("", value, "real")),
    }
}

/// The complex value a piece of text denotes: exactly `(re, im)` with
/// both parts real literals.
pub open spec fn spec_parse_complex(s: Seq<char>) -> Option<(RealModel, RealModel)> {
    let t = spec_trim(s);
    if t.len() < 2 || t[0] != '(' || t.last() != ')' {
        None
    } else {
        let inner = t.subrange(1, t.len() - 1);
        let ps = spec_split(inner, ',');
        if ps.len() != 2 {
            None
        } else {
            match (spec_real_text(ps[0]), spec_real_text(ps[1])) {
                (Some(a), Some(b)) => Some((a, b)),
                _ => None,
            }
        }
    }
}

/// Parse a complex literal.
pub fn parse_complex(value: &str) -> (r: Result<FortranValue, F90nmlError>)
    ensures
        r is Ok <==> spec_parse_complex(value@) is Some,
        r is Ok ==> (spec_parse_complex(value@) matches Some((a, b)) && r->Ok_0.deep_view()
            == ValueModel::Complex(a, b) && r->Ok_0.wf()),
        r is Err ==> r->Err_0 matches F90nmlError::InvalidValue { .. },
{
    let chars = str_to_chars(value);
    let t = trim_chars(chars.as_slice());
    if t.len() < 2 || t[0] != '(' || t[t.len() - 1] != ')' {
        return Err(F90nmlError::invalid_value("", value, "complex"));
    }
    let inner = crate::text::subvec(t.as_slice(), 1, t.len() - 1);
    let parts = crate::text::split_chars(inner.as_slice(), ',');
    if parts.len() != 2 {
        return Err(F90nmlError::invalid_value("", value, "complex"));
    }
    proof {
        assert(parts.deep_view()[0] == parts@[0]@);
        assert(parts.deep_view()[1] == parts@[1]@);
    }
    let a = match parse_real_chars(parts[0].as_slice()) {
        Some(a) => a,
        None => {
            return Err(F90nmlError::invalid_value("", value, "complex"));
        },
    };
    let b = match parse_real_chars(parts[1].as_slice()) {
        Some(b) => b,
        None => {
            return Err(F90nmlError::invalid_value("", value, "complex"));
        },
    };
    Ok(FortranValue::Complex(a, b))
}

/// The logical value a piece of text denotes: the exact spellings, or
/// any text that begins `.t`/`.f` after lower-casing.
pub open spec fn spec_parse_logical(s: Seq<char>) -> Option<bool> {
    let t = spec_lower_seq(spec_trim(s));
    if t == ".true."@ || t == ".t."@ || t == "true"@ || t == "t"@ {
        Some(true)
    } else if t == ".false."@ || t == ".f."@ || t == "false"@ || t == "f"@ {
        Some(false)
    } else if t.len() >= 2 && t.subrange(0, 2) == ".t"@ {
        Some(true)
    } else if t.len() >= 2 && t.subrange(0, 2) == ".f"@ {
        Some(false)
    } else {
        None
    }
}

/// Parse a logical literal.
pub fn parse_logical(value: &str) -> (r: Result<FortranValue, F90nmlError>)
    ensures
        r is Ok <==> spec_parse_logical(value@) is Some,
        r is Ok ==> r->Ok_0.deep_view() == ValueModel::Logical(spec_parse_logical(value@)->0),
        r is Err ==> r->Err_0 matches F90nmlError::InvalidValue { .. },
{
    let chars = str_to_chars(value);
    let t0 = trim_chars(chars.as_slice());
    let t = lower_chars(t0.as_slice());
    if chars_eq_str(t.as_slice(), ".true.") || chars_eq_str(t.as_slice(), ".t.") || chars_eq_str(
        t.as_slice(),
        "true",
    ) || chars_eq_str(t.as_slice(), "t") {
        return Ok(FortranValue::Logical(true));
    }
    if chars_eq_str(t.as_slice(), ".false.") || chars_eq_str(t.as_slice(), ".f.") || chars_eq_str(
        t.as_slice(),
        "false",
    ) || chars_eq_str(t.as_slice(), "f") {
        return Ok(FortranValue::Logical(false));
    }
    if t.len() >= 2 && t[0] == '.' && t[1] == 't' {
        proof {
            reveal_strlit(".t");
            assert(t@.subrange(0, 2) =~= ".t"@);
        }
        return Ok(FortranValue::Logical(true));
    }
    if t.len() >= 2 && t[0] == '.' && t[1] == 'f' {
        proof {
            reveal_strlit(".t");
            reveal_strlit(".f");
            assert(t@.subrange(0, 2) =~= ".f"@);
            assert(".t"@[1] == 't');
            assert(t@.subrange(0, 2)[1] == 'f');
            assert(t@.subrange(0, 2) != ".t"@);
        }
        return Ok(FortranValue::Logical(false));
    }
    proof {
        reveal_strlit(".t");
        reveal_strlit(".f");
        if t@.len() >= 2 {
            assert(t@.subrange(0, 2).len() == 2);
            assert(t@.subrange(0, 2)[0] == t@[0]);
            assert(t@.subrange(0, 2)[1] == t@[1]);
            if t@.subrange(0, 2) == ".t"@ {
                assert(t@[0] == '.' && t@[1] == 't');
            }
            if t@.subrange(0, 2) == ".f"@ {
                assert(t@[0] == '.' && t@[1] == 'f');
            }
        }
    }
    Err(F90nmlError::invalid_value("", value, "logical"))
}

/// The text with each doubled quote character collapsed to one.
pub open spec fn spec_unescape(s: Seq<char>, q: char) -> Seq<char>
    decreases s.len(),
{
    if s.len() == 0 {
        Seq::empty()
    } else if s.len() >= 2 && s[0] == q && s[1] == q {
        seq![q] + spec_unescape(s.skip(2), q)
    } else {
        seq![s.first()] + spec_unescape(s.skip(1), q)
    }
}

/// The character value a piece of text denotes: quoted text loses its
/// quotes and collapses doubled quotes; unquoted text is kept verbatim.
pub open spec fn spec_parse_character(s: Seq<char>) -> Seq<char> {
    let t = spec_trim(s);
    if t.len() >= 2 && t[0] == '\'' && t.last() == '\'' {
        spec_unescape(t.subrange(1, t.len() - 1), '\'')
    } else if t.len() >= 2 && t[0] == '"' && t.last() == '"' {
        spec_unescape(t.subrange(1, t.len() - 1), '"')
    } else {
        t
    }
}

/// Parse a character value.
pub fn parse_character(value: &str) -> (r: FortranValue)
    ensures
        r.deep_view() == ValueModel::Character(spec_parse_character(value@)),
{
    let chars = str_to_chars(value);
    let t = trim_chars(chars.as_slice());
    if t.len() >= 2 && t[0] == '\'' && t[t.len() - 1] == '\'' {
        let inner = crate::text::subvec(t.as_slice(), 1, t.len() - 1);
        let un = unescape_chars(inner.as_slice(), '\'');
        FortranValue::Character(chars_to_string(un.as_slice()))
    } else if t.len() >= 2 && t[0] == '"' && t[t.len() - 1] == '"' {
        let inner = crate::text::subvec(t.as_slice(), 1, t.len() - 1);
        let un = unescape_chars(inner.as_slice(), '"');
        FortranValue::Character(chars_to_string(un.as_slice()))
    } else {
        FortranValue::Character(chars_to_string(t.as_slice()))
    }
}

/// Collapse doubled quote characters.
fn unescape_chars(s: &[char], q: char) -> (r: Vec<char>)
    ensures
        r@ == spec_unescape(s@, q),
    decreases s@.len(),
{
    let mut r: Vec<char> = Vec::new();
    proof {
        assert(s@.skip(0) =~= s@);
    }
    let mut i: usize = 0;
    while i < s.len()
        invariant
            i <= s@.len(),
            spec_unescape(s@, q) =~= r@ + spec_unescape(s@.skip(i as int), q),
        decreases s@.len() - i,
    {
        let ghost pre = s@.skip(i as int);
        if i + 1 < s.len() && s[i] == q && s[i + 1] == q {
            r.push(q);
            i += 2;
            proof {
                assert(pre[0] == q && pre[1] == q);
                assert(pre.skip(2) =~= s@.skip(i as int));
                assert(spec_unescape(s@, q) =~= r@ + spec_unescape(s@.skip(i as int), q));
            }
        } else {
            r.push(s[i]);
            i += 1;
            proof {
                assert(!(pre.len() >= 2 && pre[0] == q && pre[1] == q));
                assert(pre.first() == s@[i - 1]);
                assert(pre.skip(1) =~= s@.skip(i as int));
                assert(spec_unescape(s@, q) =~= r@ + spec_unescape(s@.skip(i as int), q));
            }
        }
    }
    proof {
        assert(s@.skip(s@.len() as int).len() == 0);
        assert(spec_unescape(s@, q) =~= r@);
    }
    r
}

/// The value a piece of text denotes under auto-detection: empty text is
/// the absence marker, then Logical, Complex, Real and Integer are tried
/// in that order, and anything else is a character string.
pub open spec fn spec_detect(s: Seq<char>) -> ValueModel {
    if spec_trim(s).len() == 0 {
        ValueModel::Null
    } else if spec_parse_logical(s) is Some {
        ValueModel::Logical(spec_parse_logical(s)->0)
    } else if spec_parse_complex(s) is Some {
        match spec_parse_complex(s) {
            Some((re, im)) => ValueModel::Complex(re, im),
            None => ValueModel::Null,
        }
    } else if spec_real_text(s) is Some {
        ValueModel::Real(spec_real_text(s)->0)
    } else if spec_parse_integer(spec_trim(s)) matches Some(n) && i64::MIN <= n && n <= i64::MAX {
        ValueModel::Integer(spec_parse_integer(spec_trim(s))->0)
    } else {
        ValueModel::Character(spec_parse_character(s))
    }
}

/// Parse a value with an optional kind hint; without one the kind is
/// detected in the order Logical, Complex, Real, Integer, Character.
pub fn parse_fortran_value(value: &str, type_hint: Option<&str>) -> (r: Result<
    FortranValue,
    F90nmlError,
>)
    ensures
        type_hint is None ==> r is Ok && r->Ok_0.deep_view() == spec_detect(value@),
        r is Ok ==> r->Ok_0.wf(),
        r is Err ==> r->Err_0 matches F90nmlError::InvalidValue { .. },
{
    let chars = str_to_chars(value);
    let trimmed = trim_chars(chars.as_slice());
    if trimmed.len() == 0 {
        return Ok(FortranValue::Null);
    }
    match type_hint {
        Some(hint) => {
            let hc = str_to_chars(hint);
            if chars_eq_str(hc.as_slice(), "integer") {
                let trimmed_text = chars_to_string(trimmed.as_slice());
                return parse_integer(trimmed_text.as_str());
            }
            if chars_eq_str(hc.as_slice(), "real") {
                return parse_real(value);
            }
            if chars_eq_str(hc.as_slice(), "complex") {
                return parse_complex(value);
            }
            if chars_eq_str(hc.as_slice(), "logical") {
                return parse_logical(value);
            }
            if chars_eq_str(hc.as_slice(), "character") {
                return Ok(parse_character(value));
            }
            detect_value(value)
        },
        None => detect_value(value),
    }
}

/// Auto-detect the kind of a non-empty value text.
fn detect_value(value: &str) -> (r: Result<FortranValue, F90nmlError>)
    requires
        spec_trim(value@).len() != 0,
    ensures
        r is Ok,
        r->Ok_0.deep_view() == spec_detect(value@),
        r->Ok_0.wf(),
{
    match parse_logical(value) {
        Ok(v) => {
            return Ok(v);
        },
        Err(_) => {},
    }
    match parse_complex(value) {
        Ok(v) => {
            return Ok(v);
        },
        Err(_) => {},
    }
    match parse_real(value) {
        Ok(v) => {
            return Ok(v);
        },
        Err(_) => {},
    }
    let trimmed_text = chars_to_string(trim_chars(str_to_chars(value).as_slice()).as_slice());
    match parse_integer(trimmed_text.as_str()) {
        Ok(v) => {
            return Ok(v);
        },
        Err(_) => {},
    }
    Ok(parse_character(value))
}

/// Whether a character occurs in the text.
pub open spec fn spec_has_char(s: Seq<char>, c: char) -> bool {
    spec_find(s, c) >= 0
}

/// Whether the needle occurs as a substring.
pub open spec fn spec_contains(s: Seq<char>, needle: Seq<char>) -> bool {
    exists|i: int|
        0 <= i <= s.len() - needle.len() && #[trigger] s.subrange(i, i + needle.len()) =~= needle
}

/// Whether the needle occurs as a substring.
pub fn contains_sub(s: &[char], needle: &str) -> (r: bool)
    ensures
        r == spec_contains(s@, needle@),
{
    let nd = str_to_chars(needle);
    if nd.len() > s.len() {
        proof {
            assert(!spec_contains(s@, needle@));
        }
        return false;
    }
    if nd.len() == 0 {
        proof {
            assert(s@.subrange(0, 0 + needle@.len() as int) =~= needle@);
            assert(spec_contains(s@, needle@));
        }
        return true;
    }
    let bound = s.len() - nd.len();
    let mut i: usize = 0;
    while i <= bound
        invariant
            nd@ == needle@,
            1 <= nd@.len() <= s@.len(),
            s@.len() <= usize::MAX as int,
            bound == s@.len() - nd@.len(),
            i <= bound + 1,
            forall|k: int|
                0 <= k < i ==> #[trigger] s@.subrange(k, k + needle@.len()) !~= needle@,
        decreases bound + 1 - i,
    {
        let mut j: usize = 0;
        let mut matched = true;
        while j < nd.len()
            invariant
                nd@ == needle@,
                i <= bound,
                s@.len() <= usize::MAX as int,
                bound == s@.len() - nd@.len(),
                i + nd@.len() <= s@.len(),
                j <= nd@.len(),
                matched == (forall|m: int| 0 <= m < j ==> #[trigger] s@[i + m] == nd@[m]),
            decreases nd@.len() - j,
        {
            if s[i + j] != nd[j] {
                matched = false;
                proof {
                    assert(s@[i + j as int] != nd@[j as int]);
                }
            }
            j += 1;
        }
        if matched {
            proof {
                assert forall|m: int| 0 <= m < needle@.len() implies s@.subrange(
                    i as int,
                    i + needle@.len(),
                )[m] == needle@[m] by {
                    assert(s@[i + m] == nd@[m]);
                }
                assert(s@.subrange(i as int, i + needle@.len()) =~= needle@);
            }
            return true;
        }
        proof {
            assert(s@.subrange(i as int, i + needle@.len()) !~= needle@) by {
                let m = choose|m: int| 0 <= m < nd@.len() && s@[i + m] != nd@[m];
                assert(s@.subrange(i as int, i + needle@.len())[m] != needle@[m]);
            }
        }
        i += 1;
    }
    proof {
        assert(!spec_contains(s@, needle@)) by {
            if spec_contains(s@, needle@) {
                let k = choose|k: int|
                    0 <= k <= s@.len() - needle@.len() && #[trigger] s@.subrange(
                        k,
                        k + needle@.len(),
                    ) =~= needle@;
                assert(k < i);
            }
        }
    }
    false
}

/// Whether the text reads as a real number: the special spellings, a
/// decimal point with a digit beside it, or an exponent marker after a
/// digit.
pub open spec fn spec_looks_like_real(s: Seq<char>) -> bool {
    let t = spec_lower_seq(spec_trim(s));
    if spec_contains(t, "inf"@) || spec_contains(t, "nan"@) {
        true
    } else if spec_has_char(t, '.') && !(t.len() > 0 && t[0] == '.' && (spec_contains(t, "true"@)
        || spec_contains(t, "false"@) || spec_has_char(t, 't') || spec_has_char(t, 'f'))) && ({
        let dot = spec_find(t, '.');
        spec_any_digit(t.subrange(0, dot)) || spec_any_digit(t.skip(dot + 1))
    }) {
        true
    } else {
        (spec_has_char(t, 'e') || spec_has_char(t, 'd')) && spec_any_digit(t) && (exists|i: int|
            0 <= i < t.len() && (#[trigger] t[i] == 'e' || t[i] == 'd') && spec_any_digit(
                t.subrange(0, i),
            ))
    }
}

/// Whether any character of the text is a digit.
pub open spec fn spec_any_digit(s: Seq<char>) -> bool {
    exists|i: int| 0 <= i < s.len() && crate::text::spec_is_digit(#[trigger] s[i])
}

/// Whether any character of the text is a digit.
fn any_digit(s: &[char]) -> (r: bool)
    ensures
        r == spec_any_digit(s@),
{
    let mut i: usize = 0;
    while i < s.len()
        invariant
            i <= s@.len(),
            forall|j: int| 0 <= j < i ==> !crate::text::spec_is_digit(#[trigger] s@[j]),
        decreases s@.len() - i,
    {
        if crate::text::is_digit(s[i]) {
            return true;
        }
        i += 1;
    }
    false
}

/// Whether the text reads as a real number.
pub fn looks_like_real(value: &str) -> (r: bool)
    ensures
        r == spec_looks_like_real(value@),
{
    let chars = str_to_chars(value);
    let t0 = trim_chars(chars.as_slice());
    let t = lower_chars(t0.as_slice());
    if contains_sub(t.as_slice(), "inf") || contains_sub(t.as_slice(), "nan") {
        return true;
    }
    let dot = crate::text::find_char(t.as_slice(), 0, '.');
    proof {
        assert(t@.skip(0) =~= t@);
    }
    match dot {
        Some(d) => {
            let excluded = t.len() > 0 && t[0] == '.' && (contains_sub(t.as_slice(), "true")
                || contains_sub(t.as_slice(), "false") || crate::text::find_char(
                t.as_slice(),
                0,
                't',
            ).is_some() || crate::text::find_char(t.as_slice(), 0, 'f').is_some());
            if !excluded {
                let before = crate::text::subvec(t.as_slice(), 0, d);
                let after = crate::text::subvec(t.as_slice(), d + 1, t.len());
                proof {
                    assert(after@ =~= t@.skip(d + 1));
                }
                if any_digit(before.as_slice()) || any_digit(after.as_slice()) {
                    proof {
                        assert(spec_find(t@, '.') == d);
                        assert(before@ == t@.subrange(0, d as int));
                        assert(after@ =~= t@.skip(d + 1));
                        assert(spec_looks_like_real(value@));
                    }
                    return true;
                }
            }
        },
        None => {},
    }
    let has_marker = crate::text::find_char(t.as_slice(), 0, 'e').is_some()
        || crate::text::find_char(t.as_slice(), 0, 'd').is_some();
    if !has_marker {
        return false;
    }
    if !any_digit(t.as_slice()) {
        proof {
            assert(!spec_looks_like_real(value@));
        }
        return false;
    }
    let mut i: usize = 0;
    while i < t.len()
        invariant
            i <= t@.len(),
            t@ == spec_lower_seq(spec_trim(value@)),
            forall|j: int|
                0 <= j < i ==> !((#[trigger] t@[j] == 'e' || t@[j] == 'd') && spec_any_digit(
                    t@.subrange(0, j),
                )),
        decreases t@.len() - i,
    {
        if t[i] == 'e' || t[i] == 'd' {
            let before = crate::text::subvec(t.as_slice(), 0, i);
            if any_digit(before.as_slice()) {
                proof {
                    crate::text::lemma_find(t@, 'e');
                    crate::text::lemma_find(t@, 'd');
                    let j = choose|j: int|
                        0 <= j < before@.len() && crate::text::spec_is_digit(#[trigger] before@[j]);
                    assert(before@[j] == t@[j]);
                    assert(crate::text::spec_is_digit(t@[j]));
                    assert(spec_any_digit(t@));
                    assert(t@[i as int] == 'e' || t@[i as int] == 'd');
                    if t@[i as int] == 'e' {
                        assert(spec_has_char(t@, 'e'));
                    } else {
                        assert(spec_has_char(t@, 'd'));
                    }
                    assert(spec_looks_like_real(value@));
                }
                return true;
            }
        }
        i += 1;
    }
    proof {
        assert(!spec_looks_like_real(value@)) by {
            if spec_looks_like_real(value@) {
                let w = choose|w: int|
                    0 <= w < t@.len() && (#[trigger] t@[w] == 'e' || t@[w] == 'd')
                        && spec_any_digit(t@.subrange(0, w));
                assert(false);
            }
        }
    }
    false
}

/// Whether the text reads as a plain integer.
pub fn looks_like_integer(value: &str) -> (r: bool)
    ensures
        r == spec_looks_like_integer(value@),
{
    let chars = str_to_chars(value);
    looks_like_integer_chars(chars.as_slice())
}

/// The name of the kind a piece of text denotes, judged by shape:
/// logical spellings first, then the complex and quoted forms, then
/// real and integer shapes, and character for everything else.
pub open spec fn spec_infer_type(s: Seq<char>) -> Seq<char> {
    let t = spec_trim(s);
    if t.len() == 0 {
        "null"@
    } else if spec_parse_logical(s) is Some {
        "logical"@
    } else if t[0] == '(' && t.last() == ')' && spec_has_char(t, ',') {
        "complex"@
    } else if t.len() >= 2 && ((t[0] == '\'' && t.last() == '\'') || (t[0] == '"' && t.last()
        == '"')) {
        "character"@
    } else if spec_looks_like_real(s) {
        "real"@
    } else if spec_looks_like_integer(s) {
        "integer"@
    } else {
        "character"@
    }
}

/// The name of the kind a piece of text denotes.
pub fn infer_fortran_type(value: &str) -> (r: &'static str)
    ensures
        r@ == spec_infer_type(value@),
{
    let chars = str_to_chars(value);
    let t = trim_chars(chars.as_slice());
    if t.len() == 0 {
        return "null";
    }
    match parse_logical(value) {
        Ok(_) => {
            return "logical";
        },
        Err(_) => {},
    }
    proof {
        assert(t@.skip(0) =~= t@);
    }
    if t[0] == '(' && t[t.len() - 1] == ')' && crate::text::find_char(
        t.as_slice(),
        0,
        ',',
    ).is_some() {
        return "complex";
    }
    if t.len() >= 2 && ((t[0] == '\'' && t[t.len() - 1] == '\'') || (t[0] == '"' && t[t.len() - 1]
        == '"')) {
        return "character";
    }
    if looks_like_real(value) {
        return "real";
    }
    if looks_like_integer(value) {
        return "integer";
    }
    "character"
}

/// The count part of a repeat expression: optional '+', then digits.
pub open spec fn spec_repeat_count(s: Seq<char>) -> Option<int> {
    if s.len() >= 1 && s[0] == '+' {
        if s.len() >= 2 && spec_all_digits(s.skip(1)) {
            Some(crate::digits::spec_digits_val(s.skip(1)))
        } else {
            None
        }
    } else if s.len() >= 1 && spec_all_digits(s) {
        Some(crate::digits::spec_digits_val(s))
    } else {
        None
    }
}

/// The reading of a repeat expression `count*value`: without a star the
/// count is one and the whole text is the value; an empty value after
/// the star is the absence marker.
pub open spec fn spec_repeat_parts(s: Seq<char>) -> (int, ValueModel) {
    let p = spec_find(s, '*');
    if p < 0 || p >= s.len() {
        (1int, spec_detect(s))
    } else {
        let vs = spec_trim(s.skip(p + 1));
        if vs.len() == 0 {
            (0int, ValueModel::Null)
        } else {
            (0int, spec_detect(vs))
        }
    }
}

/// Parse a repeat expression such as "3*42": the count and the value,
/// with a bare value counting once and an absent value reading as the
/// absence marker.
pub fn parse_repeat_expression(input: &str) -> (r: Result<(usize, FortranValue), F90nmlError>)
    ensures
        spec_find(input@, '*') < 0 ==> (r matches Ok(p) && p.0 == 1 && p.1.deep_view()
            == spec_detect(input@) && p.1.wf()),
        spec_find(input@, '*') >= 0 ==> {
            let ct = spec_trim(input@.subrange(0, spec_find(input@, '*')));
            &&& (r is Ok <==> (spec_repeat_count(ct) matches Some(n) && n <= usize::MAX as int))
            &&& (r matches Ok(p) ==> Some(p.0 as int) == spec_repeat_count(ct) && p.1.deep_view()
                == spec_repeat_parts(input@).1 && p.1.wf())
        },
        r is Err ==> r->Err_0 matches F90nmlError::InvalidValue { .. },
{
    let chars = str_to_chars(input);
    proof {
        assert(chars@.skip(0) =~= chars@);
    }
    match crate::text::find_char(chars.as_slice(), 0, '*') {
        None => {
            let value = match parse_fortran_value(input, None) {
                Ok(v) => v,
                Err(e) => {
                    return Err(e);
                },
            };
            Ok((1, value))
        },
        Some(p) => {
            let count_part = crate::text::subvec(chars.as_slice(), 0, p);
            let count_text = trim_chars(count_part.as_slice());
            let count: usize = match repeat_count(count_text.as_slice()) {
                Some(n) => n,
                None => {
                    return Err(F90nmlError::invalid_value("", input, "repeat count"));
                },
            };
            let n = chars.len();
            proof {
                assert(p < n);
            }
            let value_part = crate::text::subvec(chars.as_slice(), p + 1, chars.len());
            let value_text = trim_chars(value_part.as_slice());
            proof {
                assert(value_part@ =~= input@.skip(p + 1));
            }
            if value_text.len() == 0 {
                Ok((count, FortranValue::Null))
            } else {
                let vt = crate::text::chars_to_string(value_text.as_slice());
                let value = match parse_fortran_value(vt.as_str(), None) {
                    Ok(v) => v,
                    Err(e) => {
                        return Err(e);
                    },
                };
                Ok((count, value))
            }
        },
    }
}

/// Parse an unsigned repeat count with an optional leading '+'.
fn repeat_count(s: &[char]) -> (r: Option<usize>)
    ensures
        r is Some <==> (spec_repeat_count(s@) matches Some(n) && n <= usize::MAX as int),
        r matches Some(v) ==> Some(v as int) == spec_repeat_count(s@),
{
    let digits = if s.len() >= 1 && s[0] == '+' {
        crate::text::subvec(s, 1, s.len())
    } else {
        crate::text::subvec(s, 0, s.len())
    };
    proof {
        if s@.len() >= 1 && s@[0] == '+' {
            assert(digits@ =~= s@.skip(1));
        } else {
            assert(digits@ =~= s@);
        }
        crate::digits::lemma_digits_val_nonneg_pub(digits@);
    }
    match crate::digits::chars_to_u64(digits.as_slice()) {
        Some(v) => {
            if v <= usize::MAX as u64 {
                Some(v as usize)
            } else {
                None
            }
        },
        None => None,
    }
}

/// The splitter state after reading a prefix of a value list: the
/// finished segments, the segment being read, the open quote if any,
/// and the parenthesis depth.
pub open spec fn spec_vl(s: Seq<char>) -> (Seq<Seq<char>>, Seq<char>, Option<char>, int)
    decreases s.len(),
{
    if s.len() == 0 {
        (Seq::<Seq<char>>::empty(), Seq::<char>::empty(), None::<char>, 0int)
    } else {
        let (segs, cur, inq, depth) = spec_vl(s.drop_last());
        let c = s.last();
        match inq {
            Some(q) => if c == q {
                (segs, cur.push(c), None::<char>, depth)
            } else {
                (segs, cur.push(c), inq, depth)
            },
            None => if c == '\'' || c == '"' {
                (segs, cur.push(c), Some(c), depth)
            } else if c == '(' {
                (segs, cur.push(c), None::<char>, depth + 1)
            } else if c == ')' {
                (segs, cur.push(c), None::<char>, depth - 1)
            } else if c == ',' && depth == 0 {
                (segs.push(cur), Seq::<char>::empty(), None::<char>, depth)
            } else {
                (segs, cur.push(c), None::<char>, depth)
            },
        }
    }
}

/// The value a list segment denotes: empty segments are the absence
/// marker, everything else goes through detection.
pub open spec fn spec_seg_value(seg: Seq<char>) -> ValueModel {
    if spec_trim(seg).len() == 0 {
        ValueModel::Null
    } else {
        spec_detect(seg)
    }
}

/// The values a comma-separated list denotes under detection: one per
/// finished segment, and one for the final segment unless the list is
/// entirely empty.
pub open spec fn spec_value_list(s: Seq<char>) -> Seq<ValueModel> {
    let parts = spec_vl(s);
    let head = parts.0.map_values(|seg: Seq<char>| spec_seg_value(seg));
    if spec_trim(parts.1).len() != 0 {
        head.push(spec_detect(parts.1))
    } else if head.len() != 0 {
        head.push(ValueModel::Null)
    } else {
        head
    }
}

/// Split a list on its top-level commas, leaving quoted text and
/// parenthesised groups whole, and parse each segment. Without a kind
/// hint the result is exactly the detected value of each segment; an
/// entirely empty input yields no values at all.
#[verifier::loop_isolation(false)]
#[verifier::rlimit(100)]
pub fn parse_value_list(input: &str, type_hint: Option<&str>) -> (r: Result<
    Vec<FortranValue>,
    F90nmlError,
>)
    ensures
        type_hint is None && spec_trim(input@).len() == 0 ==> (r matches Ok(vs) && vs@.len()
            == 0),
        type_hint is None && spec_trim(input@).len() != 0 ==> (r matches Ok(vs)
            && crate::fortran_types::value::spec_view_seq(vs@) == spec_value_list(input@)),
        r matches Ok(vs) ==> crate::fortran_types::value::spec_models_wf(
            crate::fortran_types::value::spec_view_seq(vs@),
        ),
        r is Err ==> r->Err_0 matches F90nmlError::InvalidValue { .. },
{
    let chars = str_to_chars(input);
    let trimmed = trim_chars(chars.as_slice());
    if trimmed.len() == 0 {
        let empty: Vec<FortranValue> = Vec::new();
        proof {
            assert(crate::fortran_types::value::spec_view_seq(empty@)
                =~= Seq::<ValueModel>::empty());
        }
        return Ok(empty);
    }
    // split on top-level commas
    let mut segs: Vec<Vec<char>> = Vec::new();
    let mut cur: Vec<char> = Vec::new();
    let mut inq: Option<char> = None;
    let mut depth_pos: usize = 0;
    let mut depth_neg: usize = 0;
    proof {
        assert(chars@.subrange(0, 0).len() == 0);
        assert(segs.deep_view() =~~= spec_vl(chars@.subrange(0, 0)).0);
    }
    let mut i: usize = 0;
    while i < chars.len()
        invariant
            i <= chars@.len(),
            depth_pos <= i,
            depth_neg <= i,
            segs.deep_view() == spec_vl(chars@.subrange(0, i as int)).0,
            cur@ == spec_vl(chars@.subrange(0, i as int)).1,
            inq == spec_vl(chars@.subrange(0, i as int)).2,
            spec_vl(chars@.subrange(0, i as int)).3 == depth_pos - depth_neg,
        decreases chars@.len() - i,
    {
        let ghost pre = chars@.subrange(0, i as int);
        let c = chars[i];
        let ghost segs0 = segs.deep_view();
        let ghost cur0 = cur@;
        match inq {
            Some(q) => {
                if c == q {
                    inq = None;
                }
                cur.push(c);
            },
            None => {
                if c == '\'' || c == '"' {
                    inq = Some(c);
                    cur.push(c);
                } else if c == '(' {
                    if depth_neg > 0 {
                        depth_neg = depth_neg - 1;
                    } else {
                        depth_pos = depth_pos + 1;
                    }
                    cur.push(c);
                } else if c == ')' {
                    if depth_pos > 0 {
                        depth_pos = depth_pos - 1;
                    } else {
                        depth_neg = depth_neg + 1;
                    }
                    cur.push(c);
                } else if c == ',' && depth_pos == depth_neg {
                    segs.push(cur);
                    cur = Vec::new();
                } else {
                    cur.push(c);
                }
            },
        }
        i += 1;
        proof {
            assert(chars@.subrange(0, i as int).drop_last() =~= pre);
            assert(chars@.subrange(0, i as int).last() == chars@[i - 1]);
            if segs.deep_view() != segs0 {
            }
            assert(segs.deep_view() =~~= spec_vl(chars@.subrange(0, i as int)).0);
        }
    }
    proof {
        assert(chars@.subrange(0, chars@.len() as int) =~= chars@);
    }
    // parse each finished segment
    let ghost full = spec_vl(chars@);
    let ghost seg_values = full.0.map_values(|seg: Seq<char>| spec_seg_value(seg));
    let mut values: Vec<FortranValue> = Vec::new();
    proof {
        assert(crate::fortran_types::value::spec_view_seq(values@) =~= seg_values.subrange(0, 0));
    }
    let mut k: usize = 0;
    while k < segs.len()
        invariant
            k <= segs@.len(),
            segs.deep_view() == full.0,
            full.0.len() == segs@.len(),
            seg_values == full.0.map_values(|seg: Seq<char>| spec_seg_value(seg)),
            type_hint is None ==> crate::fortran_types::value::spec_view_seq(values@)
                == seg_values.subrange(0, k as int),
            crate::fortran_types::value::spec_models_wf(
                crate::fortran_types::value::spec_view_seq(values@),
            ),
        decreases segs@.len() - k,
    {
        let ghost prev = values@;
        let ghost prev_models = crate::fortran_types::value::spec_view_seq(prev);
        let seg_text = chars_to_string(segs[k].as_slice());
        let seg_trim = trim_chars(segs[k].as_slice());
        proof {
            assert(segs.deep_view()[k as int] == segs@[k as int]@);
        }
        let v: FortranValue = if seg_trim.len() == 0 {
            FortranValue::Null
        } else {
            match parse_fortran_value(seg_text.as_str(), type_hint) {
                Ok(v) => v,
                Err(e) => {
                    return Err(e);
                },
            }
        };
        values.push(v);
        k += 1;
        proof {
            crate::fortran_types::value::lemma_view_seq_push(prev, values@.last());
            assert(values@ == prev.push(values@.last()));
            let models = crate::fortran_types::value::spec_view_seq(values@);
            assert(models.drop_last() =~= prev_models);
            assert(crate::fortran_types::value::spec_model_wf(models.last()));
            assert(crate::fortran_types::value::spec_models_wf(models));
            if type_hint is None {
                assert(seg_values[k - 1] == spec_seg_value(full.0[k - 1]));
                assert(models =~= seg_values.subrange(0, k as int));
            }
        }
    }
    // the final segment: a value, or a trailing absence marker
    let cur_trim = trim_chars(cur.as_slice());
    if cur_trim.len() != 0 {
        let ghost prev = values@;
        let ghost prev_models = crate::fortran_types::value::spec_view_seq(prev);
        let cur_text = chars_to_string(cur.as_slice());
        let v = match parse_fortran_value(cur_text.as_str(), type_hint) {
            Ok(v) => v,
            Err(e) => {
                return Err(e);
            },
        };
        values.push(v);
        proof {
            crate::fortran_types::value::lemma_view_seq_push(prev, values@.last());
            assert(values@ == prev.push(values@.last()));
            let models = crate::fortran_types::value::spec_view_seq(values@);
            assert(models.drop_last() =~= prev_models);
            assert(crate::fortran_types::value::spec_model_wf(models.last()));
            assert(crate::fortran_types::value::spec_models_wf(models));
            if type_hint is None {
                assert(seg_values.subrange(0, seg_values.len() as int) =~= seg_values);
                assert(models =~= spec_value_list(input@));
            }
        }
    } else if values.len() != 0 {
        let ghost prev = values@;
        let ghost prev_models = crate::fortran_types::value::spec_view_seq(prev);
        values.push(FortranValue::Null);
        proof {
            crate::fortran_types::value::lemma_view_seq_push(prev, values@.last());
            assert(values@ == prev.push(values@.last()));
            let models = crate::fortran_types::value::spec_view_seq(values@);
            assert(models.drop_last() =~= prev_models);
            assert(crate::fortran_types::value::spec_model_wf(models.last()));
            assert(crate::fortran_types::value::spec_models_wf(models));
            if type_hint is None {
                assert(seg_values.subrange(0, seg_values.len() as int) =~= seg_values);
                assert(models =~= spec_value_list(input@));
            }
        }
    } else {
        proof {
            if type_hint is None {
                assert(seg_values.subrange(0, seg_values.len() as int) =~= seg_values);
                assert(crate::fortran_types::value::spec_view_seq(values@)
                    =~= spec_value_list(input@));
            }
        }
    }
    Ok(values)
}

/// Bounds a parsed value may be held to: a closed range for integers,
/// a closed range for reals, caps on string and array lengths, and an
/// optional whitelist of logical spellings.
pub struct ValueConstraints {
    pub integer_range: Option<(i64, i64)>,
    pub real_range: Option<(RealValue, RealValue)>,
    pub max_string_length: Option<usize>,
    pub max_array_length: Option<usize>,
    pub allowed_logical_formats: Option<Vec<String>>,
}

impl ValueConstraints {
    /// The integer range as a mathematical interval.
    pub open spec fn spec_integer_range(&self) -> Option<(int, int)> {
        match self.integer_range {
            Some((a, b)) => Some((a as int, b as int)),
            None => None,
        }
    }

    /// The real range as a pair of models.
    pub open spec fn spec_real_range(&self) -> Option<(RealModel, RealModel)> {
        match self.real_range {
            Some((a, b)) => Some((a.deep_view(), b.deep_view())),
            None => None,
        }
    }

    /// The string-length cap as a mathematical bound.
    pub open spec fn spec_max_string(&self) -> Option<int> {
        match self.max_string_length {
            Some(l) => Some(l as int),
            None => None,
        }
    }

    /// The array-length cap as a mathematical bound.
    pub open spec fn spec_max_array(&self) -> Option<int> {
        match self.max_array_length {
            Some(l) => Some(l as int),
            None => None,
        }
    }

    /// An empty set of constraints, which every value meets.
    pub fn new() -> (r: ValueConstraints)
        ensures
            r.integer_range is None,
            r.real_range is None,
            r.max_string_length is None,
            r.max_array_length is None,
            r.allowed_logical_formats is None,
    {
        ValueConstraints {
            integer_range: None,
            real_range: None,
            max_string_length: None,
            max_array_length: None,
            allowed_logical_formats: None,
        }
    }

    /// The same constraints with a closed integer range.
    pub fn with_integer_range(self, min: i64, max: i64) -> (r: ValueConstraints)
        ensures
            r == (ValueConstraints { integer_range: Some((min, max)), ..self }),
    {
        ValueConstraints { integer_range: Some((min, max)), ..self }
    }

    /// The same constraints with a closed real range.
    pub fn with_real_range(self, min: RealValue, max: RealValue) -> (r: ValueConstraints)
        ensures
            r == (ValueConstraints { real_range: Some((min, max)), ..self }),
    {
        ValueConstraints { real_range: Some((min, max)), ..self }
    }

    /// The same constraints with a cap on string length.
    pub fn with_max_string_length(self, max_len: usize) -> (r: ValueConstraints)
        ensures
            r == (ValueConstraints { max_string_length: Some(max_len), ..self }),
    {
        ValueConstraints { max_string_length: Some(max_len), ..self }
    }

    /// The same constraints with a cap on array length.
    pub fn with_max_array_length(self, max_len: usize) -> (r: ValueConstraints)
        ensures
            r == (ValueConstraints { max_array_length: Some(max_len), ..self }),
    {
        ValueConstraints { max_array_length: Some(max_len), ..self }
    }

    /// The same constraints with a whitelist of logical spellings.
    pub fn with_allowed_logical_formats(self, formats: Vec<String>) -> (r: ValueConstraints)
        ensures
            r matches (ValueConstraints {
                allowed_logical_formats: Some(f),
                integer_range,
                real_range,
                max_string_length,
                max_array_length,
            }) && f@ == formats@ && integer_range == self.integer_range && real_range
                == self.real_range && max_string_length == self.max_string_length
                && max_array_length == self.max_array_length,
    {
        ValueConstraints { allowed_logical_formats: Some(formats), ..self }
    }
}

/// Whether a value model meets the given bounds: an integer lies in
/// the integer range, a real in the real range, a string under the
/// string cap, and an array under the array cap with every element
/// meeting the bounds in turn. Other kinds are unconstrained.
pub open spec fn spec_constraints_ok(
    m: ValueModel,
    ir: Option<(int, int)>,
    rr: Option<(RealModel, RealModel)>,
    msl: Option<int>,
    mal: Option<int>,
) -> bool
    decreases m,
{
    match m {
        ValueModel::Integer(i) => ir matches Some(b) ==> b.0 <= i <= b.1,
        ValueModel::Real(x) => rr matches Some(b) ==> !crate::fortran_types::realnum::spec_real_lt(
            x,
            b.0,
        ) && !crate::fortran_types::realnum::spec_real_lt(b.1, x),
        ValueModel::Character(t) => msl matches Some(l) ==> t.len() <= l,
        ValueModel::Array(els) => (mal matches Some(l) ==> els.len() <= l) && (forall|j: int|
            0 <= j < els.len() ==> spec_constraints_ok(#[trigger] els[j], ir, rr, msl, mal)),
        _ => true,
    }
}

/// Hold a parsed value to the given bounds: the check passes exactly
/// when the value meets them.
#[verifier::loop_isolation(false)]
pub fn validate_parsed_value(value: &FortranValue, constraints: &ValueConstraints) -> (r: Result<
    (),
    F90nmlError,
>)
    requires
        value.wf(),
    ensures
        r is Ok <==> spec_constraints_ok(
            value.deep_view(),
            constraints.spec_integer_range(),
            constraints.spec_real_range(),
            constraints.spec_max_string(),
            constraints.spec_max_array(),
        ),
        r is Err ==> r->Err_0 matches F90nmlError::ValidationError { .. },
    decreases value,
{
    match value {
        FortranValue::Integer(i) => {
            match &constraints.integer_range {
                Some(b) => {
                    if *i < b.0 || *i > b.1 {
                        Err(F90nmlError::validation_error(
                            "an integer lies outside the allowed range",
                            None,
                            None,
                        ))
                    } else {
                        Ok(())
                    }
                },
                None => Ok(()),
            }
        },
        FortranValue::Real(x) => {
            match &constraints.real_range {
                Some(b) => {
                    if x.real_lt(&b.0) || b.1.real_lt(x) {
                        Err(F90nmlError::validation_error(
                            "a real lies outside the allowed range",
                            None,
                            None,
                        ))
                    } else {
                        Ok(())
                    }
                },
                None => Ok(()),
            }
        },
        FortranValue::Character(t) => {
            match &constraints.max_string_length {
                Some(l) => {
                    let cs = crate::text::str_to_chars(t.as_str());
                    if cs.len() > *l {
                        Err(F90nmlError::validation_error(
                            "a string is longer than the allowed length",
                            None,
                            None,
                        ))
                    } else {
                        Ok(())
                    }
                },
                None => Ok(()),
            }
        },
        FortranValue::Array(items) => {
            let ghost models = crate::fortran_types::value::spec_view_seq(items@);
            proof {
                crate::fortran_types::value::lemma_view_seq_len(items@);
            }
            match &constraints.max_array_length {
                Some(l) => {
                    if items.len() > *l {
                        return Err(F90nmlError::validation_error(
                            "an array is longer than the allowed length",
                            None,
                            None,
                        ));
                    }
                },
                None => {},
            }
            let mut i: usize = 0;
            while i < items.len()
                invariant
                    i <= items@.len(),
                    forall|j: int|
                        0 <= j < i ==> spec_constraints_ok(
                            #[trigger] models[j],
                            constraints.spec_integer_range(),
                            constraints.spec_real_range(),
                            constraints.spec_max_string(),
                            constraints.spec_max_array(),
                        ),
                decreases items@.len() - i,
            {
                proof {
                    assert(decreases_to!(*value => *items));
                    assert(decreases_to!(*items => items@));
                    assert(decreases_to!(items@ => items@[i as int]));
                    crate::fortran_types::value::lemma_view_seq_index(items@, i as int);
                    crate::fortran_types::formatting::lemma_models_wf_at(models, i as int);
                }
                match validate_parsed_value(&items[i], constraints) {
                    Ok(..) => {},
                    Err(e) => {
                        return Err(e);
                    },
                }
                i += 1;
            }
            Ok(())
        },
        _ => Ok(()),
    }
}

} // verus!
