//! The round-trip law: parsing the canonical text of a value gives the
//! value back. It is stated over the spec-level parser and formatter,
//! so it binds every function whose contract speaks of them.

use vstd::prelude::*;

verus! {

use crate::fortran_types::formatting::FormatModel;
use crate::fortran_types::formatting::spec_escape;
use crate::fortran_types::formatting::spec_format_value;
use crate::fortran_types::parsing::spec_detect;
use crate::fortran_types::parsing::spec_parse_character;
use crate::fortran_types::parsing::spec_parse_complex;
use crate::fortran_types::parsing::spec_parse_integer;
use crate::fortran_types::parsing::spec_parse_logical;
use crate::fortran_types::parsing::spec_unescape;
use crate::fortran_types::realnum::spec_looks_like_integer;
use crate::fortran_types::realnum::spec_real_text;
use crate::fortran_types::realnum::spec_replace_marker;
use crate::fortran_types::realnum::spec_find_marker;
use crate::fortran_types::realnum::spec_strip_kind;
use crate::fortran_types::value::FortranValue;
use crate::fortran_types::value::ValueModel;
use crate::digits::spec_all_digits;
use crate::digits::spec_int_string;
use crate::digits::spec_nat_string;
use crate::digits::spec_signed_val;
use crate::digits::lemma_nat_string_val;
use crate::text::spec_find;
use crate::text::spec_is_digit;
use crate::text::spec_is_space;
use crate::text::spec_lower;
use crate::text::spec_lower_seq;
use crate::text::spec_trim;
use crate::text::spec_ws_prefix_len;
use crate::text::spec_ws_suffix_len;
use crate::text::lemma_find_none;

/// The default formatting options as a model.
pub open spec fn spec_default_opts() -> FormatModel {
    FormatModel {
        uppercase: false,
        precision: None,
        threshold: None,
        complex_math: false,
        quote: '\'',
        marker: 'e',
    }
}

/// Round trip for integer, logical and character values: detecting the
/// kind of the value's canonical text gives the same value back. This
/// is the load-bearing half of document round-tripping, since the
/// structural parser reads each scalar value back through detection.
pub proof fn lemma_detect_format_round_trip(v: FortranValue)
    requires
        v.deep_view() is Integer || v.deep_view() is Logical || v.deep_view() is Character,
    ensures
        spec_detect(spec_format_value(v.deep_view(), spec_default_opts())) == v.deep_view(),
{
    match v.deep_view() {
        ValueModel::Integer(n) => {
            lemma_integer_round_trip(n);
        },
        ValueModel::Logical(b) => {
            lemma_logical_round_trip(b);
        },
        ValueModel::Character(s) => {
            lemma_character_round_trip(s);
        },
        _ => {
            assert(false);
        },
    }
}

/// Text with no whitespace anywhere trims to itself.
proof fn lemma_trim_identity(s: Seq<char>)
    requires
        forall|i: int| 0 <= i < s.len() ==> !spec_is_space(#[trigger] s[i]),
    ensures
        spec_trim(s) == s,
{
    assert(spec_ws_prefix_len(s) == 0);
    assert(s.skip(0) =~= s);
    assert(spec_ws_suffix_len(s) == 0);
    assert(s.subrange(0, s.len() as int) =~= s);
    assert(spec_trim(s) =~= s);
}

/// Text with a non-space first and last character trims to itself.
proof fn lemma_trim_identity_ends(s: Seq<char>)
    requires
        s.len() > 0,
        !spec_is_space(s[0]),
        !spec_is_space(s.last()),
    ensures
        spec_trim(s) == s,
{
    assert(spec_ws_prefix_len(s) == 0);
    assert(s.skip(0) =~= s);
    assert(spec_ws_suffix_len(s) == 0);
    assert(s.subrange(0, s.len() as int) =~= s);
    assert(spec_trim(s) =~= s);
}

/// Lower-casing text without capital letters changes nothing.
proof fn lemma_lower_identity(s: Seq<char>)
    requires
        forall|i: int| 0 <= i < s.len() ==> !('A' <= #[trigger] s[i] && s[i] <= 'Z'),
    ensures
        spec_lower_seq(s) == s,
{
    assert forall|i: int| 0 <= i < s.len() implies #[trigger] spec_lower_seq(s)[i] == s[i] by {
        assert(spec_lower(s[i]) == s[i]);
    }
    assert(spec_lower_seq(s) =~= s);
}

/// Every character of an integer's text is a digit, or a leading '-'.
proof fn lemma_int_string_shape(n: int)
    requires
        i64::MIN <= n <= i64::MAX,
    ensures
        spec_int_string(n).len() >= 1,
        n >= 0 ==> spec_all_digits(spec_int_string(n)),
        n < 0 ==> spec_int_string(n)[0] == '-' && spec_all_digits(spec_int_string(n).skip(1)),
        forall|i: int|
            0 <= i < spec_int_string(n).len() ==> (spec_is_digit(#[trigger] spec_int_string(n)[i])
                || spec_int_string(n)[i] == '-'),
{
    let s = spec_int_string(n);
    if n >= 0 {
        lemma_nat_string_val(n);
    } else {
        lemma_nat_string_val(-n);
        assert(s =~= seq!['-'] + spec_nat_string(-n));
        assert(s.skip(1) =~= spec_nat_string(-n));
        assert forall|i: int| 0 <= i < s.len() implies (spec_is_digit(#[trigger] s[i]) || s[i]
            == '-') by {
            if i > 0 {
                assert(s[i] == spec_nat_string(-n)[i - 1]);
            }
        }
    }
}

/// A digit or minus sign is neither whitespace nor a capital letter.
proof fn lemma_plain_char(c: char)
    requires
        spec_is_digit(c) || c == '-',
    ensures
        !spec_is_space(c),
        !('A' <= c && c <= 'Z'),
        c != '_',
        c != 'd' && c != 'D',
        c != 'e' && c != 'E' || spec_is_digit(c) == false,
{
}

/// Detection of an integer's canonical text gives the integer back.
proof fn lemma_integer_round_trip(n: int)
    requires
        i64::MIN <= n <= i64::MAX,
    ensures
        spec_detect(spec_int_string(n)) == ValueModel::Integer(n),
{
    let s = spec_int_string(n);
    lemma_int_string_shape(n);
    assert forall|i: int| 0 <= i < s.len() implies !spec_is_space(#[trigger] s[i]) by {
        lemma_plain_char(s[i]);
    }
    lemma_trim_identity(s);
    assert forall|i: int| 0 <= i < s.len() implies !('A' <= #[trigger] s[i] && s[i] <= 'Z') by {
        lemma_plain_char(s[i]);
    }
    lemma_lower_identity(s);
    // not a logical literal: the first character is a digit or '-'
    assert(spec_parse_logical(s) is None) by {
        reveal_strlit(".true.");
        reveal_strlit(".t.");
        reveal_strlit("true");
        reveal_strlit("t");
        reveal_strlit(".false.");
        reveal_strlit(".f.");
        reveal_strlit("false");
        reveal_strlit("f");
        reveal_strlit(".t");
        reveal_strlit(".f");
        let t = spec_lower_seq(spec_trim(s));
        assert(t == s);
        assert(spec_is_digit(s[0]) || s[0] == '-');
        if t == ".true."@ {
            assert(t[0] == '.');
            assert(false);
        }
        if t == ".t."@ {
            assert(t[0] == '.');
            assert(false);
        }
        if t == "true"@ {
            assert(t[0] == 't');
            assert(false);
        }
        if t == "t"@ {
            assert(t[0] == 't');
            assert(false);
        }
        if t == ".false."@ {
            assert(t[0] == '.');
            assert(false);
        }
        if t == ".f."@ {
            assert(t[0] == '.');
            assert(false);
        }
        if t == "false"@ {
            assert(t[0] == 'f');
            assert(false);
        }
        if t == "f"@ {
            assert(t[0] == 'f');
            assert(false);
        }
        if t.len() >= 2 && t.subrange(0, 2) == ".t"@ {
            assert(t.subrange(0, 2)[0] == t[0]);
            assert(false);
        }
        if t.len() >= 2 && t.subrange(0, 2) == ".f"@ {
            assert(t.subrange(0, 2)[0] == t[0]);
            assert(false);
        }
    }
    // not a complex literal: the first character is not a parenthesis
    assert(spec_parse_complex(s) is None) by {
        assert(spec_trim(s)[0] != '(');
    }
    // not a real literal: the text reads as a plain integer
    assert(spec_real_text(s) is None) by {
        assert forall|i: int| 0 <= i < s.len() implies #[trigger] s[i] != '_' by {
            lemma_plain_char(s[i]);
        }
        lemma_find_none(s, '_');
        assert(spec_strip_kind(s) == s);
        assert(spec_looks_like_integer(s)) by {
            if n >= 0 {
                assert(spec_is_digit(s[0]));
                assert(spec_all_digits(s.skip(1))) by {
                    let t2 = s.skip(1);
                    assert forall|i: int| 0 <= i < t2.len() implies spec_is_digit(
                        #[trigger] t2[i],
                    ) by {
                        assert(t2[i] == s[i + 1]);
                    }
                }
            }
        }
    }
    // the integer parser reads the value back
    assert(spec_parse_integer(s) == Some(n)) by {
        assert forall|i: int| 0 <= i < s.len() implies #[trigger] s[i] != '_' by {
            lemma_plain_char(s[i]);
        }
        lemma_find_none(s, '_');
        assert(spec_strip_kind(s) == s);
        if n >= 0 {
            lemma_nat_string_val(n);
            assert(s[0] != '+' && s[0] != '-') by {
                assert(spec_is_digit(s[0]));
            }
            assert(spec_signed_val(s) == n);
        } else {
            lemma_nat_string_val(-n);
            assert(s[0] == '-');
            assert(s.skip(1) =~= spec_nat_string(-n));
            assert(spec_signed_val(s) == -crate::digits::spec_digits_val(spec_nat_string(-n)));
        }
    }
}

/// Detection of a logical literal gives the logical back.
proof fn lemma_logical_round_trip(b: bool)
    ensures
        spec_detect(crate::fortran_types::formatting::spec_format_logical(b, false))
            == ValueModel::Logical(b),
{
    reveal_strlit(".true.");
    reveal_strlit(".false.");
    reveal_strlit(".t.");
    reveal_strlit("true");
    reveal_strlit("t");
    reveal_strlit(".f.");
    reveal_strlit("false");
    reveal_strlit("f");
    let s: Seq<char> = if b {
        ".true."@
    } else {
        ".false."@
    };
    assert forall|i: int| 0 <= i < s.len() implies !spec_is_space(#[trigger] s[i]) by {}
    lemma_trim_identity(s);
    assert forall|i: int| 0 <= i < s.len() implies !('A' <= #[trigger] s[i] && s[i] <= 'Z') by {}
    lemma_lower_identity(s);
    assert(spec_lower_seq(spec_trim(s)) == s);
    if b {
        assert(spec_parse_logical(s) == Some(true));
    } else {
        assert(s != ".true."@) by {
            assert(s.len() != ".true."@.len());
        }
        assert(s != ".t."@) by {
            assert(s.len() != ".t."@.len());
        }
        assert(s != "true"@) by {
            assert(s.len() != "true"@.len());
        }
        assert(s != "t"@) by {
            assert(s.len() != "t"@.len());
        }
        assert(spec_parse_logical(s) == Some(false));
    }
    assert(spec_trim(s).len() != 0);
}

/// Unfolding the escape of a string from its front.
proof fn lemma_escape_front(s: Seq<char>, q: char)
    requires
        s.len() > 0,
    ensures
        spec_escape(s, q) == (if s[0] == q {
            seq![q, q]
        } else {
            seq![s[0]]
        }) + spec_escape(s.skip(1), q),
    decreases s.len(),
{
    if s.len() == 1 {
        assert(s.drop_last() =~= Seq::<char>::empty());
        assert(s.skip(1) =~= Seq::<char>::empty());
        assert(spec_escape(s, q) =~= (if s[0] == q {
            seq![q, q]
        } else {
            seq![s[0]]
        }) + spec_escape(s.skip(1), q));
    } else {
        lemma_escape_front(s.drop_last(), q);
        assert(s.drop_last()[0] == s[0]);
        assert(s.skip(1).drop_last() =~= s.drop_last().skip(1));
        assert(s.skip(1).last() == s.last());
        assert(spec_escape(s, q) =~= (if s[0] == q {
            seq![q, q]
        } else {
            seq![s[0]]
        }) + spec_escape(s.skip(1), q));
    }
}

/// Escaped quotes have at least as many characters as the source.
proof fn lemma_escape_len(s: Seq<char>, q: char)
    ensures
        spec_escape(s, q).len() >= s.len(),
    decreases s.len(),
{
    if s.len() > 0 {
        lemma_escape_len(s.drop_last(), q);
    }
}

/// Collapsing doubled quotes undoes doubling them.
proof fn lemma_unescape_escape(s: Seq<char>, q: char)
    ensures
        spec_unescape(spec_escape(s, q), q) == s,
    decreases s.len(),
{
    if s.len() == 0 {
        assert(spec_unescape(spec_escape(s, q), q) =~= s);
    } else {
        lemma_escape_front(s, q);
        lemma_unescape_escape(s.skip(1), q);
        let e = spec_escape(s, q);
        if s[0] == q {
            assert(e =~= seq![q, q] + spec_escape(s.skip(1), q));
            assert(e.len() >= 2 && e[0] == q && e[1] == q);
            assert(e.skip(2) =~= spec_escape(s.skip(1), q));
            assert(spec_unescape(e, q) =~= seq![q] + s.skip(1));
            assert(seq![q] + s.skip(1) =~= s);
        } else {
            assert(e =~= seq![s[0]] + spec_escape(s.skip(1), q));
            assert(e[0] == s[0]);
            assert(e.len() < 2 || e[0] != q);
            assert(e.first() == s[0]);
            assert(e.skip(1) =~= spec_escape(s.skip(1), q));
            assert(spec_unescape(e, q) =~= seq![s[0]] + s.skip(1));
            assert(seq![s[0]] + s.skip(1) =~= s);
        }
    }
}

/// Detection of a quoted character value's text gives the string back.
proof fn lemma_character_round_trip(s: Seq<char>)
    ensures
        spec_detect(seq!['\''] + spec_escape(s, '\'') + seq!['\'']) == ValueModel::Character(s),
{
    let q = '\'';
    let t = seq![q] + spec_escape(s, q) + seq![q];
    assert(t.len() >= 2);
    assert(t[0] == q);
    assert(t.last() == q);
    lemma_trim_identity_ends(t);
    // not a logical literal: the first character is a quote
    assert(spec_parse_logical(t) is None) by {
        reveal_strlit(".true.");
        reveal_strlit(".t.");
        reveal_strlit("true");
        reveal_strlit("t");
        reveal_strlit(".false.");
        reveal_strlit(".f.");
        reveal_strlit("false");
        reveal_strlit("f");
        reveal_strlit(".t");
        reveal_strlit(".f");
        let lt = spec_lower_seq(spec_trim(t));
        assert(lt.len() == t.len());
        assert(lt[0] == spec_lower(t[0]));
        assert(lt[0] == q);
        if lt == ".true."@ || lt == ".t."@ || lt == ".false."@ || lt == ".f."@ {
            assert(lt[0] == '.');
            assert(false);
        }
        if lt == "true"@ {
            assert(lt[0] == 't');
            assert(false);
        }
        if lt == "t"@ {
            assert(lt[0] == 't');
            assert(false);
        }
        if lt == "false"@ {
            assert(lt[0] == 'f');
            assert(false);
        }
        if lt == "f"@ {
            assert(lt[0] == 'f');
            assert(false);
        }
        if lt.len() >= 2 && (lt.subrange(0, 2) == ".t"@ || lt.subrange(0, 2) == ".f"@) {
            assert(lt.subrange(0, 2)[0] == lt[0]);
            assert(false);
        }
    }
    // not a complex literal: the first character is not a parenthesis
    assert(spec_parse_complex(t) is None);
    // not a real literal: the quote survives every normalization step
    lemma_quoted_not_real(t, s);
    // not an integer: the first character is not a sign or digit
    assert(spec_parse_integer(t) is None) by {
        let clean = spec_strip_kind(t);
        assert(clean.len() == 0 || clean[0] == t[0]) by {
            let u = spec_find(t, '_');
            crate::text::lemma_find(t, '_');
            if 0 <= u < t.len() {
                assert(t[u] == '_');
                assert(u != 0);
                assert(clean =~= t.subrange(0, u));
            }
        }
        if clean.len() > 0 {
            assert(clean[0] == q);
            assert(!crate::digits::spec_signed_digits(clean)) by {
                if clean[0] != '+' && clean[0] != '-' {
                    if spec_all_digits(clean) {
                        assert(spec_is_digit(clean[0]));
                        assert(false);
                    }
                }
            }
        }
    }
    // the character parser strips the quotes and collapses the doubles
    assert(spec_parse_character(t) == s) by {
        assert(t.subrange(1, t.len() - 1) =~= spec_escape(s, q));
        lemma_unescape_escape(s, q);
        assert(t[0] == '\'' && t.last() == '\'');
        assert(!(t[0] == '"' && t.last() == '"'));
    }
    assert(spec_trim(t).len() != 0);
}

/// Text that begins with a quote is not a real literal.
proof fn lemma_quoted_not_real(t: Seq<char>, s: Seq<char>)
    requires
        t.len() >= 2,
        t[0] == '\'',
        t.last() == '\'',
        spec_trim(t) == t,
    ensures
        spec_real_text(t) is None,
{
    let q = '\'';
    // the text does not read as an integer
    assert(!spec_looks_like_integer(t)) by {
        let clean = spec_strip_kind(t);
        crate::text::lemma_find(t, '_');
        let u = spec_find(t, '_');
        if u >= 0 {
            assert(t[u] == '_');
            assert(u != 0);
        }
        assert(clean.len() == 0 || clean[0] == q) by {
            if 0 <= u < t.len() {
                assert(clean =~= t.subrange(0, u));
            }
        }
        if clean.len() > 0 {
            if clean[0] != '+' && clean[0] != '-' {
                if spec_is_digit(clean[0]) {
                    assert(false);
                }
            }
        }
    }
    // the first marker replacement and kind strip keep the leading quote
    let r = spec_replace_marker(t);
    assert(r.len() == t.len() && r[0] == q) by {
        let m = spec_find_marker(t);
        crate::fortran_types::realnum::lemma_find_marker_pub(t);
        if 0 <= m < t.len() {
            assert(t[m] == 'd' || t[m] == 'D');
            assert(m != 0);
            assert(r =~= t.update(m, 'e'));
        }
    }
    let c = spec_strip_kind(r);
    crate::text::lemma_find(r, '_');
    let u = spec_find(r, '_');
    assert(c.len() >= 1 && c[0] == q) by {
        if 0 <= u < r.len() {
            assert(r[u] == '_');
            assert(u != 0);
            assert(c =~= r.subrange(0, u));
        }
    }
    // the lower-cased text is none of the special spellings
    let lc = spec_lower_seq(c);
    assert(lc.len() == c.len() && lc[0] == q);
    reveal_strlit("+inf");
    reveal_strlit("inf");
    reveal_strlit("+infinity");
    reveal_strlit("infinity");
    reveal_strlit("-inf");
    reveal_strlit("-infinity");
    reveal_strlit("nan");
    reveal_strlit("+nan");
    reveal_strlit("-nan");
    assert(lc != "+inf"@ && lc != "inf"@ && lc != "+infinity"@ && lc != "infinity"@) by {
        if lc == "+inf"@ {
            assert(lc[0] == '+');
        }
        if lc == "inf"@ {
            assert(lc[0] == 'i');
        }
        if lc == "+infinity"@ {
            assert(lc[0] == '+');
        }
        if lc == "infinity"@ {
            assert(lc[0] == 'i');
        }
    }
    assert(lc != "-inf"@ && lc != "-infinity"@) by {
        if lc == "-inf"@ {
            assert(lc[0] == '-');
        }
        if lc == "-infinity"@ {
            assert(lc[0] == '-');
        }
    }
    assert(lc != "nan"@ && lc != "+nan"@ && lc != "-nan"@) by {
        if lc == "nan"@ {
            assert(lc[0] == 'n');
        }
        if lc == "+nan"@ {
            assert(lc[0] == '+');
        }
        if lc == "-nan"@ {
            assert(lc[0] == '-');
        }
    }
    // the decimal grammar refuses the leading quote
    assert(crate::fortran_types::realnum::spec_parse_decimal(c) is None) by {
        let em = crate::fortran_types::realnum::spec_exp_marker(c);
        crate::text::lemma_find(c, 'e');
        crate::text::lemma_find(c, 'E');
        if em < 0 {
            lemma_mantissa_quote(c, q);
        } else {
            assert(c[em] == 'e' || c[em] == 'E') by {
                let el = spec_find(c, 'e');
                let eu = spec_find(c, 'E');
                if el >= 0 {
                    assert(c[el] == 'e');
                }
                if eu >= 0 {
                    assert(c[eu] == 'E');
                }
            }
            assert(em != 0);
            let mant = c.subrange(0, em);
            assert(mant.len() >= 1 && mant[0] == q);
            if crate::digits::spec_signed_digits(c.skip(em + 1)) {
                lemma_mantissa_quote(mant, q);
            }
        }
    }
}

/// A mantissa that begins with a quote is malformed.
proof fn lemma_mantissa_quote(mant: Seq<char>, q: char)
    requires
        mant.len() >= 1,
        mant[0] == q,
        q == '\'',
    ensures
        forall|e: int| crate::fortran_types::realnum::spec_parse_mantissa(mant, e) is None,
{
    assert forall|e: int| crate::fortran_types::realnum::spec_parse_mantissa(mant, e)
        is None by {
        assert(mant[0] != '-' && mant[0] != '+');
        let dot = spec_find(mant, '.');
        crate::text::lemma_find(mant, '.');
        if dot >= 0 {
            assert(mant[dot] == '.');
            assert(dot != 0);
            let ip = mant.subrange(0, dot);
            assert(ip.len() >= 1 && ip[0] == q);
            if spec_all_digits(ip) {
                assert(spec_is_digit(ip[0]));
                assert(false);
            }
        } else {
            let ip = mant;
            if spec_all_digits(ip) {
                assert(spec_is_digit(ip[0]));
                assert(false);
            }
        }
    }
}

} // verus!
