//! Real values carried as exact decimals: a sign, a digit string and a
//! power of ten, normalized so that equal numbers have equal
//! representations, plus the three special values of the source format.

use vstd::prelude::*;

verus! {

use crate::digits::spec_digit_char;
use crate::digits::spec_int_string;
use crate::digits::digit_char;
use crate::digits::i64_to_chars;

/// A real number: `(-1)^neg * digits * 10^exp` with the digit string
/// carrying the most significant digit first, or one of the special
/// values infinity, negative infinity and not-a-number.
#[derive(Debug, Clone, PartialEq)]
pub enum RealValue {
    Finite { neg: bool, digits: Vec<u8>, exp: i64 },
    PosInf,
    NegInf,
    NaN,
}

/// Mathematical model of a real value.
pub enum RealModel {
    Finite { neg: bool, digits: Seq<u8>, exp: int },
    PosInf,
    NegInf,
    NaN,
}

impl RealValue {
    /// The model of this value.
    pub open spec fn deep_view(&self) -> RealModel {
        match self {
            RealValue::Finite { neg, digits, exp } => RealModel::Finite {
                neg: *neg,
                digits: digits@,
                exp: *exp as int,
            },
            RealValue::PosInf => RealModel::PosInf,
            RealValue::NegInf => RealModel::NegInf,
            RealValue::NaN => RealModel::NaN,
        }
    }

    /// Normalization: digits are decimal, with no leading or trailing
    /// zero digit; zero itself has no digits, a positive sign and
    /// exponent zero.
    pub open spec fn wf(&self) -> bool {
        spec_real_wf(self.deep_view())
    }

    /// The canonical zero.
    pub fn zero() -> (r: RealValue)
        ensures
            r.deep_view() == (RealModel::Finite { neg: false, digits: Seq::<u8>::empty(), exp: 0 }),
            r.wf(),
    {
        let r = RealValue::Finite { neg: false, digits: Vec::new(), exp: 0 };
        proof {
            assert(spec_strip_leading(Seq::<u8>::empty()) =~= Seq::<u8>::empty());
        }
        r
    }

    /// Whether this is one of the special values.
    pub fn is_special(&self) -> (r: bool)
        ensures
            r == !(self.deep_view() is Finite),
    {
        match self {
            RealValue::Finite { .. } => false,
            _ => true,
        }
    }
}

/// Normalization invariant over the model.
pub open spec fn spec_real_wf(m: RealModel) -> bool {
    match m {
        RealModel::Finite { neg, digits, exp } => {
            &&& forall|i: int| 0 <= i < digits.len() ==> #[trigger] digits[i] < 10
            &&& (digits.len() > 0 ==> digits[0] != 0 && digits.last() != 0)
            &&& (digits.len() == 0 ==> !neg && exp == 0)
        },
        _ => true,
    }
}

/// Digits with leading zero digits removed.
pub open spec fn spec_strip_leading(ds: Seq<u8>) -> Seq<u8>
    decreases ds.len(),
{
    if ds.len() == 0 || ds[0] != 0 {
        ds
    } else {
        spec_strip_leading(ds.skip(1))
    }
}

/// Digits with trailing zero digits removed, the exponent raised by one
/// for each digit removed.
pub open spec fn spec_strip_trailing(ds: Seq<u8>, exp: int) -> (Seq<u8>, int)
    decreases ds.len(),
{
    if ds.len() == 0 || ds.last() != 0 {
        (ds, exp)
    } else {
        spec_strip_trailing(ds.drop_last(), exp + 1)
    }
}

/// The normalized finite value with the given parts.
pub open spec fn spec_norm(neg: bool, ds: Seq<u8>, exp: int) -> RealModel {
    let led = spec_strip_leading(ds);
    let (stripped, exp2) = spec_strip_trailing(led, exp);
    if stripped.len() == 0 {
        RealModel::Finite { neg: false, digits: Seq::empty(), exp: 0 }
    } else {
        RealModel::Finite { neg, digits: stripped, exp: exp2 }
    }
}

/// Stripping preserves digit bounds and yields a normalized value.
pub proof fn lemma_norm_wf(neg: bool, ds: Seq<u8>, exp: int)
    requires
        forall|i: int| 0 <= i < ds.len() ==> #[trigger] ds[i] < 10,
    ensures
        spec_real_wf(spec_norm(neg, ds, exp)),
{
    lemma_strip_leading(ds);
    let led = spec_strip_leading(ds);
    lemma_strip_trailing(led, exp);
}

/// Properties of leading-zero stripping.
pub proof fn lemma_strip_leading(ds: Seq<u8>)
    ensures
        spec_strip_leading(ds).len() <= ds.len(),
        spec_strip_leading(ds).len() > 0 ==> spec_strip_leading(ds)[0] != 0,
        forall|i: int|
            0 <= i < spec_strip_leading(ds).len() ==> #[trigger] spec_strip_leading(ds)[i] == ds[i
                + (ds.len() - spec_strip_leading(ds).len())],
    decreases ds.len(),
{
    if ds.len() > 0 && ds[0] == 0 {
        lemma_strip_leading(ds.skip(1));
        let r = spec_strip_leading(ds);
        assert forall|i: int| 0 <= i < r.len() implies #[trigger] r[i] == ds[i + (ds.len()
            - r.len())] by {
            assert(r[i] == ds.skip(1)[i + (ds.skip(1).len() - r.len())]);
        }
    }
}

/// Properties of trailing-zero stripping.
pub proof fn lemma_strip_trailing(ds: Seq<u8>, exp: int)
    ensures
        spec_strip_trailing(ds, exp).0.len() <= ds.len(),
        spec_strip_trailing(ds, exp).0.len() > 0 ==> spec_strip_trailing(ds, exp).0.last() != 0,
        spec_strip_trailing(ds, exp).0 =~= ds.subrange(0, spec_strip_trailing(ds, exp).0.len() as int),
        spec_strip_trailing(ds, exp).1 == exp + ds.len() - spec_strip_trailing(ds, exp).0.len(),
    decreases ds.len(),
{
    if ds.len() > 0 && ds.last() == 0 {
        lemma_strip_trailing(ds.drop_last(), exp + 1);
        let r = spec_strip_trailing(ds, exp).0;
        assert(ds.drop_last().subrange(0, r.len() as int) =~= ds.subrange(0, r.len() as int));
    }
}

/// Build the normalized finite value from raw parts. The exponent moves
/// by one for each trailing zero removed; when that leaves `i64`, the
/// result is the signed infinity (the magnitude is unrepresentable).
#[verifier::loop_isolation(false)]
pub fn make_real(neg: bool, mut digits: Vec<u8>, exp: i64) -> (r: RealValue)
    requires
        forall|i: int| 0 <= i < digits@.len() ==> #[trigger] digits@[i] < 10,
    ensures
        r.wf(),
        spec_real_big(neg, digits@, exp as int) ==> r.deep_view() == (if neg {
            RealModel::NegInf
        } else {
            RealModel::PosInf
        }),
        !spec_real_big(neg, digits@, exp as int) ==> r.deep_view() == spec_norm(
            neg,
            digits@,
            exp as int,
        ),
{
    let ghost orig = digits@;
    let ghost origexp = exp as int;
    proof {
        lemma_strip_leading(orig);
    }
    // remove leading zeros
    let mut lead: usize = 0;
    while lead < digits.len() && digits[lead] == 0
        invariant
            lead <= digits@.len(),
            digits@ == orig,
            forall|j: int| 0 <= j < lead ==> #[trigger] orig[j] == 0,
        decreases digits@.len() - lead,
    {
        lead += 1;
    }
    let led = crate::text::subvec_u8(digits.as_slice(), lead, digits.len());
    proof {
        lemma_strip_skip(orig, lead as int);
        assert(led@ =~= orig.skip(lead as int));
        assert(spec_strip_leading(orig) =~= spec_strip_leading(led@));
        assert(led@.len() == 0 || led@[0] != 0);
        assert(spec_strip_leading(led@) =~= led@);
    }
    let mut ds = led;
    let mut e: i64 = exp;
    let ghost led0 = ds@;
    while ds.len() > 0 && ds[ds.len() - 1] == 0
        invariant
            spec_strip_trailing(led0, origexp).0 =~= spec_strip_trailing(ds@, e as int).0,
            spec_strip_trailing(led0, origexp).1 == spec_strip_trailing(ds@, e as int).1,
            ds@ =~= led0.subrange(0, ds@.len() as int),
            e as int == origexp + led0.len() - ds@.len(),
            e as int >= origexp,
            led0.len() > 0 ==> led0[0] != 0,
            spec_strip_leading(orig) == led0,
        decreases ds@.len(),
    {
        if e == i64::MAX {
            proof {
                lemma_strip_trailing(ds@.drop_last(), e as int + 1);
                assert(spec_strip_trailing(ds@, e as int).1 >= e as int + 1);
                assert(ds@[0] == led0[0]);
                assert(spec_strip_trailing(ds@, e as int).0.len() > 0) by {
                    lemma_strip_trailing(ds@, e as int);
                    if spec_strip_trailing(ds@, e as int).0.len() == 0 {
                        lemma_strip_keeps_head(ds@, e as int);
                    }
                }
                assert(spec_real_big(neg, orig, origexp));
            }
            return if neg {
                RealValue::NegInf
            } else {
                RealValue::PosInf
            };
        }
        ds.pop();
        e = e + 1;
        proof {
            assert(ds@ =~= led0.subrange(0, ds@.len() as int));
        }
    }
    proof {
        lemma_strip_trailing(led0, origexp);
        lemma_strip_trailing(ds@, e as int);
        assert(spec_strip_trailing(ds@, e as int).0 =~= ds@);
        lemma_norm_wf(neg, orig, origexp);
        assert(spec_strip_leading(orig) == led0);
        assert(spec_strip_trailing(led0, origexp).0 == ds@);
        assert(spec_strip_trailing(led0, origexp).1 == e as int);
        assert(!spec_real_big(neg, orig, origexp));
    }
    if ds.len() == 0 {
        proof {
            assert(ds@ =~= Seq::<u8>::empty());
            assert(spec_norm(neg, orig, origexp) == (RealModel::Finite {
                neg: false,
                digits: Seq::<u8>::empty(),
                exp: 0,
            }));
        }
        RealValue::Finite { neg: false, digits: ds, exp: 0 }
    } else {
        proof {
            assert(spec_norm(neg, orig, origexp) == (RealModel::Finite {
                neg,
                digits: ds@,
                exp: e as int,
            }));
        }
        RealValue::Finite { neg, digits: ds, exp: e }
    }
}

/// The raw parts overflow the representable exponents: only when more
/// trailing zeros must be folded into the exponent than `i64` can count.
pub open spec fn spec_real_big(neg: bool, ds: Seq<u8>, exp: int) -> bool {
    spec_strip_trailing(spec_strip_leading(ds), exp).1 > i64::MAX as int && spec_strip_trailing(
        spec_strip_leading(ds),
        exp,
    ).0.len() > 0
}

/// Stripping leading zeros commutes with skipping a prefix of zeros.
proof fn lemma_strip_skip(ds: Seq<u8>, k: int)
    requires
        0 <= k <= ds.len(),
        forall|j: int| 0 <= j < k ==> #[trigger] ds[j] == 0,
    ensures
        spec_strip_leading(ds) =~= spec_strip_leading(ds.skip(k)),
    decreases k,
{
    if k == 0 {
        assert(ds.skip(0) =~= ds);
    } else {
        assert(ds[0] == 0);
        assert(spec_strip_leading(ds) =~= spec_strip_leading(ds.skip(1)));
        let t = ds.skip(1);
        assert forall|j: int| 0 <= j < k - 1 implies #[trigger] t[j] == 0 by {
            assert(t[j] == ds[j + 1]);
        }
        lemma_strip_skip(t, k - 1);
        assert(t.skip(k - 1) =~= ds.skip(k));
    }
}

/// A digit run whose first digit is nonzero keeps it through trailing
/// stripping.
pub proof fn lemma_strip_keeps_head(ds: Seq<u8>, exp: int)
    requires
        ds.len() > 0,
        ds[0] != 0,
    ensures
        spec_strip_trailing(ds, exp).0.len() > 0,
    decreases ds.len(),
{
    if ds.last() == 0 {
        assert(ds.len() > 1);
        assert(ds.drop_last()[0] == ds[0]);
        lemma_strip_keeps_head(ds.drop_last(), exp + 1);
    }
}

/// The text reads as a plain integer: an optional kind suffix removed,
/// then an optional sign and digits only.
pub open spec fn spec_looks_like_integer(s: Seq<char>) -> bool {
    let t = crate::text::spec_trim(s);
    let clean = spec_strip_kind(t);
    if clean.len() == 0 {
        false
    } else if clean[0] == '+' || clean[0] == '-' {
        crate::digits::spec_all_digits(clean.skip(1))
    } else {
        crate::text::spec_is_digit(clean[0]) && crate::digits::spec_all_digits(clean.skip(1))
    }
}

/// The text up to its first underscore: a kind suffix is discarded.
pub open spec fn spec_strip_kind(s: Seq<char>) -> Seq<char> {
    let i = crate::text::spec_find(s, '_');
    if i < 0 || i >= s.len() {
        s
    } else {
        s.subrange(0, i)
    }
}

/// Index of the first double-precision exponent marker, or -1.
pub open spec fn spec_find_marker(s: Seq<char>) -> int
    decreases s.len(),
{
    if s.len() == 0 {
        -1
    } else if s[0] == 'd' || s[0] == 'D' {
        0
    } else {
        let r = spec_find_marker(s.skip(1));
        if r < 0 {
            -1
        } else {
            r + 1
        }
    }
}

/// The text with its first `d`/`D` replaced by `e`.
pub open spec fn spec_replace_marker(s: Seq<char>) -> Seq<char> {
    let i = spec_find_marker(s);
    if i < 0 || i >= s.len() {
        s
    } else {
        s.update(i, 'e')
    }
}

/// `spec_find_marker` finds the least marker position, or -1.
pub proof fn lemma_find_marker_pub(s: Seq<char>)
    ensures
        spec_find_marker(s) == -1 ==> forall|j: int|
            0 <= j < s.len() ==> #[trigger] s[j] != 'd' && s[j] != 'D',
        spec_find_marker(s) >= 0 ==> spec_find_marker(s) < s.len() && (s[spec_find_marker(s)] == 'd'
            || s[spec_find_marker(s)] == 'D') && forall|j: int|
            0 <= j < spec_find_marker(s) ==> #[trigger] s[j] != 'd' && s[j] != 'D',
    decreases s.len(),
{
    if s.len() > 0 && s[0] != 'd' && s[0] != 'D' {
        lemma_find_marker_pub(s.skip(1));
        let f = spec_find_marker(s);
        if f == -1 {
            assert forall|j: int| 0 <= j < s.len() implies #[trigger] s[j] != 'd' && s[j]
                != 'D' by {
                if j > 0 {
                    assert(s.skip(1)[j - 1] == s[j]);
                }
            }
        } else {
            assert(s.skip(1)[f - 1] == s[f]);
            assert forall|j: int| 0 <= j < f implies #[trigger] s[j] != 'd' && s[j] != 'D' by {
                if j > 0 {
                    assert(s.skip(1)[j - 1] == s[j]);
                }
            }
        }
    }
}

/// The value of a decimal-literal mantissa (sign, digits, optional
/// point) against an already-known exponent; `None` when malformed.
pub open spec fn spec_parse_mantissa(mant: Seq<char>, expval: int) -> Option<RealModel> {
    if mant.len() == 0 {
        None
    } else {
        let neg = mant[0] == '-';
        let m2 = if mant[0] == '-' || mant[0] == '+' {
            mant.skip(1)
        } else {
            mant
        };
        let dot = crate::text::spec_find(m2, '.');
        let ip = if dot < 0 {
            m2
        } else {
            m2.subrange(0, dot)
        };
        let fp = if dot < 0 {
            Seq::<char>::empty()
        } else {
            m2.skip(dot + 1)
        };
        if crate::digits::spec_all_digits(ip) && crate::digits::spec_all_digits(fp) && ip.len()
            + fp.len() >= 1 {
            Some(
                spec_decimal_value(
                    neg,
                    (ip + fp).map_values(|ch: char| crate::digits::spec_digit_val(ch) as u8),
                    expval,
                    fp.len() as int,
                ),
            )
        } else {
            None
        }
    }
}

/// The position of the exponent marker in a decimal-literal body, or -1.
pub open spec fn spec_exp_marker(c: Seq<char>) -> int {
    let ei = crate::text::spec_find(c, 'e');
    let eiu = crate::text::spec_find(c, 'E');
    if ei < 0 {
        eiu
    } else if eiu < 0 {
        ei
    } else if ei < eiu {
        ei
    } else {
        eiu
    }
}

/// The value of a decimal-literal body: mantissa, and an optional
/// `e`-exponent; `None` when malformed.
pub open spec fn spec_parse_decimal(c: Seq<char>) -> Option<RealModel> {
    let em = spec_exp_marker(c);
    if em < 0 {
        spec_parse_mantissa(c, 0)
    } else {
        let etext = c.skip(em + 1);
        if !crate::digits::spec_signed_digits(etext) {
            None
        } else {
            spec_parse_mantissa(c.subrange(0, em), crate::digits::spec_signed_val(etext))
        }
    }
}

/// The value carried by sign, mantissa digits and a base-ten exponent.
/// A zero mantissa is zero; an exponent beyond what the machine can
/// carry collapses to the signed infinity (huge) or to zero (tiny).
pub open spec fn spec_decimal_value(neg: bool, ds: Seq<u8>, expval: int, fraclen: int) -> RealModel {
    if spec_strip_leading(ds).len() == 0 {
        RealModel::Finite { neg: false, digits: Seq::empty(), exp: 0 }
    } else if expval > 100000000000000 {
        spec_inf(neg)
    } else if expval < -100000000000000 {
        RealModel::Finite { neg: false, digits: Seq::empty(), exp: 0 }
    } else if expval - fraclen < i64::MIN as int {
        RealModel::Finite { neg: false, digits: Seq::empty(), exp: 0 }
    } else if spec_real_big(neg, ds, expval - fraclen) {
        spec_inf(neg)
    } else {
        spec_norm(neg, ds, expval - fraclen)
    }
}

/// The infinity of a sign.
pub open spec fn spec_inf(neg: bool) -> RealModel {
    if neg {
        RealModel::NegInf
    } else {
        RealModel::PosInf
    }
}

/// The real value a piece of text denotes: plain integers are rejected,
/// the first `d`/`D` acts as an exponent marker, a kind suffix is
/// dropped, and the special spellings of infinity and NaN are recognised
/// case-insensitively.
pub open spec fn spec_real_text(s: Seq<char>) -> Option<RealModel> {
    let t = crate::text::spec_trim(s);
    if spec_looks_like_integer(s) {
        None
    } else {
        let c = spec_strip_kind(spec_replace_marker(t));
        let lc = crate::text::spec_lower_seq(c);
        if lc == "+inf"@ || lc == "inf"@ || lc == "+infinity"@ || lc == "infinity"@ {
            Some(RealModel::PosInf)
        } else if lc == "-inf"@ || lc == "-infinity"@ {
            Some(RealModel::NegInf)
        } else if lc == "nan"@ || lc == "+nan"@ || lc == "-nan"@ {
            Some(RealModel::NaN)
        } else {
            spec_parse_decimal(c)
        }
    }
}

/// Whether the trimmed text reads as a plain integer.
pub fn looks_like_integer_chars(s: &[char]) -> (r: bool)
    ensures
        r == spec_looks_like_integer(s@),
{
    let t = crate::text::trim_chars(s);
    let clean = strip_kind_chars(t.as_slice());
    if clean.len() == 0 {
        return false;
    }
    let first = clean[0];
    let rest_ok = all_digits_from(clean.as_slice(), 1);
    proof {
        assert(clean@.skip(1) =~= clean@.subrange(1, clean@.len() as int));
    }
    if first == '+' || first == '-' {
        rest_ok
    } else {
        crate::text::is_digit(first) && rest_ok
    }
}

/// Whether every character at or after `from` is a digit.
fn all_digits_from(s: &[char], from: usize) -> (r: bool)
    requires
        from <= s@.len(),
    ensures
        r == crate::digits::spec_all_digits(s@.subrange(from as int, s@.len() as int)),
{
    let mut i: usize = from;
    while i < s.len()
        invariant
            from <= i <= s@.len(),
            forall|j: int| from <= j < i ==> crate::text::spec_is_digit(#[trigger] s@[j]),
        decreases s@.len() - i,
    {
        if !crate::text::is_digit(s[i]) {
            proof {
                let t = s@.subrange(from as int, s@.len() as int);
                assert(t[i - from] == s@[i as int]);
            }
            return false;
        }
        i += 1;
    }
    proof {
        let t = s@.subrange(from as int, s@.len() as int);
        assert forall|j: int| 0 <= j < t.len() implies crate::text::spec_is_digit(
            #[trigger] t[j],
        ) by {
            assert(t[j] == s@[from + j]);
        }
    }
    true
}

/// The text up to its first underscore.
fn strip_kind_chars(s: &[char]) -> (r: Vec<char>)
    ensures
        r@ == spec_strip_kind(s@),
{
    match crate::text::find_char(s, 0, '_') {
        Some(i) => {
            proof {
                assert(s@.skip(0) =~= s@);
            }
            crate::text::subvec(s, 0, i)
        },
        None => {
            proof {
                assert(s@.skip(0) =~= s@);
                assert(s@.subrange(0, s@.len() as int) =~= s@);
            }
            crate::text::subvec(s, 0, s.len())
        },
    }
}

/// The text with its first `d`/`D` replaced by `e`.
fn replace_marker_chars(s: &[char]) -> (r: Vec<char>)
    ensures
        r@ == spec_replace_marker(s@),
{
    let mut i: usize = 0;
    while i < s.len() && s[i] != 'd' && s[i] != 'D'
        invariant
            i <= s@.len(),
            forall|j: int| 0 <= j < i ==> #[trigger] s@[j] != 'd' && s@[j] != 'D',
        decreases s@.len() - i,
    {
        i += 1;
    }
    proof {
        lemma_find_marker_pub(s@);
        if i < s@.len() {
            lemma_find_marker_at(s@, i as int);
        }
        assert(s@.subrange(0, s@.len() as int) =~= s@);
    }
    let mut r = crate::text::subvec(s, 0, s.len());
    if i < s.len() {
        r.set(i, 'e');
        proof {
            assert(r@ =~= s@.update(i as int, 'e'));
        }
    } else {
        proof {
            assert(r@ =~= s@);
        }
    }
    r
}

/// If position `k` holds the first marker, `spec_find_marker` returns `k`.
proof fn lemma_find_marker_at(s: Seq<char>, k: int)
    requires
        0 <= k < s.len(),
        s[k] == 'd' || s[k] == 'D',
        forall|j: int| 0 <= j < k ==> #[trigger] s[j] != 'd' && s[j] != 'D',
    ensures
        spec_find_marker(s) == k,
    decreases s.len(),
{
    if k > 0 {
        let t = s.skip(1);
        assert forall|j: int| 0 <= j < k - 1 implies #[trigger] t[j] != 'd' && t[j] != 'D' by {
            assert(t[j] == s[j + 1]);
        }
        lemma_find_marker_at(t, k - 1);
    }
}

/// Whether the characters equal a literal's characters.
pub fn chars_eq_str(cs: &[char], s: &str) -> (r: bool)
    ensures
        r == (cs@ == s@),
{
    let t = crate::text::str_to_chars(s);
    if cs.len() != t.len() {
        proof {
            assert(cs@.len() != s@.len());
        }
        return false;
    }
    let mut i: usize = 0;
    while i < cs.len()
        invariant
            i <= cs@.len(),
            cs@.len() == t@.len(),
            t@ == s@,
            forall|j: int| 0 <= j < i ==> #[trigger] cs@[j] == t@[j],
        decreases cs@.len() - i,
    {
        if cs[i] != t[i] {
            return false;
        }
        i += 1;
    }
    proof {
        assert(cs@ =~= s@);
    }
    true
}

/// Parse the text of a real literal into a value.
pub fn parse_real_chars(s: &[char]) -> (r: Option<RealValue>)
    ensures
        r is Some <==> spec_real_text(s@) is Some,
        r matches Some(v) ==> Some(v.deep_view()) == spec_real_text(s@) && v.wf(),
{
    if looks_like_integer_chars(s) {
        return None;
    }
    let t = crate::text::trim_chars(s);
    let replaced = replace_marker_chars(t.as_slice());
    let c = strip_kind_chars(replaced.as_slice());
    let lc = crate::text::lower_chars(c.as_slice());
    if chars_eq_str(lc.as_slice(), "+inf") || chars_eq_str(lc.as_slice(), "inf") || chars_eq_str(
        lc.as_slice(),
        "+infinity",
    ) || chars_eq_str(lc.as_slice(), "infinity") {
        return Some(RealValue::PosInf);
    }
    if chars_eq_str(lc.as_slice(), "-inf") || chars_eq_str(lc.as_slice(), "-infinity") {
        return Some(RealValue::NegInf);
    }
    if chars_eq_str(lc.as_slice(), "nan") || chars_eq_str(lc.as_slice(), "+nan") || chars_eq_str(
        lc.as_slice(),
        "-nan",
    ) {
        return Some(RealValue::NaN);
    }
    parse_decimal_chars(c.as_slice())
}

/// Parse a decimal-literal body into a value.
fn parse_decimal_chars(c: &[char]) -> (r: Option<RealValue>)
    ensures
        r is Some <==> spec_parse_decimal(c@) is Some,
        r matches Some(v) ==> Some(v.deep_view()) == spec_parse_decimal(c@) && v.wf(),
{
    proof {
        assert(c@.skip(0) =~= c@);
    }
    let ei = crate::text::find_char(c, 0, 'e');
    let eiu = crate::text::find_char(c, 0, 'E');
    let em: Option<usize> = match (ei, eiu) {
        (None, x) => x,
        (Some(a), None) => Some(a),
        (Some(a), Some(b)) => if a < b {
            Some(a)
        } else {
            Some(b)
        },
    };
    proof {
        match em {
            None => {
                assert(spec_exp_marker(c@) < 0);
            },
            Some(p) => {
                assert(spec_exp_marker(c@) == p);
            },
        }
    }
    match em {
        None => {
            let mant = crate::text::subvec(c, 0, c.len());
            proof {
                assert(mant@ =~= c@);
            }
            parse_mantissa(mant.as_slice(), 0, Ghost(0int))
        },
        Some(p) => {
            let n = c.len();
            proof {
                assert(p < n);
            }
            let mant = crate::text::subvec(c, 0, p);
            let etext = crate::text::subvec(c, p + 1, c.len());
            proof {
                assert(etext@ =~= c@.skip(p + 1));
            }
            let e_syntax = etext.len() >= 1 && (if etext[0] == '+' || etext[0] == '-' {
                etext.len() >= 2 && all_digits_from(etext.as_slice(), 1)
            } else {
                all_digits_from(etext.as_slice(), 0)
            });
            proof {
                assert(etext@.skip(1) =~= etext@.subrange(1, etext@.len() as int));
                assert(etext@.subrange(0, etext@.len() as int) =~= etext@);
            }
            if !e_syntax {
                proof {
                    assert(!crate::digits::spec_signed_digits(etext@));
                }
                return None;
            }
            let ghost true_exp = crate::digits::spec_signed_val(etext@);
            let expval: i64 = match crate::digits::chars_to_i64(etext.as_slice()) {
                Some(v) => v,
                None => {
                    // a well-formed exponent whose value leaves the machine
                    proof {
                        if etext@[0] == '-' {
                            crate::digits::lemma_digits_val_nonneg(etext@.skip(1));
                        } else if etext@[0] == '+' {
                            crate::digits::lemma_digits_val_nonneg(etext@.skip(1));
                        } else {
                            crate::digits::lemma_digits_val_nonneg(etext@);
                        }
                    }
                    if etext[0] == '-' {
                        -100000000000001i64
                    } else {
                        100000000000001i64
                    }
                },
            };
            proof {
                if expval as int != true_exp {
                    lemma_mantissa_saturates(mant@, expval as int, true_exp);
                }
            }
            parse_mantissa(mant.as_slice(), expval, Ghost(true_exp))
        },
    }
}

/// Substituting one beyond-cutoff exponent for another does not change
/// the parsed mantissa's value.
proof fn lemma_mantissa_saturates(mant: Seq<char>, v1: int, v2: int)
    requires
        (v1 > 100000000000000 && v2 > 100000000000000) || (v1 < -100000000000000 && v2
            < -100000000000000),
    ensures
        spec_parse_mantissa(mant, v1) == spec_parse_mantissa(mant, v2),
{
}

/// Parse the mantissa and combine it with the exponent value. The ghost
/// exponent is the written one; the passed value may stand in for it
/// when both lie beyond the cutoff on the same side.
#[verifier::rlimit(80)]
fn parse_mantissa(mant: &[char], expval: i64, Ghost(true_exp): Ghost<int>) -> (r: Option<
    RealValue,
>)
    requires
        expval as int == true_exp || (expval > 100000000000000 && true_exp > 100000000000000) || (
        expval < -100000000000000 && true_exp < -100000000000000),
    ensures
        r is Some <==> spec_parse_mantissa(mant@, true_exp) is Some,
        r matches Some(v) ==> Some(v.deep_view()) == spec_parse_mantissa(mant@, true_exp) && v.wf(),
{
    proof {
        if expval as int != true_exp {
            lemma_mantissa_saturates(mant@, expval as int, true_exp);
        }
    }
    if mant.len() == 0 {
        return None;
    }
    let neg = mant[0] == '-';
    let signed = neg || mant[0] == '+';
    let m2 = if signed {
        crate::text::subvec(mant, 1, mant.len())
    } else {
        crate::text::subvec(mant, 0, mant.len())
    };
    proof {
        if signed {
            assert(m2@ =~= mant@.skip(1));
        } else {
            assert(m2@ =~= mant@);
        }
        assert(m2@.skip(0) =~= m2@);
    }
    let (ip, fp) = match crate::text::find_char(m2.as_slice(), 0, '.') {
        Some(d) => {
            let n = m2.len();
            proof {
                assert(d < n);
            }
            (crate::text::subvec(m2.as_slice(), 0, d), crate::text::subvec(
                m2.as_slice(),
                d + 1,
                m2.len(),
            ))
        },
        None => (crate::text::subvec(m2.as_slice(), 0, m2.len()), Vec::<char>::new()),
    };
    proof {
        let dot = crate::text::spec_find(m2@, '.');
        if dot < 0 {
            assert(ip@ =~= m2@);
            assert(fp@ =~= Seq::<char>::empty());
        } else {
            assert(fp@ =~= m2@.skip(dot + 1));
        }
        assert(ip@.subrange(0, ip@.len() as int) =~= ip@);
        assert(fp@.subrange(0, fp@.len() as int) =~= fp@);
    }
    if !(all_digits_from(ip.as_slice(), 0) && all_digits_from(fp.as_slice(), 0)) {
        return None;
    }
    if ip.len() == 0 && fp.len() == 0 {
        return None;
    }
    // digit values of the joined mantissa text
    let mut ds: Vec<u8> = Vec::new();
    let mut i: usize = 0;
    while i < ip.len()
        invariant
            i <= ip@.len(),
            crate::digits::spec_all_digits(ip@),
            ds@ =~= ip@.subrange(0, i as int).map_values(
                |ch: char| crate::digits::spec_digit_val(ch) as u8,
            ),
            forall|j: int| 0 <= j < ds@.len() ==> #[trigger] ds@[j] < 10,
        decreases ip@.len() - i,
    {
        let d = match crate::digits::digit_val(ip[i]) {
            Some(d) => d,
            None => {
                proof {
                    assert(false);
                }
                0
            },
        };
        ds.push(d as u8);
        i += 1;
        proof {
            assert(ds@ =~= ip@.subrange(0, i as int).map_values(
                |ch: char| crate::digits::spec_digit_val(ch) as u8,
            ));
        }
    }
    let mut i: usize = 0;
    while i < fp.len()
        invariant
            i <= fp@.len(),
            crate::digits::spec_all_digits(fp@),
            crate::digits::spec_all_digits(ip@),
            ds@ =~= (ip@ + fp@.subrange(0, i as int)).map_values(
                |ch: char| crate::digits::spec_digit_val(ch) as u8,
            ),
            forall|j: int| 0 <= j < ds@.len() ==> #[trigger] ds@[j] < 10,
        decreases fp@.len() - i,
    {
        let d = match crate::digits::digit_val(fp[i]) {
            Some(d) => d,
            None => {
                proof {
                    assert(false);
                }
                0
            },
        };
        ds.push(d as u8);
        i += 1;
        proof {
            assert(ds@ =~= (ip@ + fp@.subrange(0, i as int)).map_values(
                |ch: char| crate::digits::spec_digit_val(ch) as u8,
            ));
        }
    }
    proof {
        assert(ip@ + fp@.subrange(0, fp@.len() as int) =~= ip@ + fp@);
        assert(ds@ =~= (ip@ + fp@).map_values(|ch: char| crate::digits::spec_digit_val(ch) as u8));
    }
    // a zero mantissa is zero whatever the exponent says
    let all_zero = digits_all_zero(&ds);
    if all_zero {
        proof {
            lemma_all_zero_strips(ds@);
        }
        return Some(RealValue::zero());
    }
    proof {
        lemma_nonzero_keeps(ds@);
    }
    if expval > 100000000000000 {
        return Some(if neg {
            RealValue::NegInf
        } else {
            RealValue::PosInf
        });
    }
    if expval < -100000000000000 {
        return Some(RealValue::zero());
    }
    let fraclen = fp.len();
    let exp10_wide: i128 = expval as i128 - fraclen as i128;
    if exp10_wide < i64::MIN as i128 {
        return Some(RealValue::zero());
    }
    Some(make_real(neg, ds, exp10_wide as i64))
}

/// An all-zero digit run strips to nothing.
proof fn lemma_all_zero_strips(ds: Seq<u8>)
    requires
        forall|j: int| 0 <= j < ds.len() ==> #[trigger] ds[j] == 0,
    ensures
        spec_strip_leading(ds).len() == 0,
    decreases ds.len(),
{
    if ds.len() > 0 {
        let t = ds.skip(1);
        assert forall|j: int| 0 <= j < t.len() implies #[trigger] t[j] == 0 by {
            assert(t[j] == ds[j + 1]);
        }
        lemma_all_zero_strips(t);
    }
}

/// A digit run with a nonzero digit does not strip to nothing.
proof fn lemma_nonzero_keeps(ds: Seq<u8>)
    requires
        exists|j: int| 0 <= j < ds.len() && #[trigger] ds[j] != 0,
    ensures
        spec_strip_leading(ds).len() > 0,
    decreases ds.len(),
{
    if ds.len() > 0 && ds[0] == 0 {
        let t = ds.skip(1);
        let j = choose|j: int| 0 <= j < ds.len() && #[trigger] ds[j] != 0;
        assert(t[j - 1] == ds[j]);
        lemma_nonzero_keeps(t);
    }
}

/// Whether every digit of the run is zero.
fn digits_all_zero(ds: &Vec<u8>) -> (r: bool)
    ensures
        r == (forall|j: int| 0 <= j < ds@.len() ==> #[trigger] ds@[j] == 0),
{
    let mut i: usize = 0;
    while i < ds.len()
        invariant
            i <= ds@.len(),
            forall|j: int| 0 <= j < i ==> #[trigger] ds@[j] == 0,
        decreases ds@.len() - i,
    {
        if ds[i] != 0 {
            return false;
        }
        i += 1;
    }
    true
}

/// A run of `n` zero characters.
pub open spec fn spec_zeros(n: int) -> Seq<char>
    decreases n,
{
    if n <= 0 {
        Seq::empty()
    } else {
        spec_zeros(n - 1).push('0')
    }
}

/// A run of `n` zero digits.
pub open spec fn spec_zero_digits(n: int) -> Seq<u8>
    decreases n,
{
    if n <= 0 {
        Seq::empty()
    } else {
        spec_zero_digits(n - 1).push(0u8)
    }
}

/// The characters of a digit run.
pub open spec fn spec_digit_chars(ds: Seq<u8>) -> Seq<char> {
    ds.map_values(|d: u8| spec_digit_char(d as int))
}

/// Default text of a finite value: positional whenever both ends of the
/// number stay within a few hundred places of the point, with ".0"
/// appended to whole numbers; scientific notation otherwise.
pub open spec fn spec_format_finite(neg: bool, ds: Seq<u8>, e: int) -> Seq<char> {
    let sign: Seq<char> = if neg {
        seq!['-']
    } else {
        Seq::empty()
    };
    if ds.len() == 0 {
        "0.0"@
    } else if -330 <= e && e + ds.len() <= 330 {
        if e >= 0 {
            sign + spec_digit_chars(ds) + spec_zeros(e) + ".0"@
        } else if ds.len() + e > 0 {
            sign + spec_digit_chars(ds.subrange(0, ds.len() + e)) + "."@ + spec_digit_chars(
                ds.skip(ds.len() + e),
            )
        } else {
            sign + "0."@ + spec_zeros(-(e + ds.len())) + spec_digit_chars(ds)
        }
    } else {
        sign + spec_digit_chars(ds.subrange(0, 1)) + (if ds.len() > 1 {
            "."@ + spec_digit_chars(ds.skip(1))
        } else {
            Seq::empty()
        }) + "e"@ + spec_int_string(e + ds.len() - 1)
    }
}

/// Default text of a real value.
pub open spec fn spec_format_real(m: RealModel) -> Seq<char> {
    match m {
        RealModel::Finite { neg, digits, exp } => spec_format_finite(neg, digits, exp),
        RealModel::PosInf => "+inf"@,
        RealModel::NegInf => "-inf"@,
        RealModel::NaN => "nan"@,
    }
}

/// Append `n` zero characters.
fn push_zeros(r: &mut Vec<char>, n: usize)
    ensures
        final(r)@ == old(r)@ + spec_zeros(n as int),
{
    let mut i: usize = 0;
    while i < n
        invariant
            i <= n,
            r@ == old(r)@ + spec_zeros(i as int),
        decreases n - i,
    {
        r.push('0');
        i += 1;
    }
}

/// Append the characters of a digit range.
fn push_digits(r: &mut Vec<char>, ds: &[u8], from: usize, to: usize)
    requires
        from <= to <= ds@.len(),
        forall|i: int| 0 <= i < ds@.len() ==> #[trigger] ds@[i] < 10,
    ensures
        final(r)@ == old(r)@ + spec_digit_chars(ds@.subrange(from as int, to as int)),
{
    let mut i: usize = from;
    while i < to
        invariant
            from <= i <= to <= ds@.len(),
            forall|k: int| 0 <= k < ds@.len() ==> #[trigger] ds@[k] < 10,
            r@ == old(r)@ + spec_digit_chars(ds@.subrange(from as int, i as int)),
        decreases to - i,
    {
        r.push(crate::digits::digit_char(ds[i] as u64));
        i += 1;
        proof {
            assert(r@ =~= old(r)@ + spec_digit_chars(ds@.subrange(from as int, i as int)));
        }
    }
}

impl RealValue {
    /// Default text of this value.
    pub fn to_chars(&self) -> (r: Vec<char>)
        requires
            self.wf(),
        ensures
            r@ == spec_format_real(self.deep_view()),
    {
        match self {
            RealValue::PosInf => crate::text::str_to_chars("+inf"),
            RealValue::NegInf => crate::text::str_to_chars("-inf"),
            RealValue::NaN => crate::text::str_to_chars("nan"),
            RealValue::Finite { neg, digits, exp } => {
                proof {
                    reveal_strlit(".0");
                    reveal_strlit(".");
                    reveal_strlit("0.");
                    reveal_strlit("e");
                }
                let mut r: Vec<char> = Vec::new();
                let len = digits.len();
                let e = *exp;
                if len == 0 {
                    let z = crate::text::str_to_chars("0.0");
                    proof {
                        assert(z@ =~= spec_format_real(self.deep_view()));
                    }
                    return z;
                }
                let positional = -330 <= e && e as i128 + len as i128 <= 330;
                if *neg {
                    r.push('-');
                }
                if positional {
                    if e >= 0 {
                        push_digits(&mut r, digits.as_slice(), 0, len);
                        push_zeros(&mut r, e as usize);
                        r.push('.');
                        r.push('0');
                        proof {
                            assert(digits@.subrange(0, len as int) =~= digits@);
                            assert(r@ =~= spec_format_real(self.deep_view()));
                        }
                    } else if len as i128 + e as i128 > 0 {
                        let k = (len as i128 + e as i128) as usize;
                        push_digits(&mut r, digits.as_slice(), 0, k);
                        r.push('.');
                        push_digits(&mut r, digits.as_slice(), k, len);
                        proof {
                            assert(digits@.subrange(k as int, len as int) =~= digits@.skip(
                                digits@.len() + e as int,
                            ));
                            assert(r@ =~= spec_format_real(self.deep_view()));
                        }
                    } else {
                        r.push('0');
                        r.push('.');
                        let z = (-(e as i128 + len as i128)) as usize;
                        push_zeros(&mut r, z);
                        push_digits(&mut r, digits.as_slice(), 0, len);
                        proof {
                            assert(digits@.subrange(0, len as int) =~= digits@);
                            assert(r@ =~= spec_format_real(self.deep_view()));
                        }
                    }
                } else {
                    push_digits(&mut r, digits.as_slice(), 0, 1);
                    if len > 1 {
                        r.push('.');
                        push_digits(&mut r, digits.as_slice(), 1, len);
                    }
                    r.push('e');
                    let lead: i128 = e as i128 + len as i128 - 1;
                    let ec = crate::digits::i128_to_chars(lead);
                    append_chars(&mut r, ec.as_slice());
                    proof {
                        assert(digits@.subrange(1, len as int) =~= digits@.skip(1));
                        assert(r@ =~= spec_format_real(self.deep_view()));
                    }
                }
                r
            },
        }
    }
}

/// Append all characters of a slice.
pub fn append_chars(r: &mut Vec<char>, s: &[char])
    ensures
        final(r)@ == old(r)@ + s@,
{
    let mut i: usize = 0;
    while i < s.len()
        invariant
            i <= s@.len(),
            r@ == old(r)@ + s@.subrange(0, i as int),
        decreases s@.len() - i,
    {
        r.push(s[i]);
        i += 1;
        proof {
            assert(r@ =~= old(r)@ + s@.subrange(0, i as int));
        }
    }
    proof {
        assert(old(r)@ + s@.subrange(0, s@.len() as int) =~= old(r)@ + s@);
    }
}

/// A digit run incremented by one, with decimal carry; may grow by one
/// digit.
pub open spec fn spec_inc_digits(ds: Seq<u8>) -> Seq<u8>
    decreases ds.len(),
{
    if ds.len() == 0 {
        seq![1u8]
    } else if ds.last() < 9 {
        ds.update(ds.len() - 1, (ds.last() + 1) as u8)
    } else {
        spec_inc_digits(ds.drop_last()).push(0u8)
    }
}

/// The first `cut` integer digits of `ds` scaled as needed, rounded
/// half-to-even against the dropped tail. The run is taken as having no
/// trailing zero digit, so a dropped tail beyond the first digit is
/// known to be nonzero.
pub open spec fn spec_round_digits(ds: Seq<u8>, cut: int) -> Seq<u8> {
    if cut < 0 {
        Seq::empty()
    } else if cut >= ds.len() {
        ds + spec_zero_digits(cut - ds.len())
    } else {
        let kept = ds.subrange(0, cut);
        let fd = ds[cut];
        let rest_nonzero = cut + 1 < ds.len();
        let up = fd > 5 || (fd == 5 && rest_nonzero) || (fd == 5 && !rest_nonzero && kept.len() > 0
            && kept.last() % 2 == 1);
        if up {
            spec_inc_digits(kept)
        } else {
            kept
        }
    }
}

/// Incrementing keeps digits decimal and grows by at most one place.
pub proof fn lemma_inc_digits(ds: Seq<u8>)
    requires
        forall|i: int| 0 <= i < ds.len() ==> #[trigger] ds[i] < 10,
    ensures
        forall|i: int|
            0 <= i < spec_inc_digits(ds).len() ==> #[trigger] spec_inc_digits(ds)[i] < 10,
        ds.len() <= spec_inc_digits(ds).len() <= ds.len() + 1,
        spec_inc_digits(ds).len() > ds.len() ==> spec_inc_digits(ds)[0] == 1,
    decreases ds.len(),
{
    if ds.len() > 0 && ds.last() >= 9 {
        lemma_inc_digits(ds.drop_last());
    }
}

/// Rounded digits are decimal.
pub proof fn lemma_round_digits(ds: Seq<u8>, cut: int)
    requires
        forall|i: int| 0 <= i < ds.len() ==> #[trigger] ds[i] < 10,
    ensures
        forall|i: int|
            0 <= i < spec_round_digits(ds, cut).len() ==> #[trigger] spec_round_digits(ds, cut)[i]
                < 10,
        cut >= 0 ==> cut <= spec_round_digits(ds, cut).len() <= cut + 1,
{
    if cut < 0 {
    } else if cut >= ds.len() {
        lemma_zero_digits(cut - ds.len());
    } else {
        lemma_inc_digits(ds.subrange(0, cut));
    }
}

/// Zero-digit runs are decimal and have the stated length.
pub proof fn lemma_zero_digits(n: int)
    ensures
        spec_zero_digits(n).len() == (if n <= 0 {
            0
        } else {
            n
        }),
        forall|i: int| 0 <= i < spec_zero_digits(n).len() ==> #[trigger] spec_zero_digits(n)[i]
            == 0,
    decreases n,
{
    if n > 0 {
        lemma_zero_digits(n - 1);
    }
}

/// A digit run incremented by one.
pub fn inc_digits(ds: &[u8]) -> (r: Vec<u8>)
    requires
        forall|i: int| 0 <= i < ds@.len() ==> #[trigger] ds@[i] < 10,
    ensures
        r@ == spec_inc_digits(ds@),
    decreases ds@.len(),
{
    if ds.len() == 0 {
        let mut r: Vec<u8> = Vec::new();
        r.push(1);
        proof {
            assert(r@ =~= spec_inc_digits(ds@));
        }
        r
    } else {
        let last = ds[ds.len() - 1];
        if last < 9 {
            let mut r = crate::text::subvec_u8(ds, 0, ds.len());
            r.set(ds.len() - 1, last + 1);
            proof {
                assert(r@ =~= ds@.update(ds@.len() - 1, (ds@.last() + 1) as u8));
            }
            r
        } else {
            let head = crate::text::subvec_u8(ds, 0, ds.len() - 1);
            proof {
                assert(head@ =~= ds@.drop_last());
            }
            let mut r = inc_digits(head.as_slice());
            r.push(0);
            r
        }
    }
}

/// The first `cut` integer digits, rounded half-to-even.
pub fn round_digits(ds: &[u8], cut: i128) -> (r: Vec<u8>)
    requires
        forall|i: int| 0 <= i < ds@.len() ==> #[trigger] ds@[i] < 10,
        cut <= 100000,
    ensures
        r@ == spec_round_digits(ds@, cut as int),
{
    if cut < 0 {
        let r: Vec<u8> = Vec::new();
        proof {
            assert(r@ =~= spec_round_digits(ds@, cut as int));
        }
        r
    } else if cut >= ds.len() as i128 {
        let mut r = crate::text::subvec_u8(ds, 0, ds.len());
        proof {
            assert(r@ =~= ds@);
        }
        let pad = (cut - ds.len() as i128) as usize;
        let mut i: usize = 0;
        while i < pad
            invariant
                i <= pad,
                r@ == ds@ + spec_zero_digits(i as int),
            decreases pad - i,
        {
            r.push(0);
            i += 1;
        }
        r
    } else {
        let c = cut as usize;
        let kept = crate::text::subvec_u8(ds, 0, c);
        let fd = ds[c];
        let rest_nonzero = c + 1 < ds.len();
        let up = fd > 5 || (fd == 5 && rest_nonzero) || (fd == 5 && !rest_nonzero && kept.len() > 0
            && kept[kept.len() - 1] % 2 == 1);
        if up {
            inc_digits(kept.as_slice())
        } else {
            kept
        }
    }
}

/// Whether one digit run reads lexicographically below another.
pub open spec fn spec_digits_lt(a: Seq<u8>, b: Seq<u8>) -> bool
    decreases a.len() + b.len(),
{
    if a.len() == 0 {
        b.len() > 0
    } else if b.len() == 0 {
        false
    } else if a[0] != b[0] {
        a[0] < b[0]
    } else {
        spec_digits_lt(a.skip(1), b.skip(1))
    }
}

/// Whether one normalized finite magnitude lies below another: first by
/// the position of the leading digit, then lexicographically.
pub open spec fn spec_mag_lt(da: Seq<u8>, ea: int, db: Seq<u8>, eb: int) -> bool {
    if da.len() == 0 {
        db.len() > 0
    } else if db.len() == 0 {
        false
    } else if ea + da.len() != eb + db.len() {
        ea + da.len() < eb + db.len()
    } else {
        spec_digits_lt(da, db)
    }
}

/// Whether one digit run reads below another.
pub fn digits_lt(a: &[u8], b: &[u8]) -> (r: bool)
    ensures
        r == spec_digits_lt(a@, b@),
    decreases a@.len() + b@.len(),
{
    if a.len() == 0 {
        b.len() > 0
    } else if b.len() == 0 {
        false
    } else if a[0] != b[0] {
        a[0] < b[0]
    } else {
        let ta = crate::text::subvec_u8(a, 1, a.len());
        let tb = crate::text::subvec_u8(b, 1, b.len());
        proof {
            assert(ta@ =~= a@.skip(1));
            assert(tb@ =~= b@.skip(1));
        }
        digits_lt(ta.as_slice(), tb.as_slice())
    }
}

impl RealValue {
    /// Whether this value lies strictly below another in the signed
    /// order.
    pub fn real_lt(&self, other: &RealValue) -> (r: bool)
        ensures
            r == spec_real_lt(self.deep_view(), other.deep_view()),
    {
        match (self, other) {
            (RealValue::NaN, _) => false,
            (_, RealValue::NaN) => false,
            (RealValue::NegInf, RealValue::NegInf) => false,
            (RealValue::NegInf, _) => true,
            (_, RealValue::NegInf) => false,
            (RealValue::PosInf, _) => false,
            (_, RealValue::PosInf) => true,
            (
                RealValue::Finite { neg: na, digits: da, .. },
                RealValue::Finite { neg: nb, digits: db, .. },
            ) => {
                if *na && !*nb {
                    !(da.len() == 0 && db.len() == 0)
                } else if !*na && *nb {
                    false
                } else if !*na {
                    self.mag_lt(other)
                } else {
                    other.mag_lt(self)
                }
            },
        }
    }

    /// Whether this finite value's magnitude lies strictly below
    /// another's. Special values compare as not-below.
    pub fn mag_lt(&self, other: &RealValue) -> (r: bool)
        ensures
            r == spec_real_mag_lt(self.deep_view(), other.deep_view()),
    {
        match (self, other) {
            (
                RealValue::Finite { digits: da, exp: ea, .. },
                RealValue::Finite { digits: db, exp: eb, .. },
            ) => {
                if da.len() == 0 {
                    db.len() > 0
                } else if db.len() == 0 {
                    false
                } else {
                    let pa = *ea as i128 + da.len() as i128;
                    let pb = *eb as i128 + db.len() as i128;
                    if pa != pb {
                        pa < pb
                    } else {
                        digits_lt(da.as_slice(), db.as_slice())
                    }
                }
            },
            _ => false,
        }
    }

    /// Whether this value is a finite zero.
    pub fn is_zero(&self) -> (r: bool)
        ensures
            r == (self.deep_view() matches RealModel::Finite { digits, .. } && digits.len() == 0),
    {
        match self {
            RealValue::Finite { digits, .. } => digits.len() == 0,
            _ => false,
        }
    }
}

/// Fixed-point text with `p` digits after the point, rounded
/// half-to-even; with `p` zero, the point is omitted.
pub open spec fn spec_format_fixed(neg: bool, ds: Seq<u8>, e: int, p: int) -> Seq<char> {
    let sign: Seq<char> = if neg {
        seq!['-']
    } else {
        Seq::empty()
    };
    if ds.len() + e + p > 100000 {
        // the positional rendering would not fit: fall back to scientific
        spec_format_sci(neg, ds, e, Some(p), 'e')
    } else {
    let nd = spec_round_digits(ds, ds.len() + e + p);
    if p == 0 {
        if nd.len() == 0 {
            sign + seq!['0']
        } else {
            sign + spec_digit_chars(nd)
        }
    } else {
        if nd.len() <= p {
            sign + seq!['0', '.'] + spec_zeros(p - nd.len()) + spec_digit_chars(nd)
        } else {
            sign + spec_digit_chars(nd.subrange(0, nd.len() - p)) + seq!['.'] + spec_digit_chars(
                nd.skip(nd.len() - p),
            )
        }
    }
    }
}

/// Scientific text `d.dd..<marker><exponent>`: with a precision, the
/// mantissa is rounded to that many digits after the point; without one
/// it carries all digits.
pub open spec fn spec_format_sci(
    neg: bool,
    ds: Seq<u8>,
    e: int,
    p: Option<int>,
    marker: char,
) -> Seq<char> {
    let sign: Seq<char> = if neg {
        seq!['-']
    } else {
        Seq::empty()
    };
    if ds.len() == 0 {
        let frac: Seq<char> = (match p {
            Some(p) => if p > 0 {
                seq!['.'] + spec_zeros(p)
            } else {
                Seq::empty()
            },
            None => Seq::empty(),
        });
        sign + seq!['0'] + frac + seq![marker, '0']
    } else {
        let (nd, lead) = (match p {
            None => (ds, e + ds.len() - 1),
            Some(p) => {
                let nd0 = spec_round_digits(ds, p + 1);
                if nd0.len() > p + 1 {
                    (nd0.subrange(0, p + 1), e + ds.len())
                } else {
                    (nd0, e + ds.len() - 1)
                }
            },
        });
        sign + spec_digit_chars(nd.subrange(0, 1)) + (if nd.len() > 1 {
            seq!['.'] + spec_digit_chars(nd.skip(1))
        } else {
            Seq::empty()
        }) + seq![marker] + spec_int_string(lead)
    }
}

/// Fixed-point text of a finite value.
pub fn format_fixed(neg: bool, ds: &[u8], e: i64, p: usize) -> (r: Vec<char>)
    requires
        forall|i: int| 0 <= i < ds@.len() ==> #[trigger] ds@[i] < 10,
        p <= 4096,
    ensures
        r@ == spec_format_fixed(neg, ds@, e as int, p as int),
{
    let cut: i128 = ds.len() as i128 + e as i128 + p as i128;
    if cut > 100000 {
        return format_sci(neg, ds, e, Some(p), 'e');
    }
    let mut r: Vec<char> = Vec::new();
    if neg {
        r.push('-');
    }
    let nd = round_digits(ds, cut);
    proof {
        lemma_round_digits(ds@, cut as int);
    }
    if p == 0 {
        if nd.len() == 0 {
            r.push('0');
        } else {
            push_digits(&mut r, nd.as_slice(), 0, nd.len());
            proof {
                assert(nd@.subrange(0, nd@.len() as int) =~= nd@);
            }
        }
    } else {
        if nd.len() <= p {
            r.push('0');
            r.push('.');
            push_zeros(&mut r, p - nd.len());
            push_digits(&mut r, nd.as_slice(), 0, nd.len());
            proof {
                assert(nd@.subrange(0, nd@.len() as int) =~= nd@);
            }
        } else {
            push_digits(&mut r, nd.as_slice(), 0, nd.len() - p);
            r.push('.');
            push_digits(&mut r, nd.as_slice(), nd.len() - p, nd.len());
            proof {
                assert(nd@.skip(nd@.len() - p) =~= nd@.subrange(nd@.len() - p, nd@.len() as int));
            }
        }
    }
    proof {
        assert(r@ =~= spec_format_fixed(neg, ds@, e as int, p as int));
    }
    r
}

/// Scientific text of a finite value.
pub fn format_sci(neg: bool, ds: &[u8], e: i64, p: Option<usize>, marker: char) -> (r: Vec<char>)
    requires
        forall|i: int| 0 <= i < ds@.len() ==> #[trigger] ds@[i] < 10,
        p matches Some(p0) ==> p0 <= 4096,
    ensures
        r@ == spec_format_sci(
            neg,
            ds@,
            e as int,
            match p {
                Some(p0) => Some(p0 as int),
                None => None,
            },
            marker,
        ),
{
    let mut r: Vec<char> = Vec::new();
    if neg {
        r.push('-');
    }
    if ds.len() == 0 {
        r.push('0');
        match p {
            Some(p0) => {
                if p0 > 0 {
                    r.push('.');
                    push_zeros(&mut r, p0);
                }
            },
            None => {},
        }
        r.push(marker);
        r.push('0');
        proof {
            assert(r@ =~= spec_format_sci(neg, ds@, e as int, (match p {
                Some(p0) => Some(p0 as int),
                None => None,
            }), marker));
        }
        return r;
    }
    let (nd, lead): (Vec<u8>, i128) = match p {
        None => (crate::text::subvec_u8(ds, 0, ds.len()), e as i128 + ds.len() as i128 - 1),
        Some(p0) => {
            let nd0 = round_digits(ds, p0 as i128 + 1);
            proof {
                lemma_round_digits(ds@, p0 as int + 1);
            }
            if nd0.len() > p0 + 1 {
                let cutv = crate::text::subvec_u8(nd0.as_slice(), 0, p0 + 1);
                (cutv, e as i128 + ds.len() as i128)
            } else {
                (nd0, e as i128 + ds.len() as i128 - 1)
            }
        },
    };
    proof {
        match p {
            None => {
                assert(nd@ =~= ds@);
            },
            Some(p0) => {},
        }
        lemma_round_digits(ds@, (match p {
            Some(p0) => p0 as int + 1,
            None => 0,
        }));
    }
    push_digits(&mut r, nd.as_slice(), 0, 1);
    if nd.len() > 1 {
        r.push('.');
        push_digits(&mut r, nd.as_slice(), 1, nd.len());
        proof {
            assert(nd@.skip(1) =~= nd@.subrange(1, nd@.len() as int));
        }
    }
    r.push(marker);
    let ec = crate::digits::i128_to_chars(lead);
    append_chars(&mut r, ec.as_slice());
    proof {
        assert(r@ =~= spec_format_sci(neg, ds@, e as int, (match p {
            Some(p0) => Some(p0 as int),
            None => None,
        }), marker));
    }
    r
}

/// Signed order on real values: the negative infinity lies below
/// every other value but itself, the positive infinity above, and no
/// order involves the not-a-number value.
pub open spec fn spec_real_lt(a: RealModel, b: RealModel) -> bool {
    match (a, b) {
        (RealModel::NaN, _) => false,
        (_, RealModel::NaN) => false,
        (RealModel::NegInf, RealModel::NegInf) => false,
        (RealModel::NegInf, _) => true,
        (_, RealModel::NegInf) => false,
        (RealModel::PosInf, _) => false,
        (_, RealModel::PosInf) => true,
        (
            RealModel::Finite { neg: na, digits: da, exp: ea },
            RealModel::Finite { neg: nb, digits: db, exp: eb },
        ) => {
            if na && !nb {
                !(da.len() == 0 && db.len() == 0)
            } else if !na && nb {
                false
            } else if !na {
                spec_mag_lt(da, ea, db, eb)
            } else {
                spec_mag_lt(db, eb, da, ea)
            }
        },
    }
}

/// Magnitude order on real values; special values compare as not-below.
pub open spec fn spec_real_mag_lt(a: RealModel, b: RealModel) -> bool {
    match (a, b) {
        (
            RealModel::Finite { digits: da, exp: ea, .. },
            RealModel::Finite { digits: db, exp: eb, .. },
        ) => spec_mag_lt(da, ea, db, eb),
        _ => false,
    }
}

/// The integer a digit run denotes.
pub open spec fn spec_ds_val(ds: Seq<u8>) -> int
    decreases ds,
{
    if ds.len() == 0 {
        0
    } else {
        spec_ds_val(ds.drop_last()) * 10 + ds.last()
    }
}

/// Digit runs denote non-negative values.
pub proof fn lemma_ds_val_nonneg(ds: Seq<u8>)
    ensures
        spec_ds_val(ds) >= 0,
    decreases ds,
{
    if ds.len() > 0 {
        lemma_ds_val_nonneg(ds.drop_last());
    }
}

/// The value of a digit run is at least the value of any prefix.
pub proof fn lemma_ds_val_prefix(ds: Seq<u8>, j: int)
    requires
        0 <= j <= ds.len(),
    ensures
        spec_ds_val(ds) >= spec_ds_val(ds.subrange(0, j)),
    decreases ds.len() - j,
{
    if j == ds.len() {
        assert(ds.subrange(0, j) =~= ds);
    } else {
        lemma_ds_val_prefix(ds, j + 1);
        lemma_ds_val_nonneg(ds.subrange(0, j));
        assert(ds.subrange(0, j + 1).drop_last() =~= ds.subrange(0, j));
        assert(spec_ds_val(ds.subrange(0, j + 1)) == spec_ds_val(ds.subrange(0, j)) * 10
            + ds[j]);
    }
}

/// Powers of ten.
pub open spec fn spec_pow10(e: int) -> int
    decreases e,
{
    if e <= 0 {
        1
    } else {
        10 * spec_pow10(e - 1)
    }
}

/// Powers of ten are at least one.
pub proof fn lemma_pow10_pos(e: int)
    ensures
        spec_pow10(e) >= 1,
    decreases e,
{
    if e > 0 {
        lemma_pow10_pos(e - 1);
    }
}

/// The whole number a normalized finite real denotes when its exponent
/// is not negative.
pub open spec fn spec_real_whole(neg: bool, ds: Seq<u8>, e: int) -> int {
    if neg {
        -(spec_ds_val(ds) * spec_pow10(e))
    } else {
        spec_ds_val(ds) * spec_pow10(e)
    }
}

/// The magnitude digits of a finite real, evaluated by machine. Fails
/// exactly when the value leaves `u64`.
pub fn ds_whole_u64(ds: &[u8], e: i64) -> (r: Option<u64>)
    requires
        forall|i: int| 0 <= i < ds@.len() ==> #[trigger] ds@[i] < 10,
        e >= 0,
    ensures
        r is Some <==> spec_ds_val(ds@) * spec_pow10(e as int) <= u64::MAX as int,
        r matches Some(v) ==> v as int == spec_ds_val(ds@) * spec_pow10(e as int),
{
    let mut acc: u64 = 0;
    let mut i: usize = 0;
    proof {
        lemma_pow10_pos(e as int);
        lemma_ds_val_nonneg(ds@);
    }
    while i < ds.len()
        invariant
            i <= ds@.len(),
            forall|k: int| 0 <= k < ds@.len() ==> #[trigger] ds@[k] < 10,
            e >= 0,
            acc as int == spec_ds_val(ds@.subrange(0, i as int)),
        decreases ds@.len() - i,
    {
        proof {
            lemma_ds_val_prefix(ds@, i + 1);
            assert(ds@.subrange(0, i + 1).drop_last() =~= ds@.subrange(0, i as int));
            assert(spec_ds_val(ds@.subrange(0, i + 1)) == acc as int * 10 + ds@[i as int]);
            lemma_ds_val_nonneg(ds@.subrange(0, i as int));
        }
        let acc10 = match acc.checked_mul(10) {
            Some(v) => v,
            None => {
                proof {
                    lemma_whole_overflow(ds@, e as int, i + 1);
                }
                return None;
            },
        };
        acc = match acc10.checked_add(ds[i] as u64) {
            Some(v) => v,
            None => {
                proof {
                    lemma_whole_overflow(ds@, e as int, i + 1);
                }
                return None;
            },
        };
        i += 1;
    }
    proof {
        assert(ds@.subrange(0, ds@.len() as int) =~= ds@);
    }
    let mut k: i64 = 0;
    while k < e
        invariant
            0 <= k <= e,
            forall|m: int| 0 <= m < ds@.len() ==> #[trigger] ds@[m] < 10,
            acc as int == spec_ds_val(ds@) * spec_pow10(k as int),
        decreases e - k,
    {
        proof {
            lemma_pow10_step(ds@, k as int);
            lemma_pow10_mono(ds@, k as int + 1, e as int);
        }
        acc = match acc.checked_mul(10) {
            Some(v) => v,
            None => {
                return None;
            },
        };
        k += 1;
    }
    Some(acc)
}

/// One more power of ten scales the product by ten.
proof fn lemma_pow10_step(ds: Seq<u8>, k: int)
    requires
        k >= 0,
    ensures
        spec_ds_val(ds) * spec_pow10(k + 1) == (spec_ds_val(ds) * spec_pow10(k)) * 10,
{
    assert(spec_pow10(k + 1) == 10 * spec_pow10(k));
    assert(spec_ds_val(ds) * (10 * spec_pow10(k)) == (spec_ds_val(ds) * spec_pow10(k)) * 10)
        by (nonlinear_arith);
}

/// The product grows with the power of ten.
proof fn lemma_pow10_mono(ds: Seq<u8>, a: int, b: int)
    requires
        0 <= a <= b,
    ensures
        spec_ds_val(ds) * spec_pow10(a) <= spec_ds_val(ds) * spec_pow10(b),
    decreases b - a,
{
    lemma_ds_val_nonneg(ds);
    if a < b {
        lemma_pow10_mono(ds, a, b - 1);
        lemma_pow10_pos(b - 1);
        assert(spec_ds_val(ds) * spec_pow10(b) == (spec_ds_val(ds) * spec_pow10(b - 1)) * 10) by {
            lemma_pow10_step(ds, b - 1);
        }
        assert((spec_ds_val(ds) * spec_pow10(b - 1)) * 10 >= spec_ds_val(ds) * spec_pow10(b - 1))
            by (nonlinear_arith)
            requires
                spec_ds_val(ds) * spec_pow10(b - 1) >= 0,
        ;
        assert(spec_ds_val(ds) * spec_pow10(b - 1) >= 0) by (nonlinear_arith)
            requires
                spec_ds_val(ds) >= 0,
                spec_pow10(b - 1) >= 1,
        ;
    }
}

/// A digit prefix that already leaves the machine dooms the whole run.
proof fn lemma_whole_overflow(ds: Seq<u8>, e: int, j: int)
    requires
        0 <= j <= ds.len(),
        e >= 0,
        spec_ds_val(ds.subrange(0, j)) > u64::MAX as int,
    ensures
        spec_ds_val(ds) * spec_pow10(e) > u64::MAX as int,
{
    lemma_ds_val_prefix(ds, j);
    lemma_pow10_pos(e);
    assert(spec_ds_val(ds) * spec_pow10(e) >= spec_ds_val(ds)) by (nonlinear_arith)
        requires
            spec_ds_val(ds) >= 0,
            spec_pow10(e) >= 1,
    ;
    lemma_ds_val_nonneg(ds);
}

/// The magnitude of a whole real is non-negative.
pub proof fn lemma_ds_whole_nonneg(ds: Seq<u8>, e: int)
    ensures
        spec_ds_val(ds) * spec_pow10(e) >= 0,
{
    lemma_ds_val_nonneg(ds);
    lemma_pow10_pos(e);
    assert(spec_ds_val(ds) * spec_pow10(e) >= 0) by (nonlinear_arith)
        requires
            spec_ds_val(ds) >= 0,
            spec_pow10(e) >= 1,
    ;
}

/// Folding trailing zeros into the exponent keeps the denoted number.
pub proof fn lemma_strip_value(ds: Seq<u8>, e: int)
    requires
        e >= 0,
    ensures
        spec_strip_trailing(ds, e).1 >= e,
        spec_ds_val(spec_strip_trailing(ds, e).0) * spec_pow10(spec_strip_trailing(ds, e).1)
            == spec_ds_val(ds) * spec_pow10(e),
    decreases ds.len(),
{
    if ds.len() > 0 && ds.last() == 0 {
        lemma_strip_value(ds.drop_last(), e + 1);
        assert(spec_ds_val(ds) == spec_ds_val(ds.drop_last()) * 10);
        assert(spec_pow10(e + 1) == 10 * spec_pow10(e));
        assert((spec_ds_val(ds.drop_last()) * 10) * spec_pow10(e) == spec_ds_val(ds.drop_last())
            * (10 * spec_pow10(e))) by (nonlinear_arith);
    }
}

/// The decimal text of a number below the k-th power of ten has at
/// most k digits.
pub proof fn lemma_nat_string_len(n: int, k: int)
    requires
        k >= 1,
        0 <= n < spec_pow10(k),
    ensures
        crate::digits::spec_nat_string(n).len() <= k,
    decreases k,
{
    if n >= 10 {
        assert(k >= 2) by {
            if k == 1 {
                assert(spec_pow10(0) == 1);
                assert(spec_pow10(1) == 10 * spec_pow10(0));
            }
        }
        assert(n / 10 < spec_pow10(k - 1)) by (nonlinear_arith)
            requires
                n < spec_pow10(k),
                spec_pow10(k) == 10 * spec_pow10(k - 1),
                n >= 10,
        ;
        lemma_nat_string_len(n / 10, k - 1);
    }
}

/// A positive number's decimal text does not start with a zero digit.
pub proof fn lemma_nat_string_head(n: int)
    requires
        n >= 1,
    ensures
        crate::digits::spec_digit_val(crate::digits::spec_nat_string(n)[0]) >= 1,
        crate::digits::spec_nat_string(n).len() >= 1,
    decreases n,
{
    if n >= 10 {
        lemma_nat_string_head(n / 10);
        assert(crate::digits::spec_nat_string(n)[0] == crate::digits::spec_nat_string(n / 10)[0]);
    }
}

} // verus!
