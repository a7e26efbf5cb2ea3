//! Decimal text for integers: formatting and parsing, each pinned to a
//! spec-level definition, and the round-trip lemma connecting the two.

use vstd::prelude::*;

verus! {

use crate::text::spec_is_digit;

/// The digit character for a value in `0..=9`.
pub open spec fn spec_digit_char(d: int) -> char {
    (('0' as u32) + d as u32) as char
}

/// The numeric value of a digit character.
pub open spec fn spec_digit_val(c: char) -> int {
    (c as u32) - ('0' as u32)
}

/// Decimal text of a non-negative integer, without sign or leading zeros
/// (except that zero is written "0").
pub open spec fn spec_nat_string(n: int) -> Seq<char>
    decreases n,
{
    if n < 10 {
        seq![spec_digit_char(if n < 0 { 0 } else { n })]
    } else {
        spec_nat_string(n / 10).push(spec_digit_char(n % 10))
    }
}

/// Decimal text of an integer, with a leading '-' when negative.
pub open spec fn spec_int_string(n: int) -> Seq<char> {
    if n < 0 {
        seq!['-'] + spec_nat_string(-n)
    } else {
        spec_nat_string(n)
    }
}

/// The integer denoted by a sequence of digit characters.
pub open spec fn spec_digits_val(s: Seq<char>) -> int
    decreases s,
{
    if s.len() == 0 {
        0
    } else {
        spec_digits_val(s.drop_last()) * 10 + spec_digit_val(s.last())
    }
}

/// Every character of the sequence is a decimal digit.
pub open spec fn spec_all_digits(s: Seq<char>) -> bool {
    forall|i: int| 0 <= i < s.len() ==> spec_is_digit(#[trigger] s[i])
}

/// The digit text of a non-negative integer denotes that integer, consists
/// of digits, and is non-empty.
pub proof fn lemma_nat_string_val(n: int)
    requires
        n >= 0,
    ensures
        spec_digits_val(spec_nat_string(n)) == n,
        spec_all_digits(spec_nat_string(n)),
        spec_nat_string(n).len() >= 1,
    decreases n,
{
    if n < 10 {
        let s = seq![spec_digit_char(n)];
        assert(spec_nat_string(n) =~= s);
        assert(s.drop_last() =~= Seq::<char>::empty());
        assert(spec_digits_val(Seq::<char>::empty()) == 0);
        assert(spec_digits_val(s) == spec_digits_val(s.drop_last()) * 10 + spec_digit_val(s.last()));
        assert(spec_digit_val(spec_digit_char(n)) == n);
    } else {
        lemma_nat_string_val(n / 10);
        let s = spec_nat_string(n);
        assert(s.drop_last() =~= spec_nat_string(n / 10));
        assert(s.last() == spec_digit_char(n % 10));
        assert(spec_digit_val(spec_digit_char(n % 10)) == n % 10);
    }
}

/// A digit value below ten as an executable character.
pub fn digit_char(d: u64) -> (r: char)
    requires
        d < 10,
    ensures
        r == spec_digit_char(d as int),
{
    (('0' as u32) + d as u32) as u8 as char
}

/// Decimal text of an unsigned machine integer.
pub fn u64_to_chars(n: u64) -> (r: Vec<char>)
    ensures
        r@ == spec_nat_string(n as int),
{
    let mut rev: Vec<char> = Vec::new();
    let mut cur: u64 = n;
    while cur >= 10
        invariant
            spec_nat_string(n as int) =~= spec_nat_string(cur as int) + rev@.reverse(),
        decreases cur,
    {
        let d = cur % 10;
        rev.push(digit_char(d));
        proof {
            assert(rev@.reverse() =~= seq![spec_digit_char(d as int)] + rev@.drop_last().reverse());
            assert(spec_nat_string(cur as int) =~= spec_nat_string(cur as int / 10).push(
                spec_digit_char(cur as int % 10),
            ));
            assert(spec_nat_string(cur as int) + rev@.drop_last().reverse() =~= spec_nat_string(
                cur as int / 10,
            ) + rev@.reverse());
        }
        cur = cur / 10;
    }
    rev.push(digit_char(cur));
    proof {
        assert(rev@.reverse() =~= seq![spec_digit_char(cur as int)] + rev@.drop_last().reverse());
        assert(spec_nat_string(cur as int) =~= seq![spec_digit_char(cur as int)]);
        assert(spec_nat_string(n as int) =~= rev@.reverse());
    }
    let mut r: Vec<char> = Vec::new();
    let mut i: usize = rev.len();
    while i > 0
        invariant
            i <= rev@.len(),
            r@ =~= rev@.reverse().subrange(0, (rev@.len() - i) as int),
        decreases i,
    {
        i = i - 1;
        r.push(rev[i]);
        proof {
            assert(rev@.reverse()[rev@.len() - 1 - i] == rev@[i as int]);
            assert(r@ =~= rev@.reverse().subrange(0, (rev@.len() - i) as int));
        }
    }
    proof {
        assert(r@ =~= rev@.reverse());
    }
    r
}

/// Decimal text of a signed machine integer.
pub fn i64_to_chars(n: i64) -> (r: Vec<char>)
    ensures
        r@ == spec_int_string(n as int),
{
    if n >= 0 {
        u64_to_chars(n as u64)
    } else {
        let mag: u64 = (-(n as i128)) as u64;
        let digits = u64_to_chars(mag);
        let mut r: Vec<char> = Vec::new();
        r.push('-');
        let mut i: usize = 0;
        while i < digits.len()
            invariant
                i <= digits@.len(),
                r@ =~= seq!['-'] + digits@.subrange(0, i as int),
            decreases digits@.len() - i,
        {
            r.push(digits[i]);
            i += 1;
            proof {
                assert(r@ =~= seq!['-'] + digits@.subrange(0, i as int));
            }
        }
        proof {
            assert(r@ =~= seq!['-'] + digits@);
        }
        r
    }
}

/// Decimal text of a `usize`.
pub fn usize_to_chars(n: usize) -> (r: Vec<char>)
    ensures
        r@ == spec_nat_string(n as int),
{
    u64_to_chars(n as u64)
}

/// Exact digit of a character, or `None` when it is not a digit.
pub fn digit_val(c: char) -> (r: Option<u64>)
    ensures
        r is Some <==> spec_is_digit(c),
        r is Some ==> r->0 == spec_digit_val(c) && r->0 < 10,
{
    if '0' <= c && c <= '9' {
        Some(((c as u32) - ('0' as u32)) as u64)
    } else {
        None
    }
}

/// Parse an unsigned decimal from a digit run. Succeeds exactly when the
/// run is non-empty, all digits, and its value fits in `u64`.
pub fn chars_to_u64(s: &[char]) -> (r: Option<u64>)
    ensures
        r is Some <==> (s@.len() >= 1 && spec_all_digits(s@) && spec_digits_val(s@)
            <= u64::MAX as int),
        r is Some ==> r->0 == spec_digits_val(s@),
{
    if s.len() == 0 {
        return None;
    }
    let mut acc: u64 = 0;
    let mut i: usize = 0;
    while i < s.len()
        invariant
            i <= s@.len(),
            spec_all_digits(s@.subrange(0, i as int)),
            acc == spec_digits_val(s@.subrange(0, i as int)),
        decreases s@.len() - i,
    {
        let d = match digit_val(s[i]) {
            Some(d) => d,
            None => {
                proof {
                    lemma_digits_val_prefix_bound(s@, i as int);
                }
                return None;
            },
        };
        proof {
            if spec_all_digits(s@) {
                lemma_digits_val_prefix_monotone(s@, i + 1);
                assert(s@.subrange(0, i + 1).drop_last() =~= s@.subrange(0, i as int));
                assert(spec_digits_val(s@.subrange(0, i + 1)) == acc * 10 + spec_digit_val(
                    s@[i as int],
                ));
            }
        }
        let acc10 = match acc.checked_mul(10) {
            Some(v) => v,
            None => {
                return None;
            },
        };
        acc = match acc10.checked_add(d) {
            Some(v) => v,
            None => {
                return None;
            },
        };
        i += 1;
        proof {
            assert(s@.subrange(0, i as int).drop_last() =~= s@.subrange(0, i - 1));
        }
    }
    proof {
        assert(s@.subrange(0, s@.len() as int) =~= s@);
    }
    Some(acc)
}

/// If some character of `s` is not a digit, `s` is not all digits.
proof fn lemma_digits_val_prefix_bound(s: Seq<char>, i: int)
    requires
        0 <= i < s.len(),
        !spec_is_digit(s[i]),
    ensures
        !spec_all_digits(s),
{
}

/// The value of a digit run is at least the value of any of its prefixes.
pub proof fn lemma_digits_val_prefix_monotone(s: Seq<char>, j: int)
    requires
        0 <= j <= s.len(),
        spec_all_digits(s),
    ensures
        spec_digits_val(s) >= spec_digits_val(s.subrange(0, j)),
    decreases s.len() - j,
{
    if j == s.len() {
        assert(s.subrange(0, j) =~= s);
    } else {
        lemma_digits_val_prefix_monotone(s, j + 1);
        lemma_digits_val_nonneg(s.subrange(0, j));
        assert(s.subrange(0, j + 1).drop_last() =~= s.subrange(0, j));
        assert(spec_digits_val(s.subrange(0, j + 1)) == spec_digits_val(s.subrange(0, j)) * 10
            + spec_digit_val(s[j]));
    }
}

/// Digit runs denote non-negative values.
pub proof fn lemma_digits_val_nonneg(s: Seq<char>)
    requires
        spec_all_digits(s),
    ensures
        spec_digits_val(s) >= 0,
    decreases s,
{
    if s.len() > 0 {
        assert(spec_all_digits(s.drop_last()));
        lemma_digits_val_nonneg(s.drop_last());
    }
}

/// Integer literal syntax: an optional sign followed by at least one digit.
pub open spec fn spec_signed_digits(s: Seq<char>) -> bool {
    if s.len() == 0 {
        false
    } else if s[0] == '+' || s[0] == '-' {
        s.len() >= 2 && spec_all_digits(s.skip(1))
    } else {
        spec_all_digits(s)
    }
}

/// The integer denoted by an optionally signed digit run.
pub open spec fn spec_signed_val(s: Seq<char>) -> int {
    if s.len() > 0 && s[0] == '-' {
        -spec_digits_val(s.skip(1))
    } else if s.len() > 0 && s[0] == '+' {
        spec_digits_val(s.skip(1))
    } else {
        spec_digits_val(s)
    }
}

/// Parse a signed decimal integer. Succeeds exactly on integer syntax
/// whose value fits in `i64`.
pub fn chars_to_i64(s: &[char]) -> (r: Option<i64>)
    ensures
        r is Some <==> (spec_signed_digits(s@) && i64::MIN <= spec_signed_val(s@)
            && spec_signed_val(s@) <= i64::MAX),
        r is Some ==> r->0 == spec_signed_val(s@),
{
    if s.len() == 0 {
        return None;
    }
    let neg = s[0] == '-';
    let signed = neg || s[0] == '+';
    let digits = if signed {
        crate::text::subvec(s, 1, s.len())
    } else {
        crate::text::subvec(s, 0, s.len())
    };
    proof {
        if signed {
            assert(digits@ =~= s@.skip(1));
        } else {
            assert(digits@ =~= s@);
        }
        lemma_digits_val_nonneg_pub(digits@);
    }
    let mag = match chars_to_u64(digits.as_slice()) {
        Some(m) => m,
        None => {
            proof {
                if spec_signed_digits(s@) {
                    lemma_digits_val_nonneg(digits@);
                }
            }
            return None;
        },
    };
    if neg {
        if mag <= 9223372036854775808u64 {
            Some((-(mag as i128)) as i64)
        } else {
            None
        }
    } else {
        if mag <= i64::MAX as u64 {
            Some(mag as i64)
        } else {
            None
        }
    }
}

/// Digit runs denote non-negative values (unconditional helper).
pub proof fn lemma_digits_val_nonneg_pub(s: Seq<char>)
    ensures
        spec_all_digits(s) ==> spec_digits_val(s) >= 0,
{
    if spec_all_digits(s) {
        lemma_digits_val_nonneg(s);
    }
}

/// Parse a signed decimal integer that must fit in `i32`.
pub fn chars_to_i32(s: &[char]) -> (r: Option<i32>)
    ensures
        r is Some <==> (spec_signed_digits(s@) && i32::MIN <= spec_signed_val(s@)
            && spec_signed_val(s@) <= i32::MAX),
        r is Some ==> r->0 == spec_signed_val(s@),
{
    match chars_to_i64(s) {
        Some(v) => {
            if i32::MIN as i64 <= v && v <= i32::MAX as i64 {
                Some(v as i32)
            } else {
                None
            }
        },
        None => None,
    }
}

/// Decimal text of an unsigned 128-bit integer.
pub fn u128_to_chars(n: u128) -> (r: Vec<char>)
    ensures
        r@ == spec_nat_string(n as int),
{
    let mut rev: Vec<char> = Vec::new();
    let mut cur: u128 = n;
    while cur >= 10
        invariant
            spec_nat_string(n as int) =~= spec_nat_string(cur as int) + rev@.reverse(),
        decreases cur,
    {
        let d = (cur % 10) as u64;
        rev.push(digit_char(d));
        proof {
            assert(rev@.reverse() =~= seq![spec_digit_char(d as int)] + rev@.drop_last().reverse());
            assert(spec_nat_string(cur as int) =~= spec_nat_string(cur as int / 10).push(
                spec_digit_char(cur as int % 10),
            ));
            assert(spec_nat_string(cur as int) + rev@.drop_last().reverse() =~= spec_nat_string(
                cur as int / 10,
            ) + rev@.reverse());
        }
        cur = cur / 10;
    }
    rev.push(digit_char(cur as u64));
    proof {
        assert(rev@.reverse() =~= seq![spec_digit_char(cur as int)] + rev@.drop_last().reverse());
        assert(spec_nat_string(cur as int) =~= seq![spec_digit_char(cur as int)]);
        assert(spec_nat_string(n as int) =~= rev@.reverse());
    }
    let mut r: Vec<char> = Vec::new();
    let mut i: usize = rev.len();
    while i > 0
        invariant
            i <= rev@.len(),
            r@ =~= rev@.reverse().subrange(0, (rev@.len() - i) as int),
        decreases i,
    {
        i = i - 1;
        r.push(rev[i]);
        proof {
            assert(rev@.reverse()[rev@.len() - 1 - i] == rev@[i as int]);
            assert(r@ =~= rev@.reverse().subrange(0, (rev@.len() - i) as int));
        }
    }
    proof {
        assert(r@ =~= rev@.reverse());
    }
    r
}

/// Decimal text of a signed 128-bit integer.
pub fn i128_to_chars(n: i128) -> (r: Vec<char>)
    requires
        n > i128::MIN,
    ensures
        r@ == spec_int_string(n as int),
{
    if n >= 0 {
        u128_to_chars(n as u128)
    } else {
        let mag: u128 = (-n) as u128;
        let digits = u128_to_chars(mag);
        let mut r: Vec<char> = Vec::new();
        r.push('-');
        let mut i: usize = 0;
        while i < digits.len()
            invariant
                i <= digits@.len(),
                r@ =~= seq!['-'] + digits@.subrange(0, i as int),
            decreases digits@.len() - i,
        {
            r.push(digits[i]);
            i += 1;
            proof {
                assert(r@ =~= seq!['-'] + digits@.subrange(0, i as int));
            }
        }
        proof {
            assert(r@ =~= seq!['-'] + digits@);
        }
        r
    }
}

} // verus!
