//! Formatting options and output text for Fortran values, specified
//! exactly over the value model.

use vstd::prelude::*;

verus! {

use crate::fortran_types::value::FortranValue;
use crate::fortran_types::value::ValueModel;
use crate::fortran_types::value::spec_model_wf;
use crate::fortran_types::value::spec_models_wf;
use crate::fortran_types::value::lemma_view_seq_index;
use crate::fortran_types::realnum::RealValue;
use crate::fortran_types::realnum::RealModel;
use crate::fortran_types::realnum::spec_real_mag_lt;
use crate::fortran_types::realnum::spec_format_real;
use crate::fortran_types::realnum::spec_format_fixed;
use crate::fortran_types::realnum::spec_format_sci;
use crate::fortran_types::realnum::format_fixed;
use crate::fortran_types::realnum::format_sci;
use crate::fortran_types::realnum::append_chars;
use crate::text::chars_to_string;

/// How complex numbers are written.
#[derive(Debug, Clone, Copy, PartialEq, Eq, Structural)]
pub enum ComplexFormat {
    /// Standard form: (real, imag)
    Parentheses,
    /// Mathematical form: real + imag*i
    Mathematical,
}

/// How character strings are quoted.
#[derive(Debug, Clone, Copy, PartialEq, Eq, Structural)]
pub enum QuoteStyle {
    /// Single quotes (the default)
    Single,
    /// Double quotes
    Double,
    /// Keep the default when no original style is known
    Preserve,
}

/// Formatting options for value output.
#[derive(Debug, Clone)]
pub struct FormatOptions {
    /// Upper-case logical literals
    pub uppercase: bool,
    /// Fixed count of digits after the point for real values
    pub float_precision: Option<usize>,
    /// Magnitudes outside `[min, max]` switch to exponential form
    pub exponential_threshold: Option<(RealValue, RealValue)>,
    /// How complex numbers are written
    pub complex_format: ComplexFormat,
    /// How character strings are quoted
    pub string_quote_style: QuoteStyle,
    /// Write the exponent marker as `d` instead of `e`
    pub use_fortran_double: bool,
}

impl Default for FormatOptions {
    /// Plain lower-case output with no rounding and no thresholds.
    fn default() -> (r: FormatOptions)
        ensures
            !r.uppercase && r.float_precision is None && r.exponential_threshold is None
                && r.complex_format == ComplexFormat::Parentheses && r.string_quote_style
                == QuoteStyle::Single && !r.use_fortran_double,
    {
        FormatOptions {
            uppercase: false,
            float_precision: None,
            exponential_threshold: None,
            complex_format: ComplexFormat::Parentheses,
            string_quote_style: QuoteStyle::Single,
            use_fortran_double: false,
        }
    }
}

/// Ghost image of the formatting options.
pub struct FormatModel {
    pub uppercase: bool,
    pub precision: Option<int>,
    pub threshold: Option<(RealModel, RealModel)>,
    pub complex_math: bool,
    pub quote: char,
    pub marker: char,
}

/// The ghost image of options; precision is capped so that rendering
/// stays within the machine.
pub open spec fn spec_opts(o: FormatOptions) -> FormatModel {
    FormatModel {
        uppercase: o.uppercase,
        precision: match o.float_precision {
            Some(p) => Some(if p > 4096 { 4096int } else { p as int }),
            None => None,
        },
        threshold: match o.exponential_threshold {
            Some((mn, mx)) => Some((mn.deep_view(), mx.deep_view())),
            None => None,
        },
        complex_math: o.complex_format == ComplexFormat::Mathematical,
        quote: if o.string_quote_style == QuoteStyle::Double { '"' } else { '\'' },
        marker: if o.use_fortran_double { 'd' } else { 'e' },
    }
}

/// The text of a real value under the options.
pub open spec fn spec_format_real_opts(m: RealModel, o: FormatModel) -> Seq<char> {
    match m {
        RealModel::Finite { neg, digits, exp } => {
            let use_exp = (match o.threshold {
                Some((mn, mx)) => digits.len() > 0 && (spec_real_mag_lt(m, mn) || spec_real_mag_lt(
                    mx,
                    m,
                )),
                None => false,
            });
            if use_exp {
                spec_format_sci(neg, digits, exp, o.precision, o.marker)
            } else {
                match o.precision {
                    Some(p) => spec_format_fixed(neg, digits, exp, p),
                    None => spec_format_real(m),
                }
            }
        },
        _ => spec_format_real(m),
    }
}

/// The logical literal under the case option.
pub open spec fn spec_format_logical(b: bool, uppercase: bool) -> Seq<char> {
    if uppercase {
        if b { ".TRUE."@ } else { ".FALSE."@ }
    } else {
        if b { ".true."@ } else { ".false."@ }
    }
}

/// The string with each occurrence of the quote character doubled.
pub open spec fn spec_escape(s: Seq<char>, q: char) -> Seq<char>
    decreases s,
{
    if s.len() == 0 {
        Seq::empty()
    } else {
        spec_escape(s.drop_last(), q) + (if s.last() == q {
            seq![q, q]
        } else {
            seq![s.last()]
        })
    }
}

/// The quoted, escaped text of a character value.
pub open spec fn spec_format_string(s: Seq<char>, q: char) -> Seq<char> {
    seq![q] + spec_escape(s, q) + seq![q]
}

/// Whether the formatted imaginary part carries its own sign.
pub open spec fn spec_im_nonneg(m: RealModel) -> bool {
    match m {
        RealModel::Finite { neg, .. } => !neg,
        RealModel::PosInf => true,
        RealModel::NegInf => false,
        RealModel::NaN => false,
    }
}

/// The text of a value under the options.
pub open spec fn spec_format_value(m: ValueModel, o: FormatModel) -> Seq<char>
    decreases m,
{
    match m {
        ValueModel::Integer(n) => crate::digits::spec_int_string(n),
        ValueModel::Real(r) => spec_format_real_opts(r, o),
        ValueModel::Complex(re, im) => if o.complex_math {
            spec_format_real_opts(re, o) + (if spec_im_nonneg(im) {
                seq!['+']
            } else {
                Seq::empty()
            }) + spec_format_real_opts(im, o) + "*i"@
        } else {
            seq!['('] + spec_format_real_opts(re, o) + ", "@ + spec_format_real_opts(im, o)
                + seq![')']
        },
        ValueModel::Logical(b) => spec_format_logical(b, o.uppercase),
        ValueModel::Character(s) => spec_format_string(s, o.quote),
        ValueModel::Array(items) => spec_format_list(items, o),
        ValueModel::MultiArray { values, .. } => spec_format_list(values, o),
        ValueModel::DerivedType(..) => "<derived_type>"@,
        ValueModel::DerivedTypeArray(..) => "<derived_type_array>"@,
        ValueModel::Null => Seq::empty(),
    }
}

/// The texts of the elements, joined with ", ".
pub open spec fn spec_format_list(items: Seq<ValueModel>, o: FormatModel) -> Seq<char>
    decreases items,
{
    if items.len() == 0 {
        Seq::empty()
    } else if items.len() == 1 {
        spec_format_value(items.last(), o)
    } else {
        spec_format_list(items.drop_last(), o) + ", "@ + spec_format_value(items.last(), o)
    }
}

/// The text of a real value under the options.
pub fn format_real_value(v: &RealValue, options: &FormatOptions) -> (r: Vec<char>)
    requires
        v.wf(),
    ensures
        r@ == spec_format_real_opts(v.deep_view(), spec_opts(*options)),
{
    match v {
        RealValue::Finite { neg, digits, exp } => {
            let use_exp = match &options.exponential_threshold {
                Some((mn, mx)) => {
                    !v.is_zero() && (v.mag_lt(mn) || mx.mag_lt(v))
                },
                None => false,
            };
            let marker = if options.use_fortran_double {
                'd'
            } else {
                'e'
            };
            let precision: Option<usize> = match options.float_precision {
                Some(p) => Some(if p > 4096 {
                    4096
                } else {
                    p
                }),
                None => None,
            };
            if use_exp {
                format_sci(*neg, digits.as_slice(), *exp, precision, marker)
            } else {
                match precision {
                    Some(p) => format_fixed(*neg, digits.as_slice(), *exp, p),
                    None => v.to_chars(),
                }
            }
        },
        _ => v.to_chars(),
    }
}

impl FortranValue {
    /// The text of this value under explicit options.
    #[verifier::loop_isolation(false)]
    pub fn to_fortran_string_with_options(&self, options: &FormatOptions) -> (r: String)
        requires
            self.wf(),
        ensures
            r@ == spec_format_value(self.deep_view(), spec_opts(*options)),
    {
        let cs = self.format_chars(options);
        chars_to_string(cs.as_slice())
    }

    /// The text of this value, with upper-case logical literals on
    /// request and every other option at its default.
    pub fn to_fortran_string(&self, uppercase: bool) -> (r: String)
        requires
            self.wf(),
        ensures
            r@ == spec_format_value(
                self.deep_view(),
                spec_opts(
                    FormatOptions {
                        uppercase,
                        float_precision: None,
                        exponential_threshold: None,
                        complex_format: ComplexFormat::Parentheses,
                        string_quote_style: QuoteStyle::Single,
                        use_fortran_double: false,
                    },
                ),
            ),
    {
        let options = FormatOptions {
            uppercase,
            float_precision: None,
            exponential_threshold: None,
            complex_format: ComplexFormat::Parentheses,
            string_quote_style: QuoteStyle::Single,
            use_fortran_double: false,
        };
        self.to_fortran_string_with_options(&options)
    }

    /// The character text of this value under the options.
    #[verifier::loop_isolation(false)]
    pub fn format_chars(&self, options: &FormatOptions) -> (r: Vec<char>)
        requires
            self.wf(),
        ensures
            r@ == spec_format_value(self.deep_view(), spec_opts(*options)),
        decreases self,
    {
        match self {
            FortranValue::Integer(n) => crate::digits::i64_to_chars(*n),
            FortranValue::Real(x) => format_real_value(x, options),
            FortranValue::Complex(re, im) => {
                let mut r: Vec<char> = Vec::new();
                let res = format_real_value(re, options);
                let ims = format_real_value(im, options);
                if options.complex_format == ComplexFormat::Mathematical {
                    proof {
                        reveal_strlit("*i");
                    }
                    append_chars(&mut r, res.as_slice());
                    let plus = match im {
                        RealValue::Finite { neg, .. } => !neg,
                        RealValue::PosInf => true,
                        _ => false,
                    };
                    if plus {
                        r.push('+');
                    }
                    append_chars(&mut r, ims.as_slice());
                    r.push('*');
                    r.push('i');
                    proof {
                        assert(r@ =~= spec_format_value(self.deep_view(), spec_opts(*options)));
                    }
                } else {
                    proof {
                        reveal_strlit(", ");
                    }
                    r.push('(');
                    append_chars(&mut r, res.as_slice());
                    r.push(',');
                    r.push(' ');
                    append_chars(&mut r, ims.as_slice());
                    r.push(')');
                    proof {
                        assert(r@ =~= spec_format_value(self.deep_view(), spec_opts(*options)));
                    }
                }
                r
            },
            FortranValue::Logical(b) => {
                if options.uppercase {
                    if *b {
                        crate::text::str_to_chars(".TRUE.")
                    } else {
                        crate::text::str_to_chars(".FALSE.")
                    }
                } else {
                    if *b {
                        crate::text::str_to_chars(".true.")
                    } else {
                        crate::text::str_to_chars(".false.")
                    }
                }
            },
            FortranValue::Character(s) => {
                let q: char = if options.string_quote_style == QuoteStyle::Double {
                    '"'
                } else {
                    '\''
                };
                let cs = crate::text::str_to_chars(s.as_str());
                let mut r: Vec<char> = Vec::new();
                r.push(q);
                let mut i: usize = 0;
                while i < cs.len()
                    invariant
                        i <= cs@.len(),
                        r@ == seq![q] + spec_escape(cs@.subrange(0, i as int), q),
                    decreases cs@.len() - i,
                {
                    let c = cs[i];
                    r.push(c);
                    if c == q {
                        r.push(q);
                    }
                    i += 1;
                    proof {
                        assert(cs@.subrange(0, i as int).drop_last() =~= cs@.subrange(0, i - 1));
                        assert(r@ =~= seq![q] + spec_escape(cs@.subrange(0, i as int), q));
                    }
                }
                r.push(q);
                proof {
                    assert(cs@.subrange(0, cs@.len() as int) =~= cs@);
                    assert(r@ =~= spec_format_value(self.deep_view(), spec_opts(*options)));
                }
                r
            },
            FortranValue::Array(items) => format_values_list(items, options),
            FortranValue::MultiArray { values, .. } => format_values_list(values, options),
            FortranValue::DerivedType(..) => crate::text::str_to_chars("<derived_type>"),
            FortranValue::DerivedTypeArray(..) => crate::text::str_to_chars("<derived_type_array>"),
            FortranValue::Null => Vec::new(),
        }
    }

}

/// The texts of the elements, joined with ", ".
#[verifier::loop_isolation(false)]
fn format_values_list(items: &Vec<FortranValue>, options: &FormatOptions) -> (r: Vec<char>)
    requires
        spec_models_wf(crate::fortran_types::value::spec_view_seq(items@)),
    ensures
        r@ == spec_format_list(
            crate::fortran_types::value::spec_view_seq(items@),
            spec_opts(*options),
        ),
    decreases items,
{
    let ghost models = crate::fortran_types::value::spec_view_seq(items@);
    proof {
        crate::fortran_types::value::lemma_view_seq_len(items@);
    }
    let mut r: Vec<char> = Vec::new();
    let mut i: usize = 0;
    while i < items.len()
        invariant
            i <= items@.len(),
            r@ == spec_format_list(models.subrange(0, i as int), spec_opts(*options)),
        decreases items@.len() - i,
    {
        proof {
            reveal_strlit(", ");
            assert(decreases_to!(*items => items@));
            assert(decreases_to!(items@ => items@[i as int]));
        }
        if i > 0 {
            r.push(',');
            r.push(' ');
        }
        proof {
            lemma_view_seq_index(items@, i as int);
            lemma_models_wf_at(models, i as int);
        }
        let cs = items[i].format_chars(options);
        append_chars(&mut r, cs.as_slice());
        i += 1;
        proof {
            let pre = models.subrange(0, i as int);
            assert(pre.drop_last() =~= models.subrange(0, i - 1));
            assert(pre.last() == models[i - 1]);
            assert(r@ =~= spec_format_list(pre, spec_opts(*options)));
        }
    }
    proof {
        assert(models.subrange(0, models.len() as int) =~= models);
    }
    r
}

/// Every element of a well-formed model sequence is well-formed.
pub proof fn lemma_models_wf_at(s: Seq<ValueModel>, i: int)
    requires
        spec_models_wf(s),
        0 <= i < s.len(),
    ensures
        spec_model_wf(s[i]),
    decreases s.len(),
{
    if i < s.len() - 1 {
        lemma_models_wf_at(s.drop_last(), i);
    }
}

/// The length of the leading run of elements equal to the first.
pub open spec fn spec_run_len(items: Seq<ValueModel>, v: ValueModel) -> int
    decreases items.len(),
{
    if items.len() == 0 || items[0] != v {
        0
    } else {
        1 + spec_run_len(items.skip(1), v)
    }
}

/// The leading run is never longer than the sequence.
pub proof fn lemma_run_len_bounds(items: Seq<ValueModel>, v: ValueModel)
    ensures
        0 <= spec_run_len(items, v) <= items.len(),
        items.len() > 0 && items[0] == v ==> spec_run_len(items, v) >= 1,
        forall|j: int| 0 <= j < spec_run_len(items, v) ==> #[trigger] items[j] == v,
        spec_run_len(items, v) < items.len() ==> items[spec_run_len(items, v)] != v,
    decreases items.len(),
{
    if items.len() > 0 && items[0] == v {
        lemma_run_len_bounds(items.skip(1), v);
        let t = items.skip(1);
        let r = spec_run_len(items, v);
        assert forall|j: int| 0 <= j < r implies #[trigger] items[j] == v by {
            if j > 0 {
                assert(t[j - 1] == items[j]);
            }
        }
        if r < items.len() {
            assert(t[r - 1] == items[r]);
        }
    }
}

/// The compacted text of an array: each run of equal consecutive
/// elements appears once, as `count*value` when the run is longer than
/// one, the runs joined with ", ".
pub open spec fn spec_compact(items: Seq<ValueModel>, o: FormatModel) -> Seq<char>
    decreases items.len(),
{
    if items.len() == 0 {
        Seq::empty()
    } else {
        let n0 = spec_run_len(items, items[0]);
        let n = if n0 < 1 {
            1
        } else if n0 > items.len() {
            items.len() as int
        } else {
            n0
        };
        let piece = (if n <= 1 {
            spec_format_value(items[0], o)
        } else {
            crate::digits::spec_nat_string(n) + seq!['*'] + spec_format_value(items[0], o)
        });
        if n == items.len() {
            piece
        } else {
            piece + ", "@ + spec_compact(items.skip(n), o)
        }
    }
}

impl FortranValue {
    /// `count*value` text for a repeated element; a count below two
    /// yields the plain value text.
    pub fn with_repeat_count(&self, count: usize) -> (r: String)
        requires
            self.wf(),
        ensures
            count <= 1 ==> r@ == spec_format_value(
                self.deep_view(),
                spec_opts(
                    FormatOptions {
                        uppercase: false,
                        float_precision: None,
                        exponential_threshold: None,
                        complex_format: ComplexFormat::Parentheses,
                        string_quote_style: QuoteStyle::Single,
                        use_fortran_double: false,
                    },
                ),
            ),
            count > 1 ==> r@ == crate::digits::spec_nat_string(count as int) + seq!['*']
                + spec_format_value(
                self.deep_view(),
                spec_opts(
                    FormatOptions {
                        uppercase: false,
                        float_precision: None,
                        exponential_threshold: None,
                        complex_format: ComplexFormat::Parentheses,
                        string_quote_style: QuoteStyle::Single,
                        use_fortran_double: false,
                    },
                ),
            ),
    {
        let options = FormatOptions {
            uppercase: false,
            float_precision: None,
            exponential_threshold: None,
            complex_format: ComplexFormat::Parentheses,
            string_quote_style: QuoteStyle::Single,
            use_fortran_double: false,
        };
        if count <= 1 {
            self.to_fortran_string_with_options(&options)
        } else {
            let mut out: Vec<char> = Vec::new();
            let ct = crate::digits::u64_to_chars(count as u64);
            append_chars(&mut out, ct.as_slice());
            out.push('*');
            let vt = self.format_chars(&options);
            append_chars(&mut out, vt.as_slice());
            proof {
                assert(out@ =~= crate::digits::spec_nat_string(count as int) + seq!['*']
                    + spec_format_value(self.deep_view(), spec_opts(options)));
            }
            chars_to_string(out.as_slice())
        }
    }

    /// The compacted text of an array of values.
    #[verifier::loop_isolation(false)]
    #[verifier::rlimit(100)]
    pub fn format_array_with_repeats(values: &Vec<FortranValue>, options: &FormatOptions) -> (r:
        String)
        requires
            spec_models_wf(crate::fortran_types::value::spec_view_seq(values@)),
        ensures
            r@ == spec_compact(
                crate::fortran_types::value::spec_view_seq(values@),
                spec_opts(*options),
            ),
    {
        let ghost models = crate::fortran_types::value::spec_view_seq(values@);
        proof {
            crate::fortran_types::value::lemma_view_seq_len(values@);
            assert(models.skip(0) =~= models);
        }
        let n = values.len();
        let mut out: Vec<char> = Vec::new();
        let mut i: usize = 0;
        while i < n
            invariant
                n == models.len(),
                i <= n,
                spec_compact(models, spec_opts(*options)) =~= out@ + (if 0 < i && i < n {
                    ", "@
                } else {
                    Seq::<char>::empty()
                }) + spec_compact(models.skip(i as int), spec_opts(*options)),
            decreases n - i,
        {
            let ghost rem = models.skip(i as int);
            proof {
                crate::fortran_types::value::lemma_view_seq_index(values@, i as int);
                lemma_models_wf_at(models, i as int);
            }
            // measure the run of elements equal to the current one
            let mut j = i + 1;
            while j < n && values[j].value_eq(&values[i])
                invariant
                    n == models.len(),
                    i < j <= n,
                    forall|k: int| i < k < j ==> #[trigger] models[k] == models[i as int],
                decreases n - j,
            {
                proof {
                    crate::fortran_types::value::lemma_view_seq_index(values@, j as int);
                }
                j += 1;
            }
            proof {
                if j < n {
                    crate::fortran_types::value::lemma_view_seq_index(values@, j as int);
                }
                assert forall|k: int| 0 <= k < j - i implies #[trigger] rem[k]
                    == rem[0] by {
                    assert(rem[k] == models[i + k]);
                    if k > 0 {
                        assert(models[i + k] == models[i as int]);
                    }
                }
                if j - i < rem.len() {
                    assert(rem[j - i] == models[j as int]);
                    assert(models[j as int] != models[i as int]);
                }
                lemma_run_is(rem, rem[0], j - i);
            }
            let count = j - i;
            if i > 0 {
                out.push(',');
                out.push(' ');
            }
            if count > 1 {
                let ct = crate::digits::u64_to_chars(count as u64);
                append_chars(&mut out, ct.as_slice());
                out.push('*');
            }
            let vt = values[i].format_chars(options);
            append_chars(&mut out, vt.as_slice());
            proof {
                reveal_strlit(", ");
                assert(", "@ =~= seq![',', ' ']);
                assert(rem.skip(j - i) =~= models.skip(j as int));
                assert(spec_compact(models, spec_opts(*options)) =~= out@ + (if 0 < j && j < n {
                    ", "@
                } else {
                    Seq::<char>::empty()
                }) + spec_compact(models.skip(j as int), spec_opts(*options)));
            }
            i = j;
        }
        proof {
            assert(models.skip(n as int).len() == 0);
        }
        chars_to_string(out.as_slice())
    }
}

/// A prefix of equal elements bounded by a differing one is the run.
proof fn lemma_run_is(items: Seq<ValueModel>, v: ValueModel, m: int)
    requires
        0 <= m <= items.len(),
        forall|k: int| 0 <= k < m ==> #[trigger] items[k] == v,
        m < items.len() ==> items[m] != v,
    ensures
        spec_run_len(items, v) == m,
    decreases m,
{
    if m == 0 {
    } else {
        let t = items.skip(1);
        assert forall|k: int| 0 <= k < m - 1 implies #[trigger] t[k] == v by {
            assert(t[k] == items[k + 1]);
        }
        if m - 1 < t.len() {
            assert(t[m - 1] == items[m]);
        }
        lemma_run_is(t, v, m - 1);
    }
}

/// The text of a value under the default options.
pub fn default_value_text(v: &FortranValue) -> (r: String)
    requires
        v.wf(),
    ensures
        r@ == spec_format_value(
            v.deep_view(),
            spec_opts(
                FormatOptions {
                    uppercase: false,
                    float_precision: None,
                    exponential_threshold: None,
                    complex_format: ComplexFormat::Parentheses,
                    string_quote_style: QuoteStyle::Single,
                    use_fortran_double: false,
                },
            ),
        ),
{
    v.to_fortran_string(false)
}

} // verus!
