//! The dynamically typed value of a namelist variable, its mathematical
//! model, and the explicit conversions between value kinds.

use vstd::prelude::*;

verus! {

use crate::error::F90nmlError;
use crate::fortran_types::realnum::RealValue;
use crate::fortran_types::realnum::RealModel;
use crate::fortran_types::realnum::spec_real_wf;
use crate::text::subvec_u8;

/// A Fortran value as it can appear in a namelist.
#[derive(Debug, PartialEq)]
pub enum FortranValue {
    /// Integer value
    Integer(i64),
    /// Real value, carried as an exact decimal
    Real(RealValue),
    /// Complex value (real and imaginary parts)
    Complex(RealValue, RealValue),
    /// Logical value
    Logical(bool),
    /// Character string
    Character(String),
    /// Array of values
    Array(Vec<FortranValue>),
    /// Multi-dimensional array: flat values, per-dimension extents and
    /// start offsets
    MultiArray { values: Vec<FortranValue>, dimensions: Vec<usize>, start_indices: Vec<i32> },
    /// Derived type: field name to value, in insertion order
    DerivedType(Vec<(String, FortranValue)>),
    /// Array of derived types
    DerivedTypeArray(Vec<Vec<(String, FortranValue)>>),
    /// Null (absence marker)
    Null,
}

/// Mathematical model of a Fortran value.
pub enum ValueModel {
    Integer(int),
    Real(RealModel),
    Complex(RealModel, RealModel),
    Logical(bool),
    Character(Seq<char>),
    Array(Seq<ValueModel>),
    MultiArray { values: Seq<ValueModel>, dimensions: Seq<usize>, start_indices: Seq<i32> },
    DerivedType(Seq<(Seq<char>, ValueModel)>),
    DerivedTypeArray(Seq<Seq<(Seq<char>, ValueModel)>>),
    Null,
}

impl FortranValue {
    /// The model of this value.
    pub open spec fn deep_view(&self) -> ValueModel
        decreases self,
    {
        match self {
            FortranValue::Integer(n) => ValueModel::Integer(*n as int),
            FortranValue::Real(r) => ValueModel::Real(r.deep_view()),
            FortranValue::Complex(re, im) => ValueModel::Complex(re.deep_view(), im.deep_view()),
            FortranValue::Logical(b) => ValueModel::Logical(*b),
            FortranValue::Character(s) => ValueModel::Character(s@),
            FortranValue::Array(items) => ValueModel::Array(spec_view_seq(items@)),
            FortranValue::MultiArray { values, dimensions, start_indices } => ValueModel::MultiArray {
                values: spec_view_seq(values@),
                dimensions: dimensions@,
                start_indices: start_indices@,
            },
            FortranValue::DerivedType(fields) => ValueModel::DerivedType(spec_view_fields(fields@)),
            FortranValue::DerivedTypeArray(items) => ValueModel::DerivedTypeArray(
                spec_view_field_seq(items@),
            ),
            FortranValue::Null => ValueModel::Null,
        }
    }

    /// Every real carried anywhere inside the value is normalized.
    pub open spec fn wf(&self) -> bool {
        spec_model_wf(self.deep_view())
    }
}

/// Models of a sequence of values.
pub open spec fn spec_view_seq(s: Seq<FortranValue>) -> Seq<ValueModel>
    decreases s,
{
    if s.len() == 0 {
        Seq::empty()
    } else {
        spec_view_seq(s.drop_last()).push(s.last().deep_view())
    }
}

/// Models of a field list.
pub open spec fn spec_view_fields(s: Seq<(String, FortranValue)>) -> Seq<(Seq<char>, ValueModel)>
    decreases s,
{
    if s.len() == 0 {
        Seq::empty()
    } else {
        spec_view_fields(s.drop_last()).push((s.last().0@, s.last().1.deep_view()))
    }
}

/// Models of a sequence of field lists.
pub open spec fn spec_view_field_seq(s: Seq<Vec<(String, FortranValue)>>) -> Seq<
    Seq<(Seq<char>, ValueModel)>,
>
    decreases s,
{
    if s.len() == 0 {
        Seq::empty()
    } else {
        spec_view_field_seq(s.drop_last()).push(spec_view_fields(s.last()@))
    }
}

/// Well-formedness over the model: every real is normalized.
pub open spec fn spec_model_wf(m: ValueModel) -> bool
    decreases m,
{
    match m {
        ValueModel::Integer(..) => true,
        ValueModel::Real(r) => spec_real_wf(r),
        ValueModel::Complex(re, im) => spec_real_wf(re) && spec_real_wf(im),
        ValueModel::Logical(..) => true,
        ValueModel::Character(..) => true,
        ValueModel::Array(items) => spec_models_wf(items),
        ValueModel::MultiArray { values, .. } => spec_models_wf(values),
        ValueModel::DerivedType(fields) => spec_field_models_wf(fields),
        ValueModel::DerivedTypeArray(items) => spec_field_model_seq_wf(items),
        ValueModel::Null => true,
    }
}

/// Well-formedness of a model sequence.
pub open spec fn spec_models_wf(s: Seq<ValueModel>) -> bool
    decreases s,
{
    if s.len() == 0 {
        true
    } else {
        spec_models_wf(s.drop_last()) && spec_model_wf(s.last())
    }
}

/// Well-formedness of a field-model list.
pub open spec fn spec_field_models_wf(s: Seq<(Seq<char>, ValueModel)>) -> bool
    decreases s,
{
    if s.len() == 0 {
        true
    } else {
        spec_field_models_wf(s.drop_last()) && spec_model_wf(s.last().1)
    }
}

/// Well-formedness of a sequence of field-model lists.
pub open spec fn spec_field_model_seq_wf(s: Seq<Seq<(Seq<char>, ValueModel)>>) -> bool
    decreases s,
{
    if s.len() == 0 {
        true
    } else {
        spec_field_model_seq_wf(s.drop_last()) && spec_field_models_wf(s.last())
    }
}

/// Pushing onto a viewed sequence appends the pushed model.
pub proof fn lemma_view_seq_push(s: Seq<FortranValue>, v: FortranValue)
    ensures
        spec_view_seq(s.push(v)) =~= spec_view_seq(s).push(v.deep_view()),
{
    assert(s.push(v).drop_last() =~= s);
    assert(s.push(v).last() == v);
}

/// Element-wise reading of a viewed sequence.
pub proof fn lemma_view_seq_index(s: Seq<FortranValue>, i: int)
    requires
        0 <= i < s.len(),
    ensures
        spec_view_seq(s).len() == s.len(),
        spec_view_seq(s)[i] == s[i].deep_view(),
    decreases s.len(),
{
    lemma_view_seq_len(s);
    if i < s.len() - 1 {
        lemma_view_seq_index(s.drop_last(), i);
    }
}

/// A viewed sequence has the same length.
pub proof fn lemma_view_seq_len(s: Seq<FortranValue>)
    ensures
        spec_view_seq(s).len() == s.len(),
    decreases s.len(),
{
    if s.len() > 0 {
        lemma_view_seq_len(s.drop_last());
    }
}

/// The name of a value's kind.
pub open spec fn spec_type_name(m: ValueModel) -> Seq<char> {
    match m {
        ValueModel::Integer(..) => "integer"@,
        ValueModel::Real(..) => "real"@,
        ValueModel::Complex(..) => "complex"@,
        ValueModel::Logical(..) => "logical"@,
        ValueModel::Character(..) => "character"@,
        ValueModel::Array(..) => "array"@,
        ValueModel::MultiArray { .. } => "multi_array"@,
        ValueModel::DerivedType(..) => "derived_type"@,
        ValueModel::DerivedTypeArray(..) => "derived_type_array"@,
        ValueModel::Null => "null"@,
    }
}

impl FortranValue {
    /// Build an integer value.
    pub fn integer(value: i64) -> (r: FortranValue)
        ensures
            r == FortranValue::Integer(value),
    {
        FortranValue::Integer(value)
    }

    /// Build a real value.
    pub fn real_value(value: RealValue) -> (r: FortranValue)
        ensures
            r == FortranValue::Real(value),
    {
        FortranValue::Real(value)
    }

    /// Build a complex value.
    pub fn complex(re: RealValue, im: RealValue) -> (r: FortranValue)
        ensures
            r == FortranValue::Complex(re, im),
    {
        FortranValue::Complex(re, im)
    }

    /// Build a logical value.
    pub fn logical(value: bool) -> (r: FortranValue)
        ensures
            r == FortranValue::Logical(value),
    {
        FortranValue::Logical(value)
    }

    /// Build a character value.
    pub fn character(value: &str) -> (r: FortranValue)
        ensures
            r.deep_view() == ValueModel::Character(value@),
    {
        FortranValue::Character(value.to_owned())
    }

    /// Build an array value.
    pub fn array(values: Vec<FortranValue>) -> (r: FortranValue)
        ensures
            r == FortranValue::Array(values),
    {
        FortranValue::Array(values)
    }

    /// Build a multi-dimensional array value.
    pub fn multi_array(values: Vec<FortranValue>, dimensions: Vec<usize>, start_indices: Vec<
        i32,
    >) -> (r: FortranValue)
        ensures
            r == (FortranValue::MultiArray { values, dimensions, start_indices }),
    {
        FortranValue::MultiArray { values, dimensions, start_indices }
    }

    /// Build a derived-type value from its fields.
    pub fn derived_type(fields: Vec<(String, FortranValue)>) -> (r: FortranValue)
        ensures
            r == FortranValue::DerivedType(fields),
    {
        FortranValue::DerivedType(fields)
    }

    /// The name of this value's kind.
    pub fn kind_name(&self) -> (r: &'static str)
        ensures
            r@ == spec_type_name(self.deep_view()),
    {
        match self {
            FortranValue::Integer(..) => "integer",
            FortranValue::Real(..) => "real",
            FortranValue::Complex(..) => "complex",
            FortranValue::Logical(..) => "logical",
            FortranValue::Character(..) => "character",
            FortranValue::Array(..) => "array",
            FortranValue::MultiArray { .. } => "multi_array",
            FortranValue::DerivedType(..) => "derived_type",
            FortranValue::DerivedTypeArray(..) => "derived_type_array",
            FortranValue::Null => "null",
        }
    }

    /// Whether this value is a number.
    pub fn is_numeric(&self) -> (r: bool)
        ensures
            r == (self.deep_view() is Integer || self.deep_view() is Real
                || self.deep_view() is Complex),
    {
        match self {
            FortranValue::Integer(..) => true,
            FortranValue::Real(..) => true,
            FortranValue::Complex(..) => true,
            _ => false,
        }
    }

    /// Whether this value is an array of some shape.
    pub fn is_array(&self) -> (r: bool)
        ensures
            r == (self.deep_view() is Array || self.deep_view() is MultiArray
                || self.deep_view() is DerivedTypeArray),
    {
        match self {
            FortranValue::Array(..) => true,
            FortranValue::MultiArray { .. } => true,
            FortranValue::DerivedTypeArray(..) => true,
            _ => false,
        }
    }

    /// The element count of an array value.
    pub fn array_len(&self) -> (r: Option<usize>)
        ensures
            r == (match self.deep_view() {
                ValueModel::Array(items) => Some(items.len() as usize),
                ValueModel::MultiArray { values, .. } => Some(values.len() as usize),
                ValueModel::DerivedTypeArray(items) => Some(items.len() as usize),
                _ => None::<usize>,
            }),
    {
        match self {
            FortranValue::Array(items) => {
                proof {
                    lemma_view_seq_len(items@);
                }
                Some(items.len())
            },
            FortranValue::MultiArray { values, .. } => {
                proof {
                    lemma_view_seq_len(values@);
                }
                Some(values.len())
            },
            FortranValue::DerivedTypeArray(items) => {
                proof {
                    lemma_view_field_seq_len(items@);
                }
                Some(items.len())
            },
            _ => None,
        }
    }

    /// Whether this value is the absence marker.
    pub fn is_null(&self) -> (r: bool)
        ensures
            r == (self.deep_view() == ValueModel::Null),
    {
        match self {
            FortranValue::Null => true,
            _ => false,
        }
    }

    /// A copy of this value with the same model.
    #[verifier::loop_isolation(false)]
    pub fn dup(&self) -> (r: FortranValue)
        ensures
            r.deep_view() == self.deep_view(),
        decreases self,
    {
        match self {
            FortranValue::Integer(n) => FortranValue::Integer(*n),
            FortranValue::Real(x) => FortranValue::Real(dup_real(x)),
            FortranValue::Complex(re, im) => FortranValue::Complex(dup_real(re), dup_real(im)),
            FortranValue::Logical(b) => FortranValue::Logical(*b),
            FortranValue::Character(s) => FortranValue::Character(s.clone()),
            FortranValue::Array(items) => FortranValue::Array(dup_values(items)),
            FortranValue::MultiArray { values, dimensions, start_indices } => {
                let r = FortranValue::MultiArray {
                    values: dup_values(values),
                    dimensions: copy_usizes(dimensions),
                    start_indices: copy_i32_vec(start_indices),
                };
                r
            },
            FortranValue::DerivedType(fields) => FortranValue::DerivedType(dup_fields(fields)),
            FortranValue::DerivedTypeArray(items) => {
                let mut r: Vec<Vec<(String, FortranValue)>> = Vec::new();
                let mut i: usize = 0;
                proof {
                    lemma_view_field_seq_len(items@);
                }
                while i < items.len()
                    invariant
                        i <= items@.len(),
                        r@.len() == i,
                        spec_view_field_seq(r@) =~= spec_view_field_seq(items@).subrange(
                            0,
                            i as int,
                        ),
                        spec_view_field_seq(items@).len() == items@.len(),
                    decreases items@.len() - i,
                {
                    proof {
                        assert(decreases_to!(*self => *items));
                        assert(decreases_to!(*items => items@));
                        assert(decreases_to!(items@ => items@[i as int]));
                        assert(decreases_to!(*self => items@[i as int]));
                    }
                    let ghost prev = r@;
                    let f = dup_fields(&items[i]);
                    r.push(f);
                    i += 1;
                    proof {
                        assert(r@.drop_last() =~= prev);
                        lemma_view_field_seq_push_general(r@, items@, i as int);
                    }
                }
                proof {
                    assert(spec_view_field_seq(items@).subrange(
                        0,
                        items@.len() as int,
                    ) =~= spec_view_field_seq(items@));
                }
                FortranValue::DerivedTypeArray(r)
            },
            FortranValue::Null => FortranValue::Null,
        }
    }
}

/// A viewed field-list sequence has the same length.
pub proof fn lemma_view_field_seq_len(s: Seq<Vec<(String, FortranValue)>>)
    ensures
        spec_view_field_seq(s).len() == s.len(),
    decreases s.len(),
{
    if s.len() > 0 {
        lemma_view_field_seq_len(s.drop_last());
    }
}

/// Element-wise reading of a viewed field-list sequence.
pub proof fn lemma_view_field_seq_index(s: Seq<Vec<(String, FortranValue)>>, i: int)
    requires
        0 <= i < s.len(),
    ensures
        spec_view_field_seq(s).len() == s.len(),
        spec_view_field_seq(s)[i] == spec_view_fields(s[i]@),
    decreases s.len(),
{
    lemma_view_field_seq_len(s);
    if i < s.len() - 1 {
        lemma_view_field_seq_index(s.drop_last(), i);
    }
}

/// Step fact used when copying field-list sequences.
proof fn lemma_view_field_seq_push_general(
    r: Seq<Vec<(String, FortranValue)>>,
    items: Seq<Vec<(String, FortranValue)>>,
    i: int,
)
    requires
        0 < i <= items.len(),
        r.len() == i,
        spec_view_field_seq(r.drop_last()) =~= spec_view_field_seq(items).subrange(0, i - 1),
        spec_view_fields(r.last()@) == spec_view_fields(items[i - 1]@),
        spec_view_field_seq(items).len() == items.len(),
    ensures
        spec_view_field_seq(r) =~= spec_view_field_seq(items).subrange(0, i),
{
    lemma_view_field_seq_index(items, i - 1);
    assert(spec_view_field_seq(r) =~= spec_view_field_seq(r.drop_last()).push(
        spec_view_fields(r.last()@),
    ));
}

/// A copy of a real value with the same model.
pub fn dup_real(x: &RealValue) -> (r: RealValue)
    ensures
        r.deep_view() == x.deep_view(),
{
    match x {
        RealValue::Finite { neg, digits, exp } => {
            let ds = subvec_u8(digits.as_slice(), 0, digits.len());
            proof {
                assert(ds@ =~= digits@);
            }
            RealValue::Finite { neg: *neg, digits: ds, exp: *exp }
        },
        RealValue::PosInf => RealValue::PosInf,
        RealValue::NegInf => RealValue::NegInf,
        RealValue::NaN => RealValue::NaN,
    }
}

/// A copy of a value vector with the same models.
pub fn dup_values(items: &Vec<FortranValue>) -> (r: Vec<FortranValue>)
    ensures
        spec_view_seq(r@) == spec_view_seq(items@),
        r@.len() == items@.len(),
    decreases items,
{
    let mut r: Vec<FortranValue> = Vec::new();
    let mut i: usize = 0;
    proof {
        lemma_view_seq_len(items@);
    }
    while i < items.len()
        invariant
            i <= items@.len(),
            r@.len() == i,
            spec_view_seq(r@) =~= spec_view_seq(items@).subrange(0, i as int),
            spec_view_seq(items@).len() == items@.len(),
        decreases items@.len() - i,
    {
        let ghost prev = r@;
        let v = items[i].dup();
        let ghost vmodel = v.deep_view();
        r.push(v);
        i += 1;
        proof {
            lemma_view_seq_push(prev, r@.last());
            assert(r@ == prev.push(r@.last()));
            lemma_view_seq_index(items@, i - 1);
            assert(spec_view_seq(items@).subrange(0, i as int) =~= spec_view_seq(
                items@,
            ).subrange(0, i - 1).push(spec_view_seq(items@)[i - 1]));
            assert(spec_view_seq(r@) =~= spec_view_seq(items@).subrange(0, i as int));
        }
    }
    proof {
        assert(spec_view_seq(items@).subrange(0, items@.len() as int) =~= spec_view_seq(items@));
    }
    r
}

/// A copy of a field list with the same models.
pub fn dup_fields(fields: &Vec<(String, FortranValue)>) -> (r: Vec<(String, FortranValue)>)
    ensures
        spec_view_fields(r@) == spec_view_fields(fields@),
        r@.len() == fields@.len(),
    decreases fields,
{
    let mut r: Vec<(String, FortranValue)> = Vec::new();
    let mut i: usize = 0;
    proof {
        lemma_view_fields_len(fields@);
    }
    while i < fields.len()
        invariant
            i <= fields@.len(),
            r@.len() == i,
            spec_view_fields(r@) =~= spec_view_fields(fields@).subrange(0, i as int),
            spec_view_fields(fields@).len() == fields@.len(),
        decreases fields@.len() - i,
    {
        let ghost prev = r@;
        let name = fields[i].0.clone();
        let value = fields[i].1.dup();
        r.push((name, value));
        i += 1;
        proof {
            lemma_view_fields_push(prev, r@.last());
            assert(r@ == prev.push(r@.last()));
            lemma_view_fields_index(fields@, i - 1);
            assert(spec_view_fields(fields@).subrange(0, i as int) =~= spec_view_fields(
                fields@,
            ).subrange(0, i - 1).push(spec_view_fields(fields@)[i - 1]));
            assert(spec_view_fields(r@) =~= spec_view_fields(fields@).subrange(0, i as int));
        }
    }
    proof {
        assert(spec_view_fields(fields@).subrange(0, fields@.len() as int) =~= spec_view_fields(
            fields@,
        ));
    }
    r
}

/// A viewed field list has the same length.
pub proof fn lemma_view_fields_len(s: Seq<(String, FortranValue)>)
    ensures
        spec_view_fields(s).len() == s.len(),
    decreases s.len(),
{
    if s.len() > 0 {
        lemma_view_fields_len(s.drop_last());
    }
}

/// Element-wise reading of a viewed field list.
pub proof fn lemma_view_fields_index(s: Seq<(String, FortranValue)>, i: int)
    requires
        0 <= i < s.len(),
    ensures
        spec_view_fields(s).len() == s.len(),
        spec_view_fields(s)[i] == (s[i].0@, s[i].1.deep_view()),
    decreases s.len(),
{
    lemma_view_fields_len(s);
    if i < s.len() - 1 {
        lemma_view_fields_index(s.drop_last(), i);
    }
}

/// Copy a vector of sizes.
pub fn copy_usizes(s: &Vec<usize>) -> (r: Vec<usize>)
    ensures
        r@ == s@,
{
    let mut r: Vec<usize> = Vec::new();
    let mut i: usize = 0;
    while i < s.len()
        invariant
            i <= s@.len(),
            r@ == s@.subrange(0, i as int),
        decreases s@.len() - i,
    {
        r.push(s[i]);
        i += 1;
        proof {
            assert(r@ =~= s@.subrange(0, i as int));
        }
    }
    proof {
        assert(r@ =~= s@);
    }
    r
}

/// Copy a vector of indices.
pub fn copy_i32_vec(s: &Vec<i32>) -> (r: Vec<i32>)
    ensures
        r@ == s@,
{
    let mut r: Vec<i32> = Vec::new();
    let mut i: usize = 0;
    while i < s.len()
        invariant
            i <= s@.len(),
            r@ == s@.subrange(0, i as int),
        decreases s@.len() - i,
    {
        r.push(s[i]);
        i += 1;
        proof {
            assert(r@ =~= s@.subrange(0, i as int));
        }
    }
    proof {
        assert(r@ =~= s@);
    }
    r
}

/// Pushing onto a viewed field list appends the pushed model.
pub proof fn lemma_view_fields_push(s: Seq<(String, FortranValue)>, v: (String, FortranValue))
    ensures
        spec_view_fields(s.push(v)) =~= spec_view_fields(s).push((v.0@, v.1.deep_view())),
{
    assert(s.push(v).drop_last() =~= s);
    assert(s.push(v).last() == v);
}

/// Copy a vector of characters.
pub fn copy_chars(s: &Vec<char>) -> (r: Vec<char>)
    ensures
        r@ == s@,
{
    let mut r: Vec<char> = Vec::new();
    let mut i: usize = 0;
    while i < s.len()
        invariant
            i <= s@.len(),
            r@ == s@.subrange(0, i as int),
        decreases s@.len() - i,
    {
        r.push(s[i]);
        i += 1;
        proof {
            assert(r@ =~= s@.subrange(0, i as int));
        }
    }
    proof {
        assert(r@ =~= s@);
    }
    r
}

/// Whether two real values have the same model.
#[verifier::loop_isolation(false)]
pub fn real_eq(a: &RealValue, b: &RealValue) -> (r: bool)
    ensures
        r == (a.deep_view() == b.deep_view()),
{
    match (a, b) {
        (
            RealValue::Finite { neg: an, digits: ad, exp: ae },
            RealValue::Finite { neg: bn, digits: bd, exp: be },
        ) => {
            if *an != *bn || *ae != *be || ad.len() != bd.len() {
                proof {
                    if ad@ =~= bd@ {
                        assert(ad@.len() == bd@.len());
                    }
                    if ad@.len() != bd@.len() {
                        assert(ad@ != bd@);
                    }
                }
                return false;
            }
            let mut i: usize = 0;
            while i < ad.len()
                invariant
                    i <= ad@.len(),
                    ad@.len() == bd@.len(),
                    forall|j: int| 0 <= j < i ==> #[trigger] ad@[j] == bd@[j],
                decreases ad@.len() - i,
            {
                if ad[i] != bd[i] {
                    return false;
                }
                i += 1;
            }
            proof {
                assert(ad@ =~= bd@);
            }
            true
        },
        (RealValue::PosInf, RealValue::PosInf) => true,
        (RealValue::NegInf, RealValue::NegInf) => true,
        (RealValue::NaN, RealValue::NaN) => true,
        _ => false,
    }
}

/// Whether two strings hold the same text.
pub fn string_eq(a: &String, b: &String) -> (r: bool)
    ensures
        r == (a@ == b@),
{
    crate::fortran_types::realnum::chars_eq_str(
        crate::text::str_to_chars(a.as_str()).as_slice(),
        b.as_str(),
    )
}

impl FortranValue {
    /// Whether two values have the same model.
    #[verifier::loop_isolation(false)]
    pub fn value_eq(&self, other: &FortranValue) -> (r: bool)
        ensures
            r == (self.deep_view() == other.deep_view()),
        decreases self, 2int,
    {
        match (self, other) {
            (FortranValue::Integer(a), FortranValue::Integer(b)) => a == b,
            (FortranValue::Real(a), FortranValue::Real(b)) => real_eq(a, b),
            (FortranValue::Complex(ar, ai), FortranValue::Complex(br, bi)) => real_eq(ar, br)
                && real_eq(ai, bi),
            (FortranValue::Logical(a), FortranValue::Logical(b)) => a == b,
            (FortranValue::Character(a), FortranValue::Character(b)) => string_eq(a, b),
            (FortranValue::Array(a), FortranValue::Array(b)) => values_eq_rec(a, b),
            (
                FortranValue::MultiArray { values: av, dimensions: ad, start_indices: asi },
                FortranValue::MultiArray { values: bv, dimensions: bd, start_indices: bsi },
            ) => {
                proof {
                    assert(decreases_to!(*self => *av));
                }
                values_eq_rec_from(self, av, bv) && usizes_eq(ad, bd) && i32s_eq(asi, bsi)
            },
            (FortranValue::DerivedType(a), FortranValue::DerivedType(b)) => {
                proof {
                    assert(decreases_to!(*self => *a));
                }
                fields_eq_rec(self, a, b)
            },
            (FortranValue::DerivedTypeArray(a), FortranValue::DerivedTypeArray(b)) => {
                field_seqs_eq(self, a, b)
            },
            (FortranValue::Null, FortranValue::Null) => true,
            _ => {
                proof {
                    assert(self.deep_view() != other.deep_view());
                }
                false
            },
        }
    }
}

/// Whether two value vectors have the same models.
#[verifier::loop_isolation(false)]
pub fn values_eq_rec(a: &Vec<FortranValue>, b: &Vec<FortranValue>) -> (r: bool)
    ensures
        r == (spec_view_seq(a@) == spec_view_seq(b@)),
    decreases a,
{
    proof {
        lemma_view_seq_len(a@);
        lemma_view_seq_len(b@);
    }
    if a.len() != b.len() {
        return false;
    }
    let mut i: usize = 0;
    while i < a.len()
        invariant
            i <= a@.len(),
            a@.len() == b@.len(),
            forall|j: int|
                0 <= j < i ==> #[trigger] spec_view_seq(a@)[j] == spec_view_seq(b@)[j],
        decreases a@.len() - i,
    {
        proof {
            assert(decreases_to!(*a => a@));
            assert(decreases_to!(a@ => a@[i as int]));
            lemma_view_seq_index(a@, i as int);
            lemma_view_seq_index(b@, i as int);
        }
        if !a[i].value_eq(&b[i]) {
            return false;
        }
        i += 1;
    }
    proof {
        assert(spec_view_seq(a@) =~= spec_view_seq(b@));
    }
    true
}

/// Whether two value vectors reached through an owner have the same
/// models.
#[verifier::loop_isolation(false)]
fn values_eq_rec_from(owner: &FortranValue, a: &Vec<FortranValue>, b: &Vec<FortranValue>) -> (r:
    bool)
    requires
        decreases_to!(*owner => *a),
    ensures
        r == (spec_view_seq(a@) == spec_view_seq(b@)),
    decreases owner, 0int,
{
    proof {
        lemma_view_seq_len(a@);
        lemma_view_seq_len(b@);
    }
    if a.len() != b.len() {
        return false;
    }
    let mut i: usize = 0;
    while i < a.len()
        invariant
            i <= a@.len(),
            a@.len() == b@.len(),
            forall|j: int|
                0 <= j < i ==> #[trigger] spec_view_seq(a@)[j] == spec_view_seq(b@)[j],
        decreases a@.len() - i,
    {
        proof {
            assert(decreases_to!(*a => a@));
            assert(decreases_to!(a@ => a@[i as int]));
            assert(decreases_to!(*owner => a@[i as int]));
            lemma_view_seq_index(a@, i as int);
            lemma_view_seq_index(b@, i as int);
        }
        if !a[i].value_eq(&b[i]) {
            return false;
        }
        i += 1;
    }
    proof {
        assert(spec_view_seq(a@) =~= spec_view_seq(b@));
    }
    true
}

/// Whether two field lists reached through an owner have the same
/// models.
#[verifier::loop_isolation(false)]
fn fields_eq_rec(
    owner: &FortranValue,
    a: &Vec<(String, FortranValue)>,
    b: &Vec<(String, FortranValue)>,
) -> (r: bool)
    requires
        decreases_to!(*owner => *a),
    ensures
        r == (spec_view_fields(a@) == spec_view_fields(b@)),
    decreases owner, 0int,
{
    proof {
        lemma_view_fields_len(a@);
        lemma_view_fields_len(b@);
    }
    if a.len() != b.len() {
        return false;
    }
    let mut i: usize = 0;
    while i < a.len()
        invariant
            i <= a@.len(),
            a@.len() == b@.len(),
            forall|j: int|
                0 <= j < i ==> #[trigger] spec_view_fields(a@)[j] == spec_view_fields(b@)[j],
        decreases a@.len() - i,
    {
        proof {
            assert(decreases_to!(*a => a@));
            assert(decreases_to!(a@ => a@[i as int]));
            assert(decreases_to!(a@[i as int] => a@[i as int].1));
            assert(decreases_to!(*owner => a@[i as int].1));
            lemma_view_fields_index(a@, i as int);
            lemma_view_fields_index(b@, i as int);
        }
        if !string_eq(&a[i].0, &b[i].0) {
            proof {
                assert(spec_view_fields(a@)[i as int].0 != spec_view_fields(b@)[i as int].0);
            }
            return false;
        }
        if !a[i].1.value_eq(&b[i].1) {
            return false;
        }
        i += 1;
    }
    proof {
        assert(spec_view_fields(a@) =~= spec_view_fields(b@));
    }
    true
}

/// Whether two sequences of field lists have the same models.
#[verifier::loop_isolation(false)]
fn field_seqs_eq(
    owner: &FortranValue,
    a: &Vec<Vec<(String, FortranValue)>>,
    b: &Vec<Vec<(String, FortranValue)>>,
) -> (r: bool)
    requires
        decreases_to!(*owner => *a),
    ensures
        r == (spec_view_field_seq(a@) == spec_view_field_seq(b@)),
    decreases owner, 1int,
{
    proof {
        lemma_view_field_seq_len(a@);
        lemma_view_field_seq_len(b@);
    }
    if a.len() != b.len() {
        return false;
    }
    let mut i: usize = 0;
    while i < a.len()
        invariant
            i <= a@.len(),
            a@.len() == b@.len(),
            forall|j: int|
                0 <= j < i ==> #[trigger] spec_view_field_seq(a@)[j] == spec_view_field_seq(
                    b@,
                )[j],
        decreases a@.len() - i,
    {
        proof {
            assert(decreases_to!(*a => a@));
            assert(decreases_to!(a@ => a@[i as int]));
            assert(decreases_to!(*owner => a@[i as int]));
            lemma_view_field_seq_index(a@, i as int);
            lemma_view_field_seq_index(b@, i as int);
        }
        if !fields_eq_rec(owner, &a[i], &b[i]) {
            return false;
        }
        i += 1;
    }
    proof {
        assert(spec_view_field_seq(a@) =~= spec_view_field_seq(b@));
    }
    true
}

/// Whether two size vectors are equal.
pub fn usizes_eq(a: &Vec<usize>, b: &Vec<usize>) -> (r: bool)
    ensures
        r == (a@ == b@),
{
    if a.len() != b.len() {
        return false;
    }
    let mut i: usize = 0;
    while i < a.len()
        invariant
            i <= a@.len(),
            a@.len() == b@.len(),
            forall|j: int| 0 <= j < i ==> #[trigger] a@[j] == b@[j],
        decreases a@.len() - i,
    {
        if a[i] != b[i] {
            return false;
        }
        i += 1;
    }
    proof {
        assert(a@ =~= b@);
    }
    true
}

/// Whether two index vectors are equal.
pub fn i32s_eq(a: &Vec<i32>, b: &Vec<i32>) -> (r: bool)
    ensures
        r == (a@ == b@),
{
    if a.len() != b.len() {
        return false;
    }
    let mut i: usize = 0;
    while i < a.len()
        invariant
            i <= a@.len(),
            a@.len() == b@.len(),
            forall|j: int| 0 <= j < i ==> #[trigger] a@[j] == b@[j],
        decreases a@.len() - i,
    {
        if a[i] != b[i] {
            return false;
        }
        i += 1;
    }
    proof {
        assert(a@ =~= b@);
    }
    true
}

/// Pointwise well-formedness gives the recursive form back.
pub proof fn lemma_field_models_wf_all(s: Seq<(Seq<char>, ValueModel)>)
    requires
        forall|i: int| 0 <= i < s.len() ==> spec_model_wf((#[trigger] s[i]).1),
    ensures
        spec_field_models_wf(s),
    decreases s.len(),
{
    if s.len() > 0 {
        let t = s.drop_last();
        assert forall|i: int| 0 <= i < t.len() implies spec_model_wf((#[trigger] t[i]).1) by {
            assert(t[i] == s[i]);
        }
        lemma_field_models_wf_all(t);
    }
}

/// The integer a value converts to: integers themselves, and whole
/// finite reals.
pub open spec fn spec_as_integer(m: ValueModel) -> Option<int> {
    match m {
        ValueModel::Integer(n) => Some(n),
        ValueModel::Real(RealModel::Finite { neg, digits, exp }) => if exp >= 0 {
            Some(crate::fortran_types::realnum::spec_real_whole(neg, digits, exp))
        } else {
            None
        },
        _ => None,
    }
}

/// Whether a value converts to the named kind without loss.
pub open spec fn spec_can_convert(m: ValueModel, target: Seq<char>) -> bool {
    if m is Integer && (target == "real"@ || target == "complex"@) {
        true
    } else if m is Real && target == "integer"@ {
        match m {
            ValueModel::Real(RealModel::Finite { exp, .. }) => exp >= 0,
            _ => false,
        }
    } else if m is Real && target == "complex"@ {
        true
    } else if m is Complex && target == "real"@ {
        false
    } else {
        spec_type_name(m) == target
    }
}

impl FortranValue {
    /// Convert to a machine integer: an integer as it stands, or a
    /// whole finite real within range.
    pub fn as_integer(&self) -> (r: Result<i64, F90nmlError>)
        requires
            self.wf(),
        ensures
            r is Ok <==> (spec_as_integer(self.deep_view()) matches Some(n) && i64::MIN <= n && n
                <= i64::MAX),
            r matches Ok(v) ==> Some(v as int) == spec_as_integer(self.deep_view()),
            r is Err ==> r->Err_0 matches F90nmlError::TypeConversion { .. },
    {
        match self {
            FortranValue::Integer(n) => Ok(*n),
            FortranValue::Real(RealValue::Finite { neg, digits, exp }) => {
                if *exp >= 0 {
                    match crate::fortran_types::realnum::ds_whole_u64(digits.as_slice(), *exp) {
                        Some(mag) => {
                            proof {
                                crate::fortran_types::realnum::lemma_ds_whole_nonneg(digits@,
                                    *exp as int);
                            }
                            if *neg {
                                if mag <= 9223372036854775808u64 {
                                    Ok((-(mag as i128)) as i64)
                                } else {
                                    Err(self.conversion_error("integer"))
                                }
                            } else {
                                if mag <= i64::MAX as u64 {
                                    Ok(mag as i64)
                                } else {
                                    Err(self.conversion_error("integer"))
                                }
                            }
                        },
                        None => {
                            proof {
                                crate::fortran_types::realnum::lemma_ds_whole_nonneg(digits@,
                                    *exp as int);
                            }
                            Err(self.conversion_error("integer"))
                        },
                    }
                } else {
                    Err(self.conversion_error("integer"))
                }
            },
            _ => Err(self.conversion_error("integer")),
        }
    }

    /// Convert to a real value: reals as they stand, integers exactly.
    pub fn as_real(&self) -> (r: Result<RealValue, F90nmlError>)
        requires
            self.wf(),
        ensures
            r is Ok <==> (self.deep_view() is Real || self.deep_view() is Integer),
            self.deep_view() matches ValueModel::Real(rm) ==> (r matches Ok(v) && v.deep_view()
                == rm),
            self.deep_view() matches ValueModel::Integer(n) ==> (r matches Ok(v)
                && v.deep_view() matches RealModel::Finite { neg, digits, exp } && exp >= 0
                && crate::fortran_types::realnum::spec_real_whole(neg, digits, exp) == n),
            r matches Ok(v) ==> v.wf(),
            r is Err ==> r->Err_0 matches F90nmlError::TypeConversion { .. },
    {
        match self {
            FortranValue::Real(x) => {
                proof {
                    assert(crate::fortran_types::realnum::spec_real_wf(x.deep_view()));
                }
                Ok(dup_real(x))
            },
            FortranValue::Integer(n) => Ok(real_of_integer(*n)),
            _ => Err(self.conversion_error("real")),
        }
    }

    /// Convert to a complex pair: complex values as they stand, reals
    /// and integers with a zero imaginary part.
    pub fn as_complex(&self) -> (r: Result<(RealValue, RealValue), F90nmlError>)
        requires
            self.wf(),
        ensures
            r is Ok <==> (self.deep_view() is Complex || self.deep_view() is Real
                || self.deep_view() is Integer),
            self.deep_view() matches ValueModel::Complex(re, im) ==> (r matches Ok(v)
                && v.0.deep_view() == re && v.1.deep_view() == im),
            self.deep_view() matches ValueModel::Real(rm) ==> (r matches Ok(v) && v.0.deep_view()
                == rm && v.1.deep_view() == (RealModel::Finite {
                neg: false,
                digits: Seq::<u8>::empty(),
                exp: 0,
            })),
            self.deep_view() matches ValueModel::Integer(n) ==> (r matches Ok(v)
                && v.0.deep_view() matches RealModel::Finite { neg, digits, exp } && exp >= 0
                && crate::fortran_types::realnum::spec_real_whole(neg, digits, exp) == n
                && v.1.deep_view() == (RealModel::Finite {
                neg: false,
                digits: Seq::<u8>::empty(),
                exp: 0,
            })),
            r is Err ==> r->Err_0 matches F90nmlError::TypeConversion { .. },
    {
        match self {
            FortranValue::Complex(re, im) => Ok((dup_real(re), dup_real(im))),
            FortranValue::Real(x) => Ok((dup_real(x), RealValue::zero())),
            FortranValue::Integer(n) => Ok((real_of_integer(*n), RealValue::zero())),
            _ => Err(self.conversion_error("complex")),
        }
    }

    /// Convert to a logical value.
    pub fn as_logical(&self) -> (r: Result<bool, F90nmlError>)
        requires
            self.wf(),
        ensures
            r is Ok <==> self.deep_view() is Logical,
            self.deep_view() matches ValueModel::Logical(b) ==> r == Ok::<bool, F90nmlError>(b),
            r is Err ==> r->Err_0 matches F90nmlError::TypeConversion { .. },
    {
        match self {
            FortranValue::Logical(b) => Ok(*b),
            _ => Err(self.conversion_error("logical")),
        }
    }

    /// Convert to a character string.
    pub fn as_character(&self) -> (r: Result<&str, F90nmlError>)
        requires
            self.wf(),
        ensures
            r is Ok <==> self.deep_view() is Character,
            self.deep_view() matches ValueModel::Character(s) ==> (r matches Ok(v) && v@ == s),
            r is Err ==> r->Err_0 matches F90nmlError::TypeConversion { .. },
    {
        match self {
            FortranValue::Character(s) => Ok(s.as_str()),
            _ => Err(self.conversion_error("character")),
        }
    }

    /// Convert to the flat element list of an array value.
    pub fn as_array(&self) -> (r: Result<&Vec<FortranValue>, F90nmlError>)
        requires
            self.wf(),
        ensures
            r is Ok <==> (self.deep_view() is Array || self.deep_view() is MultiArray),
            self.deep_view() matches ValueModel::Array(items) ==> (r matches Ok(v)
                && spec_view_seq(v@) == items),
            self.deep_view() matches ValueModel::MultiArray { values, .. } ==> (r matches Ok(v)
                && spec_view_seq(v@) == values),
            r is Err ==> r->Err_0 matches F90nmlError::TypeConversion { .. },
    {
        match self {
            FortranValue::Array(items) => Ok(items),
            FortranValue::MultiArray { values, .. } => Ok(values),
            _ => Err(self.conversion_error("array")),
        }
    }

    /// Whether this value converts to the named kind without loss.
    pub fn can_convert_to(&self, target: &str) -> (r: bool)
        ensures
            r == spec_can_convert(self.deep_view(), target@),
    {
        let tc = crate::text::str_to_chars(target);
        match self {
            FortranValue::Integer(..) => {
                if crate::fortran_types::realnum::chars_eq_str(tc.as_slice(), "real")
                    || crate::fortran_types::realnum::chars_eq_str(tc.as_slice(), "complex") {
                    return true;
                }
            },
            FortranValue::Real(x) => {
                if crate::fortran_types::realnum::chars_eq_str(tc.as_slice(), "integer") {
                    return match x {
                        RealValue::Finite { exp, .. } => *exp >= 0,
                        _ => false,
                    };
                }
                if crate::fortran_types::realnum::chars_eq_str(tc.as_slice(), "complex") {
                    return true;
                }
            },
            FortranValue::Complex(..) => {
                if crate::fortran_types::realnum::chars_eq_str(tc.as_slice(), "real") {
                    return false;
                }
            },
            _ => {},
        }
        crate::fortran_types::realnum::chars_eq_str(
            crate::text::str_to_chars(self.kind_name()).as_slice(),
            target,
        )
    }

    /// The conversion error naming this value's kind, its text, and the
    /// kind asked for.
    fn conversion_error(&self, to: &str) -> (r: F90nmlError)
        requires
            self.wf(),
        ensures
            r matches F90nmlError::TypeConversion { .. },
    {
        let text = crate::fortran_types::formatting::default_value_text(self);
        F90nmlError::TypeConversion {
            from: self.kind_name().to_owned(),
            to: to.to_owned(),
            value: text,
        }
    }
}

/// The exact real carried by a machine integer.
pub fn real_of_integer(n: i64) -> (r: RealValue)
    ensures
        r.wf(),
        r.deep_view() matches RealModel::Finite { neg, digits, exp } && exp >= 0
            && crate::fortran_types::realnum::spec_real_whole(neg, digits, exp) == n as int,
{
    if n == 0 {
        let r = RealValue::zero();
        proof {
            assert(crate::fortran_types::realnum::spec_ds_val(Seq::<u8>::empty()) == 0);
            assert(crate::fortran_types::realnum::spec_pow10(0) == 1);
        }
        r
    } else {
        let neg = n < 0;
        let mag: u64 = if n < 0 {
            (-(n as i128)) as u64
        } else {
            n as u64
        };
        let cs = crate::digits::u64_to_chars(mag);
        let mut ds: Vec<u8> = Vec::new();
        let mut i: usize = 0;
        proof {
            crate::digits::lemma_nat_string_val(mag as int);
            assert(crate::fortran_types::realnum::spec_ds_val(ds@) == crate::digits::spec_digits_val(
                cs@.subrange(0, 0),
            )) by {
                assert(cs@.subrange(0, 0).len() == 0);
            }
        }
        while i < cs.len()
            invariant
                i <= cs@.len(),
                crate::digits::spec_all_digits(cs@),
                ds@.len() == i,
                forall|j: int| 0 <= j < ds@.len() ==> #[trigger] ds@[j] < 10,
                crate::fortran_types::realnum::spec_ds_val(ds@)
                    == crate::digits::spec_digits_val(cs@.subrange(0, i as int)),
                forall|j: int|
                    0 <= j < ds@.len() ==> #[trigger] ds@[j] as int
                        == crate::digits::spec_digit_val(cs@[j]),
            decreases cs@.len() - i,
        {
            let ghost prev = ds@;
            match crate::digits::digit_val(cs[i]) {
                Some(d) => {
                    ds.push(d as u8);
                },
                None => {
                    proof {
                        assert(false);
                    }
                },
            }
            i += 1;
            proof {
                assert(ds@.drop_last() =~= prev);
                assert(cs@.subrange(0, i as int).drop_last() =~= cs@.subrange(0, i - 1));
                assert(cs@.subrange(0, i as int).last() == cs@[i - 1]);
            }
        }
        proof {
            assert(cs@.subrange(0, cs@.len() as int) =~= cs@);
            // the digits denote the magnitude, start nonzero, and are few
            assert(crate::fortran_types::realnum::spec_ds_val(ds@) == mag as int);
            crate::fortran_types::realnum::lemma_nat_string_head(mag as int);
            assert(ds@[0] as int >= 1);
            assert(crate::fortran_types::realnum::spec_pow10(20) > u64::MAX as int) by {
                reveal_with_fuel(crate::fortran_types::realnum::spec_pow10, 21);
            }
            crate::fortran_types::realnum::lemma_nat_string_len(mag as int, 20);
            assert(ds@.len() <= 20);
            // the normalization strips nothing in front and keeps the value
            assert(crate::fortran_types::realnum::spec_strip_leading(ds@) =~= ds@);
            crate::fortran_types::realnum::lemma_strip_value(ds@, 0);
            crate::fortran_types::realnum::lemma_strip_trailing(ds@, 0);
            crate::fortran_types::realnum::lemma_strip_keeps_head(ds@, 0);
            assert(!crate::fortran_types::realnum::spec_real_big(neg, ds@, 0));
        }
        let r = crate::fortran_types::realnum::make_real(neg, ds, 0);
        proof {
            assert(crate::fortran_types::realnum::spec_pow10(0) == 1);
        }
        r
    }
}

} // verus!
