//! Merging two values under a chosen strategy: the pure heart of patch
//! application.

use vstd::prelude::*;

verus! {

use crate::error::F90nmlError;
use crate::fortran_types::value::FortranValue;
use crate::fortran_types::value::ValueModel;
use crate::fortran_types::value::spec_view_seq;
use crate::fortran_types::value::spec_view_fields;
use crate::fortran_types::value::lemma_view_seq_push;
use crate::fortran_types::value::lemma_view_seq_len;
use crate::fortran_types::value::lemma_view_seq_index;
use crate::fortran_types::value::dup_values;
use crate::fortran_types::value::dup_fields;

/// Strategy for merging namelists and groups.
#[derive(Debug, Clone, Copy, PartialEq, Eq, Structural)]
pub enum MergeStrategy {
    /// Replace existing values completely
    Replace,
    /// Update existing values, add new ones
    Update,
    /// Append to arrays, update scalars
    Append,
    /// Keep existing variables untouched
    SkipExisting,
}

/// The default merge of an incoming value onto an existing one: a
/// non-array incoming value replaces, except that derived types merge
/// field-wise; an incoming array replaces an existing array and is
/// prefixed by an existing scalar.
pub open spec fn spec_merge_value(existing: ValueModel, incoming: ValueModel) -> ValueModel {
    match incoming {
        ValueModel::Array(na) => match existing {
            ValueModel::Array(..) => incoming,
            _ => ValueModel::Array(seq![existing] + na),
        },
        ValueModel::MultiArray { .. } => incoming,
        ValueModel::DerivedType(nf) => match existing {
            ValueModel::DerivedType(ef) => ValueModel::DerivedType(spec_field_union(ef, nf)),
            _ => incoming,
        },
        _ => incoming,
    }
}

/// Field-wise union: incoming fields override by name, fields absent
/// from the incoming side are retained.
pub open spec fn spec_field_union(
    existing: Seq<(Seq<char>, ValueModel)>,
    incoming: Seq<(Seq<char>, ValueModel)>,
) -> Seq<(Seq<char>, ValueModel)>
    decreases incoming.len(),
{
    if incoming.len() == 0 {
        existing
    } else {
        spec_field_union(
            spec_entry_update(existing, incoming[0].0, incoming[0].1),
            incoming.skip(1),
        )
    }
}

/// Update the entry with the given key in place, or append a new one.
pub open spec fn spec_entry_update(
    s: Seq<(Seq<char>, ValueModel)>,
    k: Seq<char>,
    v: ValueModel,
) -> Seq<(Seq<char>, ValueModel)>
    decreases s.len(),
{
    if s.len() == 0 {
        seq![(k, v)]
    } else if s[0].0 == k {
        seq![(k, v)] + s.skip(1)
    } else {
        seq![s[0]] + spec_entry_update(s.skip(1), k, v)
    }
}

/// The append merge of an incoming value onto an existing one: arrays
/// concatenate, a scalar joins an existing array at its end, two
/// scalars make a two-element array.
pub open spec fn spec_append_value(existing: ValueModel, incoming: ValueModel) -> ValueModel {
    match existing {
        ValueModel::Array(ea) => match incoming {
            ValueModel::Array(na) => ValueModel::Array(ea + na),
            _ => ValueModel::Array(ea.push(incoming)),
        },
        _ => ValueModel::Array(seq![existing, incoming]),
    }
}

/// Merge two values under the default strategy.
pub fn merge_values(existing: &FortranValue, incoming: &FortranValue) -> (r: Result<
    FortranValue,
    F90nmlError,
>)
    ensures
        r is Ok,
        r->Ok_0.deep_view() == spec_merge_value(existing.deep_view(), incoming.deep_view()),
{
    match incoming {
        FortranValue::Array(na) => match existing {
            FortranValue::Array(..) => Ok(incoming.dup()),
            _ => {
                let mut items: Vec<FortranValue> = Vec::new();
                let v0 = existing.dup();
                items.push(v0);
                let mut i: usize = 0;
                proof {
                    lemma_view_seq_len(na@);
                    assert(items@.len() == 1);
                    assert(items@.last() == v0);
                    assert(v0.deep_view() == existing.deep_view());
                    assert(items@.drop_last() =~= Seq::<FortranValue>::empty());
                    assert(spec_view_seq(items@.drop_last()) =~= Seq::<ValueModel>::empty());
                    assert(spec_view_seq(items@) =~= seq![existing.deep_view()]);
                }
                while i < na.len()
                    invariant
                        i <= na@.len(),
                        spec_view_seq(na@).len() == na@.len(),
                        spec_view_seq(items@) =~= seq![existing.deep_view()] + spec_view_seq(
                            na@,
                        ).subrange(0, i as int),
                    decreases na@.len() - i,
                {
                    let ghost prev = items@;
                    let v = na[i].dup();
                    items.push(v);
                    i += 1;
                    proof {
                        lemma_view_seq_push(prev, items@.last());
                        assert(items@ == prev.push(items@.last()));
                        lemma_view_seq_index(na@, i - 1);
                        assert(spec_view_seq(items@) =~= seq![existing.deep_view()]
                            + spec_view_seq(na@).subrange(0, i as int));
                    }
                }
                proof {
                    assert(spec_view_seq(na@).subrange(0, na@.len() as int) =~= spec_view_seq(
                        na@,
                    ));
                }
                Ok(FortranValue::Array(items))
            },
        },
        FortranValue::MultiArray { .. } => Ok(incoming.dup()),
        FortranValue::DerivedType(nf) => match existing {
            FortranValue::DerivedType(ef) => {
                let merged = field_union(ef, nf);
                Ok(FortranValue::DerivedType(merged))
            },
            _ => Ok(incoming.dup()),
        },
        _ => Ok(incoming.dup()),
    }
}

/// Field-wise union of two field lists.
#[verifier::loop_isolation(false)]
fn field_union(
    existing: &Vec<(String, FortranValue)>,
    incoming: &Vec<(String, FortranValue)>,
) -> (r: Vec<(String, FortranValue)>)
    ensures
        spec_view_fields(r@) == spec_field_union(spec_view_fields(existing@), spec_view_fields(
            incoming@,
        )),
{
    let mut r = dup_fields(existing);
    let mut i: usize = 0;
    proof {
        crate::fortran_types::value::lemma_view_fields_len(incoming@);
        assert(spec_view_fields(incoming@).subrange(0, incoming@.len() as int) =~= spec_view_fields(
            incoming@,
        ));
    }
    while i < incoming.len()
        invariant
            i <= incoming@.len(),
            spec_field_union(spec_view_fields(existing@), spec_view_fields(incoming@))
                == spec_field_union(
                spec_view_fields(r@),
                spec_view_fields(incoming@).subrange(i as int, incoming@.len() as int),
            ),
        decreases incoming@.len() - i,
    {
        let ghost rem = spec_view_fields(incoming@).subrange(i as int, incoming@.len() as int);
        let name = incoming[i].0.clone();
        let value = incoming[i].1.dup();
        let r2 = entry_update(r, &name, value);
        proof {
            crate::fortran_types::value::lemma_view_fields_index(incoming@, i as int);
            assert(rem[0] == (incoming@[i as int].0@, incoming@[i as int].1.deep_view()));
            assert(rem.skip(1) =~= spec_view_fields(incoming@).subrange(
                i + 1,
                incoming@.len() as int,
            ));
        }
        r = r2;
        i += 1;
    }
    proof {
        assert(spec_view_fields(incoming@).subrange(
            incoming@.len() as int,
            incoming@.len() as int,
        ) =~= Seq::<(Seq<char>, ValueModel)>::empty());
    }
    r
}

/// Update the entry with the given key, or append a new one.
#[verifier::loop_isolation(false)]
fn entry_update(fields: Vec<(String, FortranValue)>, name: &String, value: FortranValue) -> (r: Vec<
    (String, FortranValue),
>)
    ensures
        spec_view_fields(r@) == spec_entry_update(
            spec_view_fields(fields@),
            name@,
            value.deep_view(),
        ),
{
    let ghost target = spec_view_fields(fields@);
    let mut i: usize = 0;
    proof {
        crate::fortran_types::value::lemma_view_fields_len(fields@);
    }
    while i < fields.len()
        invariant
            i <= fields@.len(),
            forall|j: int| 0 <= j < i ==> (#[trigger] fields@[j].0@) != name@,
        decreases fields@.len() - i,
    {
        if crate::fortran_types::realnum::chars_eq_str(
            crate::text::str_to_chars(fields[i].0.as_str()).as_slice(),
            name.as_str(),
        ) {
            let ghost before0 = fields@;
            let mut r = fields;
            r.set(i, (name.clone(), value));
            proof {
                assert(r@[i as int].1 == value);
                lemma_view_fields_update(before0, r@, i as int, target, name@);
            }
            return r;
        }
        i += 1;
    }
    proof {
        assert forall|j: int| 0 <= j < target.len() implies (#[trigger] target[j].0) != name@ by {
            crate::fortran_types::value::lemma_view_fields_index(fields@, j);
        }
    }
    let mut r = fields;
    let ghost prev = r@;
    r.push((name.clone(), value));
    proof {
        crate::fortran_types::value::lemma_view_fields_push(prev, r@.last());
        assert(r@ == prev.push(r@.last()));
        lemma_entry_update_absent(target, name@, r@.last().1.deep_view());
        assert(spec_view_fields(r@) =~= spec_entry_update(target, name@, value.deep_view()));
    }
    r
}

/// Updating the first matching entry matches the spec update.
pub proof fn lemma_view_fields_update(
    before: Seq<(String, FortranValue)>,
    after: Seq<(String, FortranValue)>,
    i: int,
    target: Seq<(Seq<char>, ValueModel)>,
    name: Seq<char>,
)
    requires
        0 <= i < before.len(),
        after.len() == before.len(),
        after[i].0@ == name,
        forall|j: int| 0 <= j < before.len() && j != i ==> after[j] == before[j],
        forall|j: int| 0 <= j < i ==> (#[trigger] before[j].0@) != name,
        before[i].0@ == name,
        target == spec_view_fields(before),
    ensures
        spec_view_fields(after) =~= spec_entry_update(target, name, after[i].1.deep_view()),
{
    crate::fortran_types::value::lemma_view_fields_len(before);
    crate::fortran_types::value::lemma_view_fields_len(after);
    assert forall|j: int| 0 <= j < after.len() implies #[trigger] spec_view_fields(after)[j] == (
        if j == i {
            (name, after[i].1.deep_view())
        } else {
            target[j]
        }) by {
        crate::fortran_types::value::lemma_view_fields_index(after, j);
        crate::fortran_types::value::lemma_view_fields_index(before, j);
    }
    assert forall|j: int| 0 <= j < i implies (#[trigger] target[j].0) != name by {
        crate::fortran_types::value::lemma_view_fields_index(before, j);
    }
    assert(target[i].0 == name) by {
        crate::fortran_types::value::lemma_view_fields_index(before, i);
    }
    lemma_entry_update_at(target, name, after[i].1.deep_view(), i);
}

/// The spec update of a present key replaces that entry in place.
proof fn lemma_entry_update_at(
    s: Seq<(Seq<char>, ValueModel)>,
    k: Seq<char>,
    v: ValueModel,
    i: int,
)
    requires
        0 <= i < s.len(),
        s[i].0 == k,
        forall|j: int| 0 <= j < i ==> (#[trigger] s[j].0) != k,
    ensures
        spec_entry_update(s, k, v) =~= s.update(i, (k, v)),
    decreases i,
{
    if i == 0 {
        assert(spec_entry_update(s, k, v) =~= seq![(k, v)] + s.skip(1));
        assert(seq![(k, v)] + s.skip(1) =~= s.update(0, (k, v)));
    } else {
        assert(s[0].0 != k);
        let t = s.skip(1);
        assert(t[i - 1].0 == k);
        assert forall|j: int| 0 <= j < i - 1 implies (#[trigger] t[j].0) != k by {
            assert(t[j] == s[j + 1]);
        }
        lemma_entry_update_at(t, k, v, i - 1);
        assert(seq![s[0]] + t.update(i - 1, (k, v)) =~= s.update(i, (k, v)));
    }
}

/// The spec update of an absent key appends the new entry.
pub proof fn lemma_entry_update_absent(s: Seq<(Seq<char>, ValueModel)>, k: Seq<char>, v: ValueModel)
    requires
        forall|j: int| 0 <= j < s.len() ==> (#[trigger] s[j].0) != k,
    ensures
        spec_entry_update(s, k, v) =~= s.push((k, v)),
    decreases s.len(),
{
    if s.len() == 0 {
        assert(spec_entry_update(s, k, v) =~= s.push((k, v)));
    } else {
        let t = s.skip(1);
        assert forall|j: int| 0 <= j < t.len() implies (#[trigger] t[j].0) != k by {
            assert(t[j] == s[j + 1]);
        }
        lemma_entry_update_absent(t, k, v);
        assert(seq![s[0]] + t.push((k, v)) =~= s.push((k, v)));
    }
}

/// Append two values under the append strategy.
pub fn append_values(existing: &FortranValue, incoming: &FortranValue) -> (r: Result<
    FortranValue,
    F90nmlError,
>)
    ensures
        r is Ok,
        r->Ok_0.deep_view() == spec_append_value(existing.deep_view(), incoming.deep_view()),
{
    match existing {
        FortranValue::Array(ea) => match incoming {
            FortranValue::Array(na) => {
                let mut items = dup_values(ea);
                let more = dup_values(na);
                let ghost base = items@;
                let ghost basem = spec_view_seq(ea@);
                let mut i: usize = 0;
                proof {
                    lemma_view_seq_len(more@);
                    assert(spec_view_seq(more@) == spec_view_seq(na@));
                    assert(spec_view_seq(items@) =~= basem + spec_view_seq(more@).subrange(0, 0));
                }
                while i < more.len()
                    invariant
                        i <= more@.len(),
                        spec_view_seq(more@).len() == more@.len(),
                        spec_view_seq(more@) == spec_view_seq(na@),
                        spec_view_seq(items@) =~= basem + spec_view_seq(na@).subrange(0, i as int),
                    decreases more@.len() - i,
                {
                    let ghost prev = items@;
                    let v = more[i].dup();
                    items.push(v);
                    i += 1;
                    proof {
                        lemma_view_seq_push(prev, items@.last());
                        assert(items@ == prev.push(items@.last()));
                        lemma_view_seq_index(more@, i - 1);
                        assert(spec_view_seq(items@) =~= basem + spec_view_seq(na@).subrange(
                            0,
                            i as int,
                        ));
                    }
                }
                proof {
                    assert(spec_view_seq(na@).subrange(0, na@.len() as int) =~= spec_view_seq(
                        na@,
                    ));
                }
                Ok(FortranValue::Array(items))
            },
            _ => {
                let mut items = dup_values(ea);
                let ghost prev = items@;
                items.push(incoming.dup());
                proof {
                    lemma_view_seq_push(prev, items@.last());
                    assert(items@ == prev.push(items@.last()));
                }
                Ok(FortranValue::Array(items))
            },
        },
        _ => {
            let mut items: Vec<FortranValue> = Vec::new();
            let v0 = existing.dup();
            items.push(v0);
            proof {
                assert(items@.len() == 1);
                assert(items@.last() == v0);
                assert(v0.deep_view() == existing.deep_view());
                assert(items@.drop_last() =~= Seq::<FortranValue>::empty());
                assert(spec_view_seq(items@.drop_last()) =~= Seq::<ValueModel>::empty());
                assert(spec_view_seq(items@) =~= seq![existing.deep_view()]);
            }
            let ghost prev = items@;
            let v1 = incoming.dup();
            items.push(v1);
            proof {
                lemma_view_seq_push(prev, items@.last());
                assert(items@ == prev.push(items@.last()));
                assert(spec_view_seq(items@) =~= seq![
                    existing.deep_view(),
                    incoming.deep_view(),
                ]);
            }
            Ok(FortranValue::Array(items))
        },
    }
}

/// Every entry of a well-formed field-model list has a well-formed
/// value.
pub proof fn lemma_field_models_wf_at(s: Seq<(Seq<char>, ValueModel)>, i: int)
    requires
        crate::fortran_types::value::spec_field_models_wf(s),
        0 <= i < s.len(),
    ensures
        crate::fortran_types::value::spec_model_wf(s[i].1),
    decreases s.len(),
{
    if i < s.len() - 1 {
        lemma_field_models_wf_at(s.drop_last(), i);
    }
}

/// Every entry of an updated field list is the new entry or an old one.
pub proof fn lemma_entry_update_elems(s: Seq<(Seq<char>, ValueModel)>, k: Seq<char>, v: ValueModel)
    ensures
        forall|i: int|
            0 <= i < spec_entry_update(s, k, v).len() ==> (#[trigger] spec_entry_update(s, k, v)[i]
                == (k, v) || exists|j: int| 0 <= j < s.len() && spec_entry_update(s, k, v)[i] == s[j]),
    decreases s.len(),
{
    if s.len() == 0 {
    } else if s[0].0 == k {
        let r = spec_entry_update(s, k, v);
        assert forall|i: int| 0 <= i < r.len() implies (#[trigger] r[i] == (k, v) || exists|j: int|
            0 <= j < s.len() && r[i] == s[j]) by {
            if i > 0 {
                assert(r[i] == s[i]);
            }
        }
    } else {
        let t = s.skip(1);
        lemma_entry_update_elems(t, k, v);
        let r = spec_entry_update(s, k, v);
        let rt = spec_entry_update(t, k, v);
        assert forall|i: int| 0 <= i < r.len() implies (#[trigger] r[i] == (k, v) || exists|j: int|
            0 <= j < s.len() && r[i] == s[j]) by {
            if i == 0 {
                assert(r[0] == s[0]);
            } else {
                assert(r[i] == rt[i - 1]);
                if rt[i - 1] == (k, v) {
                } else {
                    let j = choose|j: int| 0 <= j < t.len() && rt[i - 1] == t[j];
                    assert(t[j] == s[j + 1]);
                }
            }
        }
    }
}

/// Updating with a well-formed value keeps a field list well-formed.
pub proof fn lemma_entry_update_preserves_wf(
    s: Seq<(Seq<char>, ValueModel)>,
    k: Seq<char>,
    v: ValueModel,
)
    requires
        crate::fortran_types::value::spec_field_models_wf(s),
        crate::fortran_types::value::spec_model_wf(v),
    ensures
        crate::fortran_types::value::spec_field_models_wf(spec_entry_update(s, k, v)),
{
    lemma_entry_update_elems(s, k, v);
    let r = spec_entry_update(s, k, v);
    assert forall|i: int| 0 <= i < r.len() implies crate::fortran_types::value::spec_model_wf(
        (#[trigger] r[i]).1,
    ) by {
        if r[i] == (k, v) {
        } else {
            let j = choose|j: int| 0 <= j < s.len() && r[i] == s[j];
            lemma_field_models_wf_at(s, j);
        }
    }
    crate::fortran_types::value::lemma_field_models_wf_all(r);
}

} // verus!
