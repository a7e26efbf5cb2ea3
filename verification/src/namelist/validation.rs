//! Validation of a document: every array must be homogeneous (null
//! elements exempt), and every multi-dimensional array must hold
//! exactly as many elements as its extents multiply out to.

use vstd::prelude::*;

verus! {

use crate::error::F90nmlError;
use crate::findex::spec_prod_prefix;
use crate::fortran_types::value::FortranValue;
use crate::fortran_types::value::ValueModel;
use crate::fortran_types::value::spec_type_name;
use crate::fortran_types::value::lemma_view_seq_index;
use crate::namelist::document::Namelist;
use crate::namelist::group::NamelistGroup;

/// Every element past the first shares the first's kind, unless either
/// is the absence marker.
pub open spec fn spec_array_homogeneous(items: Seq<ValueModel>) -> bool {
    items.len() == 0 || forall|i: int|
        1 <= i < items.len() ==> (spec_type_name(#[trigger] items[i]) == spec_type_name(items[0])
            || items[i] is Null || items[0] is Null)
}

/// A flat multi-dimensional array holds exactly the product of its
/// extents.
pub open spec fn spec_multi_sized(values: Seq<ValueModel>, dims: Seq<usize>) -> bool {
    values.len() == spec_prod_prefix(dims, dims.len() as int)
}

/// A value passes validation: arrays are homogeneous, shaped arrays
/// are full, everything else is fine as it stands.
pub open spec fn spec_value_valid(m: ValueModel) -> bool {
    match m {
        ValueModel::Array(items) => spec_array_homogeneous(items),
        ValueModel::MultiArray { values, dimensions, .. } => spec_multi_sized(values, dimensions),
        _ => true,
    }
}

/// Every variable of the list passes validation.
pub open spec fn spec_vars_valid(vars: Seq<(Seq<char>, ValueModel)>) -> bool {
    forall|i: int| 0 <= i < vars.len() ==> spec_value_valid((#[trigger] vars[i]).1)
}

/// Every group of the document passes validation.
pub open spec fn spec_namelist_valid(
    groups: Seq<(Seq<char>, Seq<(Seq<char>, ValueModel)>)>,
) -> bool {
    forall|i: int| 0 <= i < groups.len() ==> spec_vars_valid((#[trigger] groups[i]).1)
}

/// A zero extent anywhere makes the whole product zero.
proof fn lemma_prod_zero(dims: Seq<usize>, z: int, j: int)
    requires
        0 <= z < j <= dims.len(),
        dims[z] == 0,
    ensures
        spec_prod_prefix(dims, j) == 0,
    decreases j,
{
    if j == z + 1 {
        assert(spec_prod_prefix(dims, j) == spec_prod_prefix(dims, j - 1) * 0);
    } else {
        lemma_prod_zero(dims, z, j - 1);
    }
}

/// With every extent positive, prefix products never shrink.
proof fn lemma_prod_mono(dims: Seq<usize>, a: int, b: int)
    requires
        0 <= a <= b <= dims.len(),
        forall|i: int| 0 <= i < dims.len() ==> (#[trigger] dims[i]) as int >= 1,
    ensures
        spec_prod_prefix(dims, b) >= spec_prod_prefix(dims, a),
        spec_prod_prefix(dims, a) >= 1,
    decreases b - a,
{
    crate::namelist::validation::lemma_prod_pos(dims, a);
    if a < b {
        lemma_prod_mono(dims, a + 1, b);
        assert(spec_prod_prefix(dims, a + 1) == spec_prod_prefix(dims, a) * dims[a] as int);
        assert(spec_prod_prefix(dims, a) * dims[a] as int >= spec_prod_prefix(dims, a))
            by (nonlinear_arith)
            requires
                spec_prod_prefix(dims, a) >= 1,
                dims[a] as int >= 1,
        ;
    }
}

/// With every extent positive, prefix products stay positive.
proof fn lemma_prod_pos(dims: Seq<usize>, a: int)
    requires
        0 <= a <= dims.len(),
        forall|i: int| 0 <= i < dims.len() ==> (#[trigger] dims[i]) as int >= 1,
    ensures
        spec_prod_prefix(dims, a) >= 1,
    decreases a,
{
    if a > 0 {
        lemma_prod_pos(dims, a - 1);
        assert(spec_prod_prefix(dims, a) == spec_prod_prefix(dims, a - 1) * dims[a - 1] as int);
        assert(spec_prod_prefix(dims, a - 1) * dims[a - 1] as int >= 1) by (nonlinear_arith)
            requires
                spec_prod_prefix(dims, a - 1) >= 1,
                dims[a - 1] as int >= 1,
        ;
    }
}

/// The product of the extents, or `None` when it exceeds the machine.
fn extents_product(dims: &Vec<usize>) -> (r: Option<usize>)
    ensures
        r matches Some(p) ==> p as int == spec_prod_prefix(dims@, dims@.len() as int),
        r is None ==> spec_prod_prefix(dims@, dims@.len() as int) > usize::MAX as int,
{
    // a zero extent forces the product to zero whatever else happens
    let mut z: usize = 0;
    while z < dims.len()
        invariant
            z <= dims@.len(),
            forall|i: int| 0 <= i < z ==> (#[trigger] dims@[i]) as int >= 1,
        decreases dims@.len() - z,
    {
        if dims[z] == 0 {
            proof {
                lemma_prod_zero(dims@, z as int, dims@.len() as int);
            }
            return Some(0);
        }
        z += 1;
    }
    let mut p: usize = 1;
    let mut i: usize = 0;
    while i < dims.len()
        invariant
            i <= dims@.len(),
            forall|k: int| 0 <= k < dims@.len() ==> (#[trigger] dims@[k]) as int >= 1,
            p as int == spec_prod_prefix(dims@, i as int),
        decreases dims@.len() - i,
    {
        p = match p.checked_mul(dims[i]) {
            Some(v) => v,
            None => {
                proof {
                    lemma_prod_mono(dims@, i + 1, dims@.len() as int);
                }
                return None;
            },
        };
        i += 1;
    }
    Some(p)
}

/// Whether two kind names are the same.
fn same_kind(a: &FortranValue, b: &FortranValue) -> (r: bool)
    ensures
        r == (spec_type_name(a.deep_view()) == spec_type_name(b.deep_view())),
{
    crate::fortran_types::realnum::chars_eq_str(
        crate::text::str_to_chars(a.kind_name()).as_slice(),
        b.kind_name(),
    )
}

/// The dotted place name an invalid value is reported under.
pub open spec fn spec_place(group_name: Seq<char>, var_name: Seq<char>) -> Seq<char> {
    group_name + seq!['%'] + var_name
}

/// Check one value; a violation names the place as `group%variable`.
#[verifier::loop_isolation(false)]
fn validate_value(value: &FortranValue, group_name: &str, var_name: &str) -> (r: Result<
    (),
    F90nmlError,
>)
    ensures
        r is Ok <==> spec_value_valid(value.deep_view()),
        r is Err ==> (r->Err_0 matches F90nmlError::InvalidValue { variable, .. } && variable@
            == spec_place(group_name@, var_name@)),
{
    match value {
        FortranValue::Array(items) => {
            proof {
                crate::fortran_types::value::lemma_view_seq_len(items@);
            }
            if items.len() == 0 {
                return Ok(());
            }
            let ghost models = crate::fortran_types::value::spec_view_seq(items@);
            let mut i: usize = 1;
            while i < items.len()
                invariant
                    1 <= i <= items@.len(),
                    forall|j: int|
                        1 <= j < i ==> (spec_type_name(#[trigger] models[j]) == spec_type_name(
                            models[0],
                        ) || models[j] is Null || models[0] is Null),
                decreases items@.len() - i,
            {
                proof {
                    lemma_view_seq_index(items@, i as int);
                    lemma_view_seq_index(items@, 0);
                }
                if !same_kind(&items[i], &items[0]) && !items[i].is_null() && !items[0].is_null() {
                    proof {
                        assert(!(spec_type_name(models[i as int]) == spec_type_name(models[0])
                            || models[i as int] is Null || models[0] is Null));
                        assert(!spec_array_homogeneous(models));
                    }
                    let place = place_name(group_name, var_name);
                    return Err(F90nmlError::invalid_value(
                        place.as_str(),
                        "an element of another kind",
                        "the first element's kind",
                    ));
                }
                i += 1;
            }
            proof {
                assert(spec_array_homogeneous(models));
                assert(value.deep_view() == ValueModel::Array(models));
            }
            Ok(())
        },
        FortranValue::MultiArray { values, dimensions, .. } => {
            proof {
                crate::fortran_types::value::lemma_view_seq_len(values@);
            }
            let vn = values.len();
            let expected = extents_product(dimensions);
            match expected {
                Some(p) => {
                    if vn == p {
                        Ok(())
                    } else {
                        let place = place_name(group_name, var_name);
                        Err(F90nmlError::invalid_value(
                            place.as_str(),
                            "a flat element count",
                            "the product of the extents",
                        ))
                    }
                },
                None => {
                    let place = place_name(group_name, var_name);
                    Err(F90nmlError::invalid_value(
                        place.as_str(),
                        "a flat element count",
                        "the product of the extents",
                    ))
                },
            }
        },
        _ => Ok(()),
    }
}

impl NamelistGroup {
    /// Check every variable of this group: arrays homogeneous, shaped
    /// arrays full.
    pub fn validate(&self, group_name: &str) -> (r: Result<(), F90nmlError>)
        ensures
            r is Ok <==> spec_vars_valid(self.spec_vars()),
            r is Err ==> (r->Err_0 matches F90nmlError::InvalidValue { variable, .. }
                && exists|i: int|
                    0 <= i < self.spec_vars().len() && variable@ == spec_place(
                        group_name@,
                        (#[trigger] self.spec_vars()[i]).0,
                    )),
    {
        let n = self.len();
        let mut i: usize = 0;
        while i < n
            invariant
                n == self.spec_vars().len(),
                i <= n,
                forall|j: int| 0 <= j < i ==> spec_value_valid((#[trigger] self.spec_vars()[j]).1),
            decreases n - i,
        {
            let (name, value) = self.entry_at(i);
            let name = name.clone();
            match validate_value(value, group_name, name.as_str()) {
                Ok(..) => {},
                Err(e) => {
                    return Err(e);
                },
            }
            i += 1;
        }
        Ok(())
    }
}

/// Check every group of a document.
pub fn validate_namelist(nml: &Namelist) -> (r: Result<(), F90nmlError>)
    ensures
        r is Ok <==> spec_namelist_valid(nml.spec_groups()),
        r is Err ==> r->Err_0 matches F90nmlError::InvalidValue { .. },
{
    let n = nml.len();
    let mut i: usize = 0;
    while i < n
        invariant
            n == nml.spec_groups().len(),
            i <= n,
            forall|j: int| 0 <= j < i ==> spec_vars_valid((#[trigger] nml.spec_groups()[j]).1),
        decreases n - i,
    {
        let (gname, group) = nml.group_at(i);
        let gname = gname.clone();
        match group.validate(gname.as_str()) {
            Ok(..) => {},
            Err(e) => {
                return Err(e);
            },
        }
        i += 1;
    }
    Ok(())
}

impl Namelist {
    /// Check every group of this document.
    pub fn validate(&self) -> (r: Result<(), F90nmlError>)
        ensures
            r is Ok <==> spec_namelist_valid(self.spec_groups()),
            r is Err ==> r->Err_0 matches F90nmlError::InvalidValue { .. },
    {
        validate_namelist(self)
    }
}

/// The `group%variable` place name.
fn place_name(group_name: &str, var_name: &str) -> (r: String)
    ensures
        r@ == spec_place(group_name@, var_name@),
{
    let mut out: Vec<char> = Vec::new();
    crate::fortran_types::realnum::append_chars(
        &mut out,
        crate::text::str_to_chars(group_name).as_slice(),
    );
    out.push('%');
    crate::fortran_types::realnum::append_chars(
        &mut out,
        crate::text::str_to_chars(var_name).as_slice(),
    );
    proof {
        assert(out@ =~= spec_place(group_name@, var_name@));
    }
    crate::text::chars_to_string(out.as_slice())
}

} // verus!
