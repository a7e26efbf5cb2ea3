//! A namelist group: an ordered, case-folded mapping from variable
//! names to values, with per-variable start indices and comments.

use vstd::prelude::*;

verus! {

use crate::error::F90nmlError;
use crate::fortran_types::value::FortranValue;
use crate::fortran_types::value::ValueModel;
use crate::fortran_types::value::spec_view_fields;
use crate::fortran_types::value::lemma_view_fields_len;
use crate::fortran_types::value::lemma_view_fields_index;
use crate::fortran_types::value::lemma_view_fields_push;
use crate::namelist::patching::spec_entry_update;
use crate::namelist::patching::MergeStrategy;
use crate::text::spec_lower_seq;

/// First-match lookup in an ordered association list.
pub open spec fn spec_assoc(s: Seq<(Seq<char>, ValueModel)>, k: Seq<char>) -> Option<ValueModel>
    decreases s.len(),
{
    if s.len() == 0 {
        None
    } else if s[0].0 == k {
        Some(s[0].1)
    } else {
        spec_assoc(s.skip(1), k)
    }
}

/// First-match lookup among the text entries.
pub open spec fn spec_assoc_text(s: Seq<(Seq<char>, Seq<char>)>, k: Seq<char>) -> Option<
    Seq<char>,
>
    decreases s.len(),
{
    if s.len() == 0 {
        None
    } else if s[0].0 == k {
        Some(s[0].1)
    } else {
        spec_assoc_text(s.skip(1), k)
    }
}

/// First-match lookup among the index entries.
pub open spec fn spec_assoc_idx(s: Seq<(Seq<char>, Seq<i32>)>, k: Seq<char>) -> Option<Seq<i32>>
    decreases s.len(),
{
    if s.len() == 0 {
        None
    } else if s[0].0 == k {
        Some(s[0].1)
    } else {
        spec_assoc_idx(s.skip(1), k)
    }
}

/// Update-or-append among the text entries.
pub open spec fn spec_update_text(
    s: Seq<(Seq<char>, Seq<char>)>,
    k: Seq<char>,
    v: Seq<char>,
) -> Seq<(Seq<char>, Seq<char>)>
    decreases s.len(),
{
    if s.len() == 0 {
        seq![(k, v)]
    } else if s[0].0 == k {
        seq![(k, v)] + s.skip(1)
    } else {
        seq![s[0]] + spec_update_text(s.skip(1), k, v)
    }
}

/// Update-or-append among the index entries.
pub open spec fn spec_update_idx(
    s: Seq<(Seq<char>, Seq<i32>)>,
    k: Seq<char>,
    v: Seq<i32>,
) -> Seq<(Seq<char>, Seq<i32>)>
    decreases s.len(),
{
    if s.len() == 0 {
        seq![(k, v)]
    } else if s[0].0 == k {
        seq![(k, v)] + s.skip(1)
    } else {
        seq![s[0]] + spec_update_idx(s.skip(1), k, v)
    }
}

/// The view of the comment entries.
pub open spec fn spec_view_texts(s: Seq<(String, String)>) -> Seq<(Seq<char>, Seq<char>)>
    decreases s,
{
    if s.len() == 0 {
        Seq::empty()
    } else {
        spec_view_texts(s.drop_last()).push((s.last().0@, s.last().1@))
    }
}

/// The view of the index entries.
pub open spec fn spec_view_idxs(s: Seq<(String, Vec<i32>)>) -> Seq<(Seq<char>, Seq<i32>)>
    decreases s,
{
    if s.len() == 0 {
        Seq::empty()
    } else {
        spec_view_idxs(s.drop_last()).push((s.last().0@, s.last().1@))
    }
}

/// A viewed text list has the same length and matching entries.
pub proof fn lemma_view_texts_index(s: Seq<(String, String)>, i: int)
    requires
        0 <= i < s.len(),
    ensures
        spec_view_texts(s).len() == s.len(),
        spec_view_texts(s)[i] == (s[i].0@, s[i].1@),
    decreases s.len(),
{
    lemma_view_texts_len(s);
    if i < s.len() - 1 {
        lemma_view_texts_index(s.drop_last(), i);
    }
}

/// A viewed text list has the same length.
pub proof fn lemma_view_texts_len(s: Seq<(String, String)>)
    ensures
        spec_view_texts(s).len() == s.len(),
    decreases s.len(),
{
    if s.len() > 0 {
        lemma_view_texts_len(s.drop_last());
    }
}

/// A viewed index list has the same length and matching entries.
pub proof fn lemma_view_idxs_index(s: Seq<(String, Vec<i32>)>, i: int)
    requires
        0 <= i < s.len(),
    ensures
        spec_view_idxs(s).len() == s.len(),
        spec_view_idxs(s)[i] == (s[i].0@, s[i].1@),
    decreases s.len(),
{
    lemma_view_idxs_len(s);
    if i < s.len() - 1 {
        lemma_view_idxs_index(s.drop_last(), i);
    }
}

/// A viewed index list has the same length.
pub proof fn lemma_view_idxs_len(s: Seq<(String, Vec<i32>)>)
    ensures
        spec_view_idxs(s).len() == s.len(),
    decreases s.len(),
{
    if s.len() > 0 {
        lemma_view_idxs_len(s.drop_last());
    }
}

/// A single namelist group.
#[derive(Debug, PartialEq)]
pub struct NamelistGroup {
    /// Variables in insertion order, keyed by lower-cased name
    variables: Vec<(String, FortranValue)>,
    /// Start indices of array variables, keyed by lower-cased name
    start_indices: Vec<(String, Vec<i32>)>,
    /// Inline comments, keyed by lower-cased name
    variable_comments: Vec<(String, String)>,
}

impl NamelistGroup {
    /// The ordered variable model.
    pub closed spec fn spec_vars(&self) -> Seq<(Seq<char>, ValueModel)> {
        spec_view_fields(self.variables@)
    }

    /// The start-index model.
    pub closed spec fn spec_starts(&self) -> Seq<(Seq<char>, Seq<i32>)> {
        spec_view_idxs(self.start_indices@)
    }

    /// The comment model.
    pub closed spec fn spec_comments(&self) -> Seq<(Seq<char>, Seq<char>)> {
        spec_view_texts(self.variable_comments@)
    }

    /// An empty group.
    pub fn new() -> (r: NamelistGroup)
        ensures
            r.spec_vars() =~= Seq::<(Seq<char>, ValueModel)>::empty(),
            r.spec_starts() =~= Seq::<(Seq<char>, Seq<i32>)>::empty(),
            r.spec_comments() =~= Seq::<(Seq<char>, Seq<char>)>::empty(),
    {
        NamelistGroup { variables: Vec::new(), start_indices: Vec::new(), variable_comments: Vec::new() }
    }

    /// Insert a variable under its lower-cased name: an existing slot is
    /// updated in place, a new name is appended.
    pub fn insert_value(&mut self, name: &str, value: FortranValue)
        ensures
            final(self).spec_vars() == spec_entry_update(
                old(self).spec_vars(),
                spec_lower_seq(name@),
                value.deep_view(),
            ),
            final(self).spec_starts() == old(self).spec_starts(),
            final(self).spec_comments() == old(self).spec_comments(),
    {
        let chars = crate::text::str_to_chars(name);
        let lowered = crate::text::lower_chars(chars.as_slice());
        let lname = crate::text::chars_to_string(lowered.as_slice());
        let ghost target = self.spec_vars();
        let n = self.variables.len();
        proof {
            lemma_view_fields_len(self.variables@);
        }
        let mut i: usize = 0;
        while i < n
            invariant
                n == self.variables@.len(),
                i <= n,
                lname@ == spec_lower_seq(name@),
                forall|j: int| 0 <= j < i ==> (#[trigger] self.variables@[j].0@) != lname@,
                self == old(self),
                target == spec_view_fields(self.variables@),
            decreases n - i,
        {
            if crate::fortran_types::realnum::chars_eq_str(
                crate::text::str_to_chars(self.variables[i].0.as_str()).as_slice(),
                lname.as_str(),
            ) {
                let ghost before0 = self.variables@;
                self.variables.set(i, (lname, value));
                proof {
                    assert(self.variables@[i as int].1 == value);
                    crate::namelist::patching::lemma_view_fields_update(
                        before0,
                        self.variables@,
                        i as int,
                        target,
                        lname@,
                    );
                }
                return ;
            }
            i += 1;
        }
        let ghost prev = self.variables@;
        self.variables.push((lname, value));
        proof {
            lemma_view_fields_push(prev, self.variables@.last());
            assert(self.variables@ == prev.push(self.variables@.last()));
            assert forall|j: int| 0 <= j < target.len() implies (#[trigger] target[j].0)
                != lname@ by {
                lemma_view_fields_index(prev, j);
            }
            crate::namelist::patching::lemma_entry_update_absent(
                target,
                lname@,
                value.deep_view(),
            );
            assert(final(self).spec_vars() =~= spec_entry_update(
                target,
                spec_lower_seq(name@),
                value.deep_view(),
            ));
        }
    }

    /// Look a variable up by name, case-insensitively.
    pub fn get(&self, name: &str) -> (r: Option<&FortranValue>)
        ensures
            r is Some <==> spec_assoc(self.spec_vars(), spec_lower_seq(name@)) is Some,
            r matches Some(v) ==> Some(v.deep_view()) == spec_assoc(
                self.spec_vars(),
                spec_lower_seq(name@),
            ),
    {
        let chars = crate::text::str_to_chars(name);
        let lowered = crate::text::lower_chars(chars.as_slice());
        let lname = crate::text::chars_to_string(lowered.as_slice());
        let ghost target = self.spec_vars();
        proof {
            lemma_view_fields_len(self.variables@);
            assert(target.subrange(0, target.len() as int) =~= target);
        }
        let mut i: usize = 0;
        while i < self.variables.len()
            invariant
                i <= self.variables@.len(),
                lname@ == spec_lower_seq(name@),
                target == self.spec_vars(),
                target.len() == self.variables@.len(),
                spec_assoc(target, lname@) == spec_assoc(
                    target.subrange(i as int, target.len() as int),
                    lname@,
                ),
                forall|j: int| 0 <= j < i ==> (#[trigger] self.variables@[j].0@) != lname@,
            decreases self.variables@.len() - i,
        {
            proof {
                lemma_view_fields_index(self.variables@, i as int);
            }
            if crate::fortran_types::realnum::chars_eq_str(
                crate::text::str_to_chars(self.variables[i].0.as_str()).as_slice(),
                lname.as_str(),
            ) {
                proof {
                    let rem = target.subrange(i as int, target.len() as int);
                    assert(rem[0] == target[i as int]);
                    assert(rem[0].0 == lname@);
                }
                return Some(&self.variables[i].1);
            }
            proof {
                let rem = target.subrange(i as int, target.len() as int);
                assert(rem[0] == target[i as int]);
                assert(rem[0].0 != lname@);
                assert(rem.skip(1) =~= target.subrange(i + 1, target.len() as int));
            }
            i += 1;
        }
        proof {
            assert(target.subrange(target.len() as int, target.len() as int)
                =~= Seq::<(Seq<char>, ValueModel)>::empty());
        }
        None
    }

    /// Look a variable up by name (alias of `get`).
    pub fn get_variable(&self, name: &str) -> (r: Option<&FortranValue>)
        ensures
            r is Some <==> spec_assoc(self.spec_vars(), spec_lower_seq(name@)) is Some,
            r matches Some(v) ==> Some(v.deep_view()) == spec_assoc(
                self.spec_vars(),
                spec_lower_seq(name@),
            ),
    {
        self.get(name)
    }

    /// Whether a variable of that name exists.
    pub fn has_variable(&self, name: &str) -> (r: bool)
        ensures
            r == (spec_assoc(self.spec_vars(), spec_lower_seq(name@)) is Some),
    {
        self.get(name).is_some()
    }

    /// The variable names, in insertion order.
    pub fn variable_names(&self) -> (r: Vec<String>)
        ensures
            r.deep_view().len() == self.spec_vars().len(),
            forall|i: int|
                0 <= i < r.deep_view().len() ==> #[trigger] r.deep_view()[i]
                    == self.spec_vars()[i].0,
    {
        let mut r: Vec<String> = Vec::new();
        proof {
            lemma_view_fields_len(self.variables@);
        }
        let mut i: usize = 0;
        while i < self.variables.len()
            invariant
                i <= self.variables@.len(),
                r@.len() == i,
                self.spec_vars().len() == self.variables@.len(),
                forall|j: int| 0 <= j < i ==> (#[trigger] r@[j]@) == self.spec_vars()[j].0,
            decreases self.variables@.len() - i,
        {
            let ghost prev = r@;
            r.push(self.variables[i].0.clone());
            i += 1;
            proof {
                lemma_view_fields_index(self.variables@, i - 1);
                assert forall|j: int| 0 <= j < i implies (#[trigger] r@[j]@)
                    == self.spec_vars()[j].0 by {
                    if j < i - 1 {
                        assert(r@[j] == prev[j]);
                    } else {
                        assert(r@[j] == r@.last());
                        assert(r@.last()@ == self.variables@[i - 1].0@);
                    }
                }
            }
        }
        proof {
            assert forall|j: int| 0 <= j < r@.len() implies #[trigger] r.deep_view()[j] == r@[j]@
                by {}
            assert(r.deep_view().len() == r@.len());
        }
        r
    }

    /// The number of variables.
    pub fn len(&self) -> (r: usize)
        ensures
            r == self.spec_vars().len(),
    {
        proof {
            lemma_view_fields_len(self.variables@);
        }
        self.variables.len()
    }

    /// Whether the group holds no variables.
    pub fn is_empty(&self) -> (r: bool)
        ensures
            r == (self.spec_vars().len() == 0),
    {
        self.len() == 0
    }

    /// The variable at a position, by name and value.
    pub fn entry_at(&self, i: usize) -> (r: (&String, &FortranValue))
        requires
            i < self.spec_vars().len(),
        ensures
            r.0@ == self.spec_vars()[i as int].0,
            r.1.deep_view() == self.spec_vars()[i as int].1,
    {
        proof {
            lemma_view_fields_len(self.variables@);
            lemma_view_fields_index(self.variables@, i as int);
        }
        (&self.variables[i].0, &self.variables[i].1)
    }

    /// Set the start indices of an array variable.
    pub fn set_start_indices(&mut self, name: &str, indices: Vec<i32>)
        ensures
            final(self).spec_starts() == spec_update_idx(
                old(self).spec_starts(),
                spec_lower_seq(name@),
                indices@,
            ),
            final(self).spec_vars() == old(self).spec_vars(),
            final(self).spec_comments() == old(self).spec_comments(),
    {
        let chars = crate::text::str_to_chars(name);
        let lowered = crate::text::lower_chars(chars.as_slice());
        let lname = crate::text::chars_to_string(lowered.as_slice());
        let ghost target = self.spec_starts();
        let n = self.start_indices.len();
        proof {
            lemma_view_idxs_len(self.start_indices@);
        }
        let mut i: usize = 0;
        while i < n
            invariant
                n == self.start_indices@.len(),
                i <= n,
                lname@ == spec_lower_seq(name@),
                forall|j: int| 0 <= j < i ==> (#[trigger] self.start_indices@[j].0@) != lname@,
                self == old(self),
                target == spec_view_idxs(self.start_indices@),
            decreases n - i,
        {
            if crate::fortran_types::realnum::chars_eq_str(
                crate::text::str_to_chars(self.start_indices[i].0.as_str()).as_slice(),
                lname.as_str(),
            ) {
                let ghost before0 = self.start_indices@;
                self.start_indices.set(i, (lname, indices));
                proof {
                    lemma_idx_update(before0, self.start_indices@, i as int, target, lname@);
                }
                return ;
            }
            i += 1;
        }
        let ghost prev = self.start_indices@;
        self.start_indices.push((lname, indices));
        proof {
            assert(self.start_indices@.drop_last() =~= prev);
            assert forall|j: int| 0 <= j < target.len() implies (#[trigger] target[j].0)
                != lname@ by {
                lemma_view_idxs_index(prev, j);
            }
            lemma_idx_append(target, lname@, indices@);
            assert(final(self).spec_starts() =~= spec_update_idx(
                target,
                spec_lower_seq(name@),
                indices@,
            ));
        }
    }

    /// The start indices of a variable, when set.
    pub fn get_start_indices(&self, name: &str) -> (r: Option<&Vec<i32>>)
        ensures
            r is Some <==> spec_assoc_idx(self.spec_starts(), spec_lower_seq(name@)) is Some,
            r matches Some(v) ==> Some(v@) == spec_assoc_idx(
                self.spec_starts(),
                spec_lower_seq(name@),
            ),
    {
        let chars = crate::text::str_to_chars(name);
        let lowered = crate::text::lower_chars(chars.as_slice());
        let lname = crate::text::chars_to_string(lowered.as_slice());
        let ghost target = self.spec_starts();
        proof {
            lemma_view_idxs_len(self.start_indices@);
            assert(target.subrange(0, target.len() as int) =~= target);
        }
        let mut i: usize = 0;
        while i < self.start_indices.len()
            invariant
                i <= self.start_indices@.len(),
                lname@ == spec_lower_seq(name@),
                target == self.spec_starts(),
                target.len() == self.start_indices@.len(),
                spec_assoc_idx(target, lname@) == spec_assoc_idx(
                    target.subrange(i as int, target.len() as int),
                    lname@,
                ),
            decreases self.start_indices@.len() - i,
        {
            proof {
                lemma_view_idxs_index(self.start_indices@, i as int);
                let rem = target.subrange(i as int, target.len() as int);
                assert(rem[0] == target[i as int]);
                assert(rem.skip(1) =~= target.subrange(i + 1, target.len() as int));
            }
            if crate::fortran_types::realnum::chars_eq_str(
                crate::text::str_to_chars(self.start_indices[i].0.as_str()).as_slice(),
                lname.as_str(),
            ) {
                return Some(&self.start_indices[i].1);
            }
            i += 1;
        }
        proof {
            assert(target.subrange(target.len() as int, target.len() as int)
                =~= Seq::<(Seq<char>, Seq<i32>)>::empty());
        }
        None
    }

    /// Attach an inline comment to a variable.
    pub fn set_comment(&mut self, name: &str, comment: &str)
        ensures
            final(self).spec_comments() == spec_update_text(
                old(self).spec_comments(),
                spec_lower_seq(name@),
                comment@,
            ),
            final(self).spec_vars() == old(self).spec_vars(),
            final(self).spec_starts() == old(self).spec_starts(),
    {
        let chars = crate::text::str_to_chars(name);
        let lowered = crate::text::lower_chars(chars.as_slice());
        let lname = crate::text::chars_to_string(lowered.as_slice());
        let ghost target = self.spec_comments();
        let n = self.variable_comments.len();
        proof {
            lemma_view_texts_len(self.variable_comments@);
        }
        let mut i: usize = 0;
        while i < n
            invariant
                n == self.variable_comments@.len(),
                i <= n,
                lname@ == spec_lower_seq(name@),
                forall|j: int| 0 <= j < i ==> (#[trigger] self.variable_comments@[j].0@) != lname@,
                self == old(self),
                target == spec_view_texts(self.variable_comments@),
            decreases n - i,
        {
            if crate::fortran_types::realnum::chars_eq_str(
                crate::text::str_to_chars(self.variable_comments[i].0.as_str()).as_slice(),
                lname.as_str(),
            ) {
                let ghost before0 = self.variable_comments@;
                self.variable_comments.set(i, (lname, comment.to_owned()));
                proof {
                    lemma_text_update(before0, self.variable_comments@, i as int, target, lname@);
                }
                return ;
            }
            i += 1;
        }
        let ghost prev = self.variable_comments@;
        self.variable_comments.push((lname, comment.to_owned()));
        proof {
            assert(self.variable_comments@.drop_last() =~= prev);
            assert forall|j: int| 0 <= j < target.len() implies (#[trigger] target[j].0)
                != lname@ by {
                lemma_view_texts_index(prev, j);
            }
            lemma_text_append(target, lname@, comment@);
            assert(final(self).spec_comments() =~= spec_update_text(
                target,
                spec_lower_seq(name@),
                comment@,
            ));
        }
    }

    /// The inline comment of a variable, when set.
    pub fn get_comment(&self, name: &str) -> (r: Option<&String>)
        ensures
            r is Some <==> spec_assoc_text(self.spec_comments(), spec_lower_seq(name@)) is Some,
            r matches Some(v) ==> Some(v@) == spec_assoc_text(
                self.spec_comments(),
                spec_lower_seq(name@),
            ),
    {
        let chars = crate::text::str_to_chars(name);
        let lowered = crate::text::lower_chars(chars.as_slice());
        let lname = crate::text::chars_to_string(lowered.as_slice());
        let ghost target = self.spec_comments();
        proof {
            lemma_view_texts_len(self.variable_comments@);
            assert(target.subrange(0, target.len() as int) =~= target);
        }
        let mut i: usize = 0;
        while i < self.variable_comments.len()
            invariant
                i <= self.variable_comments@.len(),
                lname@ == spec_lower_seq(name@),
                target == self.spec_comments(),
                target.len() == self.variable_comments@.len(),
                spec_assoc_text(target, lname@) == spec_assoc_text(
                    target.subrange(i as int, target.len() as int),
                    lname@,
                ),
            decreases self.variable_comments@.len() - i,
        {
            proof {
                lemma_view_texts_index(self.variable_comments@, i as int);
                let rem = target.subrange(i as int, target.len() as int);
                assert(rem[0] == target[i as int]);
                assert(rem.skip(1) =~= target.subrange(i + 1, target.len() as int));
            }
            if crate::fortran_types::realnum::chars_eq_str(
                crate::text::str_to_chars(self.variable_comments[i].0.as_str()).as_slice(),
                lname.as_str(),
            ) {
                return Some(&self.variable_comments[i].1);
            }
            i += 1;
        }
        proof {
            assert(target.subrange(target.len() as int, target.len() as int)
                =~= Seq::<(Seq<char>, Seq<char>)>::empty());
        }
        None
    }
}

/// Updating the first matching index entry matches the spec update.
proof fn lemma_idx_update(
    before: Seq<(String, Vec<i32>)>,
    after: Seq<(String, Vec<i32>)>,
    i: int,
    target: Seq<(Seq<char>, Seq<i32>)>,
    name: Seq<char>,
)
    requires
        0 <= i < before.len(),
        after.len() == before.len(),
        after[i].0@ == name,
        forall|j: int| 0 <= j < before.len() && j != i ==> after[j] == before[j],
        forall|j: int| 0 <= j < i ==> (#[trigger] before[j].0@) != name,
        before[i].0@ == name,
        target == spec_view_idxs(before),
    ensures
        spec_view_idxs(after) =~= spec_update_idx(target, name, after[i].1@),
{
    lemma_view_idxs_len(before);
    lemma_view_idxs_len(after);
    assert forall|j: int| 0 <= j < after.len() implies #[trigger] spec_view_idxs(after)[j] == (
        if j == i {
            (name, after[i].1@)
        } else {
            target[j]
        }) by {
        lemma_view_idxs_index(after, j);
        lemma_view_idxs_index(before, j);
    }
    assert forall|j: int| 0 <= j < i implies (#[trigger] target[j].0) != name by {
        lemma_view_idxs_index(before, j);
    }
    assert(target[i].0 == name) by {
        lemma_view_idxs_index(before, i);
    }
    lemma_idx_update_at(target, name, after[i].1@, i);
}

/// The spec update of a present key replaces that index entry in place.
proof fn lemma_idx_update_at(s: Seq<(Seq<char>, Seq<i32>)>, k: Seq<char>, v: Seq<i32>, i: int)
    requires
        0 <= i < s.len(),
        s[i].0 == k,
        forall|j: int| 0 <= j < i ==> (#[trigger] s[j].0) != k,
    ensures
        spec_update_idx(s, k, v) =~= s.update(i, (k, v)),
    decreases i,
{
    if i == 0 {
        assert(seq![(k, v)] + s.skip(1) =~= s.update(0, (k, v)));
    } else {
        let t = s.skip(1);
        assert forall|j: int| 0 <= j < i - 1 implies (#[trigger] t[j].0) != k by {
            assert(t[j] == s[j + 1]);
        }
        assert(t[i - 1].0 == k);
        lemma_idx_update_at(t, k, v, i - 1);
        assert(seq![s[0]] + t.update(i - 1, (k, v)) =~= s.update(i, (k, v)));
    }
}

/// The spec update of an absent key appends the new index entry.
proof fn lemma_idx_append(s: Seq<(Seq<char>, Seq<i32>)>, k: Seq<char>, v: Seq<i32>)
    requires
        forall|j: int| 0 <= j < s.len() ==> (#[trigger] s[j].0) != k,
    ensures
        spec_update_idx(s, k, v) =~= s.push((k, v)),
    decreases s.len(),
{
    if s.len() > 0 {
        let t = s.skip(1);
        assert forall|j: int| 0 <= j < t.len() implies (#[trigger] t[j].0) != k by {
            assert(t[j] == s[j + 1]);
        }
        lemma_idx_append(t, k, v);
        assert(seq![s[0]] + t.push((k, v)) =~= s.push((k, v)));
    } else {
        assert(spec_update_idx(s, k, v) =~= s.push((k, v)));
    }
}

/// Updating the first matching comment entry matches the spec update.
proof fn lemma_text_update(
    before: Seq<(String, String)>,
    after: Seq<(String, String)>,
    i: int,
    target: Seq<(Seq<char>, Seq<char>)>,
    name: Seq<char>,
)
    requires
        0 <= i < before.len(),
        after.len() == before.len(),
        after[i].0@ == name,
        forall|j: int| 0 <= j < before.len() && j != i ==> after[j] == before[j],
        forall|j: int| 0 <= j < i ==> (#[trigger] before[j].0@) != name,
        before[i].0@ == name,
        target == spec_view_texts(before),
    ensures
        spec_view_texts(after) =~= spec_update_text(target, name, after[i].1@),
{
    lemma_view_texts_len(before);
    lemma_view_texts_len(after);
    assert forall|j: int| 0 <= j < after.len() implies #[trigger] spec_view_texts(after)[j] == (
        if j == i {
            (name, after[i].1@)
        } else {
            target[j]
        }) by {
        lemma_view_texts_index(after, j);
        lemma_view_texts_index(before, j);
    }
    assert forall|j: int| 0 <= j < i implies (#[trigger] target[j].0) != name by {
        lemma_view_texts_index(before, j);
    }
    assert(target[i].0 == name) by {
        lemma_view_texts_index(before, i);
    }
    lemma_text_update_at(target, name, after[i].1@, i);
}

/// The spec update of a present key replaces that comment in place.
proof fn lemma_text_update_at(s: Seq<(Seq<char>, Seq<char>)>, k: Seq<char>, v: Seq<char>, i: int)
    requires
        0 <= i < s.len(),
        s[i].0 == k,
        forall|j: int| 0 <= j < i ==> (#[trigger] s[j].0) != k,
    ensures
        spec_update_text(s, k, v) =~= s.update(i, (k, v)),
    decreases i,
{
    if i == 0 {
        assert(seq![(k, v)] + s.skip(1) =~= s.update(0, (k, v)));
    } else {
        let t = s.skip(1);
        assert forall|j: int| 0 <= j < i - 1 implies (#[trigger] t[j].0) != k by {
            assert(t[j] == s[j + 1]);
        }
        assert(t[i - 1].0 == k);
        lemma_text_update_at(t, k, v, i - 1);
        assert(seq![s[0]] + t.update(i - 1, (k, v)) =~= s.update(i, (k, v)));
    }
}

/// The spec update of an absent key appends the new comment.
proof fn lemma_text_append(s: Seq<(Seq<char>, Seq<char>)>, k: Seq<char>, v: Seq<char>)
    requires
        forall|j: int| 0 <= j < s.len() ==> (#[trigger] s[j].0) != k,
    ensures
        spec_update_text(s, k, v) =~= s.push((k, v)),
    decreases s.len(),
{
    if s.len() > 0 {
        let t = s.skip(1);
        assert forall|j: int| 0 <= j < t.len() implies (#[trigger] t[j].0) != k by {
            assert(t[j] == s[j + 1]);
        }
        lemma_text_append(t, k, v);
        assert(seq![s[0]] + t.push((k, v)) =~= s.push((k, v)));
    } else {
        assert(spec_update_text(s, k, v) =~= s.push((k, v)));
    }
}

/// One step of patch application: the incoming value merges onto the
/// existing one under the default strategy, or is inserted.
pub open spec fn spec_patch_step(
    vars: Seq<(Seq<char>, ValueModel)>,
    k: Seq<char>,
    v: ValueModel,
) -> Seq<(Seq<char>, ValueModel)> {
    match spec_assoc(vars, spec_lower_seq(k)) {
        Some(ex) => spec_entry_update(
            vars,
            spec_lower_seq(k),
            crate::namelist::patching::spec_merge_value(ex, v),
        ),
        None => spec_entry_update(vars, spec_lower_seq(k), v),
    }
}

/// Patch application over the incoming entries, first to last.
pub open spec fn spec_patch_vars(
    vars: Seq<(Seq<char>, ValueModel)>,
    incoming: Seq<(Seq<char>, ValueModel)>,
) -> Seq<(Seq<char>, ValueModel)>
    decreases incoming.len(),
{
    if incoming.len() == 0 {
        vars
    } else {
        spec_patch_vars(spec_patch_step(vars, incoming[0].0, incoming[0].1), incoming.skip(1))
    }
}

/// One step of a strategy merge.
pub open spec fn spec_strategy_step(
    vars: Seq<(Seq<char>, ValueModel)>,
    k: Seq<char>,
    v: ValueModel,
    strategy: MergeStrategy,
) -> Seq<(Seq<char>, ValueModel)> {
    let lk = spec_lower_seq(k);
    match strategy {
        MergeStrategy::Replace => spec_entry_update(vars, lk, v),
        MergeStrategy::Update => spec_entry_update(vars, lk, v),
        MergeStrategy::Append => match spec_assoc(vars, lk) {
            Some(ex) => spec_entry_update(
                vars,
                lk,
                crate::namelist::patching::spec_append_value(ex, v),
            ),
            None => spec_entry_update(vars, lk, v),
        },
        MergeStrategy::SkipExisting => match spec_assoc(vars, lk) {
            Some(..) => vars,
            None => spec_entry_update(vars, lk, v),
        },
    }
}

/// Strategy merge over the incoming entries, first to last.
pub open spec fn spec_strategy_vars(
    vars: Seq<(Seq<char>, ValueModel)>,
    incoming: Seq<(Seq<char>, ValueModel)>,
    strategy: MergeStrategy,
) -> Seq<(Seq<char>, ValueModel)>
    decreases incoming.len(),
{
    if incoming.len() == 0 {
        vars
    } else {
        spec_strategy_vars(
            spec_strategy_step(vars, incoming[0].0, incoming[0].1, strategy),
            incoming.skip(1),
            strategy,
        )
    }
}

impl NamelistGroup {
    /// Apply another group as a patch: each incoming variable merges
    /// onto the existing one under the default merge, and the incoming
    /// start indices and comments are carried over.
    pub fn apply_patch(&mut self, patch: &NamelistGroup) -> (r: Result<(), F90nmlError>)
        ensures
            r is Ok,
            final(self).spec_vars() == spec_patch_vars(old(self).spec_vars(), patch.spec_vars()),
    {
        let ghost incoming = patch.spec_vars();
        let n = patch.len();
        proof {
            assert(incoming.subrange(0, incoming.len() as int) =~= incoming);
        }
        let mut i: usize = 0;
        while i < n
            invariant
                n == incoming.len(),
                i <= n,
                incoming == patch.spec_vars(),
                spec_patch_vars(old(self).spec_vars(), incoming) == spec_patch_vars(
                    self.spec_vars(),
                    incoming.subrange(i as int, incoming.len() as int),
                ),
            decreases n - i,
        {
            let ghost rem = incoming.subrange(i as int, incoming.len() as int);
            let (name, pv) = patch.entry_at(i);
            let name = name.clone();
            let merged = match self.get(name.as_str()) {
                Some(existing) => {
                    match crate::namelist::patching::merge_values(existing, pv) {
                        Ok(m) => m,
                        Err(e) => {
                            return Err(e);
                        },
                    }
                },
                None => pv.dup(),
            };
            self.insert_value(name.as_str(), merged);
            match patch.get_start_indices(name.as_str()) {
                Some(idx) => {
                    let copied = crate::fortran_types::value::copy_i32_vec(idx);
                    self.set_start_indices(name.as_str(), copied);
                },
                None => {},
            }
            match patch.get_comment(name.as_str()) {
                Some(c) => {
                    let text = c.clone();
                    self.set_comment(name.as_str(), text.as_str());
                },
                None => {},
            }
            i += 1;
            proof {
                assert(rem[0] == incoming[i - 1]);
                assert(rem.skip(1) =~= incoming.subrange(i as int, incoming.len() as int));
            }
        }
        proof {
            assert(incoming.subrange(incoming.len() as int, incoming.len() as int)
                =~= Seq::<(Seq<char>, ValueModel)>::empty());
        }
        Ok(())
    }

    /// Merge another group into this one under the given strategy.
    pub fn merge_with_strategy(&mut self, other: &NamelistGroup, strategy: MergeStrategy) -> (r:
        Result<(), F90nmlError>)
        ensures
            r is Ok,
            final(self).spec_vars() == spec_strategy_vars(
                old(self).spec_vars(),
                other.spec_vars(),
                strategy,
            ),
    {
        let ghost incoming = other.spec_vars();
        let n = other.len();
        proof {
            assert(incoming.subrange(0, incoming.len() as int) =~= incoming);
        }
        let mut i: usize = 0;
        while i < n
            invariant
                n == incoming.len(),
                i <= n,
                incoming == other.spec_vars(),
                spec_strategy_vars(old(self).spec_vars(), incoming, strategy)
                    == spec_strategy_vars(
                    self.spec_vars(),
                    incoming.subrange(i as int, incoming.len() as int),
                    strategy,
                ),
            decreases n - i,
        {
            let ghost rem = incoming.subrange(i as int, incoming.len() as int);
            let (name, ov) = other.entry_at(i);
            let name = name.clone();
            let mut skipped = false;
            match strategy {
                MergeStrategy::Replace => {
                    self.insert_value(name.as_str(), ov.dup());
                },
                MergeStrategy::Update => {
                    self.insert_value(name.as_str(), ov.dup());
                },
                MergeStrategy::Append => {
                    let appended = match self.get(name.as_str()) {
                        Some(existing) => {
                            match crate::namelist::patching::append_values(existing, ov) {
                                Ok(m) => m,
                                Err(e) => {
                                    return Err(e);
                                },
                            }
                        },
                        None => ov.dup(),
                    };
                    self.insert_value(name.as_str(), appended);
                },
                MergeStrategy::SkipExisting => {
                    if !self.has_variable(name.as_str()) {
                        self.insert_value(name.as_str(), ov.dup());
                    } else {
                        skipped = true;
                    }
                },
            }
            if strategy != MergeStrategy::SkipExisting {
                match other.get_start_indices(name.as_str()) {
                    Some(idx) => {
                        let copied = crate::fortran_types::value::copy_i32_vec(idx);
                        self.set_start_indices(name.as_str(), copied);
                    },
                    None => {},
                }
                match other.get_comment(name.as_str()) {
                    Some(c) => {
                        let text = c.clone();
                        self.set_comment(name.as_str(), text.as_str());
                    },
                    None => {},
                }
            }
            i += 1;
            proof {
                assert(rem[0] == incoming[i - 1]);
                assert(rem.skip(1) =~= incoming.subrange(i as int, incoming.len() as int));
            }
        }
        proof {
            assert(incoming.subrange(incoming.len() as int, incoming.len() as int)
                =~= Seq::<(Seq<char>, ValueModel)>::empty());
        }
        Ok(())
    }
}

impl NamelistGroup {
    /// A copy of this group with the same models.
    pub fn dup(&self) -> (r: NamelistGroup)
        ensures
            r.spec_vars() == self.spec_vars(),
            r.spec_starts() == self.spec_starts(),
            r.spec_comments() == self.spec_comments(),
    {
        NamelistGroup {
            variables: crate::fortran_types::value::dup_fields(&self.variables),
            start_indices: dup_idxs(&self.start_indices),
            variable_comments: dup_texts(&self.variable_comments),
        }
    }
}

/// A copy of an index list with the same view.
fn dup_idxs(s: &Vec<(String, Vec<i32>)>) -> (r: Vec<(String, Vec<i32>)>)
    ensures
        spec_view_idxs(r@) == spec_view_idxs(s@),
{
    let mut r: Vec<(String, Vec<i32>)> = Vec::new();
    proof {
        lemma_view_idxs_len(s@);
    }
    let mut i: usize = 0;
    while i < s.len()
        invariant
            i <= s@.len(),
            r@.len() == i,
            spec_view_idxs(s@).len() == s@.len(),
            spec_view_idxs(r@) =~= spec_view_idxs(s@).subrange(0, i as int),
        decreases s@.len() - i,
    {
        let ghost prev = r@;
        let name = s[i].0.clone();
        let idx = crate::fortran_types::value::copy_i32_vec(&s[i].1);
        r.push((name, idx));
        i += 1;
        proof {
            assert(r@.drop_last() =~= prev);
            lemma_view_idxs_index(s@, i - 1);
            assert(spec_view_idxs(r@) =~= spec_view_idxs(s@).subrange(0, i as int));
        }
    }
    proof {
        assert(spec_view_idxs(s@).subrange(0, s@.len() as int) =~= spec_view_idxs(s@));
    }
    r
}

/// A copy of a comment list with the same view.
fn dup_texts(s: &Vec<(String, String)>) -> (r: Vec<(String, String)>)
    ensures
        spec_view_texts(r@) == spec_view_texts(s@),
{
    let mut r: Vec<(String, String)> = Vec::new();
    proof {
        lemma_view_texts_len(s@);
    }
    let mut i: usize = 0;
    while i < s.len()
        invariant
            i <= s@.len(),
            r@.len() == i,
            spec_view_texts(s@).len() == s@.len(),
            spec_view_texts(r@) =~= spec_view_texts(s@).subrange(0, i as int),
        decreases s@.len() - i,
    {
        let ghost prev = r@;
        let name = s[i].0.clone();
        let text = s[i].1.clone();
        r.push((name, text));
        i += 1;
        proof {
            assert(r@.drop_last() =~= prev);
            lemma_view_texts_index(s@, i - 1);
            assert(spec_view_texts(r@) =~= spec_view_texts(s@).subrange(0, i as int));
        }
    }
    proof {
        assert(spec_view_texts(s@).subrange(0, s@.len() as int) =~= spec_view_texts(s@));
    }
    r
}

/// The options a namelist value is rendered with: the case choice and
/// the fixed real precision are carried down from the write options.
pub open spec fn spec_value_opts(uppercase: bool, prec: Option<int>) -> crate::fortran_types::formatting::FormatModel {
    crate::fortran_types::formatting::FormatModel {
        uppercase,
        precision: prec,
        threshold: None,
        complex_math: false,
        quote: '\'',
        marker: 'e',
    }
}

/// The stored index list of a scalar variable, comma-separated.
pub open spec fn spec_idx_list(sv: Seq<i32>, k: int) -> Seq<char>
    decreases sv.len() - k when 0 <= k <= sv.len()
{
    if k >= sv.len() {
        Seq::empty()
    } else if k == 0 {
        crate::digits::spec_int_string(sv[0] as int) + spec_idx_list(sv, 1)
    } else {
        seq![','] + crate::digits::spec_int_string(sv[k] as int) + spec_idx_list(sv, k + 1)
    }
}

/// The index header of a variable: plain arrays carry their index
/// range, computed from the stored start index or the default origin;
/// any other value with stored start indices carries them verbatim.
pub open spec fn spec_var_header(v: ValueModel, starts: Option<Seq<i32>>, dsi: int) -> Seq<char> {
    match v {
        ValueModel::Array(items) => {
            if items.len() == 0 {
                Seq::empty()
            } else {
                let s = (match starts {
                    Some(sv) => if sv.len() > 0 {
                        sv[0] as int
                    } else {
                        dsi
                    },
                    None => dsi,
                });
                if items.len() == 1 {
                    seq!['('] + crate::digits::spec_int_string(s) + seq![')']
                } else {
                    seq!['('] + crate::digits::spec_int_string(s) + seq![':']
                        + crate::digits::spec_int_string(s + items.len() - 1) + seq![')']
                }
            }
        },
        _ => match starts {
            Some(sv) => if sv.len() > 0 {
                seq!['('] + spec_idx_list(sv, 0) + seq![')']
            } else {
                Seq::empty()
            },
            None => Seq::empty(),
        },
    }
}

/// The comment tail of a variable line.
pub open spec fn spec_comment_tail(c: Option<Seq<char>>) -> Seq<char> {
    match c {
        Some(t) => {
            let tt = crate::text::spec_trim(t);
            if tt.len() == 0 {
                Seq::empty()
            } else if tt[0] == '!' {
                "  "@ + tt
            } else {
                "  ! "@ + tt
            }
        },
        None => Seq::empty(),
    }
}

/// One field line of a derived-type variable: the variable head, the
/// field name, and the field's rendered value.
pub open spec fn spec_dt_field_line(
    head: Seq<char>,
    fname: Seq<char>,
    fv: ValueModel,
    indent: Seq<char>,
    end_comma: bool,
    uppercase: bool,
    prec: Option<int>,
) -> Seq<char> {
    indent + head + seq!['%'] + crate::namelist::document::spec_cased(fname, uppercase) + " = "@
        + crate::fortran_types::formatting::spec_format_value(fv, spec_value_opts(uppercase, prec))
        + (if end_comma {
        seq![',']
    } else {
        Seq::empty()
    }) + seq!['\n']
}

/// The field lines of a derived-type variable, one per field, in
/// stored order.
pub open spec fn spec_dt_lines(
    head: Seq<char>,
    fields: Seq<(Seq<char>, ValueModel)>,
    indent: Seq<char>,
    end_comma: bool,
    uppercase: bool,
    prec: Option<int>,
) -> Seq<char>
    decreases fields.len(),
{
    if fields.len() == 0 {
        Seq::empty()
    } else {
        spec_dt_field_line(head, fields[0].0, fields[0].1, indent, end_comma, uppercase, prec)
            + spec_dt_lines(head, fields.skip(1), indent, end_comma, uppercase, prec)
    }
}

/// The field lines of a derived-type array variable: each element in
/// turn under its one-based-or-stored origin index, which saturates at
/// the machine bound.
pub open spec fn spec_dta_lines(
    name_cased: Seq<char>,
    els: Seq<Seq<(Seq<char>, ValueModel)>>,
    indent: Seq<char>,
    end_comma: bool,
    uppercase: bool,
    prec: Option<int>,
    idx: int,
) -> Seq<char>
    decreases els.len(),
{
    if els.len() == 0 {
        Seq::empty()
    } else {
        spec_dt_lines(
            name_cased + seq!['('] + crate::digits::spec_int_string(idx) + seq![')'],
            els[0],
            indent,
            end_comma,
            uppercase,
            prec,
        ) + spec_dta_lines(
            name_cased,
            els.skip(1),
            indent,
            end_comma,
            uppercase,
            prec,
            if idx < i64::MAX as int {
                idx + 1
            } else {
                idx
            },
        )
    }
}

/// One assignment of the canonical group text: a derived-type value
/// renders as one line per field and a derived-type array as one line
/// per element and field; every other value renders as a single line.
/// Derived-type lines carry no comment tail.
pub open spec fn spec_var_line(
    name: Seq<char>,
    v: ValueModel,
    starts: Option<Seq<i32>>,
    comment: Option<Seq<char>>,
    indent: Seq<char>,
    end_comma: bool,
    uppercase: bool,
    prec: Option<int>,
    dsi: int,
) -> Seq<char> {
    match v {
        ValueModel::DerivedType(fields) => spec_dt_lines(
            crate::namelist::document::spec_cased(name, uppercase),
            fields,
            indent,
            end_comma,
            uppercase,
            prec,
        ),
        ValueModel::DerivedTypeArray(els) => spec_dta_lines(
            crate::namelist::document::spec_cased(name, uppercase),
            els,
            indent,
            end_comma,
            uppercase,
            prec,
            dsi,
        ),
        _ => indent + crate::namelist::document::spec_cased(name, uppercase) + spec_var_header(
            v,
            starts,
            dsi,
        ) + " = "@ + crate::fortran_types::formatting::spec_format_value(
            v,
            spec_value_opts(uppercase, prec),
        ) + (if end_comma {
            seq![',']
        } else {
            Seq::empty()
        }) + spec_comment_tail(comment) + seq!['\n'],
    }
}

/// The canonical text of a group's variables, one line each, in order.
pub open spec fn spec_group_text(
    vars: Seq<(Seq<char>, ValueModel)>,
    starts: Seq<(Seq<char>, Seq<i32>)>,
    comments: Seq<(Seq<char>, Seq<char>)>,
    indent: Seq<char>,
    end_comma: bool,
    uppercase: bool,
    prec: Option<int>,
    dsi: int,
) -> Seq<char>
    decreases vars.len(),
{
    if vars.len() == 0 {
        Seq::empty()
    } else {
        spec_var_line(
            vars[0].0,
            vars[0].1,
            spec_assoc_idx(starts, spec_lower_seq(vars[0].0)),
            spec_assoc_text(comments, spec_lower_seq(vars[0].0)),
            indent,
            end_comma,
            uppercase,
            prec,
            dsi,
        ) + spec_group_text(vars.skip(1), starts, comments, indent, end_comma, uppercase, prec,
        dsi)
    }
}

impl NamelistGroup {
    /// The canonical text of this group's variables.
    #[verifier::loop_isolation(false)]
    #[verifier::rlimit(100)]
    pub fn to_fortran_string(&self, options: &crate::namelist::document::WriteOptions) -> (r:
        Result<String, F90nmlError>)
        requires
            crate::fortran_types::value::spec_field_models_wf(self.spec_vars()),
        ensures
            r is Ok,
            r->Ok_0@ == spec_group_text(
                self.spec_vars(),
                self.spec_starts(),
                self.spec_comments(),
                options.indent@,
                options.end_comma,
                options.uppercase,
                crate::namelist::document::spec_write_prec(*options),
                options.default_start_index as int,
            ),
    {
        let ghost vars = self.spec_vars();
        let mut out: Vec<char> = Vec::new();
        let n = self.len();
        proof {
            assert(vars.skip(0) =~= vars);
        }
        let mut i: usize = 0;
        while i < n
            invariant
                n == vars.len(),
                i <= n,
                spec_group_text(
                    vars,
                    self.spec_starts(),
                    self.spec_comments(),
                    options.indent@,
                    options.end_comma,
                    options.uppercase,
                    crate::namelist::document::spec_write_prec(*options),
                    options.default_start_index as int,
                ) =~= out@ + spec_group_text(
                    vars.skip(i as int),
                    self.spec_starts(),
                    self.spec_comments(),
                    options.indent@,
                    options.end_comma,
                    options.uppercase,
                    crate::namelist::document::spec_write_prec(*options),
                    options.default_start_index as int,
                ),
            decreases n - i,
        {
            let ghost rem = vars.skip(i as int);
            let (name, value) = self.entry_at(i);
            let name = name.clone();
            proof {
                assert(rem[0] == vars[i as int]);
                assert(rem.skip(1) =~= vars.skip(i + 1));
                crate::namelist::patching::lemma_field_models_wf_at(vars, i as int);
            }
            let line = self.var_line(&name, value, options);
            crate::fortran_types::realnum::append_chars(&mut out, line.as_slice());
            i += 1;
            proof {
                assert(vars[i - 1].0 == name@) by {
                    assert(rem[0].0 == name@);
                }
                assert(spec_group_text(
                    vars,
                    self.spec_starts(),
                    self.spec_comments(),
                    options.indent@,
                    options.end_comma,
                    options.uppercase,
                    crate::namelist::document::spec_write_prec(*options),
                    options.default_start_index as int,
                ) =~= out@ + spec_group_text(
                    vars.skip(i as int),
                    self.spec_starts(),
                    self.spec_comments(),
                    options.indent@,
                    options.end_comma,
                    options.uppercase,
                    crate::namelist::document::spec_write_prec(*options),
                    options.default_start_index as int,
                ));
            }
        }
        proof {
            assert(vars.skip(vars.len() as int).len() == 0);
        }
        Ok(crate::text::chars_to_string(out.as_slice()))
    }
}

/// Every field list of a well-formed sequence is well-formed.
pub proof fn lemma_field_seq_wf_at(s: Seq<Seq<(Seq<char>, ValueModel)>>, i: int)
    requires
        crate::fortran_types::value::spec_field_model_seq_wf(s),
        0 <= i < s.len(),
    ensures
        crate::fortran_types::value::spec_field_models_wf(s[i]),
    decreases s.len(),
{
    if i < s.len() - 1 {
        lemma_field_seq_wf_at(s.drop_last(), i);
    }
}

/// One rendered field line of a derived-type variable.
#[verifier::loop_isolation(false)]
#[verifier::rlimit(100)]
fn dt_field_line(
    head: &Vec<char>,
    fname: &String,
    fv: &FortranValue,
    options: &crate::namelist::document::WriteOptions,
) -> (out: Vec<char>)
    requires
        crate::fortran_types::value::spec_model_wf(fv.deep_view()),
    ensures
        out@ == spec_dt_field_line(
            head@,
            fname@,
            fv.deep_view(),
            options.indent@,
            options.end_comma,
            options.uppercase,
            crate::namelist::document::spec_write_prec(*options),
        ),
{
    let mut out: Vec<char> = Vec::new();
    crate::fortran_types::realnum::append_chars(
        &mut out,
        crate::text::str_to_chars(options.indent.as_str()).as_slice(),
    );
    crate::fortran_types::realnum::append_chars(&mut out, head.as_slice());
    out.push('%');
    let fchars = crate::text::str_to_chars(fname.as_str());
    if options.uppercase {
        let upped = crate::text::upper_chars(fchars.as_slice());
        crate::fortran_types::realnum::append_chars(&mut out, upped.as_slice());
    } else {
        crate::fortran_types::realnum::append_chars(&mut out, fchars.as_slice());
    }
    out.push(' ');
    out.push('=');
    out.push(' ');
    let vtext = fv.format_chars(
        &crate::fortran_types::formatting::FormatOptions {
            uppercase: options.uppercase,
            float_precision: match options.float_precision {
                Some(p) => Some(if p > 4096 { 4096 } else { p }),
                None => None,
            },
            exponential_threshold: None,
            complex_format: crate::fortran_types::formatting::ComplexFormat::Parentheses,
            string_quote_style: crate::fortran_types::formatting::QuoteStyle::Single,
            use_fortran_double: false,
        },
    );
    crate::fortran_types::realnum::append_chars(&mut out, vtext.as_slice());
    if options.end_comma {
        out.push(',');
    }
    out.push('\n');
    proof {
        assert(" = "@ =~= seq![' ', '=', ' ']) by {
            reveal_strlit(" = ");
        }
        assert(out@ =~= spec_dt_field_line(
            head@,
            fname@,
            fv.deep_view(),
            options.indent@,
            options.end_comma,
            options.uppercase,
            crate::namelist::document::spec_write_prec(*options),
        ));
    }
    out
}

/// The rendered field lines of a derived-type variable.
#[verifier::loop_isolation(false)]
#[verifier::rlimit(100)]
fn dt_lines(
    head: &Vec<char>,
    fields: &Vec<(String, FortranValue)>,
    options: &crate::namelist::document::WriteOptions,
) -> (out: Vec<char>)
    requires
        crate::fortran_types::value::spec_field_models_wf(
            crate::fortran_types::value::spec_view_fields(fields@),
        ),
    ensures
        out@ == spec_dt_lines(
            head@,
            crate::fortran_types::value::spec_view_fields(fields@),
            options.indent@,
            options.end_comma,
            options.uppercase,
            crate::namelist::document::spec_write_prec(*options),
            ),
{
    let ghost fm = crate::fortran_types::value::spec_view_fields(fields@);
    let ghost prec = crate::namelist::document::spec_write_prec(*options);
    proof {
        crate::fortran_types::value::lemma_view_fields_len(fields@);
        assert(fm.skip(0) =~= fm);
    }
    let mut out: Vec<char> = Vec::new();
    let mut i: usize = 0;
    while i < fields.len()
        invariant
            i <= fields@.len(),
            spec_dt_lines(head@, fm, options.indent@, options.end_comma, options.uppercase, prec)
                =~= out@ + spec_dt_lines(
                head@,
                fm.skip(i as int),
                options.indent@,
                options.end_comma,
                options.uppercase,
                prec,
            ),
        decreases fields@.len() - i,
    {
        let ghost rem = fm.skip(i as int);
        proof {
            assert(rem[0] == fm[i as int]);
            assert(rem.skip(1) =~= fm.skip(i + 1));
            crate::fortran_types::value::lemma_view_fields_index(fields@, i as int);
            crate::namelist::patching::lemma_field_models_wf_at(fm, i as int);
        }
        let line = dt_field_line(head, &fields[i].0, &fields[i].1, options);
        crate::fortran_types::realnum::append_chars(&mut out, line.as_slice());
        i += 1;
        proof {
            assert(spec_dt_lines(
                head@,
                fm,
                options.indent@,
                options.end_comma,
                options.uppercase,
                prec,
            ) =~= out@ + spec_dt_lines(
                head@,
                fm.skip(i as int),
                options.indent@,
                options.end_comma,
                options.uppercase,
                prec,
            ));
        }
    }
    proof {
        assert(fm.skip(fm.len() as int).len() == 0);
    }
    out
}

/// The rendered field lines of a derived-type array variable.
#[verifier::loop_isolation(false)]
#[verifier::rlimit(100)]
fn dta_lines(
    name_cased: &Vec<char>,
    els: &Vec<Vec<(String, FortranValue)>>,
    options: &crate::namelist::document::WriteOptions,
) -> (out: Vec<char>)
    requires
        crate::fortran_types::value::spec_field_model_seq_wf(
            crate::fortran_types::value::spec_view_field_seq(els@),
        ),
    ensures
        out@ == spec_dta_lines(
            name_cased@,
            crate::fortran_types::value::spec_view_field_seq(els@),
            options.indent@,
            options.end_comma,
            options.uppercase,
            crate::namelist::document::spec_write_prec(*options),
            options.default_start_index as int,
        ),
{
    let ghost em = crate::fortran_types::value::spec_view_field_seq(els@);
    let ghost prec = crate::namelist::document::spec_write_prec(*options);
    proof {
        crate::fortran_types::value::lemma_view_field_seq_len(els@);
        assert(em.skip(0) =~= em);
    }
    let mut out: Vec<char> = Vec::new();
    let mut idx: i64 = options.default_start_index as i64;
    let mut i: usize = 0;
    while i < els.len()
        invariant
            i <= els@.len(),
            spec_dta_lines(
                name_cased@,
                em,
                options.indent@,
                options.end_comma,
                options.uppercase,
                prec,
                options.default_start_index as int,
            ) =~= out@ + spec_dta_lines(
                name_cased@,
                em.skip(i as int),
                options.indent@,
                options.end_comma,
                options.uppercase,
                prec,
                idx as int,
            ),
        decreases els@.len() - i,
    {
        let ghost rem = em.skip(i as int);
        proof {
            assert(rem[0] == em[i as int]);
            assert(rem.skip(1) =~= em.skip(i + 1));
            crate::fortran_types::value::lemma_view_field_seq_index(els@, i as int);
            lemma_field_seq_wf_at(em, i as int);
        }
        let ghost idx0 = idx as int;
        let mut headel: Vec<char> = Vec::new();
        crate::fortran_types::realnum::append_chars(&mut headel, name_cased.as_slice());
        headel.push('(');
        let it = crate::digits::i64_to_chars(idx);
        crate::fortran_types::realnum::append_chars(&mut headel, it.as_slice());
        headel.push(')');
        proof {
            assert(headel@ =~= name_cased@ + seq!['('] + crate::digits::spec_int_string(idx0)
                + seq![')']);
        }
        let block = dt_lines(&headel, &els[i], options);
        crate::fortran_types::realnum::append_chars(&mut out, block.as_slice());
        if idx < i64::MAX {
            idx = idx + 1;
        }
        i += 1;
        proof {
            assert(block@ == spec_dt_lines(
                headel@,
                rem[0],
                options.indent@,
                options.end_comma,
                options.uppercase,
                prec,
            ));
            assert(spec_dta_lines(
                name_cased@,
                rem,
                options.indent@,
                options.end_comma,
                options.uppercase,
                prec,
                idx0,
            ) == spec_dt_lines(
                headel@,
                rem[0],
                options.indent@,
                options.end_comma,
                options.uppercase,
                prec,
            ) + spec_dta_lines(
                name_cased@,
                rem.skip(1),
                options.indent@,
                options.end_comma,
                options.uppercase,
                prec,
                idx as int,
            ));
            assert(spec_dta_lines(
                name_cased@,
                em,
                options.indent@,
                options.end_comma,
                options.uppercase,
                prec,
                options.default_start_index as int,
            ) =~= out@ + spec_dta_lines(
                name_cased@,
                em.skip(i as int),
                options.indent@,
                options.end_comma,
                options.uppercase,
                prec,
                idx as int,
            ));
        }
    }
    proof {
        assert(em.skip(em.len() as int).len() == 0);
    }
    out
}

impl NamelistGroup {
    /// One rendered assignment line.
    #[verifier::loop_isolation(false)]
    #[verifier::rlimit(100)]
    fn var_line(
        &self,
        name: &String,
        value: &FortranValue,
        options: &crate::namelist::document::WriteOptions,
    ) -> (out: Vec<char>)
        requires
            crate::fortran_types::value::spec_model_wf(value.deep_view()),
        ensures
            out@ == spec_var_line(
                name@,
                value.deep_view(),
                spec_assoc_idx(self.spec_starts(), spec_lower_seq(name@)),
                spec_assoc_text(self.spec_comments(), spec_lower_seq(name@)),
                options.indent@,
                options.end_comma,
                options.uppercase,
                crate::namelist::document::spec_write_prec(*options),
                options.default_start_index as int,
            ),
    {
        let namechars = crate::text::str_to_chars(name.as_str());
        let cased: Vec<char> = if options.uppercase {
            crate::text::upper_chars(namechars.as_slice())
        } else {
            namechars
        };
        match value {
            FortranValue::DerivedType(fields) => {
                return dt_lines(&cased, fields, options);
            },
            FortranValue::DerivedTypeArray(els) => {
                return dta_lines(&cased, els, options);
            },
            _ => {},
        }
        let mut out: Vec<char> = Vec::new();
        crate::fortran_types::realnum::append_chars(
            &mut out,
            crate::text::str_to_chars(options.indent.as_str()).as_slice(),
        );
        crate::fortran_types::realnum::append_chars(&mut out, cased.as_slice());
        let header = self.header_chars(name, value, options.default_start_index);
        crate::fortran_types::realnum::append_chars(&mut out, header.as_slice());
        out.push(' ');
        out.push('=');
        out.push(' ');
        let vtext = value.format_chars(
            &crate::fortran_types::formatting::FormatOptions {
                uppercase: options.uppercase,
                float_precision: match options.float_precision {
                    Some(p) => Some(if p > 4096 { 4096 } else { p }),
                    None => None,
                },
                exponential_threshold: None,
                complex_format: crate::fortran_types::formatting::ComplexFormat::Parentheses,
                string_quote_style: crate::fortran_types::formatting::QuoteStyle::Single,
                use_fortran_double: false,
            },
        );
        crate::fortran_types::realnum::append_chars(&mut out, vtext.as_slice());
        if options.end_comma {
            out.push(',');
        }
        let tail = self.comment_tail(name);
        crate::fortran_types::realnum::append_chars(&mut out, tail.as_slice());
        out.push('\n');
        proof {
            assert(" = "@ =~= seq![' ', '=', ' ']) by {
                reveal_strlit(" = ");
            }
            assert(out@ =~= spec_var_line(
                name@,
                value.deep_view(),
                spec_assoc_idx(self.spec_starts(), spec_lower_seq(name@)),
                spec_assoc_text(self.spec_comments(), spec_lower_seq(name@)),
                options.indent@,
                options.end_comma,
                options.uppercase,
                crate::namelist::document::spec_write_prec(*options),
                options.default_start_index as int,
            ));
        }
        out
    }

    /// The rendered index header of a variable.
    #[verifier::loop_isolation(false)]
    fn header_chars(&self, name: &String, value: &FortranValue, dsi: i32) -> (out: Vec<char>)
        ensures
            out@ == spec_var_header(
                value.deep_view(),
                spec_assoc_idx(self.spec_starts(), spec_lower_seq(name@)),
                dsi as int,
            ),
    {
        let mut out: Vec<char> = Vec::new();
        match value {
            FortranValue::Array(items) => {
                if items.len() > 0 {
                    proof {
                        crate::fortran_types::value::lemma_view_seq_len(items@);
                    }
                    let s64: i64 = match self.get_start_indices(name.as_str()) {
                        Some(sv) => {
                            if sv.len() > 0 {
                                sv[0] as i64
                            } else {
                                dsi as i64
                            }
                        },
                        None => dsi as i64,
                    };
                    out.push('(');
                    let st = crate::digits::i64_to_chars(s64);
                    crate::fortran_types::realnum::append_chars(&mut out, st.as_slice());
                    if items.len() > 1 {
                        out.push(':');
                        let e128: i128 = s64 as i128 + items.len() as i128 - 1;
                        let et = crate::digits::i128_to_chars(e128);
                        crate::fortran_types::realnum::append_chars(&mut out, et.as_slice());
                    }
                    out.push(')');
                }
            },
            _ => {
                match self.get_start_indices(name.as_str()) {
                    Some(sv) => {
                        if sv.len() > 0 {
                            out.push('(');
                            let mut k: usize = 0;
                            while k < sv.len()
                                invariant
                                    k <= sv@.len(),
                                    seq!['('] + spec_idx_list(sv@, 0) =~= out@ + spec_idx_list(
                                        sv@,
                                        k as int,
                                    ),
                                decreases sv@.len() - k,
                            {
                                if k > 0 {
                                    out.push(',');
                                }
                                let it = crate::digits::i64_to_chars(sv[k] as i64);
                                crate::fortran_types::realnum::append_chars(&mut out, it.as_slice());
                                k += 1;
                            }
                            out.push(')');
                        }
                    },
                    None => {},
                }
            },
        }
        proof {
            assert(out@ =~= spec_var_header(
                value.deep_view(),
                spec_assoc_idx(self.spec_starts(), spec_lower_seq(name@)),
                dsi as int,
            ));
        }
        out
    }

    /// The rendered comment tail of a variable.
    #[verifier::loop_isolation(false)]
    fn comment_tail(&self, name: &String) -> (out: Vec<char>)
        ensures
            out@ == spec_comment_tail(spec_assoc_text(self.spec_comments(), spec_lower_seq(name@))),
    {
        let mut out: Vec<char> = Vec::new();
        match self.get_comment(name.as_str()) {
            Some(c) => {
                let ct = crate::text::trim_chars(crate::text::str_to_chars(c.as_str()).as_slice());
                if ct.len() > 0 {
                    if ct[0] == '!' {
                        out.push(' ');
                        out.push(' ');
                    } else {
                        out.push(' ');
                        out.push(' ');
                        out.push('!');
                        out.push(' ');
                    }
                    crate::fortran_types::realnum::append_chars(&mut out, ct.as_slice());
                }
            },
            None => {},
        }
        proof {
            assert("  "@ =~= seq![' ', ' ']) by {
                reveal_strlit("  ");
            }
            assert("  ! "@ =~= seq![' ', ' ', '!', ' ']) by {
                reveal_strlit("  ! ");
            }
            assert(out@ =~= spec_comment_tail(spec_assoc_text(
                self.spec_comments(),
                spec_lower_seq(name@),
            )));
        }
        out
    }
}

/// The complete model of a group.
pub struct GroupModel {
    pub vars: Seq<(Seq<char>, ValueModel)>,
    pub starts: Seq<(Seq<char>, Seq<i32>)>,
    pub comments: Seq<(Seq<char>, Seq<char>)>,
}

impl NamelistGroup {
    /// The complete model of this group.
    pub open spec fn model(&self) -> GroupModel {
        GroupModel {
            vars: self.spec_vars(),
            starts: self.spec_starts(),
            comments: self.spec_comments(),
        }
    }
}

/// A found variable's value is well-formed in a well-formed list.
pub proof fn lemma_assoc_wf(s: Seq<(Seq<char>, ValueModel)>, k: Seq<char>)
    requires
        crate::fortran_types::value::spec_field_models_wf(s),
        spec_assoc(s, k) is Some,
    ensures
        crate::fortran_types::value::spec_model_wf(spec_assoc(s, k)->0),
    decreases s.len(),
{
    if s[0].0 == k {
        crate::namelist::patching::lemma_field_models_wf_at(s, 0);
    } else {
        let t = s.skip(1);
        assert(t =~= s.subrange(1, s.len() as int));
        assert forall|i: int|
            0 <= i < t.len() implies crate::fortran_types::value::spec_model_wf(
            (#[trigger] t[i]).1,
        ) by {
            assert(t[i] == s[i + 1]);
            crate::namelist::patching::lemma_field_models_wf_at(s, i + 1);
        }
        crate::fortran_types::value::lemma_field_models_wf_all(t);
        lemma_assoc_wf(t, k);
    }
}

} // verus!
