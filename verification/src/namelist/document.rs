//! A whole namelist: an ordered, case-folded mapping from group names
//! to groups, with patch application, strategy merges, and canonical
//! text output.

use vstd::prelude::*;

verus! {

use crate::error::F90nmlError;
use crate::fortran_types::value::ValueModel;
use crate::fortran_types::value::FortranValue;
use crate::namelist::group::NamelistGroup;
use crate::namelist::group::spec_patch_vars;
use crate::namelist::group::spec_strategy_vars;
use crate::namelist::patching::MergeStrategy;
use crate::text::spec_lower_seq;

/// Options for canonical namelist output.
#[derive(Debug, Clone)]
pub struct WriteOptions {
    /// Refuse to overwrite an existing file (honoured by callers that
    /// write files)
    pub force: bool,
    /// Indentation in front of each variable line
    pub indent: String,
    /// End each assignment line with a comma
    pub end_comma: bool,
    /// Upper-case group and variable names
    pub uppercase: bool,
    /// Fixed count of digits after the point for real values
    pub float_precision: Option<usize>,
    /// Origin used for array variables without stored start indices
    pub default_start_index: i32,
}

impl Default for WriteOptions {
    /// Four spaces of indentation, lower case, no forced overwrite.
    fn default() -> (r: WriteOptions)
        ensures
            !r.force && r.indent@ == "    "@ && !r.end_comma && !r.uppercase
                && r.float_precision is None && r.default_start_index == 1,
    {
        WriteOptions {
            force: false,
            indent: "    ".to_owned(),
            end_comma: false,
            uppercase: false,
            float_precision: None,
            default_start_index: 1,
        }
    }
}

/// The name of a group or variable under the case option.
pub open spec fn spec_cased(name: Seq<char>, uppercase: bool) -> Seq<char> {
    if uppercase {
        crate::text::spec_upper_seq(name)
    } else {
        name
    }
}

/// A complete namelist of groups.
#[derive(Debug, PartialEq)]
pub struct Namelist {
    /// Groups in insertion order, keyed by lower-cased name
    groups: Vec<(String, NamelistGroup)>,
}

/// The model of the group list: names with their variable models.
pub open spec fn spec_view_groups(s: Seq<(String, NamelistGroup)>) -> Seq<
    (Seq<char>, Seq<(Seq<char>, ValueModel)>),
>
    decreases s,
{
    if s.len() == 0 {
        Seq::empty()
    } else {
        spec_view_groups(s.drop_last()).push((s.last().0@, s.last().1.spec_vars()))
    }
}

/// A viewed group list has the same length and matching entries.
pub proof fn lemma_view_groups_index(s: Seq<(String, NamelistGroup)>, i: int)
    requires
        0 <= i < s.len(),
    ensures
        spec_view_groups(s).len() == s.len(),
        spec_view_groups(s)[i] == (s[i].0@, s[i].1.spec_vars()),
    decreases s.len(),
{
    lemma_view_groups_len(s);
    if i < s.len() - 1 {
        lemma_view_groups_index(s.drop_last(), i);
    }
}

/// A viewed group list has the same length.
pub proof fn lemma_view_groups_len(s: Seq<(String, NamelistGroup)>)
    ensures
        spec_view_groups(s).len() == s.len(),
    decreases s.len(),
{
    if s.len() > 0 {
        lemma_view_groups_len(s.drop_last());
    }
}

/// First-match lookup among the group entries.
pub open spec fn spec_group_assoc(
    s: Seq<(Seq<char>, Seq<(Seq<char>, ValueModel)>)>,
    k: Seq<char>,
) -> Option<Seq<(Seq<char>, ValueModel)>>
    decreases s.len(),
{
    if s.len() == 0 {
        None
    } else if s[0].0 == k {
        Some(s[0].1)
    } else {
        spec_group_assoc(s.skip(1), k)
    }
}

impl Namelist {
    /// The ordered group model: names with their variable models.
    pub closed spec fn spec_groups(&self) -> Seq<(Seq<char>, Seq<(Seq<char>, ValueModel)>)> {
        spec_view_groups(self.groups@)
    }

    /// An empty namelist.
    pub fn new() -> (r: Namelist)
        ensures
            r.spec_groups() =~= Seq::<(Seq<char>, Seq<(Seq<char>, ValueModel)>)>::empty(),
            r.spec_full() =~= Seq::<(Seq<char>, crate::namelist::group::GroupModel)>::empty(),
    {
        Namelist { groups: Vec::new() }
    }

    /// The number of groups.
    pub fn len(&self) -> (r: usize)
        ensures
            r == self.spec_groups().len(),
            r == self.spec_full().len(),
    {
        proof {
            lemma_view_groups_len(self.groups@);
            lemma_view_full_len(self.groups@);
        }
        self.groups.len()
    }

    /// Whether the namelist holds no groups.
    pub fn is_empty(&self) -> (r: bool)
        ensures
            r == (self.spec_groups().len() == 0),
    {
        self.len() == 0
    }

    /// The position of a group, by lower-cased name.
    fn position_of(&self, lname: &String) -> (r: Option<usize>)
        ensures
            r matches Some(i) ==> i < self.spec_groups().len() && self.spec_groups()[i as int].0
                == lname@,
            r is None ==> spec_group_assoc(self.spec_groups(), lname@) is None,
            r matches Some(i) ==> forall|j: int|
                0 <= j < i ==> (#[trigger] self.spec_groups()[j].0) != lname@,
    {
        let ghost target = self.spec_groups();
        proof {
            lemma_view_groups_len(self.groups@);
            assert(target.subrange(0, target.len() as int) =~= target);
        }
        let mut i: usize = 0;
        while i < self.groups.len()
            invariant
                i <= self.groups@.len(),
                target == self.spec_groups(),
                target.len() == self.groups@.len(),
                spec_group_assoc(target, lname@) == spec_group_assoc(
                    target.subrange(i as int, target.len() as int),
                    lname@,
                ),
                forall|j: int| 0 <= j < i ==> (#[trigger] target[j].0) != lname@,
            decreases self.groups@.len() - i,
        {
            proof {
                lemma_view_groups_index(self.groups@, i as int);
                let rem = target.subrange(i as int, target.len() as int);
                assert(rem[0] == target[i as int]);
                assert(rem.skip(1) =~= target.subrange(i + 1, target.len() as int));
            }
            if crate::fortran_types::realnum::chars_eq_str(
                crate::text::str_to_chars(self.groups[i].0.as_str()).as_slice(),
                lname.as_str(),
            ) {
                return Some(i);
            }
            i += 1;
        }
        proof {
            assert(target.subrange(target.len() as int, target.len() as int) =~= Seq::<
                (Seq<char>, Seq<(Seq<char>, ValueModel)>),
            >::empty());
        }
        None
    }

    /// Create an empty group of that name when none exists.
    pub fn insert_group(&mut self, name: &str)
        ensures
            spec_group_assoc(old(self).spec_groups(), spec_lower_seq(name@)) is Some
                ==> final(self).spec_groups() == old(self).spec_groups(),
            spec_group_assoc(old(self).spec_groups(), spec_lower_seq(name@)) is None
                ==> final(self).spec_groups() == old(self).spec_groups().push(
                (spec_lower_seq(name@), Seq::<(Seq<char>, ValueModel)>::empty()),
            ),
    {
        let lname = lower_name(name);
        match self.position_of(&lname) {
            Some(i) => {
                proof {
                    lemma_group_assoc_at_weak(self.spec_groups(), lname@, i as int);
                }
            },
            None => {
                let ghost prev = self.groups@;
                let g = NamelistGroup::new();
                self.groups.push((lname, g));
                proof {
                    assert(self.groups@.drop_last() =~= prev);
                    assert(final(self).spec_groups() =~= old(self).spec_groups().push(
                        (spec_lower_seq(name@), Seq::<(Seq<char>, ValueModel)>::empty()),
                    ));
                }
            },
        }
    }

    /// Insert a group object under its lower-cased name, replacing any
    /// existing group of that name.
    pub fn insert_group_object(&mut self, name: &str, group: NamelistGroup)
        ensures
            spec_group_assoc(final(self).spec_groups(), spec_lower_seq(name@)) == Some(
                group.spec_vars(),
            ),
            final(self).spec_full() == spec_full_update(
                old(self).spec_full(),
                spec_lower_seq(name@),
                group.model(),
            ),
    {
        let lname = lower_name(name);
        match self.position_of(&lname) {
            Some(i) => {
                let ghost before0 = self.groups@;
                proof {
                    lemma_view_groups_len(before0);
                }
                self.groups.set(i, (lname, group));
                proof {
                    lemma_view_groups_len(before0);
                    lemma_view_groups_len(self.groups@);
                    assert forall|j: int| 0 <= j < self.groups@.len() implies
                        #[trigger] self.spec_groups()[j] == (if j == i as int {
                        (spec_lower_seq(name@), group.spec_vars())
                    } else {
                        old(self).spec_groups()[j]
                    }) by {
                        lemma_view_groups_index(self.groups@, j);
                        lemma_view_groups_index(before0, j);
                    }
                    lemma_group_assoc_at(self.spec_groups(), spec_lower_seq(name@), i as int);
                    lemma_view_full_len(before0);
                    lemma_view_full_len(self.groups@);
                    assert forall|j: int| 0 <= j < self.groups@.len() implies
                        #[trigger] self.spec_full()[j] == (if j == i as int {
                        (spec_lower_seq(name@), group.model())
                    } else {
                        old(self).spec_full()[j]
                    }) by {
                        lemma_view_full_index(self.groups@, j);
                        lemma_view_full_index(before0, j);
                    }
                    assert forall|j: int| 0 <= j < i as int implies (
                    #[trigger] old(self).spec_full()[j].0) != spec_lower_seq(name@) by {
                        lemma_view_full_index(before0, j);
                        lemma_view_groups_index(before0, j);
                        assert(old(self).spec_groups()[j].0 != lname@);
                    }
                    assert(old(self).spec_full()[i as int].0 == spec_lower_seq(name@)) by {
                        lemma_view_full_index(before0, i as int);
                        lemma_view_groups_index(before0, i as int);
                    }
                    lemma_full_update_at(old(self).spec_full(), spec_lower_seq(name@),
                        group.model(), i as int);
                    assert(final(self).spec_full() =~= spec_full_update(
                        old(self).spec_full(),
                        spec_lower_seq(name@),
                        group.model(),
                    ));
                }
            },
            None => {
                let ghost prev = self.groups@;
                self.groups.push((lname, group));
                proof {
                    assert(self.groups@.drop_last() =~= prev);
                    lemma_view_groups_len(prev);
                    lemma_group_assoc_none(old(self).spec_groups(), spec_lower_seq(name@));
                    assert forall|j: int| 0 <= j < prev.len() implies (
                    #[trigger] old(self).spec_groups()[j].0) != spec_lower_seq(name@) by {}
                    assert forall|j: int| 0 <= j < prev.len() implies (
                    #[trigger] self.spec_groups()[j].0) != spec_lower_seq(name@) by {
                        lemma_view_groups_index(self.groups@, j);
                        lemma_view_groups_index(prev, j);
                        assert(old(self).spec_groups()[j].0 != spec_lower_seq(name@));
                    }
                    lemma_view_groups_index(self.groups@, prev.len() as int);
                    lemma_group_assoc_at(self.spec_groups(), spec_lower_seq(name@),
                        prev.len() as int);
                    lemma_view_full_len(prev);
                    assert forall|j: int| 0 <= j < prev.len() implies (
                    #[trigger] old(self).spec_full()[j].0) != spec_lower_seq(name@) by {
                        lemma_view_full_index(prev, j);
                        lemma_view_groups_index(prev, j);
                        assert(old(self).spec_groups()[j].0 != spec_lower_seq(name@));
                    }
                    lemma_full_update_absent(old(self).spec_full(), spec_lower_seq(name@),
                        group.model());
                    assert(final(self).spec_full() =~= spec_full_update(
                        old(self).spec_full(),
                        spec_lower_seq(name@),
                        group.model(),
                    ));
                }
            },
        }
    }

    /// Look a group up by name, case-insensitively.
    pub fn get_group(&self, name: &str) -> (r: Option<&NamelistGroup>)
        ensures
            r is Some <==> spec_group_assoc(self.spec_groups(), spec_lower_seq(name@)) is Some,
            r matches Some(g) ==> Some(g.spec_vars()) == spec_group_assoc(
                self.spec_groups(),
                spec_lower_seq(name@),
            ),
    {
        let lname = lower_name(name);
        match self.position_of(&lname) {
            Some(i) => {
                proof {
                    lemma_view_groups_len(self.groups@);
                    lemma_view_groups_index(self.groups@, i as int);
                    lemma_group_assoc_at(self.spec_groups(), lname@, i as int);
                }
                Some(&self.groups[i].1)
            },
            None => None,
        }
    }

    /// Whether a group of that name exists.
    pub fn has_group(&self, name: &str) -> (r: bool)
        ensures
            r == (spec_group_assoc(self.spec_groups(), spec_lower_seq(name@)) is Some),
    {
        let lname = lower_name(name);
        match self.position_of(&lname) {
            Some(i) => {
                proof {
                    lemma_group_assoc_at(self.spec_groups(), lname@, i as int);
                }
                true
            },
            None => false,
        }
    }

    /// The group names, in insertion order.
    pub fn group_names(&self) -> (r: Vec<String>)
        ensures
            r@.len() == self.spec_groups().len(),
            forall|i: int|
                0 <= i < r@.len() ==> (#[trigger] r@[i]@) == self.spec_groups()[i].0,
    {
        let mut r: Vec<String> = Vec::new();
        proof {
            lemma_view_groups_len(self.groups@);
        }
        let mut i: usize = 0;
        while i < self.groups.len()
            invariant
                i <= self.groups@.len(),
                r@.len() == i,
                self.spec_groups().len() == self.groups@.len(),
                forall|j: int| 0 <= j < i ==> (#[trigger] r@[j]@) == self.spec_groups()[j].0,
            decreases self.groups@.len() - i,
        {
            let ghost prev = r@;
            r.push(self.groups[i].0.clone());
            i += 1;
            proof {
                lemma_view_groups_index(self.groups@, i - 1);
                assert forall|j: int| 0 <= j < i implies (#[trigger] r@[j]@)
                    == self.spec_groups()[j].0 by {
                    if j < i - 1 {
                        assert(r@[j] == prev[j]);
                    }
                }
            }
        }
        r
    }

    /// The group at a position, by name.
    pub fn group_at(&self, i: usize) -> (r: (&String, &NamelistGroup))
        requires
            i < self.spec_groups().len(),
        ensures
            r.0@ == self.spec_groups()[i as int].0,
            r.1.spec_vars() == self.spec_groups()[i as int].1,
            i < self.spec_full().len() && r.0@ == self.spec_full()[i as int].0
                && r.1.model() == self.spec_full()[i as int].1,
    {
        proof {
            lemma_view_groups_len(self.groups@);
            lemma_view_groups_index(self.groups@, i as int);
            lemma_view_full_len(self.groups@);
            lemma_view_full_index(self.groups@, i as int);
        }
        (&self.groups[i].0, &self.groups[i].1)
    }

    /// Insert a variable into a group, creating the group when needed.
    pub fn insert_value(&mut self, group: &str, name: &str, value: FortranValue)
        ensures
            spec_group_assoc(final(self).spec_groups(), spec_lower_seq(group@)) is Some,
    {
        let ghost pre = self.spec_groups();
        self.insert_group(group);
        proof {
            if spec_group_assoc(pre, spec_lower_seq(group@)) is None {
                assert(self.spec_groups() == pre.push(
                    (spec_lower_seq(group@), Seq::<(Seq<char>, ValueModel)>::empty()),
                ));
                assert(self.spec_groups()[pre.len() as int].0 == spec_lower_seq(group@));
                lemma_group_assoc_at_weak(self.spec_groups(), spec_lower_seq(group@),
                    pre.len() as int);
            }
        }
        let lname = lower_name(group);
        match self.position_of(&lname) {
            Some(i) => {
                let ghost before0 = self.groups@;
                proof {
                    lemma_view_groups_len(before0);
                    lemma_view_groups_index(before0, i as int);
                }
                let (gname, mut g) = self.groups.remove(i);
                proof {
                    assert(gname@ == lname@);
                }
                g.insert_value(name, value);
                self.groups.insert(i, (gname, g));
                proof {
                    lemma_view_groups_len(self.groups@);
                    lemma_view_groups_index(self.groups@, i as int);
                    assert(self.spec_groups()[i as int].0 == lname@);
                    lemma_group_assoc_at_weak(self.spec_groups(), lname@, i as int);
                }
            },
            None => {
                proof {
                    assert(false);
                }
            },
        }
    }
}

/// A present key at a first-match position is found by the lookup.
pub proof fn lemma_group_assoc_at(
    s: Seq<(Seq<char>, Seq<(Seq<char>, ValueModel)>)>,
    k: Seq<char>,
    i: int,
)
    requires
        0 <= i < s.len(),
        s[i].0 == k,
        forall|j: int| 0 <= j < i ==> (#[trigger] s[j].0) != k,
    ensures
        spec_group_assoc(s, k) == Some(s[i].1),
    decreases i,
{
    if i > 0 {
        let t = s.skip(1);
        assert forall|j: int| 0 <= j < i - 1 implies (#[trigger] t[j].0) != k by {
            assert(t[j] == s[j + 1]);
        }
        assert(t[i - 1] == s[i]);
        lemma_group_assoc_at(t, k, i - 1);
    }
}

/// A present key somewhere makes the lookup succeed.
pub proof fn lemma_group_assoc_at_weak(
    s: Seq<(Seq<char>, Seq<(Seq<char>, ValueModel)>)>,
    k: Seq<char>,
    i: int,
)
    requires
        0 <= i < s.len(),
        s[i].0 == k,
    ensures
        spec_group_assoc(s, k) is Some,
    decreases i,
{
    if s[0].0 != k {
        let t = s.skip(1);
        assert(t[i - 1] == s[i]);
        lemma_group_assoc_at_weak(t, k, i - 1);
    }
}

/// A failed lookup means no entry holds the key.
pub proof fn lemma_group_assoc_none(
    s: Seq<(Seq<char>, Seq<(Seq<char>, ValueModel)>)>,
    k: Seq<char>,
)
    requires
        spec_group_assoc(s, k) is None,
    ensures
        forall|j: int| 0 <= j < s.len() ==> (#[trigger] s[j].0) != k,
    decreases s.len(),
{
    if s.len() > 0 {
        let t = s.skip(1);
        lemma_group_assoc_none(t, k);
        assert forall|j: int| 0 <= j < s.len() implies (#[trigger] s[j].0) != k by {
            if j > 0 {
                assert(t[j - 1] == s[j]);
            }
        }
    }
}

/// The lower-cased copy of a name.
pub fn lower_name(name: &str) -> (r: String)
    ensures
        r@ == spec_lower_seq(name@),
{
    let chars = crate::text::str_to_chars(name);
    let lowered = crate::text::lower_chars(chars.as_slice());
    crate::text::chars_to_string(lowered.as_slice())
}

/// Replace the variables of a named group, or append a new group.
pub open spec fn spec_groups_update(
    s: Seq<(Seq<char>, Seq<(Seq<char>, ValueModel)>)>,
    k: Seq<char>,
    vars: Seq<(Seq<char>, ValueModel)>,
) -> Seq<(Seq<char>, Seq<(Seq<char>, ValueModel)>)>
    decreases s.len(),
{
    if s.len() == 0 {
        seq![(k, vars)]
    } else if s[0].0 == k {
        seq![(k, vars)] + s.skip(1)
    } else {
        seq![s[0]] + spec_groups_update(s.skip(1), k, vars)
    }
}

/// Patch application over the incoming groups, first to last: each
/// incoming group patches the same-named group's variables, or joins
/// the document as a new group.
pub open spec fn spec_patch_groups(
    groups: Seq<(Seq<char>, Seq<(Seq<char>, ValueModel)>)>,
    incoming: Seq<(Seq<char>, Seq<(Seq<char>, ValueModel)>)>,
) -> Seq<(Seq<char>, Seq<(Seq<char>, ValueModel)>)>
    decreases incoming.len(),
{
    if incoming.len() == 0 {
        groups
    } else {
        let k = spec_lower_seq(incoming[0].0);
        let stepped = (match spec_group_assoc(groups, k) {
            Some(vars) => spec_groups_update(groups, k, spec_patch_vars(vars, incoming[0].1)),
            None => groups.push(
                (k, spec_patch_vars(Seq::<(Seq<char>, ValueModel)>::empty(), incoming[0].1)),
            ),
        });
        spec_patch_groups(stepped, incoming.skip(1))
    }
}

impl Namelist {
    /// Apply another namelist as a patch: same-named groups are patched
    /// variable by variable; unseen groups join the document.
    pub fn apply_patch(&mut self, patch: &Namelist) -> (r: Result<(), F90nmlError>)
        ensures
            r is Ok,
            final(self).spec_groups() == spec_patch_groups(
                old(self).spec_groups(),
                patch.spec_groups(),
            ),
    {
        let ghost incoming = patch.spec_groups();
        let n = patch.len();
        proof {
            assert(incoming.subrange(0, incoming.len() as int) =~= incoming);
        }
        let mut i: usize = 0;
        while i < n
            invariant
                n == incoming.len(),
                i <= n,
                incoming == patch.spec_groups(),
                spec_patch_groups(old(self).spec_groups(), incoming) == spec_patch_groups(
                    self.spec_groups(),
                    incoming.subrange(i as int, incoming.len() as int),
                ),
            decreases n - i,
        {
            let ghost rem = incoming.subrange(i as int, incoming.len() as int);
            let (gname, pgroup) = patch.group_at(i);
            let gname = gname.clone();
            let lname = lower_name(gname.as_str());
            proof {
                assert(rem[0] == incoming[i as int]);
                assert(rem.skip(1) =~= incoming.subrange(i + 1, incoming.len() as int));
            }
            match self.position_of(&lname) {
                Some(pos) => {
                    let ghost before0 = self.groups@;
                    proof {
                        lemma_view_groups_len(before0);
                        lemma_view_groups_index(before0, pos as int);
                        lemma_group_assoc_at(self.spec_groups(), lname@, pos as int);
                    }
                    let (ename, mut g) = self.groups.remove(pos);
                    match g.apply_patch(pgroup) {
                        Ok(..) => {},
                        Err(e) => {
                            return Err(e);
                        },
                    }
                    self.groups.insert(pos, (ename, g));
                    proof {
                        lemma_view_groups_len(self.groups@);
                        assert forall|j: int| 0 <= j < self.groups@.len() implies
                            #[trigger] self.spec_groups()[j] == (if j == pos as int {
                            (lname@, spec_patch_vars(spec_view_groups(before0)[pos as int].1,
                            incoming[i as int].1))
                        } else {
                            spec_view_groups(before0)[j]
                        }) by {
                            lemma_view_groups_index(self.groups@, j);
                            lemma_view_groups_index(before0, j);
                            if j == pos as int {
                            } else if j < pos as int {
                                assert(self.groups@[j] == before0[j]);
                            } else {
                                assert(self.groups@[j] == before0[j]);
                            }
                        }
                        assert forall|j: int| 0 <= j < pos as int implies (
                        #[trigger] spec_view_groups(before0)[j].0) != lname@ by {}
                        lemma_groups_update_at(spec_view_groups(before0), lname@, spec_patch_vars(
                            spec_view_groups(before0)[pos as int].1,
                            incoming[i as int].1,
                        ), pos as int);
                        assert(self.spec_groups() =~= spec_groups_update(
                            spec_view_groups(before0),
                            lname@,
                            spec_patch_vars(spec_view_groups(before0)[pos as int].1,
                            incoming[i as int].1),
                        ));
                    }
                },
                None => {
                    let ghost before0 = self.groups@;
                    let mut fresh = NamelistGroup::new();
                    match fresh.apply_patch(pgroup) {
                        Ok(..) => {},
                        Err(e) => {
                            return Err(e);
                        },
                    }
                    self.groups.push((lname, fresh));
                    proof {
                        assert(self.groups@.drop_last() =~= before0);
                        assert(self.spec_groups() =~= spec_view_groups(before0).push(
                            (
                                lname@,
                                spec_patch_vars(
                                    Seq::<(Seq<char>, ValueModel)>::empty(),
                                    incoming[i as int].1,
                                ),
                            ),
                        ));
                    }
                },
            }
            i += 1;
        }
        proof {
            assert(incoming.subrange(incoming.len() as int, incoming.len() as int) =~= Seq::<
                (Seq<char>, Seq<(Seq<char>, ValueModel)>),
            >::empty());
        }
        Ok(())
    }
}

/// The spec update of a present key replaces that group entry in place.
pub proof fn lemma_groups_update_at(
    s: Seq<(Seq<char>, Seq<(Seq<char>, ValueModel)>)>,
    k: Seq<char>,
    vars: Seq<(Seq<char>, ValueModel)>,
    i: int,
)
    requires
        0 <= i < s.len(),
        s[i].0 == k,
        forall|j: int| 0 <= j < i ==> (#[trigger] s[j].0) != k,
    ensures
        spec_groups_update(s, k, vars) =~= s.update(i, (k, vars)),
    decreases i,
{
    if i == 0 {
        assert(seq![(k, vars)] + s.skip(1) =~= s.update(0, (k, vars)));
    } else {
        let t = s.skip(1);
        assert forall|j: int| 0 <= j < i - 1 implies (#[trigger] t[j].0) != k by {
            assert(t[j] == s[j + 1]);
        }
        assert(t[i - 1] == s[i]);
        lemma_groups_update_at(t, k, vars, i - 1);
        assert(seq![s[0]] + t.update(i - 1, (k, vars)) =~= s.update(i, (k, vars)));
    }
}

/// The complete model of the group list.
pub open spec fn spec_view_full(s: Seq<(String, NamelistGroup)>) -> Seq<
    (Seq<char>, crate::namelist::group::GroupModel),
>
    decreases s,
{
    if s.len() == 0 {
        Seq::empty()
    } else {
        spec_view_full(s.drop_last()).push((s.last().0@, s.last().1.model()))
    }
}

/// The complete model view has the same length and matching entries.
pub proof fn lemma_view_full_index(s: Seq<(String, NamelistGroup)>, i: int)
    requires
        0 <= i < s.len(),
    ensures
        spec_view_full(s).len() == s.len(),
        spec_view_full(s)[i] == (s[i].0@, s[i].1.model()),
    decreases s.len(),
{
    lemma_view_full_len(s);
    if i < s.len() - 1 {
        lemma_view_full_index(s.drop_last(), i);
    }
}

/// The complete model view has the same length.
pub proof fn lemma_view_full_len(s: Seq<(String, NamelistGroup)>)
    ensures
        spec_view_full(s).len() == s.len(),
    decreases s.len(),
{
    if s.len() > 0 {
        lemma_view_full_len(s.drop_last());
    }
}

/// The canonical text of a whole namelist: each group as `&name`, its
/// variable lines, and `/`, with a blank line between groups.
/// The capped real precision a set of write options carries down to
/// value rendering.
pub open spec fn spec_write_prec(o: WriteOptions) -> Option<int> {
    match o.float_precision {
        Some(p) => Some(if p > 4096 { 4096int } else { p as int }),
        None => None,
    }
}

pub open spec fn spec_namelist_text(
    groups: Seq<(Seq<char>, crate::namelist::group::GroupModel)>,
    indent: Seq<char>,
    end_comma: bool,
    uppercase: bool,
    prec: Option<int>,
    dsi: int,
    first: bool,
) -> Seq<char>
    decreases groups.len(),
{
    if groups.len() == 0 {
        Seq::empty()
    } else {
        (if first {
            Seq::<char>::empty()
        } else {
            seq!['\n']
        }) + seq!['&'] + spec_cased(groups[0].0, uppercase) + seq!['\n']
            + crate::namelist::group::spec_group_text(
            groups[0].1.vars,
            groups[0].1.starts,
            groups[0].1.comments,
            indent,
            end_comma,
            uppercase,
            prec,
            dsi,
        ) + "/\n"@ + spec_namelist_text(
            groups.skip(1),
            indent,
            end_comma,
            uppercase,
            prec,
            dsi,
            false,
        )
    }
}

impl Namelist {
    /// The complete model of this namelist.
    pub closed spec fn spec_full(&self) -> Seq<(Seq<char>, crate::namelist::group::GroupModel)> {
        spec_view_full(self.groups@)
    }

    /// Every value held anywhere in the namelist is well-formed.
    pub open spec fn wf(&self) -> bool {
        forall|i: int|
            0 <= i < self.spec_full().len()
                ==> crate::fortran_types::value::spec_field_models_wf(
                (#[trigger] self.spec_full()[i]).1.vars,
            )
    }

    /// The canonical text of this namelist.
    #[verifier::loop_isolation(false)]
    #[verifier::rlimit(100)]
    pub fn to_fortran_string(&self, options: &WriteOptions) -> (r: Result<String, F90nmlError>)
        requires
            self.wf(),
        ensures
            r is Ok,
            r->Ok_0@ == spec_namelist_text(
                self.spec_full(),
                options.indent@,
                options.end_comma,
                options.uppercase,
                spec_write_prec(*options),
                options.default_start_index as int,
                true,
            ),
    {
        let ghost full = self.spec_full();
        let mut out: Vec<char> = Vec::new();
        proof {
            lemma_view_full_len(self.groups@);
            lemma_view_groups_len(self.groups@);
            assert(full.skip(0) =~= full);
        }
        let mut i: usize = 0;
        while i < self.groups.len()
            invariant
                full.len() == self.groups@.len(),
                i <= self.groups@.len(),
                full == self.spec_full(),
                spec_namelist_text(
                    full,
                    options.indent@,
                    options.end_comma,
                    options.uppercase,
                    spec_write_prec(*options),
                    options.default_start_index as int,
                    true,
                ) =~= out@ + spec_namelist_text(
                    full.skip(i as int),
                    options.indent@,
                    options.end_comma,
                    options.uppercase,
                    spec_write_prec(*options),
                    options.default_start_index as int,
                    i == 0,
                ),
            decreases self.groups@.len() - i,
        {
            let ghost rem = full.skip(i as int);
            proof {
                lemma_view_full_index(self.groups@, i as int);
                assert(rem[0] == full[i as int]);
                assert(rem.skip(1) =~= full.skip(i + 1));
            }
            let block = group_block(&self.groups[i].0, &self.groups[i].1, options, i == 0);
            crate::fortran_types::realnum::append_chars(&mut out, block.as_slice());
            i += 1;
            proof {
                assert(spec_namelist_text(
                    full,
                    options.indent@,
                    options.end_comma,
                    options.uppercase,
                    spec_write_prec(*options),
                    options.default_start_index as int,
                    true,
                ) =~= out@ + spec_namelist_text(
                    full.skip(i as int),
                    options.indent@,
                    options.end_comma,
                    options.uppercase,
                    spec_write_prec(*options),
                    options.default_start_index as int,
                    i == 0,
                ));
            }
        }
        proof {
            assert(full.skip(full.len() as int).len() == 0);
        }
        Ok(crate::text::chars_to_string(out.as_slice()))
    }
}

/// One rendered group block: the group header, its variable lines, and
/// the closing mark, with a separating blank line except at the front.
#[verifier::loop_isolation(false)]
#[verifier::rlimit(100)]
pub fn group_block(
    gname: &String,
    group: &NamelistGroup,
    options: &WriteOptions,
    first: bool,
) -> (out: Vec<char>)
    requires
        crate::fortran_types::value::spec_field_models_wf(group.spec_vars()),
    ensures
        out@ == (if first {
            Seq::<char>::empty()
        } else {
            seq!['\n']
        }) + seq!['&'] + spec_cased(gname@, options.uppercase) + seq!['\n']
            + crate::namelist::group::spec_group_text(
            group.spec_vars(),
            group.spec_starts(),
            group.spec_comments(),
            options.indent@,
            options.end_comma,
            options.uppercase,
            spec_write_prec(*options),
            options.default_start_index as int,
        ) + "/\n"@,
{
    let mut out: Vec<char> = Vec::new();
    if !first {
        out.push('\n');
    }
    out.push('&');
    let namechars = crate::text::str_to_chars(gname.as_str());
    if options.uppercase {
        let upped = crate::text::upper_chars(namechars.as_slice());
        crate::fortran_types::realnum::append_chars(&mut out, upped.as_slice());
    } else {
        crate::fortran_types::realnum::append_chars(&mut out, namechars.as_slice());
    }
    out.push('\n');
    let gtext = match group.to_fortran_string(options) {
        Ok(t) => t,
        Err(..) => String::new(),
    };
    crate::fortran_types::realnum::append_chars(
        &mut out,
        crate::text::str_to_chars(gtext.as_str()).as_slice(),
    );
    out.push('/');
    out.push('\n');
    proof {
        assert("/\n"@ =~= seq!['/', '\n']) by {
            reveal_strlit("/\n");
        }
        assert(out@ =~= (if first {
            Seq::<char>::empty()
        } else {
            seq!['\n']
        }) + seq!['&'] + spec_cased(gname@, options.uppercase) + seq!['\n']
            + crate::namelist::group::spec_group_text(
            group.spec_vars(),
            group.spec_starts(),
            group.spec_comments(),
            options.indent@,
            options.end_comma,
            options.uppercase,
            spec_write_prec(*options),
            options.default_start_index as int,
        ) + "/\n"@);
    }
    out
}

/// Replace the full model of a named group, or append a new entry.
pub open spec fn spec_full_update(
    s: Seq<(Seq<char>, crate::namelist::group::GroupModel)>,
    k: Seq<char>,
    g: crate::namelist::group::GroupModel,
) -> Seq<(Seq<char>, crate::namelist::group::GroupModel)>
    decreases s.len(),
{
    if s.len() == 0 {
        seq![(k, g)]
    } else if s[0].0 == k {
        seq![(k, g)] + s.skip(1)
    } else {
        seq![s[0]] + spec_full_update(s.skip(1), k, g)
    }
}

/// The spec update of a present key replaces that entry in place.
pub proof fn lemma_full_update_at(
    s: Seq<(Seq<char>, crate::namelist::group::GroupModel)>,
    k: Seq<char>,
    g: crate::namelist::group::GroupModel,
    i: int,
)
    requires
        0 <= i < s.len(),
        s[i].0 == k,
        forall|j: int| 0 <= j < i ==> (#[trigger] s[j].0) != k,
    ensures
        spec_full_update(s, k, g) =~= s.update(i, (k, g)),
    decreases i,
{
    if i == 0 {
        assert(seq![(k, g)] + s.skip(1) =~= s.update(0, (k, g)));
    } else {
        let t = s.skip(1);
        assert forall|j: int| 0 <= j < i - 1 implies (#[trigger] t[j].0) != k by {
            assert(t[j] == s[j + 1]);
        }
        assert(t[i - 1] == s[i]);
        lemma_full_update_at(t, k, g, i - 1);
        assert(seq![s[0]] + t.update(i - 1, (k, g)) =~= s.update(i, (k, g)));
    }
}

/// The spec update of an absent key appends the new entry.
pub proof fn lemma_full_update_absent(
    s: Seq<(Seq<char>, crate::namelist::group::GroupModel)>,
    k: Seq<char>,
    g: crate::namelist::group::GroupModel,
)
    requires
        forall|j: int| 0 <= j < s.len() ==> (#[trigger] s[j].0) != k,
    ensures
        spec_full_update(s, k, g) =~= s.push((k, g)),
    decreases s.len(),
{
    if s.len() > 0 {
        let t = s.skip(1);
        assert forall|j: int| 0 <= j < t.len() implies (#[trigger] t[j].0) != k by {
            assert(t[j] == s[j + 1]);
        }
        lemma_full_update_absent(t, k, g);
        assert(seq![s[0]] + t.push((k, g)) =~= s.push((k, g)));
    } else {
        assert(spec_full_update(s, k, g) =~= s.push((k, g)));
    }
}

/// Every entry of the updated list is the new entry or an old one.
pub proof fn lemma_full_update_wf(
    s: Seq<(Seq<char>, crate::namelist::group::GroupModel)>,
    k: Seq<char>,
    g: crate::namelist::group::GroupModel,
)
    requires
        forall|j: int|
            0 <= j < s.len() ==> crate::fortran_types::value::spec_field_models_wf(
                (#[trigger] s[j]).1.vars,
            ),
        crate::fortran_types::value::spec_field_models_wf(g.vars),
    ensures
        forall|j: int|
            0 <= j < spec_full_update(s, k, g).len()
                ==> crate::fortran_types::value::spec_field_models_wf(
                (#[trigger] spec_full_update(s, k, g)[j]).1.vars,
            ),
    decreases s.len(),
{
    if s.len() == 0 {
    } else if s[0].0 == k {
        let r = spec_full_update(s, k, g);
        assert forall|j: int|
            0 <= j < r.len() implies crate::fortran_types::value::spec_field_models_wf(
            (#[trigger] r[j]).1.vars,
        ) by {
            if j == 0 {
            } else {
                assert(r[j] == s[j]);
            }
        }
    } else {
        let t = s.skip(1);
        assert forall|j: int|
            0 <= j < t.len() implies crate::fortran_types::value::spec_field_models_wf(
            (#[trigger] t[j]).1.vars,
        ) by {
            assert(t[j] == s[j + 1]);
        }
        lemma_full_update_wf(t, k, g);
        let r = spec_full_update(s, k, g);
        let rt = spec_full_update(t, k, g);
        assert forall|j: int|
            0 <= j < r.len() implies crate::fortran_types::value::spec_field_models_wf(
            (#[trigger] r[j]).1.vars,
        ) by {
            if j == 0 {
            } else {
                assert(r[j] == rt[j - 1]);
            }
        }
    }
}

/// The two model views of a namelist agree in length.
pub proof fn lemma_models_agree(nml: &Namelist)
    ensures
        nml.spec_groups().len() == nml.spec_full().len(),
{
    lemma_view_groups_len(nml.groups@);
    lemma_view_full_len(nml.groups@);
}

/// An empty namelist model finds no group.
pub proof fn lemma_empty_patch_no_group(nml: &Namelist, k: Seq<char>)
    requires
        nml.spec_full().len() == 0,
    ensures
        spec_group_assoc(nml.spec_groups(), k) is None,
{
    lemma_models_agree(nml);
}

/// A found group's variables are well-formed in a well-formed namelist.
pub proof fn lemma_group_lookup_wf(nml: &Namelist, k: Seq<char>)
    requires
        nml.wf(),
        spec_group_assoc(nml.spec_groups(), k) is Some,
    ensures
        crate::fortran_types::value::spec_field_models_wf(
            spec_group_assoc(nml.spec_groups(), k)->0,
        ),
{
    lemma_view_groups_len(nml.groups@);
    lemma_view_full_len(nml.groups@);
    lemma_group_assoc_witness(nml.spec_groups(), k);
    let i = choose|i: int|
        0 <= i < nml.spec_groups().len() && nml.spec_groups()[i].0 == k && #[trigger] nml.spec_groups()[i].1
            == spec_group_assoc(nml.spec_groups(), k)->0;
    lemma_view_groups_index(nml.groups@, i);
    lemma_view_full_index(nml.groups@, i);
    assert(nml.spec_full()[i].1.vars == spec_group_assoc(nml.spec_groups(), k)->0);
    assert(crate::fortran_types::value::spec_field_models_wf(nml.spec_full()[i].1.vars));
}

/// A successful lookup has a witnessing position.
pub proof fn lemma_group_assoc_witness(
    s: Seq<(Seq<char>, Seq<(Seq<char>, ValueModel)>)>,
    k: Seq<char>,
)
    requires
        spec_group_assoc(s, k) is Some,
    ensures
        exists|i: int|
            0 <= i < s.len() && s[i].0 == k && #[trigger] s[i].1 == spec_group_assoc(s, k)->0,
    decreases s.len(),
{
    if s[0].0 == k {
        assert(s[0].1 == spec_group_assoc(s, k)->0);
    } else {
        let t = s.skip(1);
        lemma_group_assoc_witness(t, k);
        let i = choose|i: int|
            0 <= i < t.len() && t[i].0 == k && #[trigger] t[i].1 == spec_group_assoc(t, k)->0;
        assert(s[i + 1].0 == k && s[i + 1].1 == spec_group_assoc(s, k)->0);
    }
}

/// The entry of a well-formed namelist at a position is well-formed.
pub proof fn lemma_full_wf_at(nml: &Namelist, i: int)
    requires
        nml.wf(),
        0 <= i < nml.spec_full().len(),
    ensures
        crate::fortran_types::value::spec_field_models_wf(nml.spec_full()[i].1.vars),
{
}

impl Namelist {
    /// A copy of this namelist with the same models.
    pub fn dup(&self) -> (r: Namelist)
        ensures
            r.spec_groups() == self.spec_groups(),
            r.spec_full() == self.spec_full(),
    {
        let mut groups: Vec<(String, NamelistGroup)> = Vec::new();
        proof {
            lemma_view_groups_len(self.groups@);
            lemma_view_full_len(self.groups@);
        }
        let mut i: usize = 0;
        while i < self.groups.len()
            invariant
                i <= self.groups@.len(),
                groups@.len() == i,
                self.spec_groups().len() == self.groups@.len(),
                self.spec_full().len() == self.groups@.len(),
                spec_view_groups(groups@) =~= self.spec_groups().subrange(0, i as int),
                spec_view_full(groups@) =~= self.spec_full().subrange(0, i as int),
            decreases self.groups@.len() - i,
        {
            let ghost prev = groups@;
            let name = self.groups[i].0.clone();
            let g = self.groups[i].1.dup();
            groups.push((name, g));
            i += 1;
            proof {
                assert(groups@.drop_last() =~= prev);
                lemma_view_groups_index(self.groups@, i - 1);
                lemma_view_full_index(self.groups@, i - 1);
                assert(spec_view_groups(groups@) =~= self.spec_groups().subrange(0, i as int));
                assert(spec_view_full(groups@) =~= self.spec_full().subrange(0, i as int));
            }
        }
        proof {
            assert(self.spec_groups().subrange(0, self.groups@.len() as int) =~= self.spec_groups());
            assert(self.spec_full().subrange(0, self.groups@.len() as int) =~= self.spec_full());
        }
        Namelist { groups }
    }
}

/// Strategy merge over the incoming groups, first to last: same-named
/// groups merge variable by variable; unseen groups join the document,
/// except under the skip-existing strategy.
pub open spec fn spec_strategy_groups(
    groups: Seq<(Seq<char>, Seq<(Seq<char>, ValueModel)>)>,
    incoming: Seq<(Seq<char>, Seq<(Seq<char>, ValueModel)>)>,
    strategy: MergeStrategy,
) -> Seq<(Seq<char>, Seq<(Seq<char>, ValueModel)>)>
    decreases incoming.len(),
{
    if incoming.len() == 0 {
        groups
    } else {
        let k = spec_lower_seq(incoming[0].0);
        let stepped = (match spec_group_assoc(groups, k) {
            Some(vars) => spec_groups_update(
                groups,
                k,
                spec_strategy_vars(vars, incoming[0].1, strategy),
            ),
            None => if strategy == MergeStrategy::SkipExisting {
                groups
            } else {
                groups.push((k, incoming[0].1))
            },
        });
        spec_strategy_groups(stepped, incoming.skip(1), strategy)
    }
}

impl Namelist {
    /// Merge another namelist into this one under the given strategy.
    pub fn merge_with_strategy(&mut self, other: &Namelist, strategy: MergeStrategy) -> (r: Result<
        (),
        F90nmlError,
    >)
        ensures
            r is Ok,
            final(self).spec_groups() == spec_strategy_groups(
                old(self).spec_groups(),
                other.spec_groups(),
                strategy,
            ),
    {
        let ghost incoming = other.spec_groups();
        let n = other.len();
        proof {
            assert(incoming.subrange(0, incoming.len() as int) =~= incoming);
        }
        let mut i: usize = 0;
        while i < n
            invariant
                n == incoming.len(),
                i <= n,
                incoming == other.spec_groups(),
                spec_strategy_groups(old(self).spec_groups(), incoming, strategy)
                    == spec_strategy_groups(
                    self.spec_groups(),
                    incoming.subrange(i as int, incoming.len() as int),
                    strategy,
                ),
            decreases n - i,
        {
            let ghost rem = incoming.subrange(i as int, incoming.len() as int);
            let (gname, ogroup) = other.group_at(i);
            let gname = gname.clone();
            let lname = lower_name(gname.as_str());
            proof {
                assert(rem[0] == incoming[i as int]);
                assert(rem.skip(1) =~= incoming.subrange(i + 1, incoming.len() as int));
            }
            match self.position_of(&lname) {
                Some(pos) => {
                    let ghost before0 = self.groups@;
                    proof {
                        lemma_view_groups_len(before0);
                        lemma_view_groups_index(before0, pos as int);
                        lemma_group_assoc_at(self.spec_groups(), lname@, pos as int);
                    }
                    let (ename, mut g) = self.groups.remove(pos);
                    match g.merge_with_strategy(ogroup, strategy) {
                        Ok(..) => {},
                        Err(e) => {
                            return Err(e);
                        },
                    }
                    self.groups.insert(pos, (ename, g));
                    proof {
                        lemma_view_groups_len(self.groups@);
                        assert forall|j: int| 0 <= j < self.groups@.len() implies
                            #[trigger] self.spec_groups()[j] == (if j == pos as int {
                            (lname@, spec_strategy_vars(spec_view_groups(before0)[pos as int].1,
                            incoming[i as int].1, strategy))
                        } else {
                            spec_view_groups(before0)[j]
                        }) by {
                            lemma_view_groups_index(self.groups@, j);
                            lemma_view_groups_index(before0, j);
                            if j == pos as int {
                            } else if j < pos as int {
                                assert(self.groups@[j] == before0[j]);
                            } else {
                                assert(self.groups@[j] == before0[j]);
                            }
                        }
                        assert forall|j: int| 0 <= j < pos as int implies (
                        #[trigger] spec_view_groups(before0)[j].0) != lname@ by {}
                        lemma_groups_update_at(spec_view_groups(before0), lname@,
                            spec_strategy_vars(spec_view_groups(before0)[pos as int].1,
                            incoming[i as int].1, strategy), pos as int);
                        assert(self.spec_groups() =~= spec_groups_update(
                            spec_view_groups(before0),
                            lname@,
                            spec_strategy_vars(spec_view_groups(before0)[pos as int].1,
                            incoming[i as int].1, strategy),
                        ));
                    }
                },
                None => {
                    if strategy != MergeStrategy::SkipExisting {
                        let ghost before0 = self.groups@;
                        let copied = ogroup.dup();
                        self.groups.push((lname, copied));
                        proof {
                            assert(self.groups@.drop_last() =~= before0);
                            assert(self.spec_groups() =~= spec_view_groups(before0).push(
                                (lname@, incoming[i as int].1),
                            ));
                        }
                    }
                },
            }
            i += 1;
        }
        proof {
            assert(incoming.subrange(incoming.len() as int, incoming.len() as int) =~= Seq::<
                (Seq<char>, Seq<(Seq<char>, ValueModel)>),
            >::empty());
        }
        Ok(())
    }
}

} // verus!
