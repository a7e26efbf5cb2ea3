//! Formatting hints kept alongside a document, for output that follows
//! the original text's habits.

use vstd::prelude::*;

verus! {

use crate::text::spec_lower_seq;

/// Case kept, lowered, or raised for names on output.
#[derive(Debug, Clone, Copy, PartialEq, Eq, Structural)]
pub enum CaseStyle {
    /// Keep the original case
    Preserve,
    /// Lower-case names
    Lower,
    /// Upper-case names
    Upper,
}

impl Default for CaseStyle {
    /// The original case is kept.
    fn default() -> (r: CaseStyle)
        ensures
            r == CaseStyle::Preserve,
    {
        CaseStyle::Preserve
    }
}

/// How an array is laid out on output.
#[derive(Debug, Clone, Copy, PartialEq, Eq, Structural)]
pub enum ArrayStyle {
    /// All elements on the assignment line
    Inline,
    /// One element per line
    MultiLine,
    /// Minimal spacing
    Compact,
}

impl Default for ArrayStyle {
    /// Elements stay on the assignment line.
    fn default() -> (r: ArrayStyle)
        ensures
            r == ArrayStyle::Inline,
    {
        ArrayStyle::Inline
    }
}

/// Spaces around the assignment mark.
#[derive(Debug, Clone, Copy, PartialEq, Eq, Structural)]
pub struct AssignmentSpacing {
    /// Spaces before the mark
    pub before: usize,
    /// Spaces after the mark
    pub after: usize,
}

impl Default for AssignmentSpacing {
    /// One space on each side.
    fn default() -> (r: AssignmentSpacing)
        ensures
            r.before == 1 && r.after == 1,
    {
        AssignmentSpacing { before: 1, after: 1 }
    }
}

impl AssignmentSpacing {
    /// The same count of spaces on each side.
    pub fn equal(spaces: usize) -> (r: AssignmentSpacing)
        ensures
            r.before == spaces && r.after == spaces,
    {
        AssignmentSpacing { before: spaces, after: spaces }
    }

    /// No spaces at all.
    pub fn compact() -> (r: AssignmentSpacing)
        ensures
            r.before == 0 && r.after == 0,
    {
        AssignmentSpacing { before: 0, after: 0 }
    }

    /// Two spaces on each side.
    pub fn loose() -> (r: AssignmentSpacing)
        ensures
            r.before == 2 && r.after == 2,
    {
        AssignmentSpacing { before: 2, after: 2 }
    }
}

/// Per-variable output habits.
#[derive(Debug, Clone, PartialEq)]
pub struct VariableFormatting {
    /// Inline comment for the variable
    pub inline_comment: Option<String>,
    /// Indentation of the variable's line
    pub indentation: Option<String>,
    /// Whether the line ends with a comma
    pub trailing_comma: bool,
    /// Spaces around the assignment mark
    pub assignment_spacing: Option<AssignmentSpacing>,
    /// How arrays are laid out
    pub array_style: ArrayStyle,
}

impl Default for VariableFormatting {
    /// No comment, no overrides, inline arrays.
    fn default() -> (r: VariableFormatting)
        ensures
            r.inline_comment is None && r.indentation is None && !r.trailing_comma
                && r.assignment_spacing is None && r.array_style == ArrayStyle::Inline,
    {
        VariableFormatting {
            inline_comment: None,
            indentation: None,
            trailing_comma: false,
            assignment_spacing: None,
            array_style: ArrayStyle::Inline,
        }
    }
}

impl VariableFormatting {
    /// A fresh default formatting.
    pub fn new() -> (r: VariableFormatting)
        ensures
            r.inline_comment is None && r.indentation is None && !r.trailing_comma
                && r.assignment_spacing is None && r.array_style == ArrayStyle::Inline,
    {
        VariableFormatting {
            inline_comment: None,
            indentation: None,
            trailing_comma: false,
            assignment_spacing: None,
            array_style: ArrayStyle::Inline,
        }
    }

    /// The same formatting with an inline comment.
    pub fn with_comment(self, comment: &str) -> (r: VariableFormatting)
        ensures
            r.inline_comment matches Some(c) && c@ == comment@,
            r.indentation == self.indentation,
            r.trailing_comma == self.trailing_comma,
            r.assignment_spacing == self.assignment_spacing,
            r.array_style == self.array_style,
    {
        VariableFormatting { inline_comment: Some(comment.to_owned()), ..self }
    }

    /// The same formatting with its own indentation.
    pub fn with_indentation(self, indent: &str) -> (r: VariableFormatting)
        ensures
            r.indentation matches Some(s) && s@ == indent@,
            r.inline_comment == self.inline_comment,
            r.trailing_comma == self.trailing_comma,
            r.assignment_spacing == self.assignment_spacing,
            r.array_style == self.array_style,
    {
        VariableFormatting { indentation: Some(indent.to_owned()), ..self }
    }

    /// The same formatting with the trailing comma set as given.
    pub fn with_trailing_comma(self, trailing: bool) -> (r: VariableFormatting)
        ensures
            r.trailing_comma == trailing,
            r.inline_comment == self.inline_comment,
            r.indentation == self.indentation,
            r.assignment_spacing == self.assignment_spacing,
            r.array_style == self.array_style,
    {
        VariableFormatting { trailing_comma: trailing, ..self }
    }

    /// The same formatting with the given assignment spacing.
    pub fn with_assignment_spacing(self, spacing: AssignmentSpacing) -> (r: VariableFormatting)
        ensures
            r.assignment_spacing == Some(spacing),
            r.inline_comment == self.inline_comment,
            r.indentation == self.indentation,
            r.trailing_comma == self.trailing_comma,
            r.array_style == self.array_style,
    {
        VariableFormatting { assignment_spacing: Some(spacing), ..self }
    }

    /// The same formatting with the given array style.
    pub fn with_array_style(self, style: ArrayStyle) -> (r: VariableFormatting)
        ensures
            r.array_style == style,
            r.inline_comment == self.inline_comment,
            r.indentation == self.indentation,
            r.trailing_comma == self.trailing_comma,
            r.assignment_spacing == self.assignment_spacing,
    {
        VariableFormatting { array_style: style, ..self }
    }
}

/// Per-group output habits.
#[derive(Debug, PartialEq)]
pub struct GroupFormattingHints {
    /// Per-variable formatting, keyed by lower-cased name
    pub variables: Vec<(String, VariableFormatting)>,
    /// Indentation for the whole group
    pub indentation: Option<String>,
    /// Comments attached to the group
    pub comments: Vec<String>,
    /// The original order of the variables
    pub variable_order: Vec<String>,
}

/// The view of per-variable formatting entries.
pub open spec fn spec_view_vf(s: Seq<(String, VariableFormatting)>) -> Seq<
    (Seq<char>, VariableFormatting),
>
    decreases s,
{
    if s.len() == 0 {
        Seq::empty()
    } else {
        spec_view_vf(s.drop_last()).push((s.last().0@, s.last().1))
    }
}

/// First-match lookup among formatting entries.
pub open spec fn spec_assoc_vf(
    s: Seq<(Seq<char>, VariableFormatting)>,
    k: Seq<char>,
) -> Option<VariableFormatting>
    decreases s.len(),
{
    if s.len() == 0 {
        None
    } else if s[0].0 == k {
        Some(s[0].1)
    } else {
        spec_assoc_vf(s.skip(1), k)
    }
}

/// A viewed formatting list has the same length and matching entries.
pub proof fn lemma_view_vf_index(s: Seq<(String, VariableFormatting)>, i: int)
    requires
        0 <= i < s.len(),
    ensures
        spec_view_vf(s).len() == s.len(),
        spec_view_vf(s)[i] == (s[i].0@, s[i].1),
    decreases s.len(),
{
    lemma_view_vf_len(s);
    if i < s.len() - 1 {
        lemma_view_vf_index(s.drop_last(), i);
    }
}

/// A viewed formatting list has the same length.
pub proof fn lemma_view_vf_len(s: Seq<(String, VariableFormatting)>)
    ensures
        spec_view_vf(s).len() == s.len(),
    decreases s.len(),
{
    if s.len() > 0 {
        lemma_view_vf_len(s.drop_last());
    }
}

impl GroupFormattingHints {
    /// The formatting-entry model.
    pub open spec fn spec_vf(&self) -> Seq<(Seq<char>, VariableFormatting)> {
        spec_view_vf(self.variables@)
    }

    /// Fresh hints with nothing recorded.
    pub fn new() -> (r: GroupFormattingHints)
        ensures
            r.spec_vf() =~= Seq::<(Seq<char>, VariableFormatting)>::empty(),
            r.indentation is None,
            r.comments@.len() == 0,
            r.variable_order@.len() == 0,
    {
        GroupFormattingHints {
            variables: Vec::new(),
            indentation: None,
            comments: Vec::new(),
            variable_order: Vec::new(),
        }
    }

    /// Record the formatting of a variable, replacing any previous one.
    pub fn set_variable_formatting(&mut self, var_name: &str, formatting: VariableFormatting)
        ensures
            spec_assoc_vf(final(self).spec_vf(), spec_lower_seq(var_name@)) == Some(formatting),
    {
        let chars = crate::text::str_to_chars(var_name);
        let lowered = crate::text::lower_chars(chars.as_slice());
        let lname = crate::text::chars_to_string(lowered.as_slice());
        let n = self.variables.len();
        proof {
            lemma_view_vf_len(self.variables@);
        }
        let mut i: usize = 0;
        while i < n
            invariant
                n == self.variables@.len(),
                i <= n,
                lname@ == spec_lower_seq(var_name@),
                forall|j: int| 0 <= j < i ==> (#[trigger] self.variables@[j].0@) != lname@,
                self == old(self),
            decreases n - i,
        {
            if crate::fortran_types::realnum::chars_eq_str(
                crate::text::str_to_chars(self.variables[i].0.as_str()).as_slice(),
                lname.as_str(),
            ) {
                let ghost before0 = self.variables@;
                self.variables.set(i, (lname, formatting));
                proof {
                    lemma_view_vf_len(before0);
                    lemma_view_vf_len(self.variables@);
                    lemma_view_vf_index(self.variables@, i as int);
                    assert forall|j: int| 0 <= j < i as int implies (
                    #[trigger] self.spec_vf()[j].0) != spec_lower_seq(var_name@) by {
                        lemma_view_vf_index(self.variables@, j);
                        lemma_view_vf_index(before0, j);
                    }
                    lemma_assoc_vf_at(self.spec_vf(), spec_lower_seq(var_name@), i as int);
                }
                return ;
            }
            i += 1;
        }
        let ghost prev = self.variables@;
        self.variables.push((lname, formatting));
        proof {
            assert(self.variables@.drop_last() =~= prev);
            lemma_view_vf_len(prev);
            assert forall|j: int| 0 <= j < prev.len() implies (
            #[trigger] self.spec_vf()[j].0) != spec_lower_seq(var_name@) by {
                lemma_view_vf_index(self.variables@, j);
                lemma_view_vf_index(prev, j);
            }
            lemma_view_vf_index(self.variables@, prev.len() as int);
            lemma_assoc_vf_at(self.spec_vf(), spec_lower_seq(var_name@), prev.len() as int);
        }
    }

    /// The recorded formatting of a variable, when any.
    pub fn get_variable_formatting(&self, var_name: &str) -> (r: Option<&VariableFormatting>)
        ensures
            r is Some <==> spec_assoc_vf(self.spec_vf(), spec_lower_seq(var_name@)) is Some,
            r matches Some(v) ==> Some(*v) == spec_assoc_vf(
                self.spec_vf(),
                spec_lower_seq(var_name@),
            ),
    {
        let chars = crate::text::str_to_chars(var_name);
        let lowered = crate::text::lower_chars(chars.as_slice());
        let lname = crate::text::chars_to_string(lowered.as_slice());
        let ghost target = self.spec_vf();
        proof {
            lemma_view_vf_len(self.variables@);
            assert(target.subrange(0, target.len() as int) =~= target);
        }
        let mut i: usize = 0;
        while i < self.variables.len()
            invariant
                i <= self.variables@.len(),
                lname@ == spec_lower_seq(var_name@),
                target == self.spec_vf(),
                target.len() == self.variables@.len(),
                spec_assoc_vf(target, lname@) == spec_assoc_vf(
                    target.subrange(i as int, target.len() as int),
                    lname@,
                ),
            decreases self.variables@.len() - i,
        {
            proof {
                lemma_view_vf_index(self.variables@, i as int);
                let rem = target.subrange(i as int, target.len() as int);
                assert(rem[0] == target[i as int]);
                assert(rem.skip(1) =~= target.subrange(i + 1, target.len() as int));
            }
            if crate::fortran_types::realnum::chars_eq_str(
                crate::text::str_to_chars(self.variables[i].0.as_str()).as_slice(),
                lname.as_str(),
            ) {
                return Some(&self.variables[i].1);
            }
            i += 1;
        }
        proof {
            assert(target.subrange(target.len() as int, target.len() as int) =~= Seq::<
                (Seq<char>, VariableFormatting),
            >::empty());
        }
        None
    }

    /// Attach a comment to the group.
    pub fn add_comment(&mut self, comment: &str)
        ensures
            final(self).comments@.len() == old(self).comments@.len() + 1,
            final(self).comments@.last()@ == comment@,
            final(self).spec_vf() == old(self).spec_vf(),
    {
        self.comments.push(comment.to_owned());
    }

    /// Record the original order of the variables.
    pub fn set_variable_order(&mut self, order: Vec<String>)
        ensures
            final(self).variable_order == order,
            final(self).spec_vf() == old(self).spec_vf(),
    {
        self.variable_order = order;
    }
}

/// A present key at a first-match position is found by the lookup.
proof fn lemma_assoc_vf_at(s: Seq<(Seq<char>, VariableFormatting)>, k: Seq<char>, i: int)
    requires
        0 <= i < s.len(),
        s[i].0 == k,
        forall|j: int| 0 <= j < i ==> (#[trigger] s[j].0) != k,
    ensures
        spec_assoc_vf(s, k) == Some(s[i].1),
    decreases i,
{
    if i > 0 {
        let t = s.skip(1);
        assert forall|j: int| 0 <= j < i - 1 implies (#[trigger] t[j].0) != k by {
            assert(t[j] == s[j + 1]);
        }
        assert(t[i - 1] == s[i]);
        lemma_assoc_vf_at(t, k, i - 1);
    }
}

/// Whole-document output habits.
#[derive(Debug, PartialEq)]
pub struct FormattingHints {
    /// Per-group hints, keyed by lower-cased name
    pub groups: Vec<(String, GroupFormattingHints)>,
    /// Case choice for names
    pub case_style: CaseStyle,
    /// Document-wide indentation
    pub indentation: String,
    /// Whether original spacing is kept
    pub preserve_spacing: bool,
}

impl FormattingHints {
    /// Fresh hints with nothing recorded.
    pub fn new() -> (r: FormattingHints)
        ensures
            r.groups@.len() == 0,
            r.case_style == CaseStyle::Preserve,
            r.indentation@ == Seq::<char>::empty(),
            !r.preserve_spacing,
    {
        FormattingHints {
            groups: Vec::new(),
            case_style: CaseStyle::Preserve,
            indentation: String::new(),
            preserve_spacing: false,
        }
    }

    /// The same hints with the given case choice.
    pub fn with_case_style(self, case_style: CaseStyle) -> (r: FormattingHints)
        ensures
            r.case_style == case_style,
            r.groups == self.groups,
            r.indentation == self.indentation,
            r.preserve_spacing == self.preserve_spacing,
    {
        FormattingHints { case_style, ..self }
    }

    /// The same hints with the given indentation.
    pub fn with_indentation(self, indent: &str) -> (r: FormattingHints)
        ensures
            r.indentation@ == indent@,
            r.groups == self.groups,
            r.case_style == self.case_style,
            r.preserve_spacing == self.preserve_spacing,
    {
        FormattingHints { indentation: indent.to_owned(), ..self }
    }

    /// The same hints with spacing preservation set as given.
    pub fn with_spacing_preservation(self, preserve: bool) -> (r: FormattingHints)
        ensures
            r.preserve_spacing == preserve,
            r.groups == self.groups,
            r.case_style == self.case_style,
            r.indentation == self.indentation,
    {
        FormattingHints { preserve_spacing: preserve, ..self }
    }

    /// Make sure a group has a hint slot, creating an empty one when
    /// none exists.
    pub fn group_hints(&mut self, group_name: &str)
        ensures
            final(self).groups@.len() >= old(self).groups@.len(),
    {
        let chars = crate::text::str_to_chars(group_name);
        let lowered = crate::text::lower_chars(chars.as_slice());
        let lname = crate::text::chars_to_string(lowered.as_slice());
        let mut i: usize = 0;
        while i < self.groups.len()
            invariant
                i <= self.groups@.len(),
                self == old(self),
            decreases self.groups@.len() - i,
        {
            if crate::fortran_types::value::string_eq(&self.groups[i].0, &lname) {
                return ;
            }
            i += 1;
        }
        self.groups.push((lname, GroupFormattingHints::new()));
    }

    /// The recorded hints of a group, when any.
    pub fn get_group_hints(&self, group_name: &str) -> (r: Option<&GroupFormattingHints>) {
        let chars = crate::text::str_to_chars(group_name);
        let lowered = crate::text::lower_chars(chars.as_slice());
        let lname = crate::text::chars_to_string(lowered.as_slice());
        let mut i: usize = 0;
        while i < self.groups.len()
            invariant
                i <= self.groups@.len(),
            decreases self.groups@.len() - i,
        {
            if crate::fortran_types::value::string_eq(&self.groups[i].0, &lname) {
                return Some(&self.groups[i].1);
            }
            i += 1;
        }
        None
    }
}

} // verus!
