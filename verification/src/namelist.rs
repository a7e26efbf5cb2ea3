//! The document model: named groups of variable assignments, patching
//! and merging, formatting hints, and validation.

pub mod document;
pub mod formatting;
pub mod group;
pub mod patching;
pub mod validation;

pub use document::{Namelist, WriteOptions};
pub use formatting::{ArrayStyle, AssignmentSpacing, CaseStyle, FormattingHints, GroupFormattingHints, VariableFormatting};
pub use group::NamelistGroup;
pub use patching::{append_values, merge_values, MergeStrategy};
pub use validation::validate_namelist;
