//! Error types for namelist parsing, writing and patching, with exact
//! specifications for their rendered messages, categories and severities.

use vstd::prelude::*;

verus! {

use vstd::string::StringExecFns;
use crate::digits::spec_nat_string;
use crate::digits::usize_to_chars;
use crate::text::chars_to_string;

/// Errors that can occur when parsing, writing, or patching Fortran namelists.
#[derive(Debug, Clone, PartialEq)]
pub enum F90nmlError {
    /// I/O failure reported by the caller that read or wrote a file
    Io(String),
    /// Parse error with position and message
    Parse { message: String, line: usize, column: usize },
    /// Invalid syntax in the namelist
    InvalidSyntax { message: String, position: usize },
    /// Unexpected end of file
    UnexpectedEof,
    /// Invalid token encountered
    InvalidToken { token: String, expected: Vec<String>, position: usize },
    /// Invalid value for a variable
    InvalidValue { variable: String, value: String, expected_type: String },
    /// Invalid array index
    InvalidIndex { variable: String, index: String, message: String },
    /// Duplicate group or variable name
    Duplicate { name: String, item_type: String },
    /// Variable not found
    VariableNotFound { variable: String, group: String },
    /// Group not found
    GroupNotFound { group: String },
    /// Type conversion error
    TypeConversion { from: String, to: String, value: String },
    /// File already exists (when overwriting was not forced)
    FileAlreadyExists(String),
    /// Invalid format specification
    InvalidFormat { format: String, message: String },
    /// Template-related errors
    Template { message: String, template_position: Option<usize> },
    /// Patch application errors
    PatchError { message: String, group: Option<String>, variable: Option<String> },
    /// Incompatible patch (e.g. trying to patch with a value of another shape)
    IncompatiblePatch { variable: String, original_type: String, patch_type: String },
    /// Missing template information required for patching
    MissingTemplateInfo { operation: String },
    /// Array dimension mismatch
    DimensionMismatch { variable: String, expected: Vec<usize>, actual: Vec<usize> },
    /// Validation error
    ValidationError { message: String, group: Option<String>, variable: Option<String> },
    /// Circular reference in derived types
    CircularReference { path: Vec<String> },
    /// Maximum nesting depth exceeded
    MaxDepthExceeded { max_depth: usize, current_depth: usize },
    /// Encoding error when reading or writing text
    EncodingError { message: String, encoding: String },
    /// Custom error message
    Custom(String),
}

/// Text of the parts joined with the separator between consecutive parts.
pub open spec fn spec_join(parts: Seq<Seq<char>>, sep: Seq<char>) -> Seq<char>
    decreases parts,
{
    if parts.len() == 0 {
        Seq::empty()
    } else if parts.len() == 1 {
        parts.last()
    } else {
        spec_join(parts.drop_last(), sep) + sep + parts.last()
    }
}

/// Debug-style rendering of a list of sizes, such as "[3, 3]".
pub open spec fn spec_usize_list(parts: Seq<usize>) -> Seq<char> {
    seq!['['] + spec_join(parts.map_values(|n: usize| spec_nat_string(n as int)), ", "@) + seq![']']
}

/// Join strings with a separator, as the message renderings need.
pub fn join_strings(parts: &Vec<String>, sep: &str) -> (r: String)
    ensures
        r@ == spec_join(parts.deep_view(), sep@),
{
    let mut r = String::new();
    let mut i: usize = 0;
    while i < parts.len()
        invariant
            i <= parts@.len(),
            r@ == spec_join(parts.deep_view().subrange(0, i as int), sep@),
        decreases parts@.len() - i,
    {
        if i > 0 {
            r.append(sep);
        }
        r.append(parts[i].as_str());
        i += 1;
        proof {
            let pre = parts.deep_view().subrange(0, i as int);
            assert(pre.drop_last() =~= parts.deep_view().subrange(0, i - 1));
            assert(pre.last() == parts.deep_view()[i - 1]);
            if i > 1 {
                assert(r@ =~= spec_join(pre.drop_last(), sep@) + sep@ + pre.last());
            } else {
                assert(r@ =~= pre.last());
            }
        }
    }
    proof {
        assert(parts.deep_view().subrange(0, parts.deep_view().len() as int) =~= parts.deep_view());
    }
    r
}

/// Render a list of sizes as "[a, b, c]".
pub fn usize_list_string(parts: &Vec<usize>) -> (r: String)
    ensures
        r@ == spec_usize_list(parts@),
{
    let mut texts: Vec<String> = Vec::new();
    proof {
        assert(texts.deep_view() =~= parts@.subrange(0, 0).map_values(
            |n: usize| spec_nat_string(n as int),
        ));
    }
    let mut i: usize = 0;
    while i < parts.len()
        invariant
            i <= parts@.len(),
            texts.deep_view() == parts@.subrange(0, i as int).map_values(
                |n: usize| spec_nat_string(n as int),
            ),
        decreases parts@.len() - i,
    {
        let ghost prev = texts.deep_view();
        let digits = usize_to_chars(parts[i]);
        let t = chars_to_string(digits.as_slice());
        texts.push(t);
        i += 1;
        proof {
            let dv = texts.deep_view();
            let mv = parts@.subrange(0, i as int).map_values(|n: usize| spec_nat_string(n as int));
            assert(prev.len() == i - 1);
            assert(texts@.len() == i);
            assert(dv.len() == i);
            assert(mv.len() == i);
            assert forall|j: int| 0 <= j < i implies dv[j] == mv[j] by {
                if j < i - 1 {
                    assert(dv[j] == prev[j]);
                    assert(prev[j] == parts@.subrange(0, i - 1).map_values(
                        |n: usize| spec_nat_string(n as int),
                    )[j]);
                } else {
                    assert(dv[j] == t@);
                }
            }
            assert(dv =~= mv);
        }
    }
    let mut r = String::new();
    r.append("[");
    let joined = join_strings(&texts, ", ");
    r.append(joined.as_str());
    r.append("]");
    proof {
        assert(parts@.subrange(0, parts@.len() as int) =~= parts@);
        assert(texts.deep_view() =~~= parts@.map_values(|n: usize| spec_nat_string(n as int)));
        reveal_strlit("[");
        reveal_strlit("]");
        assert("["@ =~= seq!['[']);
        assert("]"@ =~= seq![']']);
        assert(r@ =~= spec_usize_list(parts@));
    }
    r
}

/// The message text of an error, exactly as `message` renders it.
pub open spec fn spec_message(e: F90nmlError) -> Seq<char> {
    match e {
        F90nmlError::Io(msg) => "I/O error: "@ + msg@,
        F90nmlError::Parse { message, line, column } => "Parse error at line "@ + spec_nat_string(
            line as int,
        ) + ", column "@ + spec_nat_string(column as int) + ": "@ + message@,
        F90nmlError::InvalidSyntax { message, position } => "Invalid syntax at position "@
            + spec_nat_string(position as int) + ": "@ + message@,
        F90nmlError::UnexpectedEof => "Unexpected end of file"@,
        F90nmlError::InvalidToken { token, expected, position } => "Invalid token '"@ + token@
            + "' at position "@ + spec_nat_string(position as int) + ". Expected one of: "@
            + spec_join(expected.deep_view(), ", "@),
        F90nmlError::InvalidValue { variable, value, expected_type } => "Invalid value '"@ + value@
            + "' for variable '"@ + variable@ + "'. Expected type: "@ + expected_type@,
        F90nmlError::InvalidIndex { variable, index, message } => "Invalid index '"@ + index@
            + "' for variable '"@ + variable@ + "': "@ + message@,
        F90nmlError::Duplicate { name, item_type } => "Duplicate "@ + item_type@ + " name: '"@
            + name@ + "'"@,
        F90nmlError::VariableNotFound { variable, group } => "Variable '"@ + variable@
            + "' not found in group '"@ + group@ + "'"@,
        F90nmlError::GroupNotFound { group } => "Group '"@ + group@ + "' not found"@,
        F90nmlError::TypeConversion { from, to, value } => "Cannot convert '"@ + value@ + "' from "@
            + from@ + " to "@ + to@,
        F90nmlError::FileAlreadyExists(path) => "File already exists: "@ + path@,
        F90nmlError::InvalidFormat { format, message } => "Invalid format '"@ + format@ + "': "@
            + message@,
        F90nmlError::Template { message, template_position } => match template_position {
            Some(pos) => "Template error at position "@ + spec_nat_string(pos as int) + ": "@
                + message@,
            None => "Template error: "@ + message@,
        },
        F90nmlError::PatchError { message, group, variable } => match (group, variable) {
            (Some(g), Some(v)) => "Patch error in group '"@ + g@ + "', variable '"@ + v@ + "': "@
                + message@,
            (Some(g), None) => "Patch error in group '"@ + g@ + "': "@ + message@,
            (None, Some(v)) => "Patch error with variable '"@ + v@ + "': "@ + message@,
            (None, None) => "Patch error: "@ + message@,
        },
        F90nmlError::IncompatiblePatch { variable, original_type, patch_type } => (
        "Cannot patch variable '"@ + variable@ + "': incompatible types ("@ + original_type@
            + " vs "@ + patch_type@ + ")"@),
        F90nmlError::MissingTemplateInfo { operation } => (
        "Missing template information required for operation: "@ + operation@),
        F90nmlError::DimensionMismatch { variable, expected, actual } => (
        "Dimension mismatch for variable '"@ + variable@ + "': expected "@ + spec_usize_list(
            expected@,
        ) + ", got "@ + spec_usize_list(actual@)),
        F90nmlError::ValidationError { message, group, variable } => match (group, variable) {
            (Some(g), Some(v)) => "Validation error in group '"@ + g@ + "', variable '"@ + v@
                + "': "@ + message@,
            (Some(g), None) => "Validation error in group '"@ + g@ + "': "@ + message@,
            (None, Some(v)) => "Validation error with variable '"@ + v@ + "': "@ + message@,
            (None, None) => "Validation error: "@ + message@,
        },
        F90nmlError::CircularReference { path } => "Circular reference detected: "@ + spec_join(
            path.deep_view(),
            " -> "@,
        ),
        F90nmlError::MaxDepthExceeded { max_depth, current_depth } => (
        "Maximum nesting depth exceeded: "@ + spec_nat_string(current_depth as int) + " > "@
            + spec_nat_string(max_depth as int)),
        F90nmlError::EncodingError { message, encoding } => "Encoding error ("@ + encoding@ + "): "@
            + message@,
        F90nmlError::Custom(msg) => msg@,
    }
}

impl F90nmlError {
    /// Human-readable message for this error.
    pub fn message(&self) -> (r: String)
        ensures
            r@ == spec_message(*self),
    {
        let mut r = String::new();
        match self {
            F90nmlError::Io(msg) => {
                r.append("I/O error: ");
                r.append(msg.as_str());
            },
            F90nmlError::Parse { message, line, column } => {
                r.append("Parse error at line ");
                let t = chars_to_string(usize_to_chars(*line).as_slice());
                r.append(t.as_str());
                r.append(", column ");
                let t = chars_to_string(usize_to_chars(*column).as_slice());
                r.append(t.as_str());
                r.append(": ");
                r.append(message.as_str());
            },
            F90nmlError::InvalidSyntax { message, position } => {
                r.append("Invalid syntax at position ");
                let t = chars_to_string(usize_to_chars(*position).as_slice());
                r.append(t.as_str());
                r.append(": ");
                r.append(message.as_str());
            },
            F90nmlError::UnexpectedEof => {
                r.append("Unexpected end of file");
            },
            F90nmlError::InvalidToken { token, expected, position } => {
                r.append("Invalid token '");
                r.append(token.as_str());
                r.append("' at position ");
                let t = chars_to_string(usize_to_chars(*position).as_slice());
                r.append(t.as_str());
                r.append(". Expected one of: ");
                let t = join_strings(expected, ", ");
                r.append(t.as_str());
            },
            F90nmlError::InvalidValue { variable, value, expected_type } => {
                r.append("Invalid value '");
                r.append(value.as_str());
                r.append("' for variable '");
                r.append(variable.as_str());
                r.append("'. Expected type: ");
                r.append(expected_type.as_str());
            },
            F90nmlError::InvalidIndex { variable, index, message } => {
                r.append("Invalid index '");
                r.append(index.as_str());
                r.append("' for variable '");
                r.append(variable.as_str());
                r.append("': ");
                r.append(message.as_str());
            },
            F90nmlError::Duplicate { name, item_type } => {
                r.append("Duplicate ");
                r.append(item_type.as_str());
                r.append(" name: '");
                r.append(name.as_str());
                r.append("'");
            },
            F90nmlError::VariableNotFound { variable, group } => {
                r.append("Variable '");
                r.append(variable.as_str());
                r.append("' not found in group '");
                r.append(group.as_str());
                r.append("'");
            },
            F90nmlError::GroupNotFound { group } => {
                r.append("Group '");
                r.append(group.as_str());
                r.append("' not found");
            },
            F90nmlError::TypeConversion { from, to, value } => {
                r.append("Cannot convert '");
                r.append(value.as_str());
                r.append("' from ");
                r.append(from.as_str());
                r.append(" to ");
                r.append(to.as_str());
            },
            F90nmlError::FileAlreadyExists(path) => {
                r.append("File already exists: ");
                r.append(path.as_str());
            },
            F90nmlError::InvalidFormat { format, message } => {
                r.append("Invalid format '");
                r.append(format.as_str());
                r.append("': ");
                r.append(message.as_str());
            },
            F90nmlError::Template { message, template_position } => {
                match template_position {
                    Some(pos) => {
                        r.append("Template error at position ");
                        let t = chars_to_string(usize_to_chars(*pos).as_slice());
                        r.append(t.as_str());
                        r.append(": ");
                        r.append(message.as_str());
                    },
                    None => {
                        r.append("Template error: ");
                        r.append(message.as_str());
                    },
                }
            },
            F90nmlError::PatchError { message, group, variable } => {
                match (group, variable) {
                    (Some(g), Some(v)) => {
                        r.append("Patch error in group '");
                        r.append(g.as_str());
                        r.append("', variable '");
                        r.append(v.as_str());
                        r.append("': ");
                        r.append(message.as_str());
                    },
                    (Some(g), None) => {
                        r.append("Patch error in group '");
                        r.append(g.as_str());
                        r.append("': ");
                        r.append(message.as_str());
                    },
                    (None, Some(v)) => {
                        r.append("Patch error with variable '");
                        r.append(v.as_str());
                        r.append("': ");
                        r.append(message.as_str());
                    },
                    (None, None) => {
                        r.append("Patch error: ");
                        r.append(message.as_str());
                    },
                }
            },
            F90nmlError::IncompatiblePatch { variable, original_type, patch_type } => {
                r.append("Cannot patch variable '");
                r.append(variable.as_str());
                r.append("': incompatible types (");
                r.append(original_type.as_str());
                r.append(" vs ");
                r.append(patch_type.as_str());
                r.append(")");
            },
            F90nmlError::MissingTemplateInfo { operation } => {
                r.append("Missing template information required for operation: ");
                r.append(operation.as_str());
            },
            F90nmlError::DimensionMismatch { variable, expected, actual } => {
                r.append("Dimension mismatch for variable '");
                r.append(variable.as_str());
                r.append("': expected ");
                let t = usize_list_string(expected);
                r.append(t.as_str());
                r.append(", got ");
                let t = usize_list_string(actual);
                r.append(t.as_str());
            },
            F90nmlError::ValidationError { message, group, variable } => {
                match (group, variable) {
                    (Some(g), Some(v)) => {
                        r.append("Validation error in group '");
                        r.append(g.as_str());
                        r.append("', variable '");
                        r.append(v.as_str());
                        r.append("': ");
                        r.append(message.as_str());
                    },
                    (Some(g), None) => {
                        r.append("Validation error in group '");
                        r.append(g.as_str());
                        r.append("': ");
                        r.append(message.as_str());
                    },
                    (None, Some(v)) => {
                        r.append("Validation error with variable '");
                        r.append(v.as_str());
                        r.append("': ");
                        r.append(message.as_str());
                    },
                    (None, None) => {
                        r.append("Validation error: ");
                        r.append(message.as_str());
                    },
                }
            },
            F90nmlError::CircularReference { path } => {
                r.append("Circular reference detected: ");
                let t = join_strings(path, " -> ");
                r.append(t.as_str());
            },
            F90nmlError::MaxDepthExceeded { max_depth, current_depth } => {
                r.append("Maximum nesting depth exceeded: ");
                let t = chars_to_string(usize_to_chars(*current_depth).as_slice());
                r.append(t.as_str());
                r.append(" > ");
                let t = chars_to_string(usize_to_chars(*max_depth).as_slice());
                r.append(t.as_str());
            },
            F90nmlError::EncodingError { message, encoding } => {
                r.append("Encoding error (");
                r.append(encoding.as_str());
                r.append("): ");
                r.append(message.as_str());
            },
            F90nmlError::Custom(msg) => {
                r.append(msg.as_str());
            },
        }
        proof {
            assert(r@ =~= spec_message(*self));
        }
        r
    }
}

/// The category label of each error kind.
pub open spec fn spec_category(e: F90nmlError) -> Seq<char> {
    match e {
        F90nmlError::Io(..) => "io"@,
        F90nmlError::Parse { .. } => "parse"@,
        F90nmlError::InvalidSyntax { .. } => "syntax"@,
        F90nmlError::UnexpectedEof => "eof"@,
        F90nmlError::InvalidToken { .. } => "token"@,
        F90nmlError::InvalidValue { .. } => "value"@,
        F90nmlError::InvalidIndex { .. } => "index"@,
        F90nmlError::Duplicate { .. } => "duplicate"@,
        F90nmlError::VariableNotFound { .. } => "not_found"@,
        F90nmlError::GroupNotFound { .. } => "not_found"@,
        F90nmlError::TypeConversion { .. } => "conversion"@,
        F90nmlError::FileAlreadyExists(..) => "file_exists"@,
        F90nmlError::InvalidFormat { .. } => "format"@,
        F90nmlError::Template { .. } => "template"@,
        F90nmlError::PatchError { .. } => "patch"@,
        F90nmlError::IncompatiblePatch { .. } => "patch"@,
        F90nmlError::MissingTemplateInfo { .. } => "template"@,
        F90nmlError::DimensionMismatch { .. } => "dimension"@,
        F90nmlError::ValidationError { .. } => "validation"@,
        F90nmlError::CircularReference { .. } => "circular"@,
        F90nmlError::MaxDepthExceeded { .. } => "depth"@,
        F90nmlError::EncodingError { .. } => "encoding"@,
        F90nmlError::Custom(..) => "custom"@,
    }
}

/// Whether a caller can sensibly retry after each error kind.
pub open spec fn spec_is_recoverable(e: F90nmlError) -> bool {
    match e {
        F90nmlError::Io(..) => false,
        F90nmlError::FileAlreadyExists(..) => true,
        F90nmlError::EncodingError { .. } => false,
        F90nmlError::Parse { .. } => false,
        F90nmlError::InvalidSyntax { .. } => false,
        F90nmlError::UnexpectedEof => false,
        F90nmlError::InvalidToken { .. } => false,
        F90nmlError::InvalidValue { .. } => true,
        F90nmlError::InvalidIndex { .. } => true,
        F90nmlError::TypeConversion { .. } => true,
        F90nmlError::InvalidFormat { .. } => true,
        F90nmlError::Duplicate { .. } => true,
        F90nmlError::VariableNotFound { .. } => true,
        F90nmlError::GroupNotFound { .. } => true,
        F90nmlError::DimensionMismatch { .. } => true,
        F90nmlError::ValidationError { .. } => true,
        F90nmlError::CircularReference { .. } => false,
        F90nmlError::MaxDepthExceeded { .. } => false,
        F90nmlError::Template { .. } => true,
        F90nmlError::PatchError { .. } => true,
        F90nmlError::IncompatiblePatch { .. } => true,
        F90nmlError::MissingTemplateInfo { .. } => false,
        F90nmlError::Custom(..) => true,
    }
}

/// Error severity levels for different kinds of failure.
#[derive(Debug, Clone, Copy, PartialEq, Eq, PartialOrd, Ord, Structural)]
pub enum ErrorSeverity {
    /// The operation can continue but something may be off
    Warning,
    /// The operation failed but may be retried
    Error,
    /// The operation failed and retrying cannot help
    Fatal,
}

/// The severity of each error kind.
pub open spec fn spec_severity(e: F90nmlError) -> ErrorSeverity {
    match e {
        F90nmlError::UnexpectedEof => ErrorSeverity::Fatal,
        F90nmlError::CircularReference { .. } => ErrorSeverity::Fatal,
        F90nmlError::MaxDepthExceeded { .. } => ErrorSeverity::Fatal,
        F90nmlError::MissingTemplateInfo { .. } => ErrorSeverity::Fatal,
        F90nmlError::Duplicate { .. } => ErrorSeverity::Warning,
        F90nmlError::VariableNotFound { .. } => ErrorSeverity::Warning,
        F90nmlError::GroupNotFound { .. } => ErrorSeverity::Warning,
        F90nmlError::FileAlreadyExists(..) => ErrorSeverity::Warning,
        _ => ErrorSeverity::Error,
    }
}

/// Where an error happened: a text position, or a group and variable.
#[derive(Debug, Clone, PartialEq)]
pub struct ErrorContext {
    pub line: Option<usize>,
    pub column: Option<usize>,
    pub group: Option<String>,
    pub variable: Option<String>,
}

/// The context drawn from each error kind, as
/// (line, column, group text, variable text).
pub open spec fn spec_context(e: F90nmlError) -> (
    Option<usize>,
    Option<usize>,
    Option<Seq<char>>,
    Option<Seq<char>>,
) {
    match e {
        F90nmlError::Parse { line, column, .. } => (Some(line), Some(column), None, None),
        F90nmlError::InvalidValue { variable, .. } => (None, None, None, Some(variable@)),
        F90nmlError::VariableNotFound { variable, group } => (
            None,
            None,
            Some(group@),
            Some(variable@),
        ),
        F90nmlError::GroupNotFound { group } => (None, None, Some(group@), None),
        F90nmlError::PatchError { group, variable, .. } => (
            None,
            None,
            group.deep_view(),
            variable.deep_view(),
        ),
        F90nmlError::ValidationError { group, variable, .. } => (
            None,
            None,
            group.deep_view(),
            variable.deep_view(),
        ),
        _ => (None, None, None, None),
    }
}

impl ErrorContext {
    /// A context that carries nothing.
    pub fn empty() -> (r: ErrorContext)
        ensures
            r.line is None && r.column is None && r.group is None && r.variable is None,
    {
        ErrorContext { line: None, column: None, group: None, variable: None }
    }

    /// Whether the context carries nothing.
    pub fn is_empty(&self) -> (r: bool)
        ensures
            r == (self.line is None && self.column is None && self.group is None
                && self.variable is None),
    {
        self.line.is_none() && self.column.is_none() && self.group.is_none()
            && self.variable.is_none()
    }

    /// A context that carries a text position.
    pub fn with_position(line: usize, column: usize) -> (r: ErrorContext)
        ensures
            r.line == Some(line) && r.column == Some(column) && r.group is None
                && r.variable is None,
    {
        ErrorContext { line: Some(line), column: Some(column), group: None, variable: None }
    }

    /// A context that carries a group and variable name.
    pub fn with_location(group: Option<String>, variable: Option<String>) -> (r: ErrorContext)
        ensures
            r.line is None && r.column is None && r.group == group && r.variable == variable,
    {
        ErrorContext { line: None, column: None, group, variable }
    }
}

impl F90nmlError {
    /// Build a parse error at a line and column.
    pub fn parse_error(message: &str, line: usize, column: usize) -> (r: F90nmlError)
        ensures
            r matches F90nmlError::Parse { message: m, line: l, column: c } && m@ == message@ && l
                == line && c == column,
    {
        F90nmlError::Parse { message: message.to_owned(), line, column }
    }

    /// Build an invalid-syntax error at a character position.
    pub fn invalid_syntax(message: &str, position: usize) -> (r: F90nmlError)
        ensures
            r matches F90nmlError::InvalidSyntax { message: m, position: p } && m@ == message@ && p
                == position,
    {
        F90nmlError::InvalidSyntax { message: message.to_owned(), position }
    }

    /// Build an invalid-token error listing what was expected.
    pub fn invalid_token(token: &str, expected: Vec<String>, position: usize) -> (r: F90nmlError)
        ensures
            r matches F90nmlError::InvalidToken { token: t, expected: e, position: p } && t@
                == token@ && e@ == expected@ && p == position,
    {
        F90nmlError::InvalidToken { token: token.to_owned(), expected, position }
    }

    /// Build an invalid-value error for a variable.
    pub fn invalid_value(variable: &str, value: &str, expected_type: &str) -> (r: F90nmlError)
        ensures
            r matches F90nmlError::InvalidValue { variable: n, value: v, expected_type: t } && n@
                == variable@ && v@ == value@ && t@ == expected_type@,
    {
        F90nmlError::InvalidValue {
            variable: variable.to_owned(),
            value: value.to_owned(),
            expected_type: expected_type.to_owned(),
        }
    }

    /// Build an invalid-index error for a variable.
    pub fn invalid_index(variable: &str, index: &str, message: &str) -> (r: F90nmlError)
        ensures
            r matches F90nmlError::InvalidIndex { variable: n, index: i, message: m } && n@
                == variable@ && i@ == index@ && m@ == message@,
    {
        F90nmlError::InvalidIndex {
            variable: variable.to_owned(),
            index: index.to_owned(),
            message: message.to_owned(),
        }
    }

    /// Build a template error with an optional position.
    pub fn template_error(message: &str, position: Option<usize>) -> (r: F90nmlError)
        ensures
            r matches F90nmlError::Template { message: m, template_position: p } && m@ == message@
                && p == position,
    {
        F90nmlError::Template { message: message.to_owned(), template_position: position }
    }

    /// Build a patch error with optional group and variable names.
    pub fn patch_error(message: &str, group: Option<String>, variable: Option<String>) -> (r:
        F90nmlError)
        ensures
            r matches F90nmlError::PatchError { message: m, group: g, variable: v } && m@
                == message@ && g == group && v == variable,
    {
        F90nmlError::PatchError { message: message.to_owned(), group, variable }
    }

    /// Build an incompatible-patch error.
    pub fn incompatible_patch(variable: &str, original_type: &str, patch_type: &str) -> (r:
        F90nmlError)
        ensures
            r matches F90nmlError::IncompatiblePatch { variable: n, original_type: o, patch_type: p }
                && n@ == variable@ && o@ == original_type@ && p@ == patch_type@,
    {
        F90nmlError::IncompatiblePatch {
            variable: variable.to_owned(),
            original_type: original_type.to_owned(),
            patch_type: patch_type.to_owned(),
        }
    }

    /// Build a missing-template-information error.
    pub fn missing_template_info(operation: &str) -> (r: F90nmlError)
        ensures
            r matches F90nmlError::MissingTemplateInfo { operation: o } && o@ == operation@,
    {
        F90nmlError::MissingTemplateInfo { operation: operation.to_owned() }
    }

    /// Build a dimension-mismatch error.
    pub fn dimension_mismatch(variable: &str, expected: Vec<usize>, actual: Vec<usize>) -> (r:
        F90nmlError)
        ensures
            r matches F90nmlError::DimensionMismatch { variable: n, expected: e, actual: a } && n@
                == variable@ && e@ == expected@ && a@ == actual@,
    {
        F90nmlError::DimensionMismatch { variable: variable.to_owned(), expected, actual }
    }

    /// Build a validation error with optional group and variable names.
    pub fn validation_error(message: &str, group: Option<String>, variable: Option<String>) -> (r:
        F90nmlError)
        ensures
            r matches F90nmlError::ValidationError { message: m, group: g, variable: v } && m@
                == message@ && g == group && v == variable,
    {
        F90nmlError::ValidationError { message: message.to_owned(), group, variable }
    }

    /// Build a circular-reference error from the path of names involved.
    pub fn circular_reference(path: Vec<String>) -> (r: F90nmlError)
        ensures
            r matches F90nmlError::CircularReference { path: p } && p@ == path@,
    {
        F90nmlError::CircularReference { path }
    }

    /// Build a maximum-depth error.
    pub fn max_depth_exceeded(max_depth: usize, current_depth: usize) -> (r: F90nmlError)
        ensures
            r matches F90nmlError::MaxDepthExceeded { max_depth: m, current_depth: c } && m
                == max_depth && c == current_depth,
    {
        F90nmlError::MaxDepthExceeded { max_depth, current_depth }
    }

    /// Build an encoding error.
    pub fn encoding_error(message: &str, encoding: &str) -> (r: F90nmlError)
        ensures
            r matches F90nmlError::EncodingError { message: m, encoding: e } && m@ == message@ && e@
                == encoding@,
    {
        F90nmlError::EncodingError { message: message.to_owned(), encoding: encoding.to_owned() }
    }

    /// Build an error from a bare message.
    pub fn custom(message: &str) -> (r: F90nmlError)
        ensures
            r matches F90nmlError::Custom(m) && m@ == message@,
    {
        F90nmlError::Custom(message.to_owned())
    }

    /// The category label of this error, for logging and metrics.
    pub fn category(&self) -> (r: &'static str)
        ensures
            r@ == spec_category(*self),
    {
        match self {
            F90nmlError::Io(..) => "io",
            F90nmlError::Parse { .. } => "parse",
            F90nmlError::InvalidSyntax { .. } => "syntax",
            F90nmlError::UnexpectedEof => "eof",
            F90nmlError::InvalidToken { .. } => "token",
            F90nmlError::InvalidValue { .. } => "value",
            F90nmlError::InvalidIndex { .. } => "index",
            F90nmlError::Duplicate { .. } => "duplicate",
            F90nmlError::VariableNotFound { .. } => "not_found",
            F90nmlError::GroupNotFound { .. } => "not_found",
            F90nmlError::TypeConversion { .. } => "conversion",
            F90nmlError::FileAlreadyExists(..) => "file_exists",
            F90nmlError::InvalidFormat { .. } => "format",
            F90nmlError::Template { .. } => "template",
            F90nmlError::PatchError { .. } => "patch",
            F90nmlError::IncompatiblePatch { .. } => "patch",
            F90nmlError::MissingTemplateInfo { .. } => "template",
            F90nmlError::DimensionMismatch { .. } => "dimension",
            F90nmlError::ValidationError { .. } => "validation",
            F90nmlError::CircularReference { .. } => "circular",
            F90nmlError::MaxDepthExceeded { .. } => "depth",
            F90nmlError::EncodingError { .. } => "encoding",
            F90nmlError::Custom(..) => "custom",
        }
    }

    /// Whether a caller can sensibly retry after this error.
    pub fn is_recoverable(&self) -> (r: bool)
        ensures
            r == spec_is_recoverable(*self),
    {
        match self {
            F90nmlError::Io(..) => false,
            F90nmlError::FileAlreadyExists(..) => true,
            F90nmlError::EncodingError { .. } => false,
            F90nmlError::Parse { .. } => false,
            F90nmlError::InvalidSyntax { .. } => false,
            F90nmlError::UnexpectedEof => false,
            F90nmlError::InvalidToken { .. } => false,
            F90nmlError::InvalidValue { .. } => true,
            F90nmlError::InvalidIndex { .. } => true,
            F90nmlError::TypeConversion { .. } => true,
            F90nmlError::InvalidFormat { .. } => true,
            F90nmlError::Duplicate { .. } => true,
            F90nmlError::VariableNotFound { .. } => true,
            F90nmlError::GroupNotFound { .. } => true,
            F90nmlError::DimensionMismatch { .. } => true,
            F90nmlError::ValidationError { .. } => true,
            F90nmlError::CircularReference { .. } => false,
            F90nmlError::MaxDepthExceeded { .. } => false,
            F90nmlError::Template { .. } => true,
            F90nmlError::PatchError { .. } => true,
            F90nmlError::IncompatiblePatch { .. } => true,
            F90nmlError::MissingTemplateInfo { .. } => false,
            F90nmlError::Custom(..) => true,
        }
    }

    /// The severity of this error.
    pub fn severity(&self) -> (r: ErrorSeverity)
        ensures
            r == spec_severity(*self),
    {
        match self {
            F90nmlError::UnexpectedEof => ErrorSeverity::Fatal,
            F90nmlError::CircularReference { .. } => ErrorSeverity::Fatal,
            F90nmlError::MaxDepthExceeded { .. } => ErrorSeverity::Fatal,
            F90nmlError::MissingTemplateInfo { .. } => ErrorSeverity::Fatal,
            F90nmlError::Duplicate { .. } => ErrorSeverity::Warning,
            F90nmlError::VariableNotFound { .. } => ErrorSeverity::Warning,
            F90nmlError::GroupNotFound { .. } => ErrorSeverity::Warning,
            F90nmlError::FileAlreadyExists(..) => ErrorSeverity::Warning,
            _ => ErrorSeverity::Error,
        }
    }

    /// Where this error happened.
    pub fn context(&self) -> (r: ErrorContext)
        ensures
            (r.line, r.column, r.group.deep_view(), r.variable.deep_view()) == spec_context(*self),
    {
        match self {
            F90nmlError::Parse { line, column, .. } => ErrorContext::with_position(*line, *column),
            F90nmlError::InvalidValue { variable, .. } => ErrorContext::with_location(
                None,
                Some(variable.clone()),
            ),
            F90nmlError::VariableNotFound { variable, group } => ErrorContext::with_location(
                Some(group.clone()),
                Some(variable.clone()),
            ),
            F90nmlError::GroupNotFound { group } => ErrorContext::with_location(
                Some(group.clone()),
                None,
            ),
            F90nmlError::PatchError { group, variable, .. } => ErrorContext::with_location(
                clone_opt_string(group),
                clone_opt_string(variable),
            ),
            F90nmlError::ValidationError { group, variable, .. } => ErrorContext::with_location(
                clone_opt_string(group),
                clone_opt_string(variable),
            ),
            _ => ErrorContext::empty(),
        }
    }

    /// A multi-line report: category, recoverability, message, and context.
    pub fn detailed_report(&self) -> (r: String)
        ensures
            r@ == spec_report(*self),
    {
        let mut r = String::new();
        r.append("Error Category: ");
        r.append(self.category());
        r.append("\n");
        r.append("Recoverable: ");
        if self.is_recoverable() {
            r.append("true");
        } else {
            r.append("false");
        }
        r.append("\n");
        r.append("Message: ");
        let m = self.message();
        r.append(m.as_str());
        r.append("\n");
        let context = self.context();
        if !context.is_empty() {
            r.append("\nContext:\n");
            if let Some(line) = context.line {
                r.append("  Line: ");
                let t = chars_to_string(usize_to_chars(line).as_slice());
                r.append(t.as_str());
                r.append("\n");
            }
            if let Some(column) = context.column {
                r.append("  Column: ");
                let t = chars_to_string(usize_to_chars(column).as_slice());
                r.append(t.as_str());
                r.append("\n");
            }
            if let Some(group) = &context.group {
                r.append("  Group: ");
                r.append(group.as_str());
                r.append("\n");
            }
            if let Some(variable) = &context.variable {
                r.append("  Variable: ");
                r.append(variable.as_str());
                r.append("\n");
            }
        }
        proof {
            assert(r@ =~= spec_report(*self));
        }
        r
    }
}

/// Copy an optional string.
fn clone_opt_string(s: &Option<String>) -> (r: Option<String>)
    ensures
        r.deep_view() == s.deep_view(),
{
    match s {
        Some(v) => Some(v.clone()),
        None => None,
    }
}

/// The report text that `detailed_report` renders.
pub open spec fn spec_report(e: F90nmlError) -> Seq<char> {
    let (line, column, group, variable) = spec_context(e);
    let head = "Error Category: "@ + spec_category(e) + "\n"@ + "Recoverable: "@ + (
    if spec_is_recoverable(e) {
        "true"@
    } else {
        "false"@
    }) + "\n"@ + "Message: "@ + spec_message(e) + "\n"@;
    if line is None && column is None && group is None && variable is None {
        head
    } else {
        head + "\nContext:\n"@ + (match line {
            Some(l) => "  Line: "@ + spec_nat_string(l as int) + "\n"@,
            None => Seq::empty(),
        }) + (match column {
            Some(c) => "  Column: "@ + spec_nat_string(c as int) + "\n"@,
            None => Seq::empty(),
        }) + (match group {
            Some(g) => "  Group: "@ + g + "\n"@,
            None => Seq::empty(),
        }) + (match variable {
            Some(v) => "  Variable: "@ + v + "\n"@,
            None => Seq::empty(),
        })
    }
}

#[verifier::external_type_specification]
#[verifier::external_body]
pub struct ExIoError(std::io::Error);

/// Relies on std::io::Error's Display implementation: renders the error's
/// message text. Nothing is assumed about that text.
#[verifier::external_body]
fn io_error_text(e: &std::io::Error) -> (r: String) {
    e.to_string()
}

impl From<std::io::Error> for F90nmlError {
    fn from(e: std::io::Error) -> (r: F90nmlError) {
        F90nmlError::Io(io_error_text(&e))
    }
}

impl vstd::std_specs::convert::FromSpecImpl<std::io::Error> for F90nmlError {
    open spec fn obeys_from_spec() -> bool {
        false
    }

    open spec fn from_spec(e: std::io::Error) -> F90nmlError {
        arbitrary()
    }
}

} // verus!
