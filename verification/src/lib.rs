//! Parsing, formatting and format-preserving patching of Fortran
//! namelists: named groups of `name = value` assignments as used by
//! Fortran-family simulation codes.

pub mod digits;
pub mod error;
pub mod findex;
pub mod fortran_types;
pub mod laws;
pub mod namelist;
pub mod parser;
pub mod scanner;
pub mod text;

pub use error::F90nmlError;
pub use fortran_types::FortranValue;
pub use namelist::{Namelist, NamelistGroup, WriteOptions};
pub use parser::StreamingParser;

use vstd::prelude::*;

verus! {

/// Parse a namelist document from text. Every value carried in the
/// result is well-formed, and parsing succeeds exactly when the text
/// lexes and every group opened by an introducer has a name and
/// well-marked assignments.
pub fn reads(content: &str) -> (r: Result<Namelist, F90nmlError>)
    requires
        content@.len() < usize::MAX as int,
    ensures
        r matches Ok(nml) ==> nml.wf(),
        r is Ok <==> ({
            let lx = crate::scanner::scanner::spec_nonws_from(content@, 0, seq!['!', '#'], true);
            lx is Some && crate::parser::spec_parse_ok(crate::parser::spec_entry_kinds(lx->0), 0)
        }),
{
    let mut p = match StreamingParser::new(content) {
        Ok(p) => p,
        Err(e) => {
            return Err(e);
        },
    };
    p.parse()
}

/// Apply one document as a patch onto a copy of another: same-named
/// groups are patched variable by variable under the default merge,
/// unseen groups join the result.
pub fn patch(original: &Namelist, changes: &Namelist) -> (r: Result<Namelist, F90nmlError>)
    ensures
        r is Ok,
        r matches Ok(nml) ==> nml.spec_groups()
            == crate::namelist::document::spec_patch_groups(
            original.spec_groups(),
            changes.spec_groups(),
        ),
{
    let mut result = original.dup();
    match result.apply_patch(changes) {
        Ok(..) => Ok(result),
        Err(e) => Err(e),
    }
}

/// Rewrite a document's text under a patch, preserving the formatting
/// of everything the patch does not touch, and give back the rewritten
/// text with the document it denotes. With an empty patch the text
/// comes back byte for byte.
pub fn patch_string(original_content: &str, changes: &Namelist) -> (r: Result<
    (String, Namelist),
    F90nmlError,
>)
    requires
        original_content@.len() < usize::MAX as int,
        changes.wf(),
    ensures
        r matches Ok(pr) ==> pr.1.wf(),
        r matches Ok(pr) ==> (changes.spec_full().len() == 0 ==> pr.0@ == original_content@),
        r is Ok <==> ({
            let lx = crate::scanner::scanner::spec_tokens_from(
                original_content@,
                0,
                seq!['!', '#'],
                true,
            );
            lx is Some && crate::parser::spec_patch_ok(crate::parser::spec_entry_kinds(lx->0), 0)
        }),
{
    let mut p = match StreamingParser::new(original_content) {
        Ok(p) => p,
        Err(e) => {
            proof {
                crate::scanner::scanner::lemma_nonws_iff_tokens(
                    original_content@,
                    0,
                    seq!['!', '#'],
                    true,
                );
            }
            return Err(e);
        },
    };
    p.parse_and_patch(changes, original_content)
}

} // verus!
