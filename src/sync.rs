//! Carrying the package version into the build manifest.
use vstd::prelude::*;

use crate::error::CustomError;
use crate::extract::{extracted_version, version_from_package_json};
use crate::replace::{joined, line_views, replace_pom_version, replaced_lines};

verus! {

/// The field of the package manifest whose value is read.
pub const SEARCH_WORD: &'static str = "version";

/// The tag of the build manifest whose inner text is replaced.
pub const MATCH_WORD: &'static str = "<version>";

/// The package manifest's version, and the new text of the build manifest: that version
/// placed in the `index`-th `<version>` line of the build manifest (counting from zero).
///
/// Fails with `VersionNotFound` where the package manifest has no readable version, or the
/// build manifest has no such line to replace.
pub fn updated_pom(package_lines: &Vec<String>, pom_lines: &Vec<String>, index: u8) -> (r: Result<
    (String, String),
    CustomError,
>)
    ensures
        match extracted_version(line_views(package_lines@), SEARCH_WORD@) {
            None => r == Err::<(String, String), CustomError>(CustomError::VersionNotFound),
            Some(v) => match replaced_lines(line_views(pom_lines@), MATCH_WORD@, v, index as int) {
                Some(new_lines) => r is Ok && r->Ok_0.0@ == v && r->Ok_0.1@ == joined(new_lines),
                None => r == Err::<(String, String), CustomError>(CustomError::VersionNotFound),
            },
        },
{
    let version = version_from_package_json(SEARCH_WORD, package_lines)?;
    let text = replace_pom_version(MATCH_WORD, version.as_str(), pom_lines, index)?;
    Ok((version, text))
}

} // verus!
