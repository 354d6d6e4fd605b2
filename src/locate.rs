//! Choosing the two manifests among the entries of a directory walk.
use vstd::prelude::*;

use crate::error::CustomError;
use crate::text::{chars_of, find_text_from, first_containing, has_text, lemma_first_containing};

verus! {

/// What the package manifest's file name contains.
pub const SOURCE_NAME: &'static str = "package.json";

/// What the build manifest's file name contains.
pub const TARGET_NAME: &'static str = "Pom.xml";

/// One entry of a directory walk: its file name and its full path.
#[derive(Debug)]
pub struct FileEntry {
    pub name: String,
    pub path: String,
}

/// One directory walk: its entries in walk order, and whether a step of it failed, in which
/// case the entries stop before that step.
#[derive(Debug)]
pub struct Walk {
    pub entries: Vec<FileEntry>,
    pub failed: bool,
}

/// The file names of `entries`, in walk order.
pub open spec fn entry_names(entries: Seq<FileEntry>) -> Seq<Seq<char>> {
    entries.map_values(|e: FileEntry| e.name@)
}

/// The path of the first entry whose file name contains `part`.
pub open spec fn found_path(entries: Seq<FileEntry>, part: Seq<char>) -> Option<Seq<char>> {
    match first_containing(entry_names(entries), part, 0) {
        Some(k) => Some(entries[k].path@),
        None => None,
    }
}

/// Both paths where both lookups found one; otherwise the error that names what is missing.
pub open spec fn resolved(source: Option<Seq<char>>, target: Option<Seq<char>>) -> Result<
    (Seq<char>, Seq<char>),
    CustomError,
> {
    match (source, target) {
        (Some(s), Some(t)) => Ok((s, t)),
        (None, None) => Err(CustomError::FileNotFound),
        (Some(_), None) => Err(CustomError::TargetNotFound),
        (None, Some(_)) => Err(CustomError::SourceNotFound),
    }
}

/// What discovery gives for a walk in search of each manifest.
pub open spec fn discovered(source_entries: Seq<FileEntry>, target_entries: Seq<FileEntry>) -> Result<
    (Seq<char>, Seq<char>),
    CustomError,
> {
    resolved(found_path(source_entries, SOURCE_NAME@), found_path(target_entries, TARGET_NAME@))
}

/// The view of a pair of paths.
pub open spec fn paths_view(r: Result<(String, String), CustomError>) -> Result<
    (Seq<char>, Seq<char>),
    CustomError,
> {
    match r {
        Ok((s, t)) => Ok((s@, t@)),
        Err(e) => Err(e),
    }
}

/// The path of the first of `entries` whose file name contains `name_part`.
pub fn find_file(name_part: &str, entries: &Vec<FileEntry>) -> (r: Option<String>)
    ensures
        match r {
            Some(p) => found_path(entries@, name_part@) == Some(p@),
            None => found_path(entries@, name_part@) is None,
        },
{
    let ghost names = entry_names(entries@);
    let part = chars_of(name_part);
    let mut i: usize = 0;
    while i < entries.len()
        invariant
            names == entry_names(entries@),
            part@ == name_part@,
            i <= entries.len(),
            first_containing(names, name_part@, 0) == first_containing(names, name_part@, i as int),
        decreases entries.len() - i,
    {
        let name_chars = chars_of(entries[i].name.as_str());
        assert(names[i as int] == entries@[i as int].name@);
        if find_text_from(&name_chars, &part, 0).is_some() {
            return Some(entries[i].path.clone());
        }
        i = i + 1;
    }
    None
}

/// Both paths where both were found; otherwise `FileNotFound` where neither was,
/// `TargetNotFound` or `SourceNotFound` where one was missing.
pub fn resolve_paths(source: Option<String>, target: Option<String>) -> (r: Result<
    (String, String),
    CustomError,
>)
    ensures
        paths_view(r) == resolved(
            match source {
                Some(s) => Some(s@),
                None => None,
            },
            match target {
                Some(t) => Some(t@),
                None => None,
            },
        ),
{
    match (source, target) {
        (Some(s), Some(t)) => Ok((s, t)),
        (None, None) => Err(CustomError::FileNotFound),
        (Some(_), None) => Err(CustomError::TargetNotFound),
        (None, Some(_)) => Err(CustomError::SourceNotFound),
    }
}

/// The package manifest's path from one walk and the build manifest's from another: the first
/// entry of each whose file name contains `SOURCE_NAME`, resp. `TARGET_NAME`.
pub fn find_manifests(source_entries: &Vec<FileEntry>, target_entries: &Vec<FileEntry>) -> (r: Result<
    (String, String),
    CustomError,
>)
    ensures
        paths_view(r) == discovered(source_entries@, target_entries@),
{
    let source = find_file(SOURCE_NAME, source_entries);
    let target = find_file(TARGET_NAME, target_entries);
    resolve_paths(source, target)
}

/// What a lookup in one walk gives: the path of the first matching entry; where there is
/// none, an `IoError` if the walk failed part way, else nothing found.
pub open spec fn walk_lookup(walk: Walk, part: Seq<char>) -> Result<Option<Seq<char>>, CustomError> {
    match found_path(walk.entries@, part) {
        Some(p) => Ok(Some(p)),
        None => if walk.failed {
            Err(CustomError::IoError)
        } else {
            Ok(None)
        },
    }
}

/// What discovery gives for one walk in search of each manifest: the first failed lookup's
/// error, else what `resolved` says of the two lookups.
pub open spec fn walks_discovered(source_walk: Walk, target_walk: Walk) -> Result<
    (Seq<char>, Seq<char>),
    CustomError,
> {
    match (walk_lookup(source_walk, SOURCE_NAME@), walk_lookup(target_walk, TARGET_NAME@)) {
        (Err(e), _) => Err(e),
        (_, Err(e)) => Err(e),
        (Ok(s), Ok(t)) => resolved(s, t),
    }
}

/// The path of the first entry of `walk` whose file name contains `name_part`. A failed step
/// of the walk counts only where no entry before it matched: then the lookup is an `IoError`.
pub fn find_in_walk(name_part: &str, walk: &Walk) -> (r: Result<Option<String>, CustomError>)
    ensures
        match walk_lookup(*walk, name_part@) {
            Ok(Some(p)) => r is Ok && r->Ok_0 is Some && r->Ok_0->Some_0@ == p,
            Ok(None) => r is Ok && r->Ok_0 is None,
            Err(e) => r == Err::<Option<String>, CustomError>(e),
        },
{
    match find_file(name_part, &walk.entries) {
        Some(p) => Ok(Some(p)),
        None => if walk.failed {
            Err(CustomError::IoError)
        } else {
            Ok(None)
        },
    }
}

/// The package manifest's path from one walk and the build manifest's from another, as
/// `walks_discovered` says.
pub fn discover(source_walk: &Walk, target_walk: &Walk) -> (r: Result<(String, String), CustomError>)
    ensures
        paths_view(r) == walks_discovered(*source_walk, *target_walk),
{
    let source = find_in_walk(SOURCE_NAME, source_walk)?;
    let target = find_in_walk(TARGET_NAME, target_walk)?;
    resolve_paths(source, target)
}

/// Walks that did not fail are searched as `discovered` says.
pub proof fn lemma_complete_walks(source_walk: Walk, target_walk: Walk)
    requires
        !source_walk.failed,
        !target_walk.failed,
    ensures
        walks_discovered(source_walk, target_walk) == discovered(
            source_walk.entries@,
            target_walk.entries@,
        ),
{
}

/// Discovery finds both manifests wherever each walk has an entry whose name contains its
/// part, and gives the path of such an entry; where one or both are missing it fails with the
/// error that tells which.
pub proof fn lemma_discovery(source_entries: Seq<FileEntry>, target_entries: Seq<FileEntry>)
    ensures
        ({
            let has_source = exists|i: int|
                0 <= i < source_entries.len() && has_text(
                    #[trigger] source_entries[i].name@,
                    SOURCE_NAME@,
                );
            let has_target = exists|i: int|
                0 <= i < target_entries.len() && has_text(
                    #[trigger] target_entries[i].name@,
                    TARGET_NAME@,
                );
            let r = discovered(source_entries, target_entries);
            &&& has_source && has_target ==> r is Ok && (exists|i: int, j: int|
                0 <= i < source_entries.len() && 0 <= j < target_entries.len() && has_text(
                    source_entries[i].name@,
                    SOURCE_NAME@,
                ) && has_text(target_entries[j].name@, TARGET_NAME@) && r == Ok::<
                    (Seq<char>, Seq<char>),
                    CustomError,
                >((source_entries[i].path@, target_entries[j].path@)))
            &&& !has_source && !has_target ==> r == Err::<(Seq<char>, Seq<char>), CustomError>(
                CustomError::FileNotFound,
            )
            &&& has_source && !has_target ==> r == Err::<(Seq<char>, Seq<char>), CustomError>(
                CustomError::TargetNotFound,
            )
            &&& !has_source && has_target ==> r == Err::<(Seq<char>, Seq<char>), CustomError>(
                CustomError::SourceNotFound,
            )
        }),
{
    let sn = entry_names(source_entries);
    let tn = entry_names(target_entries);
    lemma_first_containing(sn, SOURCE_NAME@, 0);
    lemma_first_containing(tn, TARGET_NAME@, 0);
    if exists|i: int|
        0 <= i < source_entries.len() && has_text(#[trigger] source_entries[i].name@, SOURCE_NAME@) {
        let i = choose|i: int|
            0 <= i < source_entries.len() && has_text(
                #[trigger] source_entries[i].name@,
                SOURCE_NAME@,
            );
        assert(sn[i] == source_entries[i].name@);
    }
    if exists|i: int|
        0 <= i < target_entries.len() && has_text(#[trigger] target_entries[i].name@, TARGET_NAME@) {
        let i = choose|i: int|
            0 <= i < target_entries.len() && has_text(
                #[trigger] target_entries[i].name@,
                TARGET_NAME@,
            );
        assert(tn[i] == target_entries[i].name@);
    }
    if let Some(k) = first_containing(sn, SOURCE_NAME@, 0) {
        assert(sn[k] == source_entries[k].name@);
    }
    if let Some(k) = first_containing(tn, TARGET_NAME@, 0) {
        assert(tn[k] == target_entries[k].name@);
    }
}

} // verus!
