//! Reading the version value out of a package manifest, line by line.
use vstd::prelude::*;

use crate::error::CustomError;
use crate::replace::line_views;
use crate::text::{
    chars_of, find_from, find_text_from, first_containing, lemma_find_from, occurs_at,
};

verus! {

/// How many characters after the search token the value starts: the `": "` between a bare
/// `version` and its quoted value, and the opening quote.
pub const VALUE_SKIP: usize = 4;

/// The value on a line: from `VALUE_SKIP` characters past the end of the first `token` up to,
/// not including, the character before the next comma after that token. None where the line
/// lacks the token or that comma, or the comma comes too early to leave room for the value's
/// opening and closing quotes.
pub open spec fn value_in_line(line: Seq<char>, token: Seq<char>) -> Option<Seq<char>> {
    match find_from(line, token, 0) {
        None => None,
        Some(p) => {
            let start = p + token.len() + VALUE_SKIP;
            match find_from(line, seq![','], p + token.len()) {
                Some(c) if start < c => Some(line.subrange(start, c - 1)),
                _ => None,
            }
        },
    }
}

/// The value on the first line that contains `token`; none where no line does, or that
/// line is malformed.
pub open spec fn extracted_version(lines: Seq<Seq<char>>, token: Seq<char>) -> Option<Seq<char>> {
    match first_containing(lines, token, 0) {
        None => None,
        Some(k) => value_in_line(lines[k], token),
    }
}

/// The value that `line` gives for `search_word`, as `value_in_line` says.
pub fn version_from_line(search_word: &str, line: &str) -> (r: Option<String>)
    ensures
        match r {
            Some(s) => value_in_line(line@, search_word@) == Some(s@),
            None => value_in_line(line@, search_word@) is None,
        },
{
    let line_chars = chars_of(line);
    let token = chars_of(search_word);
    let comma: Vec<char> = vec![','];
    assert(comma@ =~= seq![',']);
    let p = match find_text_from(&line_chars, &token, 0) {
        Some(p) => p,
        None => return None,
    };
    proof {
        lemma_find_from(line@, search_word@, 0);
    }
    assert(occurs_at(line@, search_word@, p as int));
    assert(p + token.len() <= line_chars.len());
    let after = p + token.len();
    if line_chars.len() - after < VALUE_SKIP {
        proof {
            lemma_find_from(line@, seq![','], after as int);
        }
        return None;
    }
    let start = after + VALUE_SKIP;
    match find_text_from(&line_chars, &comma, after) {
        Some(c) => {
            if start < c {
                proof {
                    lemma_find_from(line@, seq![','], after as int);
                }
                Some(line.substring_char(start, c - 1).to_owned())
            } else {
                None
            }
        },
        None => None,
    }
}

/// The version value of a package manifest given as its lines: the value on the first line
/// that contains `search_word`.
///
/// Fails with `VersionNotFound` where no line contains it, or where the first comma after the
/// token on that line is missing or comes too early.
pub fn version_from_package_json(search_word: &str, lines: &Vec<String>) -> (r: Result<
    String,
    CustomError,
>)
    ensures
        match extracted_version(line_views(lines@), search_word@) {
            Some(v) => r is Ok && r->Ok_0@ == v,
            None => r == Err::<String, CustomError>(CustomError::VersionNotFound),
        },
{
    let ghost lv = line_views(lines@);
    let token = chars_of(search_word);
    let mut i: usize = 0;
    while i < lines.len()
        invariant
            lv == line_views(lines@),
            token@ == search_word@,
            i <= lines.len(),
            first_containing(lv, search_word@, 0) == first_containing(lv, search_word@, i as int),
        decreases lines.len() - i,
    {
        let line_chars = chars_of(lines[i].as_str());
        assert(lv[i as int] == lines@[i as int]@);
        if find_text_from(&line_chars, &token, 0).is_some() {
            return match version_from_line(search_word, lines[i].as_str()) {
                Some(v) => Ok(v),
                None => Err(CustomError::VersionNotFound),
            };
        }
        i = i + 1;
    }
    Err(CustomError::VersionNotFound)
}

} // verus!
