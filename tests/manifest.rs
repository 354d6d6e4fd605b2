use versionator::error::CustomError;
use versionator::extract::{version_from_line, version_from_package_json};
use versionator::replace::{replace_in_line, replace_pom_version, tagged_line_index};
use versionator::sync::{updated_pom, MATCH_WORD, SEARCH_WORD};

fn lines(text: &[&str]) -> Vec<String> {
    text.iter().map(|l| l.to_string()).collect()
}

fn three_tags() -> Vec<String> {
    lines(&[
        "<project>",
        "  <version>a</version>",
        "  <name>demo</name>",
        "  <version>b</version>",
        "  <version>c</version>",
        "</project>",
    ])
}

#[test]
fn extracts_version_from_manifest_line() {
    let src = lines(&["{", "  \"name\": \"demo\",", "  \"version\": \"1.2.3\",", "}"]);
    assert_eq!(version_from_package_json("version", &src), Ok("1.2.3".to_string()));
    assert_eq!(version_from_line("version", "  \"version\": \"1.2.3\","), Some("1.2.3".to_string()));
}

#[test]
fn extraction_takes_first_matching_line() {
    let src = lines(&["  \"version\": \"0.1.0\",", "  \"version\": \"9.9.9\","]);
    assert_eq!(version_from_package_json(SEARCH_WORD, &src), Ok("0.1.0".to_string()));
}

#[test]
fn extraction_without_token_fails() {
    let src = lines(&["{", "  \"name\": \"demo\",", "}"]);
    assert_eq!(version_from_package_json("version", &src), Err(CustomError::VersionNotFound));
    assert_eq!(version_from_package_json("version", &Vec::new()), Err(CustomError::VersionNotFound));
}

#[test]
fn extraction_of_malformed_line_fails() {
    // No comma after the value: the line is the last field of an object.
    let src = lines(&["  \"version\": \"1.2.3\"", "  \"other\": \"x\","]);
    assert_eq!(version_from_package_json("version", &src), Err(CustomError::VersionNotFound));
    // The line ends right after the token.
    assert_eq!(version_from_line("version", "version"), None);
    // The first comma after the token falls inside the skip.
    assert_eq!(version_from_line("version", "\"version\":,\"1\","), None);
    assert_eq!(
        version_from_package_json("version", &lines(&["\"version\":,\"1\","])),
        Err(CustomError::VersionNotFound)
    );
    assert_eq!(version_from_line("version", "version,"), None);
    // A comma right at the value's start leaves no room for a closing quote.
    assert_eq!(version_from_line("version", "\"version\": \","), None);
}

#[test]
fn extraction_of_empty_value() {
    assert_eq!(version_from_line("version", "  \"version\": \"\","), Some("".to_string()));
}

#[test]
fn replaces_only_second_occurrence() {
    let target = three_tags();
    let out = replace_pom_version(MATCH_WORD, "7.0.0", &target, 1).unwrap();
    assert_eq!(
        out,
        "<project>\n  <version>a</version>\n  <name>demo</name>\n  <version>7.0.0</version>\n  <version>c</version>\n</project>\n"
    );
    let out_lines: Vec<&str> = out.lines().collect();
    assert_eq!(out_lines.len(), target.len());
    for (i, l) in out_lines.iter().enumerate() {
        if i != 3 {
            assert_eq!(*l, target[i]);
        }
    }
}

#[test]
fn replacement_is_idempotent() {
    let once = replace_pom_version(MATCH_WORD, "2.0.1", &three_tags(), 0).unwrap();
    let again_lines: Vec<String> = once.lines().map(|l| l.to_string()).collect();
    let twice = replace_pom_version(MATCH_WORD, "2.0.1", &again_lines, 0).unwrap();
    assert_eq!(once, twice);
}

#[test]
fn index_at_count_fails() {
    assert_eq!(
        replace_pom_version(MATCH_WORD, "1.0", &three_tags(), 3),
        Err(CustomError::VersionNotFound)
    );
    assert_eq!(
        replace_pom_version(MATCH_WORD, "1.0", &three_tags(), 255),
        Err(CustomError::VersionNotFound)
    );
    assert!(replace_pom_version(MATCH_WORD, "1.0", &three_tags(), 2).is_ok());
}

#[test]
fn pom_without_tags_is_left_alone() {
    let target = lines(&["<project>", "  <name>demo</name>", "</project>"]);
    let before = target.clone();
    assert_eq!(
        replace_pom_version(MATCH_WORD, "1.0", &target, 0),
        Err(CustomError::VersionNotFound)
    );
    assert_eq!(target, before);
}

#[test]
fn tag_without_closing_fails() {
    let target = lines(&["<version>1.0", "<version>2.0</version>"]);
    assert_eq!(
        replace_pom_version(MATCH_WORD, "3.0", &target, 0),
        Err(CustomError::VersionNotFound)
    );
    assert_eq!(
        replace_pom_version(MATCH_WORD, "3.0", &target, 1),
        Ok("<version>1.0\n<version>3.0</version>\n".to_string())
    );
}

#[test]
fn closing_before_tag_is_not_used() {
    assert_eq!(
        replace_in_line("</a><version>1</version>", "<version>", "2"),
        Some("</a><version>2</version>".to_string())
    );
}

#[test]
fn replacement_keeps_text_around_tag() {
    assert_eq!(
        replace_in_line("  <version> old </version> <!-- x -->", "<version>", "1.4"),
        Some("  <version>1.4</version> <!-- x -->".to_string())
    );
    assert_eq!(replace_in_line("no tag here", "<version>", "1.4"), None);
}

#[test]
fn finds_tagged_line_index() {
    let target = three_tags();
    assert_eq!(tagged_line_index(MATCH_WORD, &target, 0), Some(1));
    assert_eq!(tagged_line_index(MATCH_WORD, &target, 1), Some(3));
    assert_eq!(tagged_line_index(MATCH_WORD, &target, 2), Some(4));
    assert_eq!(tagged_line_index(MATCH_WORD, &target, 3), None);
}

#[test]
fn updated_pom_carries_package_version() {
    let package = lines(&["{", "  \"version\": \"2.0.1\",", "}"]);
    let pom = lines(&[
        "<version>x</version>",
        "<version>x</version>",
        "<version>x</version>",
    ]);
    assert_eq!(
        updated_pom(&package, &pom, 2),
        Ok((
            "2.0.1".to_string(),
            "<version>x</version>\n<version>x</version>\n<version>2.0.1</version>\n".to_string()
        ))
    );
    let no_version = lines(&["{", "}"]);
    assert_eq!(updated_pom(&no_version, &pom, 0), Err(CustomError::VersionNotFound));
}
