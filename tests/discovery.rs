use versionator::error::CustomError;
use versionator::locate::{
    discover, find_file, find_in_walk, find_manifests, resolve_paths, FileEntry, Walk, SOURCE_NAME,
    TARGET_NAME,
};
use versionator::sync::updated_pom;

fn entry(name: &str, path: &str) -> FileEntry {
    FileEntry { name: name.to_string(), path: path.to_string() }
}

fn tree() -> Vec<FileEntry> {
    vec![
        entry("proj", "/proj"),
        entry("app", "/proj/app"),
        entry("package.json", "/proj/app/package.json"),
        entry("build", "/proj/build"),
        entry("Pom.xml", "/proj/build/Pom.xml"),
    ]
}

#[test]
fn discovery_finds_both_manifests() {
    assert_eq!(
        find_manifests(&tree(), &tree()),
        Ok(("/proj/app/package.json".to_string(), "/proj/build/Pom.xml".to_string()))
    );
}

#[test]
fn discovery_reports_which_is_missing() {
    let only_source = vec![entry("package.json", "/p/package.json")];
    let only_target = vec![entry("Pom.xml", "/p/Pom.xml")];
    let neither = vec![entry("README.md", "/p/README.md")];
    assert_eq!(find_manifests(&only_source, &only_source), Err(CustomError::TargetNotFound));
    assert_eq!(find_manifests(&only_target, &only_target), Err(CustomError::SourceNotFound));
    assert_eq!(find_manifests(&neither, &neither), Err(CustomError::FileNotFound));
    assert_eq!(find_manifests(&Vec::new(), &Vec::new()), Err(CustomError::FileNotFound));
}

#[test]
fn file_name_match_is_substring_and_first_wins() {
    let entries = vec![
        entry("pom.xml", "/a/pom.xml"),
        entry("old-package.json.bak", "/a/old-package.json.bak"),
        entry("package.json", "/b/package.json"),
        entry("MyPom.xml", "/c/MyPom.xml"),
    ];
    assert_eq!(find_file(SOURCE_NAME, &entries), Some("/a/old-package.json.bak".to_string()));
    assert_eq!(find_file(TARGET_NAME, &entries), Some("/c/MyPom.xml".to_string()));
    assert_eq!(find_file("Cargo.toml", &entries), None);
}

#[test]
fn resolve_paths_cases() {
    let s = Some("s".to_string());
    let t = Some("t".to_string());
    assert_eq!(resolve_paths(s.clone(), t.clone()), Ok(("s".to_string(), "t".to_string())));
    assert_eq!(resolve_paths(None, None), Err(CustomError::FileNotFound));
    assert_eq!(resolve_paths(s, None), Err(CustomError::TargetNotFound));
    assert_eq!(resolve_paths(None, t), Err(CustomError::SourceNotFound));
}

#[test]
fn end_to_end_discovery_and_update() {
    let (source, target) = find_manifests(&tree(), &tree()).unwrap();
    assert_eq!(source, "/proj/app/package.json");
    assert_eq!(target, "/proj/build/Pom.xml");
    let package: Vec<String> = vec!["{".into(), "  \"version\": \"2.0.1\",".into(), "}".into()];
    let pom: Vec<String> = vec![
        "<project>".into(),
        "  <version>x</version>".into(),
        "  <version>x</version>".into(),
        "  <version>x</version>".into(),
        "</project>".into(),
    ];
    assert_eq!(
        updated_pom(&package, &pom, 2),
        Ok((
            "2.0.1".to_string(),
            "<project>\n  <version>x</version>\n  <version>x</version>\n  <version>2.0.1</version>\n</project>\n"
                .to_string()
        ))
    );
}

#[test]
fn failed_walk_counts_only_without_a_match() {
    let partial = Walk { entries: vec![entry("package.json", "/p/package.json")], failed: true };
    assert_eq!(find_in_walk(SOURCE_NAME, &partial), Ok(Some("/p/package.json".to_string())));
    assert_eq!(find_in_walk(TARGET_NAME, &partial), Err(CustomError::IoError));
    let complete = Walk { entries: vec![entry("package.json", "/p/package.json")], failed: false };
    assert_eq!(find_in_walk(TARGET_NAME, &complete), Ok(None));
}

#[test]
fn discover_over_walks() {
    let whole = || Walk { entries: tree(), failed: false };
    assert_eq!(
        discover(&whole(), &whole()),
        Ok(("/proj/app/package.json".to_string(), "/proj/build/Pom.xml".to_string()))
    );
    let cut = Walk { entries: tree().into_iter().take(3).collect(), failed: true };
    assert_eq!(discover(&whole(), &cut), Err(CustomError::IoError));
    let only_source = Walk { entries: vec![entry("package.json", "/p/package.json")], failed: false };
    assert_eq!(discover(&only_source, &only_source), Err(CustomError::TargetNotFound));
}
