use cargo_include_licenses::locate::ScanEntry;
use cargo_include_licenses::locate::select_entry;
use cargo_include_licenses::matcher::is_content_candidate;
use cargo_include_licenses::matcher::is_license_line;
use cargo_include_licenses::matcher::is_license_path;
use cargo_include_licenses::matcher::matches_any_line;

fn file_entry(path: &str, lines: Option<Vec<&str>>) -> ScanEntry {
    ScanEntry {
        path: path.to_string(),
        is_file_or_symlink: true,
        lines: lines.map(|ls| ls.into_iter().map(|l| l.to_string()).collect()),
    }
}

#[test]
fn filename_keywords_match_anywhere() {
    assert!(is_license_path("/deps/foo/LICENSE-MIT"));
    assert!(is_license_path("some/LICENSE/file"));
    assert!(is_license_path("/deps/foo/COPYRIGHT"));
    assert!(is_license_path("/deps/foo/NOTICE"));
    assert!(is_license_path("/deps/foo/AUTHORS"));
    assert!(is_license_path("/deps/foo/CONTRIBUTORS.md"));
    assert!(is_license_path("/deps/foo/COPYING"));
    assert!(is_license_path("/deps/foo/PATENTS"));
}

#[test]
fn filename_keywords_ignore_case() {
    assert!(is_license_path("/deps/foo/license.txt"));
    assert!(is_license_path("/deps/foo/LiCeNsE"));
    assert!(is_license_path("/deps/foo/copying"));
    assert!(is_license_path("/deps/foo/Copyright.html"));
}

#[test]
fn plain_source_paths_do_not_match() {
    assert!(!is_license_path("/deps/foo/src/main.rs"));
    assert!(!is_license_path("/deps/foo/Cargo.toml"));
    assert!(!is_license_path(""));
}

#[test]
fn content_candidates_by_extension_or_readme() {
    assert!(is_content_candidate("/deps/foo/README"));
    assert!(is_content_candidate("/deps/foo/readme.rst"));
    assert!(is_content_candidate("/deps/foo/doc/index.html"));
    assert!(is_content_candidate("/deps/foo/notes.TXT"));
    assert!(is_content_candidate("/deps/foo/CHANGELOG.md"));
    assert!(!is_content_candidate("/deps/foo/src/main.rs"));
    assert!(!is_content_candidate("/deps/foo/Cargo.toml"));
}

#[test]
fn line_keywords_are_narrower_than_filename_keywords() {
    assert!(is_license_line("This project is licensed under Copyright (c) 2020"));
    assert!(is_license_line("see the LICENSE file"));
    assert!(is_license_line("copying is permitted"));
    assert!(is_license_line("patent grant"));
    // The narrower set leaves these out to avoid false positives.
    assert!(!is_license_line("see the NOTICE file"));
    assert!(!is_license_line("AUTHORS are listed below"));
    assert!(!is_license_line("CONTRIBUTORS welcome"));
    assert!(!is_license_line("nothing of note"));
}

#[test]
fn any_line_scan_finds_a_single_match() {
    let lines = vec![
        "A tool for widgets".to_string(),
        "".to_string(),
        "Licensed under the MIT license".to_string(),
    ];
    assert!(matches_any_line(&lines));
    let boring = vec!["A tool for widgets".to_string(), "usage: widget".to_string()];
    assert!(!matches_any_line(&boring));
    let empty: Vec<String> = Vec::new();
    assert!(!matches_any_line(&empty));
}

#[test]
fn file_with_keyword_path_is_selected_without_content() {
    let e = file_entry("/deps/foo/LICENSE-MIT", None);
    assert!(select_entry(&e));
}

#[test]
fn directory_is_never_selected() {
    let e = ScanEntry {
        path: "/deps/foo/LICENSE".to_string(),
        is_file_or_symlink: false,
        lines: None,
    };
    assert!(!select_entry(&e));
}

#[test]
fn prose_file_is_selected_by_content() {
    let e = file_entry(
        "/deps/baz/README.md",
        Some(vec!["This project is licensed under Copyright (c) 2020"]),
    );
    assert!(select_entry(&e));
}

#[test]
fn prose_file_without_license_line_is_not_selected() {
    let e = file_entry("/deps/baz/README.rst", Some(vec!["just a readme", "usage"]));
    assert!(!select_entry(&e));
}

#[test]
fn unreadable_prose_file_is_not_selected() {
    let e = file_entry("/deps/baz/README.rst", None);
    assert!(!select_entry(&e));
}

#[test]
fn source_file_with_license_text_is_not_selected() {
    // Not content-eligible: a source file mentioning copyright stays out.
    let e = file_entry("/deps/foo/src/main.rs", Some(vec!["// Copyright 2020"]));
    assert!(!select_entry(&e));
}
