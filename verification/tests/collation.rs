use cargo_include_licenses::collate::flatten_copy_dir_result;
use cargo_include_licenses::collate::plan_copies;
use cargo_include_licenses::collate::CopyItem;
use cargo_include_licenses::collate::CopyOutcome;
use cargo_include_licenses::deps::external_packages;
use cargo_include_licenses::deps::Package;
use cargo_include_licenses::locate::path;
use cargo_include_licenses::locate::search_for_all_licenses;
use cargo_include_licenses::locate::search_for_licenses;
use cargo_include_licenses::locate::LicenseSet;
use cargo_include_licenses::locate::PackageScan;
use cargo_include_licenses::locate::ScanEntry;
use cargo_include_licenses::paths::join_under;
use cargo_include_licenses::paths::make_paths_relative;
use cargo_include_licenses::paths::parent_path;
use cargo_include_licenses::paths::strip_path_prefix;
use cargo_include_licenses::paths::with_relative_paths;

fn package(id: &str, name: &str, manifest: &str, license_file: Option<&str>) -> Package {
    Package {
        id: id.to_string(),
        name: name.to_string(),
        manifest_path: manifest.to_string(),
        license_file: license_file.map(|f| f.to_string()),
    }
}

fn file_entry(path: &str, lines: Option<Vec<&str>>) -> ScanEntry {
    ScanEntry {
        path: path.to_string(),
        is_file_or_symlink: true,
        lines: lines.map(|ls| ls.into_iter().map(|l| l.to_string()).collect()),
    }
}

#[test]
fn parent_of_manifest_path() {
    assert_eq!(parent_path("/deps/foo/Cargo.toml"), Some("/deps/foo".to_string()));
    assert_eq!(parent_path("/Cargo.toml"), Some("/".to_string()));
    assert_eq!(parent_path("Cargo.toml"), None);
    assert_eq!(parent_path("/"), None);
    assert_eq!(parent_path(""), None);
}

#[test]
fn strip_prefix_behaviour() {
    assert_eq!(strip_path_prefix("/a", "/a/b/c"), Some("b/c".to_string()));
    assert_eq!(strip_path_prefix("/a/", "/a/b"), Some("b".to_string()));
    assert_eq!(strip_path_prefix("/a", "/a"), Some("".to_string()));
    assert_eq!(strip_path_prefix("/a", "/ab"), None);
    assert_eq!(strip_path_prefix("/a/b", "/a"), None);
    assert_eq!(strip_path_prefix("/x", "/y/z"), None);
}

#[test]
fn relative_paths_of_a_dependency() {
    let root = "/deps/foo".to_string();
    let paths = vec!["/deps/foo/LICENSE".to_string(), "/deps/foo/docs/COPYING".to_string()];
    let rel = make_paths_relative(&root, &paths).unwrap();
    assert_eq!(rel, vec!["LICENSE".to_string(), "docs/COPYING".to_string()]);

    let pairs = with_relative_paths(&root, &paths).unwrap();
    assert_eq!(pairs[0], ("/deps/foo/LICENSE".to_string(), "LICENSE".to_string()));
    assert_eq!(pairs[1], ("/deps/foo/docs/COPYING".to_string(), "docs/COPYING".to_string()));
}

#[test]
fn relative_paths_fail_outside_the_root() {
    let root = "/deps/foo".to_string();
    let paths = vec!["/deps/foo/LICENSE".to_string(), "/elsewhere/COPYING".to_string()];
    let err = make_paths_relative(&root, &paths).unwrap_err();
    assert!(err.contains("/elsewhere/COPYING"));
    assert!(with_relative_paths(&root, &paths).is_err());
}

#[test]
fn join_builds_the_namespaced_destination() {
    assert_eq!(join_under("out", "foo", "LICENSE-MIT"), "out/foo/LICENSE-MIT");
    assert_eq!(join_under("out", "bar", "LICENSES/BSD.txt"), "out/bar/LICENSES/BSD.txt");
}

#[test]
fn workspace_members_are_filtered_by_id() {
    let packages = vec![
        package("id-mine", "mine", "/ws/mine/Cargo.toml", None),
        package("id-foo", "foo", "/deps/foo/Cargo.toml", None),
    ];
    let members = vec!["id-mine".to_string()];
    let ext = external_packages(&packages, &members);
    assert_eq!(ext.len(), 1);
    assert_eq!(ext[0].name, "foo");
}

#[test]
fn package_root_is_the_manifest_parent() {
    let p = package("id-foo", "foo", "/deps/foo/Cargo.toml", None);
    assert_eq!(path(&p), Some("/deps/foo".to_string()));
    let odd = package("id-odd", "odd", "Cargo.toml", None);
    assert_eq!(path(&odd), None);
}

#[test]
fn unresolvable_root_skips_the_package() {
    let odd = package("id-odd", "odd", "Cargo.toml", None);
    let entries = vec![file_entry("LICENSE", None)];
    assert!(search_for_licenses(&odd, &entries).is_none());
}

#[test]
fn declared_license_is_the_sole_candidate() {
    // An explicit declaration short-circuits the scan: the NOTICE file on
    // disk is ignored.
    let bar = package(
        "id-bar",
        "bar",
        "/deps/bar/Cargo.toml",
        Some("/deps/bar/LICENSES/BSD.txt"),
    );
    let entries = vec![
        file_entry("/deps/bar/NOTICE", None),
        file_entry("/deps/bar/LICENSE-APACHE", None),
    ];
    let (root, cands) = search_for_licenses(&bar, &entries).unwrap();
    assert_eq!(root, "/deps/bar");
    assert_eq!(cands, vec!["/deps/bar/LICENSES/BSD.txt".to_string()]);
}

#[test]
fn scan_selects_by_both_heuristics() {
    let foo = package("id-foo", "foo", "/deps/foo/Cargo.toml", None);
    let entries = vec![
        file_entry("/deps/foo/LICENSE-MIT", None),
        file_entry("/deps/foo/src/main.rs", Some(vec!["fn main() {}"])),
        file_entry(
            "/deps/foo/README.md",
            Some(vec!["hello", "Licensed under MIT"]),
        ),
    ];
    let (root, cands) = search_for_licenses(&foo, &entries).unwrap();
    assert_eq!(root, "/deps/foo");
    assert_eq!(
        cands,
        vec!["/deps/foo/LICENSE-MIT".to_string(), "/deps/foo/README.md".to_string()]
    );
}

fn plan_destinations(plan: &[CopyItem]) -> Vec<String> {
    plan.iter().map(|c| c.destination.clone()).collect()
}

#[test]
fn scenario_filename_only_dependency() {
    // foo holds LICENSE-MIT and an innocent source file: the destination
    // gains exactly out/foo/LICENSE-MIT.
    let foo = package("id-foo", "foo", "/deps/foo/Cargo.toml", None);
    let entries = vec![
        file_entry("/deps/foo/LICENSE-MIT", None),
        file_entry("/deps/foo/src/main.rs", Some(vec!["fn main() {}"])),
    ];
    let (root, cands) = search_for_licenses(&foo, &entries).unwrap();
    let sets = vec![LicenseSet { name: "foo".to_string(), root_path: root, candidates: cands }];
    let plan = plan_copies("out", &sets).unwrap();
    assert_eq!(plan.len(), 1);
    assert_eq!(plan[0].source, "/deps/foo/LICENSE-MIT");
    assert_eq!(plan[0].destination, "out/foo/LICENSE-MIT");
}

#[test]
fn scenario_declared_license_dependency() {
    // bar declares LICENSES/BSD.txt; the NOTICE file is ignored and the
    // declared file keeps its place under the namespace.
    let bar = package(
        "id-bar",
        "bar",
        "/deps/bar/Cargo.toml",
        Some("/deps/bar/LICENSES/BSD.txt"),
    );
    let entries = vec![file_entry("/deps/bar/NOTICE", None)];
    let (root, cands) = search_for_licenses(&bar, &entries).unwrap();
    let sets = vec![LicenseSet { name: "bar".to_string(), root_path: root, candidates: cands }];
    let plan = plan_copies("out", &sets).unwrap();
    assert_eq!(plan_destinations(&plan), vec!["out/bar/LICENSES/BSD.txt".to_string()]);
}

#[test]
fn scenario_content_matched_readme() {
    // baz has only a README.md whose text mentions a copyright line.
    let baz = package("id-baz", "baz", "/deps/baz/Cargo.toml", None);
    let entries = vec![
        file_entry(
            "/deps/baz/README.md",
            Some(vec!["This project is licensed under Copyright (c) 2020"]),
        ),
        file_entry("/deps/baz/src/lib.rs", Some(vec!["pub fn baz() {}"])),
    ];
    let scans = vec![PackageScan { package: baz, entries }];
    let sets = search_for_all_licenses(&scans, &Vec::new());
    assert_eq!(sets.len(), 1);
    let plan = plan_copies("out", &sets).unwrap();
    assert_eq!(plan_destinations(&plan), vec!["out/baz/README.md".to_string()]);
}

#[test]
fn scenario_workspace_member_is_never_collated() {
    // A workspace-local package never reaches the output, even with a
    // LICENSE file of its own.
    let mine = package("id-mine", "mine", "/ws/mine/Cargo.toml", None);
    let foo = package("id-foo", "foo", "/deps/foo/Cargo.toml", None);
    let scans = vec![
        PackageScan {
            package: mine,
            entries: vec![file_entry("/ws/mine/LICENSE", None)],
        },
        PackageScan {
            package: foo,
            entries: vec![file_entry("/deps/foo/COPYING", None)],
        },
    ];
    let members = vec!["id-mine".to_string()];
    let sets = search_for_all_licenses(&scans, &members);
    assert_eq!(sets.len(), 1);
    assert_eq!(sets[0].name, "foo");
    let plan = plan_copies("out", &sets).unwrap();
    let dests = plan_destinations(&plan);
    assert_eq!(dests, vec!["out/foo/COPYING".to_string()]);
    assert!(dests.iter().all(|d| !d.contains("mine")));
}

#[test]
fn planning_twice_gives_identical_destinations() {
    let sets = vec![
        LicenseSet {
            name: "foo".to_string(),
            root_path: "/deps/foo".to_string(),
            candidates: vec![
                "/deps/foo/LICENSE".to_string(),
                "/deps/foo/docs/COPYING.txt".to_string(),
            ],
        },
        LicenseSet {
            name: "bar".to_string(),
            root_path: "/deps/bar".to_string(),
            candidates: vec!["/deps/bar/NOTICE".to_string()],
        },
    ];
    let first = plan_copies("out", &sets).unwrap();
    let second = plan_copies("out", &sets).unwrap();
    assert_eq!(plan_destinations(&first), plan_destinations(&second));
    let sources: Vec<String> = first.iter().map(|c| c.source.clone()).collect();
    let sources2: Vec<String> = second.iter().map(|c| c.source.clone()).collect();
    assert_eq!(sources, sources2);
}

#[test]
fn every_destination_stays_in_its_namespace() {
    let sets = vec![
        LicenseSet {
            name: "foo".to_string(),
            root_path: "/deps/foo".to_string(),
            candidates: vec![
                "/deps/foo/LICENSE".to_string(),
                "/deps/foo/docs/COPYING.txt".to_string(),
            ],
        },
        LicenseSet {
            name: "bar".to_string(),
            root_path: "/deps/bar".to_string(),
            candidates: vec!["/deps/bar/NOTICE".to_string()],
        },
    ];
    let plan = plan_copies("out", &sets).unwrap();
    assert_eq!(plan.len(), 3);
    assert!(plan[0].destination.starts_with("out/foo/"));
    assert!(plan[1].destination.starts_with("out/foo/"));
    assert!(plan[2].destination.starts_with("out/bar/"));
}

#[test]
fn candidate_outside_its_root_fails_the_plan() {
    let sets = vec![LicenseSet {
        name: "foo".to_string(),
        root_path: "/deps/foo".to_string(),
        candidates: vec!["/elsewhere/LICENSE".to_string()],
    }];
    let err = plan_copies("out", &sets).unwrap_err();
    assert!(err.contains("/elsewhere/LICENSE"));
}

#[test]
fn one_failing_copy_leaves_the_other_outcomes_alone() {
    // The plan carries one independent item per candidate; a failure
    // executing one of them is recorded for that item alone.
    let sets = vec![LicenseSet {
        name: "foo".to_string(),
        root_path: "/deps/foo".to_string(),
        candidates: vec![
            "/deps/foo/LICENSE".to_string(),
            "/deps/foo/NOTICE".to_string(),
            "/deps/foo/COPYING".to_string(),
        ],
    }];
    let plan = plan_copies("out", &sets).unwrap();
    assert_eq!(plan.len(), 3);
    let outcomes: Vec<CopyOutcome> = plan
        .iter()
        .enumerate()
        .map(|(i, item)| CopyOutcome {
            destination_path: item.destination.clone(),
            result: if i == 1 {
                flatten_copy_dir_result(Err("source deleted mid-run".to_string()))
            } else {
                flatten_copy_dir_result(Ok(Vec::new()))
            },
        })
        .collect();
    assert_eq!(outcomes.len(), 3);
    assert!(outcomes[0].result.is_ok());
    assert_eq!(outcomes[0].destination_path, "out/foo/LICENSE");
    assert_eq!(outcomes[1].result, Err("source deleted mid-run".to_string()));
    assert!(outcomes[2].result.is_ok());
    assert_eq!(outcomes[2].destination_path, "out/foo/COPYING");
}

#[test]
fn flatten_copy_outcomes() {
    assert_eq!(flatten_copy_dir_result(Ok(Vec::new())), Ok(()));
    assert_eq!(
        flatten_copy_dir_result(Ok(vec!["one failed".to_string()])),
        Err("one failed".to_string())
    );
    assert_eq!(
        flatten_copy_dir_result(Ok(vec!["first".to_string(), "second".to_string()])),
        Err("first; second".to_string())
    );
    assert_eq!(
        flatten_copy_dir_result(Err("target path exists".to_string())),
        Err("target path exists".to_string())
    );
}
