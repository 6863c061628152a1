use altpkgparser::api_struct::PkgRaw;
use altpkgparser::compare::{extract_exclusive, get_newer_in_target, versioned_if_newer};
use altpkgparser::data::{BranchExclusivePkgs, NewerInTargetPkgs};
use altpkgparser::packages_handler::{Architecture, BranchPkgsHandler, PkgEntry};
use std::cmp::Ordering;

fn raw(a: &str, name: &str, epoch: i32, version: &str, release: &str) -> PkgRaw {
    PkgRaw {
        arch: Architecture(a.to_string()),
        name: name.to_string(),
        epoch,
        version: version.to_string(),
        release: release.to_string(),
    }
}

fn exclusive_lines(r: &Vec<BranchExclusivePkgs>) -> Vec<(String, Vec<String>)> {
    r.iter()
        .map(|e| (e.arch.0.clone(), e.packages.iter().map(|p| p.name.clone()).collect()))
        .collect()
}

fn newer_lines(r: &Vec<NewerInTargetPkgs>) -> Vec<(String, Vec<(String, String, String)>)> {
    r.iter()
        .map(|e| {
            (
                e.arch.0.clone(),
                e.packages
                    .iter()
                    .map(|p| {
                        (
                            p.name.clone(),
                            p.target_rpm_version.clone(),
                            p.secondary_rpm_version.clone(),
                        )
                    })
                    .collect(),
            )
        })
        .collect()
}

fn s(x: &str) -> String {
    x.to_string()
}

#[test]
fn gcc_newer_in_target() {
    let target = BranchPkgsHandler::from_raw(vec![raw("x86_64", "gcc", 0, "11.2", "1")]);
    let secondary = BranchPkgsHandler::from_raw(vec![raw("x86_64", "gcc", 0, "10.0", "1")]);
    assert_eq!(
        newer_lines(&get_newer_in_target(&target, &secondary)),
        vec![(s("x86_64"), vec![(s("gcc"), s("0:11.2-1"), s("0:10.0-1"))])]
    );
    assert_eq!(
        exclusive_lines(&extract_exclusive(&target, &secondary)),
        vec![(s("x86_64"), vec![])]
    );
}

#[test]
fn noarch_only_in_target() {
    let target = BranchPkgsHandler::from_raw(vec![
        raw("noarch", "pkgA", 0, "1.0", "1"),
        raw("noarch", "pkgB", 0, "2.0", "1"),
    ]);
    let secondary = BranchPkgsHandler::from_raw(vec![raw("x86_64", "pkgA", 0, "1.0", "1")]);
    assert_eq!(
        exclusive_lines(&extract_exclusive(&target, &secondary)),
        vec![(s("noarch"), vec![s("pkgA"), s("pkgB")])]
    );
    assert!(get_newer_in_target(&target, &secondary).is_empty());
}

#[test]
fn exclusive_of_missing_architecture_keeps_everything() {
    let primary = BranchPkgsHandler::from_raw(vec![
        raw("x86_64", "gcc", 0, "11.2", "1"),
        raw("aarch64", "gcc", 0, "11.2", "1"),
        raw("aarch64", "grep", 0, "3.7", "1"),
    ]);
    let other = BranchPkgsHandler::from_raw(vec![raw("x86_64", "gcc", 0, "11.2", "1")]);
    assert_eq!(
        exclusive_lines(&extract_exclusive(&primary, &other)),
        vec![(s("x86_64"), vec![]), (s("aarch64"), vec![s("gcc"), s("grep")])]
    );
}

#[test]
fn exclusive_of_itself_is_empty() {
    let x = BranchPkgsHandler::from_raw(vec![
        raw("x86_64", "gcc", 0, "11.2", "1"),
        raw("noarch", "docs", 0, "1", "1"),
        raw("x86_64", "grep", 0, "3.7", "1"),
    ]);
    assert_eq!(
        exclusive_lines(&extract_exclusive(&x, &x)),
        vec![(s("x86_64"), vec![]), (s("noarch"), vec![])]
    );
}

#[test]
fn newer_of_itself_is_empty() {
    let x = BranchPkgsHandler::from_raw(vec![
        raw("x86_64", "gcc", 0, "11.2", "1"),
        raw("noarch", "docs", 0, "1", "1"),
    ]);
    let r = get_newer_in_target(&x, &x);
    assert!(r.iter().all(|e| e.packages.is_empty()));
}

#[test]
fn only_greater_versions_are_reported() {
    let target = BranchPkgsHandler::from_raw(vec![
        raw("x86_64", "newer", 0, "2.0", "1"),
        raw("x86_64", "older", 0, "1.0", "1"),
        raw("x86_64", "same", 0, "1.0", "1"),
        raw("x86_64", "epoch", 1, "0.1", "1"),
        raw("x86_64", "release", 0, "1.0", "alt2"),
    ]);
    let secondary = BranchPkgsHandler::from_raw(vec![
        raw("x86_64", "newer", 0, "1.9", "1"),
        raw("x86_64", "older", 0, "1.10", "1"),
        raw("x86_64", "same", 0, "1.0", "1"),
        raw("x86_64", "epoch", 0, "9.9", "1"),
        raw("x86_64", "release", 0, "1.0", "alt10"),
    ]);
    assert_eq!(
        newer_lines(&get_newer_in_target(&target, &secondary)),
        vec![(
            s("x86_64"),
            vec![
                (s("newer"), s("0:2.0-1"), s("0:1.9-1")),
                (s("epoch"), s("1:0.1-1"), s("0:9.9-1"))
            ]
        )]
    );
}

#[test]
fn target_only_package_is_exclusive_not_newer() {
    let target = BranchPkgsHandler::from_raw(vec![
        raw("x86_64", "gcc", 0, "11.2", "1"),
        raw("x86_64", "fresh", 0, "1.0", "1"),
    ]);
    let secondary = BranchPkgsHandler::from_raw(vec![raw("x86_64", "gcc", 0, "10.0", "1")]);
    assert_eq!(
        newer_lines(&get_newer_in_target(&target, &secondary)),
        vec![(s("x86_64"), vec![(s("gcc"), s("0:11.2-1"), s("0:10.0-1"))])]
    );
    assert_eq!(
        exclusive_lines(&extract_exclusive(&target, &secondary)),
        vec![(s("x86_64"), vec![s("fresh")])]
    );
}

#[test]
fn newer_keeps_shared_architecture_without_updates() {
    let target = BranchPkgsHandler::from_raw(vec![raw("x86_64", "gcc", 0, "10.0", "1")]);
    let secondary = BranchPkgsHandler::from_raw(vec![raw("x86_64", "gcc", 0, "11.0", "1")]);
    assert_eq!(newer_lines(&get_newer_in_target(&target, &secondary)), vec![(s("x86_64"), vec![])]);
}

#[test]
fn versioned_line_only_for_greater() {
    let t = PkgEntry { name: s("gcc"), rpm_version: s("0:2-1") };
    let o = PkgEntry { name: s("gcc"), rpm_version: s("0:1-1") };
    let v = versioned_if_newer(&t, &o, Ordering::Greater).unwrap();
    assert_eq!(v.name, "gcc");
    assert_eq!(v.target_rpm_version, "0:2-1");
    assert_eq!(v.secondary_rpm_version, "0:1-1");
    assert!(versioned_if_newer(&t, &o, Ordering::Equal).is_none());
    assert!(versioned_if_newer(&t, &o, Ordering::Less).is_none());
}
