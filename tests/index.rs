use altpkgparser::api_struct::{ArchData, BranchArchs, PkgRaw};
use altpkgparser::evr::{compose_evr, epoch_text};
use altpkgparser::packages_handler::{Architecture, BranchPkgsHandler, PkgEntry};

fn arch(name: &str) -> Architecture {
    Architecture(name.to_string())
}

fn raw(a: &str, name: &str, epoch: i32, version: &str, release: &str) -> PkgRaw {
    PkgRaw {
        arch: arch(a),
        name: name.to_string(),
        epoch,
        version: version.to_string(),
        release: release.to_string(),
    }
}

fn names(pkgs: &Vec<PkgEntry>) -> Vec<(String, String)> {
    pkgs.iter().map(|p| (p.name.clone(), p.rpm_version.clone())).collect()
}

#[test]
fn epoch_text_is_decimal() {
    assert_eq!(epoch_text(0), "0");
    assert_eq!(epoch_text(7), "7");
    assert_eq!(epoch_text(10), "10");
    assert_eq!(epoch_text(1234), "1234");
    assert_eq!(epoch_text(-3), "-3");
    assert_eq!(epoch_text(i32::MAX), "2147483647");
    assert_eq!(epoch_text(i32::MIN), "-2147483648");
}

#[test]
fn compose_evr_joins_parts() {
    assert_eq!(compose_evr(0, "11.2", "alt1"), "0:11.2-alt1");
    assert_eq!(compose_evr(2, "1.0", ""), "2:1.0-");
}

#[test]
fn from_raw_groups_by_architecture() {
    let handler = BranchPkgsHandler::from_raw(vec![
        raw("x86_64", "gcc", 0, "11.2", "1"),
        raw("noarch", "docs", 1, "2.0", "alt3"),
        raw("x86_64", "grep", 0, "3.7", "2"),
    ]);
    assert_eq!(handler.architectures(), vec![arch("x86_64"), arch("noarch")]);
    let x86 = handler.packages_iter(&arch("x86_64")).unwrap();
    assert_eq!(
        names(x86),
        vec![
            ("gcc".to_string(), "0:11.2-1".to_string()),
            ("grep".to_string(), "0:3.7-2".to_string())
        ]
    );
    let noarch = handler.packages_iter(&arch("noarch")).unwrap();
    assert_eq!(names(noarch), vec![("docs".to_string(), "1:2.0-alt3".to_string())]);
    assert!(handler.packages_iter(&arch("aarch64")).is_none());
}

#[test]
fn from_raw_of_nothing_is_empty() {
    let handler = BranchPkgsHandler::from_raw(Vec::new());
    assert!(handler.architectures().is_empty());
    assert!(!handler.contains(&arch("x86_64"), "gcc"));
}

#[test]
fn duplicate_name_keeps_first_record() {
    let handler = BranchPkgsHandler::from_raw(vec![
        raw("x86_64", "gcc", 0, "11.2", "1"),
        raw("x86_64", "gcc", 0, "12.1", "1"),
        raw("aarch64", "gcc", 0, "13.0", "1"),
    ]);
    let gcc = handler.get_package(&arch("x86_64"), "gcc").unwrap();
    assert_eq!(gcc.rpm_version, "0:11.2-1");
    assert_eq!(handler.packages_iter(&arch("x86_64")).unwrap().len(), 1);
    let other = handler.get_package(&arch("aarch64"), "gcc").unwrap();
    assert_eq!(other.rpm_version, "0:13.0-1");
}

#[test]
fn contains_and_get_package() {
    let handler = BranchPkgsHandler::from_raw(vec![
        raw("x86_64", "gcc11", 0, "11.2", "1"),
        raw("aarch64", "grep", 0, "3.7", "2"),
    ]);
    assert!(handler.contains(&arch("x86_64"), "gcc11"));
    assert!(handler.contains(&arch("aarch64"), "grep"));
    assert!(!handler.contains(&arch("blablabla"), "grep"));
    assert!(!handler.contains(&arch("x86_64"), "blablabla"));
    assert!(!handler.contains(&arch("x86_64"), "grep"));
    assert!(handler.get_package(&arch("x86_64"), "gcc11").is_some());
    assert!(handler.get_package(&arch("aarch64"), "grep").is_some());
    assert!(handler.get_package(&arch("aarch64"), "gcc11").is_none());
}

#[test]
fn entries_are_equal_by_name() {
    let a = PkgEntry { name: "gcc".to_string(), rpm_version: "0:1-1".to_string() };
    let b = PkgEntry { name: "gcc".to_string(), rpm_version: "0:2-1".to_string() };
    let c = PkgEntry { name: "grep".to_string(), rpm_version: "0:1-1".to_string() };
    assert!(a == b);
    assert!(a != c);
}

#[test]
fn branch_archs_lists_architectures() {
    let archs = BranchArchs {
        archs: vec![ArchData { arch: arch("x86_64") }, ArchData { arch: arch("noarch") }],
    };
    assert_eq!(archs.architectures(), vec![arch("x86_64"), arch("noarch")]);
}
