use altpkgparser::checks::{
    arch_presence_check, archs_url, branches_existance_check, classify_fetch_failure,
    contains_text, is_available_branch, packages_url, InputError,
};
use altpkgparser::packages_handler::Architecture;

fn arch(name: &str) -> Architecture {
    Architecture(name.to_string())
}

#[test]
fn known_branches_pass() {
    assert!(branches_existance_check(&["sisyphus", "p10"]).is_ok());
    assert!(branches_existance_check(&["p9", "p11"]).is_ok());
    assert!(branches_existance_check(&[]).is_ok());
    assert!(is_available_branch("p10"));
    assert!(!is_available_branch("p1"));
    assert!(!is_available_branch(""));
}

#[test]
fn first_unknown_branch_is_reported() {
    assert_eq!(
        branches_existance_check(&["p10", "p8", "nope"]),
        Err(InputError::NoSuchBranch { branch: "p8".to_string() })
    );
}

#[test]
fn arch_must_be_in_both_branches() {
    let both = vec![arch("x86_64"), arch("noarch")];
    let one = vec![arch("noarch")];
    assert!(arch_presence_check("sisyphus", "p10", &arch("x86_64"), &both, &both).is_ok());
    assert_eq!(
        arch_presence_check("sisyphus", "p10", &arch("x86_64"), &one, &both),
        Err(InputError::ArchNotListed { branch: "sisyphus".to_string(), arch: "x86_64".to_string() })
    );
    assert_eq!(
        arch_presence_check("sisyphus", "p10", &arch("x86_64"), &both, &one),
        Err(InputError::ArchNotListed { branch: "p10".to_string(), arch: "x86_64".to_string() })
    );
    assert_eq!(
        arch_presence_check("sisyphus", "p10", &arch("x86_64"), &one, &one),
        Err(InputError::ArchNotListed { branch: "sisyphus".to_string(), arch: "x86_64".to_string() })
    );
}

#[test]
fn missing_listed_arch_message_is_unquoted() {
    let one = vec![arch("noarch")];
    let e = arch_presence_check("sisyphus", "p10", &arch("x86_64"), &one, &one).unwrap_err();
    assert_eq!(e.message(), "sisyphus branch doesn't support x86_64 architecture");
}

#[test]
fn substring_search() {
    assert!(contains_text("abc", ""));
    assert!(contains_text("abc", "abc"));
    assert!(contains_text("xxabcxx", "bc"));
    assert!(!contains_text("ab", "abc"));
    assert!(!contains_text("acb", "ab"));
    assert!(contains_text("héllo wörld", "ö"));
}

#[test]
fn fetch_failure_meaning() {
    let text = "{\"message\": \"unknown package set name\"}";
    assert_eq!(
        classify_fetch_failure("p1", None, text),
        Some(InputError::NoSuchBranch { branch: "p1".to_string() })
    );
    let text = "{\"message\": \"Invalid architecture name\"}";
    assert_eq!(
        classify_fetch_failure("p10", Some(&arch("mips")), text),
        Some(InputError::UnsupportedArch { branch: "p10".to_string(), arch: "mips".to_string() })
    );
    assert_eq!(classify_fetch_failure("p10", None, text), None);
    assert_eq!(classify_fetch_failure("p10", Some(&arch("mips")), "Internal Server Error"), None);
}

#[test]
fn error_messages() {
    assert_eq!(
        InputError::NoSuchBranch { branch: "p1".to_string() }.message(),
        "No such branch: \"p1\""
    );
    assert_eq!(
        InputError::UnsupportedArch { branch: "p10".to_string(), arch: "mips".to_string() }
            .message(),
        "p10 branch doesn't support \"mips\" architecture"
    );
    assert_eq!(
        InputError::ArchNotListed { branch: "p10".to_string(), arch: "mips".to_string() }
            .message(),
        "p10 branch doesn't support mips architecture"
    );
}

#[test]
fn request_urls() {
    assert_eq!(
        packages_url("p10", None),
        "https://rdb.altlinux.org/api/export/branch_binary_packages/p10"
    );
    assert_eq!(
        packages_url("p10", Some(&arch("x86_64"))),
        "https://rdb.altlinux.org/api/export/branch_binary_packages/p10?arch=x86_64"
    );
    assert_eq!(
        archs_url("sisyphus"),
        "https://rdb.altlinux.org/api/site/all_pkgset_archs?branch=sisyphus"
    );
}
