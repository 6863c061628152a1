//! Validation of the branches and architecture asked for, and what a failed
//! request to the package database service means.
use crate::packages_handler::Architecture;
use vstd::prelude::*;
use vstd::string::*;

verus! {

/// Base of the request for the binary packages of a branch.
pub const PKGS_URL: &'static str = "https://rdb.altlinux.org/api/export/branch_binary_packages/";

/// Base of the request for the architectures of a branch.
pub const ARCHS_URL: &'static str = "https://rdb.altlinux.org/api/site/all_pkgset_archs?branch=";

/// Why the branches or the architecture asked for cannot be compared.
#[derive(Debug, Clone, PartialEq, Eq)]
pub enum InputError {
    /// The service has no branch of that name.
    NoSuchBranch { branch: String },
    /// The service refused a request for the branch's packages of that
    /// architecture.
    UnsupportedArch { branch: String, arch: String },
    /// The architectures that the service lists for the branch do not include
    /// that architecture.
    ArchNotListed { branch: String, arch: String },
}

/// The branches that the service serves binary packages for.
pub open spec fn available_branches() -> Seq<Seq<char>> {
    seq!["p9"@, "p10"@, "p11"@, "sisyphus"@]
}

/// Whether `text` holds `pat` as a contiguous part.
pub open spec fn has_substring(text: Seq<char>, pat: Seq<char>) -> bool {
    exists|i: int|
        0 <= i && i + pat.len() <= text.len() && #[trigger] text.subrange(i, i + pat.len()) == pat
}

/// Whether the architecture named `a` is among `archs`.
pub open spec fn arch_listed(archs: Seq<Architecture>, a: Seq<char>) -> bool {
    exists|i: int| 0 <= i < archs.len() && #[trigger] archs[i]@ == a
}

/// The text of a service error that names an unknown branch.
pub open spec fn unknown_branch_text() -> Seq<char> {
    "unknown package set name"@
}

/// The text of a service error that names an unknown architecture.
pub open spec fn invalid_arch_text() -> Seq<char> {
    "Invalid architecture name"@
}

/// `e` says that there is no branch named `branch`.
pub open spec fn is_no_such_branch(e: InputError, branch: Seq<char>) -> bool {
    match e {
        InputError::NoSuchBranch { branch: b } => b@ == branch,
        _ => false,
    }
}

/// `e` says that branch `branch` lacks architecture `arch`.
pub open spec fn is_unsupported_arch(e: InputError, branch: Seq<char>, arch: Seq<char>) -> bool {
    match e {
        InputError::UnsupportedArch { branch: b, arch: a } => b@ == branch && a@ == arch,
        _ => false,
    }
}

/// `e` says that the architectures listed for branch `branch` do not
/// include `arch`.
pub open spec fn is_arch_not_listed(e: InputError, branch: Seq<char>, arch: Seq<char>) -> bool {
    match e {
        InputError::ArchNotListed { branch: b, arch: a } => b@ == branch && a@ == arch,
        _ => false,
    }
}

/// The message that describes an input error.
pub open spec fn message_text(e: InputError) -> Seq<char> {
    match e {
        InputError::NoSuchBranch { branch } => "No such branch: \""@ + branch@ + "\""@,
        InputError::UnsupportedArch { branch, arch } => branch@ + " branch doesn't support \""@
            + arch@ + "\" architecture"@,
        InputError::ArchNotListed { branch, arch } => branch@ + " branch doesn't support "@ + arch@
            + " architecture"@,
    }
}

impl InputError {
    /// A human-readable description of the error.
    pub fn message(&self) -> (r: String)
        ensures
            r@ == message_text(*self),
    {
        match self {
            InputError::NoSuchBranch { branch } => {
                let mut s = String::from_str("No such branch: \"");
                s.append(branch.as_str());
                s.append("\"");
                s
            },
            InputError::UnsupportedArch { branch, arch } => {
                let mut s = branch.clone();
                s.append(" branch doesn't support \"");
                s.append(arch.as_str());
                s.append("\" architecture");
                s
            },
            InputError::ArchNotListed { branch, arch } => {
                let mut s = branch.clone();
                s.append(" branch doesn't support ");
                s.append(arch.as_str());
                s.append(" architecture");
                s
            },
        }
    }
}

/// Whether the service serves a branch of this name.
pub fn is_available_branch(name: &str) -> (r: bool)
    ensures
        r == available_branches().contains(name@),
{
    let n = name.to_owned();
    let r = n == String::from_str("p9") || n == String::from_str("p10") || n == String::from_str(
        "p11",
    ) || n == String::from_str("sisyphus");
    proof {
        let b = available_branches();
        if b.contains(name@) {
            let i = choose|i: int| 0 <= i < b.len() && b[i] == name@;
            assert(i == 0 || i == 1 || i == 2 || i == 3);
        }
        if r {
            assert(b[0] == name@ || b[1] == name@ || b[2] == name@ || b[3] == name@);
        }
    }
    r
}

/// Checks that every branch named is one that the service serves; the error
/// names the first that is not.
pub fn branches_existance_check(branches_names: &[&str]) -> (r: Result<(), InputError>)
    ensures
        match r {
            Ok(()) => forall|i: int|
                0 <= i < branches_names@.len() ==> available_branches().contains(
                    #[trigger] branches_names@[i]@,
                ),
            Err(e) => exists|k: int|
                0 <= k < branches_names@.len() && !available_branches().contains(
                    #[trigger] branches_names@[k]@,
                ) && is_no_such_branch(e, branches_names@[k]@) && forall|m: int|
                    0 <= m < k ==> available_branches().contains(#[trigger] branches_names@[m]@),
        },
{
    let mut i: usize = 0;
    while i < branches_names.len()
        invariant
            i <= branches_names@.len(),
            forall|m: int|
                0 <= m < i ==> available_branches().contains(#[trigger] branches_names@[m]@),
        decreases branches_names@.len() - i,
    {
        let branch_name = branches_names[i];
        if !is_available_branch(branch_name) {
            let e = InputError::NoSuchBranch { branch: branch_name.to_owned() };
            assert(is_no_such_branch(e, branches_names@[i as int]@));
            return Err(e);
        }
        i = i + 1;
    }
    Ok(())
}

fn arch_in(archs: &Vec<Architecture>, arch: &Architecture) -> (r: bool)
    ensures
        r == arch_listed(archs@, arch@),
{
    let mut i: usize = 0;
    while i < archs.len()
        invariant
            i <= archs@.len(),
            forall|k: int| 0 <= k < i ==> archs@[k]@ != arch@,
        decreases archs@.len() - i,
    {
        if archs[i].same_as(arch) {
            return true;
        }
        i = i + 1;
    }
    false
}

/// Checks that both branches support the architecture, given the
/// architectures that each of them lists; the error names the target branch
/// when it lacks the architecture, else the secondary one.
pub fn arch_presence_check(
    target_branch: &str,
    secondary_branch: &str,
    arch: &Architecture,
    target_archs: &Vec<Architecture>,
    secondary_archs: &Vec<Architecture>,
) -> (r: Result<(), InputError>)
    ensures
        match r {
            Ok(()) => arch_listed(target_archs@, arch@) && arch_listed(secondary_archs@, arch@),
            Err(e) => if !arch_listed(target_archs@, arch@) {
                is_arch_not_listed(e, target_branch@, arch@)
            } else {
                !arch_listed(secondary_archs@, arch@) && is_arch_not_listed(
                    e,
                    secondary_branch@,
                    arch@,
                )
            },
        },
{
    if !arch_in(target_archs, arch) {
        return Err(
            InputError::ArchNotListed { branch: target_branch.to_owned(), arch: arch.0.clone() },
        );
    }
    if !arch_in(secondary_archs, arch) {
        return Err(
            InputError::ArchNotListed {
                branch: secondary_branch.to_owned(),
                arch: arch.0.clone(),
            },
        );
    }
    Ok(())
}

fn chars_of(s: &str) -> (r: Vec<char>)
    ensures
        r@ == s@,
{
    let n = s.unicode_len();
    let mut r: Vec<char> = Vec::new();
    let mut i: usize = 0;
    while i < n
        invariant
            n == s@.len(),
            i <= n,
            r@ == s@.subrange(0, i as int),
        decreases n - i,
    {
        r.push(s.get_char(i));
        i = i + 1;
        assert(r@ =~= s@.subrange(0, i as int));
    }
    assert(r@ =~= s@);
    r
}

fn starts_at(text: &Vec<char>, pat: &Vec<char>, i: usize) -> (r: bool)
    requires
        i + pat@.len() <= text@.len(),
    ensures
        r == (text@.subrange(i as int, i + pat@.len()) == pat@),
{
    let n = text.len();
    let mut j: usize = 0;
    while j < pat.len()
        invariant
            n == text@.len(),
            i + pat@.len() <= text@.len(),
            j <= pat@.len(),
            forall|k: int| 0 <= k < j ==> text@[i + k] == pat@[k],
        decreases pat@.len() - j,
    {
        if text[i + j] != pat[j] {
            assert(text@.subrange(i as int, i + pat@.len())[j as int] != pat@[j as int]);
            return false;
        }
        j = j + 1;
    }
    assert(text@.subrange(i as int, i + pat@.len()) =~= pat@);
    true
}

/// Whether `text` holds `pat` as a contiguous part.
pub fn contains_text(text: &str, pat: &str) -> (r: bool)
    ensures
        r == has_substring(text@, pat@),
{
    let t = chars_of(text);
    let p = chars_of(pat);
    if p.len() == 0 {
        assert(text@.subrange(0, 0 + pat@.len() as int) =~= pat@);
        return true;
    }
    if p.len() > t.len() {
        return false;
    }
    let last = t.len() - p.len();
    let mut i: usize = 0;
    while i <= last
        invariant
            t@ == text@,
            p@ == pat@,
            p@.len() > 0,
            t@.len() <= usize::MAX,
            last + p@.len() == t@.len(),
            i <= last + 1,
            forall|k: int| 0 <= k < i ==> #[trigger] t@.subrange(k, k + p@.len()) != p@,
        decreases last + 1 - i,
    {
        if starts_at(&t, &p, i) {
            return true;
        }
        i = i + 1;
    }
    false
}

/// What the error text of a failed package request means: an unknown branch
/// when it says so, else an unsupported architecture when one was asked for
/// and the text says so, else nothing that this library can tell.
pub fn classify_fetch_failure(branch_name: &str, arch: Option<&Architecture>, text: &str) -> (r:
    Option<InputError>)
    ensures
        has_substring(text@, unknown_branch_text()) ==> (r matches Some(e) && is_no_such_branch(
            e,
            branch_name@,
        )),
        !has_substring(text@, unknown_branch_text()) ==> match arch {
            Some(a) => if has_substring(text@, invalid_arch_text()) {
                (r matches Some(e) && is_unsupported_arch(e, branch_name@, a@))
            } else {
                r is None
            },
            None => r is None,
        },
{
    if contains_text(text, "unknown package set name") {
        return Some(InputError::NoSuchBranch { branch: branch_name.to_owned() });
    }
    match arch {
        Some(a) => {
            if contains_text(text, "Invalid architecture name") {
                Some(
                    InputError::UnsupportedArch { branch: branch_name.to_owned(), arch: a.0.clone() },
                )
            } else {
                None
            }
        },
        None => None,
    }
}

/// The request for the binary packages of a branch, for one architecture
/// when one is given.
pub fn packages_url(branch_name: &str, arch: Option<&Architecture>) -> (r: String)
    ensures
        r@ == PKGS_URL@ + branch_name@ + match arch {
            Some(a) => "?arch="@ + a@,
            None => Seq::<char>::empty(),
        },
{
    let mut url = String::from_str(PKGS_URL);
    url.append(branch_name);
    match arch {
        Some(a) => {
            url.append("?arch=");
            url.append(a.0.as_str());
            assert(url@ =~= PKGS_URL@ + branch_name@ + ("?arch="@ + a@));
        },
        None => {
            assert(url@ =~= PKGS_URL@ + branch_name@ + Seq::<char>::empty());
        },
    }
    url
}

/// The request for the architectures of a branch.
pub fn archs_url(branch_name: &str) -> (r: String)
    ensures
        r@ == ARCHS_URL@ + branch_name@,
{
    let mut url = String::from_str(ARCHS_URL);
    url.append(branch_name);
    url
}

} // verus!
