//! Comparison of the package indices of two branches.
use crate::data::{
    BranchExclusivePkgs, NewerInTargetPkgs, NewerView, VersionedPkg, VersionedView,
};
use crate::evr::{evr_cmp, rpm_compare};
use crate::packages_handler::{
    archs_unique, entries_view, has_arch, index_contains, index_wf, lemma_bucket_at,
    lemma_packages_at_position, lemma_version_at_position, lookup, packages_at, ArchView,
    Architecture, BranchPkgsHandler, PkgEntry, PkgView,
};
use std::cmp::Ordering;
use vstd::prelude::*;

verus! {

/// The packages among `pkgs`, those of architecture `a` of one index, that
/// `other` does not have at `a`.
pub open spec fn exclusive_packages(other: Seq<ArchView>, a: Seq<char>, pkgs: Seq<PkgView>) -> Seq<
    PkgView,
> {
    pkgs.filter(|p: PkgView| !index_contains(other, a, p.0))
}

/// For each architecture of `primary`, in order, the packages that `other`
/// lacks at that architecture.
pub open spec fn exclusive_of(primary: Seq<ArchView>, other: Seq<ArchView>) -> Seq<ArchView> {
    primary.map_values(|b: ArchView| (b.0, exclusive_packages(other, b.0, b.1)))
}

/// The report line of target package `p` of architecture `a`: present when
/// `secondary` has the package at `a` with an EVR that `p`'s is greater than.
pub open spec fn newer_entry(secondary: Seq<ArchView>, a: Seq<char>, p: PkgView) -> Option<
    VersionedView,
> {
    match lookup(secondary, a, p.0) {
        Some(v) => if evr_cmp(p.1, v) == Ordering::Greater {
            Some((p.0, p.1, v))
        } else {
            None
        },
        None => None,
    }
}

/// The packages among `pkgs`, those of architecture `a` of the target, that
/// are newer than in `secondary`.
pub open spec fn newer_packages(secondary: Seq<ArchView>, a: Seq<char>, pkgs: Seq<PkgView>) -> Seq<
    VersionedView,
> {
    pkgs.filter_map(|p: PkgView| newer_entry(secondary, a, p))
}

/// The report of architecture `b` of the target: none when `secondary` has
/// no packages for it.
pub open spec fn newer_arch(secondary: Seq<ArchView>, b: ArchView) -> Option<NewerView> {
    if has_arch(secondary, b.0) {
        Some((b.0, newer_packages(secondary, b.0, b.1)))
    } else {
        None
    }
}

/// For each architecture of `target` that `secondary` also has, in order, the
/// packages that are newer in `target`.
pub open spec fn newer_of(target: Seq<ArchView>, secondary: Seq<ArchView>) -> Seq<NewerView> {
    target.filter_map(|b: ArchView| newer_arch(secondary, b))
}

/// A report of exclusive packages as architecture and packages.
pub open spec fn exclusive_view(r: Seq<BranchExclusivePkgs>) -> Seq<ArchView> {
    r.map_values(|e: BranchExclusivePkgs| e@)
}

/// A report of newer packages as architecture and package lines.
pub open spec fn newer_view(r: Seq<NewerInTargetPkgs>) -> Seq<NewerView> {
    r.map_values(|e: NewerInTargetPkgs| e@)
}

/// The packages of `pkgs` that `other` lacks at architecture `arch`.
fn exclusive_of_arch(
    pkgs: &Vec<PkgEntry>,
    arch: &Architecture,
    other: &BranchPkgsHandler,
) -> (r: Vec<PkgEntry>)
    requires
        other.wf(),
    ensures
        entries_view(r@) == exclusive_packages(other@, arch@, entries_view(pkgs@)),
{
    let ghost f = |p: PkgView| !index_contains(other@, arch@, p.0);
    let ghost all = entries_view(pkgs@);
    let mut r: Vec<PkgEntry> = Vec::new();
    let mut j: usize = 0;
    proof {
        assert(all.take(0) =~= Seq::<PkgView>::empty());
        assert(entries_view(r@) =~= Seq::<PkgView>::empty());
    }
    while j < pkgs.len()
        invariant
            j <= pkgs@.len(),
            other.wf(),
            all == entries_view(pkgs@),
            f == (|p: PkgView| !index_contains(other@, arch@, p.0)),
            entries_view(r@) == all.take(j as int).filter(f),
        decreases pkgs@.len() - j,
    {
        let ghost before = r@;
        proof {
            assert(all.take(j + 1).drop_last() =~= all.take(j as int));
            assert(all.take(j + 1).last() == pkgs@[j as int]@);
        }
        let present = other.contains(arch, pkgs[j].name.as_str());
        proof {
            let x = pkgs@[j as int]@;
            assert(f(x) == !present);
            reveal(Seq::filter);
            assert(all.take(j + 1).filter(f) == (if f(x) {
                all.take(j as int).filter(f).push(x)
            } else {
                all.take(j as int).filter(f)
            }));
        }
        if !present {
            r.push(pkgs[j].duplicate());
            proof {
                assert(entries_view(r@) =~= entries_view(before).push(pkgs@[j as int]@));
            }
        }
        j = j + 1;
    }
    proof {
        assert(all.take(pkgs@.len() as int) =~= all);
    }
    r
}

/// For each architecture of `branch_pkgs`, in order, the packages that
/// `other` does not have for that architecture (an architecture that `other`
/// lacks keeps all its packages; one whose packages `other` all has is
/// reported with none).
pub fn extract_exclusive(branch_pkgs: &BranchPkgsHandler, other: &BranchPkgsHandler) -> (r: Vec<
    BranchExclusivePkgs,
>)
    requires
        branch_pkgs.wf(),
        other.wf(),
    ensures
        exclusive_view(r@) == exclusive_of(branch_pkgs@, other@),
{
    let archs = branch_pkgs.architectures();
    let mut exclusive: Vec<BranchExclusivePkgs> = Vec::new();
    let mut i: usize = 0;
    while i < archs.len()
        invariant
            i <= archs@.len(),
            archs@.len() == branch_pkgs@.len(),
            archs@.map_values(|a: Architecture| a@) == branch_pkgs@.map_values(|b: ArchView| b.0),
            branch_pkgs.wf(),
            other.wf(),
            exclusive@.len() == i,
            forall|k: int|
                0 <= k < i ==> #[trigger] exclusive@[k]@ == (
                    branch_pkgs@[k].0,
                    exclusive_packages(other@, branch_pkgs@[k].0, branch_pkgs@[k].1),
                ),
        decreases archs@.len() - i,
    {
        let arch = &archs[i];
        proof {
            assert(arch@ == archs@.map_values(|a: Architecture| a@)[i as int]);
            assert(arch@ == branch_pkgs@[i as int].0);
            lemma_bucket_at(branch_pkgs@, i as int);
        }
        match branch_pkgs.packages_iter(arch) {
            Some(packages) => {
                let unique_pkgs = exclusive_of_arch(packages, arch, other);
                exclusive.push(
                    BranchExclusivePkgs { arch: arch.duplicate(), packages: unique_pkgs },
                );
            },
            None => {},
        }
        i = i + 1;
    }
    proof {
        assert(exclusive_view(exclusive@) =~= exclusive_of(branch_pkgs@, other@));
    }
    exclusive
}

/// The report line of a target package and its secondary counterpart, given
/// the outcome of comparing their EVRs: present only when the target's is
/// greater.
pub fn versioned_if_newer(target_pkg: &PkgEntry, sec_pkg: &PkgEntry, order: Ordering) -> (r: Option<
    VersionedPkg,
>)
    ensures
        match r {
            Some(v) => order == Ordering::Greater && v@ == (
                target_pkg.name@,
                target_pkg.rpm_version@,
                sec_pkg.rpm_version@,
            ),
            None => order != Ordering::Greater,
        },
{
    match order {
        Ordering::Greater => Some(
            VersionedPkg {
                name: target_pkg.name.clone(),
                target_rpm_version: target_pkg.rpm_version.clone(),
                secondary_rpm_version: sec_pkg.rpm_version.clone(),
            },
        ),
        _ => None,
    }
}

/// The packages of `pkgs`, those of architecture `arch` of the target, that
/// are newer than in `secondary`.
fn newer_of_arch(pkgs: &Vec<PkgEntry>, arch: &Architecture, secondary: &BranchPkgsHandler) -> (r:
    Vec<VersionedPkg>)
    requires
        secondary.wf(),
    ensures
        r@.map_values(|p: VersionedPkg| p@) == newer_packages(
            secondary@,
            arch@,
            entries_view(pkgs@),
        ),
{
    let ghost f = |p: PkgView| newer_entry(secondary@, arch@, p);
    let ghost all = entries_view(pkgs@);
    let mut r: Vec<VersionedPkg> = Vec::new();
    let mut j: usize = 0;
    proof {
        assert(all.take(0) =~= Seq::<PkgView>::empty());
        assert(r@.map_values(|p: VersionedPkg| p@) =~= Seq::<VersionedView>::empty());
    }
    while j < pkgs.len()
        invariant
            j <= pkgs@.len(),
            secondary.wf(),
            all == entries_view(pkgs@),
            f == (|p: PkgView| newer_entry(secondary@, arch@, p)),
            r@.map_values(|p: VersionedPkg| p@) == all.take(j as int).filter_map(f),
        decreases pkgs@.len() - j,
    {
        let ghost before = r@;
        let target_pkg = &pkgs[j];
        proof {
            all.lemma_filter_map_take_succ(f, j as int);
            assert(all[j as int] == target_pkg@);
        }
        match secondary.get_package(arch, target_pkg.name.as_str()) {
            Some(sec_pkg) => {
                let order = rpm_compare(
                    target_pkg.rpm_version.as_str(),
                    sec_pkg.rpm_version.as_str(),
                );
                match versioned_if_newer(target_pkg, sec_pkg, order) {
                    Some(v) => {
                        r.push(v);
                        proof {
                            assert(r@.map_values(|p: VersionedPkg| p@) =~= before.map_values(
                                |p: VersionedPkg| p@,
                            ) + seq![f(all[j as int])->0]);
                        }
                    },
                    None => {},
                }
            },
            None => {},
        }
        j = j + 1;
    }
    proof {
        assert(all.take(pkgs@.len() as int) =~= all);
    }
    r
}

/// For each architecture of `target_packages` that `secondary_packages` also
/// has, in order, the packages whose EVR in the target is greater than in the
/// secondary branch (those that the secondary branch lacks are skipped).
pub fn get_newer_in_target(
    target_packages: &BranchPkgsHandler,
    secondary_packages: &BranchPkgsHandler,
) -> (r: Vec<NewerInTargetPkgs>)
    requires
        target_packages.wf(),
        secondary_packages.wf(),
    ensures
        newer_view(r@) == newer_of(target_packages@, secondary_packages@),
{
    let ghost f = |b: ArchView| newer_arch(secondary_packages@, b);
    let archs = target_packages.architectures();
    let mut target_newer: Vec<NewerInTargetPkgs> = Vec::new();
    let mut i: usize = 0;
    proof {
        assert(target_packages@.take(0) =~= Seq::<ArchView>::empty());
        assert(newer_view(target_newer@) =~= Seq::<NewerView>::empty());
    }
    while i < archs.len()
        invariant
            i <= archs@.len(),
            archs@.len() == target_packages@.len(),
            archs@.map_values(|a: Architecture| a@) == target_packages@.map_values(
                |b: ArchView| b.0,
            ),
            target_packages.wf(),
            secondary_packages.wf(),
            f == (|b: ArchView| newer_arch(secondary_packages@, b)),
            newer_view(target_newer@) == target_packages@.take(i as int).filter_map(f),
        decreases archs@.len() - i,
    {
        let arch = &archs[i];
        let ghost before = target_newer@;
        proof {
            assert(arch@ == archs@.map_values(|a: Architecture| a@)[i as int]);
            assert(arch@ == target_packages@[i as int].0);
            lemma_bucket_at(target_packages@, i as int);
            target_packages@.lemma_filter_map_take_succ(f, i as int);
        }
        if secondary_packages.packages_iter(arch).is_some() {
            match target_packages.packages_iter(arch) {
                Some(packages) => {
                    let newer_pkgs = newer_of_arch(packages, arch, secondary_packages);
                    target_newer.push(
                        NewerInTargetPkgs { arch: arch.duplicate(), packages: newer_pkgs },
                    );
                    proof {
                        assert(newer_view(target_newer@) =~= newer_view(before) + seq![
                            f(target_packages@[i as int])->0,
                        ]);
                    }
                },
                None => {},
            }
        }
        i = i + 1;
    }
    proof {
        assert(target_packages@.take(target_packages@.len() as int) =~= target_packages@);
    }
    target_newer
}

/// Whether report `r` lists package line `e` for architecture `a`.
pub open spec fn reported(r: Seq<NewerView>, a: Seq<char>, e: VersionedView) -> bool {
    exists|i: int| 0 <= i < r.len() && r[i].0 == a && r[i].1.contains(e)
}

proof fn lemma_filter_keeps_all<A>(s: Seq<A>, f: spec_fn(A) -> bool)
    requires
        forall|i: int| 0 <= i < s.len() ==> f(#[trigger] s[i]),
    ensures
        s.filter(f) == s,
    decreases s.len(),
{
    reveal(Seq::filter);
    if s.len() > 0 {
        lemma_filter_keeps_all(s.drop_last(), f);
        assert(s.drop_last().push(s.last()) =~= s);
    }
}

proof fn lemma_filter_keeps_none<A>(s: Seq<A>, f: spec_fn(A) -> bool)
    requires
        forall|i: int| 0 <= i < s.len() ==> !f(#[trigger] s[i]),
    ensures
        s.filter(f).len() == 0,
    decreases s.len(),
{
    reveal(Seq::filter);
    if s.len() > 0 {
        lemma_filter_keeps_none(s.drop_last(), f);
    }
}

proof fn lemma_filter_map_none<A, B>(s: Seq<A>, f: spec_fn(A) -> Option<B>)
    requires
        forall|i: int| 0 <= i < s.len() ==> f(#[trigger] s[i]) is None,
    ensures
        s.filter_map(f).len() == 0,
    decreases s.len(),
{
    if s.len() > 0 {
        lemma_filter_map_none(s.drop_last(), f);
    }
}

proof fn lemma_filter_map_member<A, B>(s: Seq<A>, f: spec_fn(A) -> Option<B>, i: int)
    requires
        0 <= i < s.len(),
        f(s[i]) is Some,
    ensures
        s.filter_map(f).contains(f(s[i])->0),
    decreases s.len(),
{
    let rest = s.drop_last();
    if i < s.len() - 1 {
        lemma_filter_map_member(rest, f, i);
        let k = choose|k: int|
            0 <= k < rest.filter_map(f).len() && rest.filter_map(f)[k] == f(s[i])->0;
        match f(s.last()) {
            Some(x) => assert(s.filter_map(f)[k] == (rest.filter_map(f) + seq![x])[k]),
            None => {},
        }
    } else {
        let r = rest.filter_map(f);
        assert(s.filter_map(f) == r + seq![f(s[i])->0]);
        assert(s.filter_map(f)[r.len() as int] == f(s[i])->0);
    }
}

proof fn lemma_exclusive_at(primary: Seq<ArchView>, other: Seq<ArchView>, i: int)
    requires
        archs_unique(primary),
        0 <= i < primary.len(),
    ensures
        packages_at(exclusive_of(primary, other), primary[i].0) == Some(
            exclusive_packages(other, primary[i].0, primary[i].1),
        ),
{
    let r = exclusive_of(primary, other);
    assert(archs_unique(r));
    lemma_packages_at_position(r, i);
}

/// An architecture that `other` lacks keeps all its packages: the exclusive
/// packages of `primary` there are all of `primary`'s packages there.
pub proof fn law_exclusive_of_missing_arch(
    primary: Seq<ArchView>,
    other: Seq<ArchView>,
    a: Seq<char>,
)
    requires
        index_wf(primary),
        index_wf(other),
        has_arch(primary, a),
        !has_arch(other, a),
    ensures
        packages_at(exclusive_of(primary, other), a) == packages_at(primary, a),
{
    let i = choose|i: int| 0 <= i < primary.len() && primary[i].0 == a;
    lemma_packages_at_position(primary, i);
    lemma_exclusive_at(primary, other, i);
    lemma_filter_keeps_all(primary[i].1, |p: PkgView| !index_contains(other, a, p.0));
}

/// An index compared with itself has no exclusive packages: one entry per
/// architecture, each with no package.
pub proof fn law_exclusive_of_self(x: Seq<ArchView>)
    requires
        index_wf(x),
    ensures
        exclusive_of(x, x).len() == x.len(),
        forall|i: int|
            0 <= i < x.len() ==> #[trigger] exclusive_of(x, x)[i] == (
                x[i].0,
                Seq::<PkgView>::empty(),
            ),
{
    assert forall|i: int| 0 <= i < x.len() implies #[trigger] exclusive_of(x, x)[i] == (
        x[i].0,
        Seq::<PkgView>::empty(),
    ) by {
        lemma_bucket_at(x, i);
        let f = |p: PkgView| !index_contains(x, x[i].0, p.0);
        assert forall|j: int| 0 <= j < x[i].1.len() implies !f(#[trigger] x[i].1[j]) by {}
        lemma_filter_keeps_none(x[i].1, f);
        assert(x[i].1.filter(f) =~= Seq::<PkgView>::empty());
    }
}

/// No package is newer than itself: an index compared with itself reports
/// no package for any architecture.
pub proof fn law_newer_of_self(x: Seq<ArchView>)
    requires
        index_wf(x),
    ensures
        forall|i: int|
            0 <= i < newer_of(x, x).len() ==> (#[trigger] newer_of(x, x)[i]).1.len() == 0,
{
    let g = |b: ArchView| newer_arch(x, b);
    assert forall|i: int| 0 <= i < newer_of(x, x).len() implies (#[trigger] newer_of(
        x,
        x,
    )[i]).1.len() == 0 by {
        let e = newer_of(x, x)[i];
        assert(x.filter_map(g).contains(e));
        x.lemma_filter_map_contains(g, e);
        let t = choose|t: ArchView| #[trigger] x.contains(t) && g(t) == Some(e);
        let k = choose|k: int| 0 <= k < x.len() && x[k] == t;
        lemma_bucket_at(x, k);
        let f = |p: PkgView| newer_entry(x, t.0, p);
        assert forall|j: int| 0 <= j < t.1.len() implies f(#[trigger] t.1[j]) is None by {}
        lemma_filter_map_none(t.1, f);
    }
}

/// A package that both branches have at an architecture is reported as
/// newer exactly when its target EVR compares greater than its secondary
/// EVR.
pub proof fn law_newer_iff_greater(
    target: Seq<ArchView>,
    secondary: Seq<ArchView>,
    a: Seq<char>,
    n: Seq<char>,
    v1: Seq<char>,
    v2: Seq<char>,
)
    requires
        index_wf(target),
        index_wf(secondary),
        lookup(target, a, n) == Some(v1),
        lookup(secondary, a, n) == Some(v2),
    ensures
        reported(newer_of(target, secondary), a, (n, v1, v2)) <==> evr_cmp(v1, v2)
            == Ordering::Greater,
{
    let r = newer_of(target, secondary);
    let g = |b: ArchView| newer_arch(secondary, b);
    let e = (n, v1, v2);
    if evr_cmp(v1, v2) == Ordering::Greater {
        let i = choose|i: int| 0 <= i < target.len() && target[i].0 == a;
        lemma_packages_at_position(target, i);
        let pkgs = target[i].1;
        let j = choose|j: int| 0 <= j < pkgs.len() && pkgs[j].0 == n;
        lemma_version_at_position(pkgs, j);
        let f = |p: PkgView| newer_entry(secondary, a, p);
        assert(f(pkgs[j]) == Some(e));
        lemma_filter_map_member(pkgs, f, j);
        assert(has_arch(secondary, a));
        assert(g(target[i]) == Some((a, newer_packages(secondary, a, pkgs))));
        lemma_filter_map_member(target, g, i);
        let k = choose|k: int| 0 <= k < r.len() && r[k] == g(target[i])->0;
        assert(r[k].0 == a && r[k].1.contains(e));
    }
    if reported(r, a, e) {
        let i = choose|i: int| 0 <= i < r.len() && r[i].0 == a && r[i].1.contains(e);
        assert(target.filter_map(g).contains(r[i]));
        target.lemma_filter_map_contains(g, r[i]);
        let t = choose|t: ArchView| #[trigger] target.contains(t) && g(t) == Some(r[i]);
        let f = |p: PkgView| newer_entry(secondary, a, p);
        assert(t.1.filter_map(f).contains(e));
        t.1.lemma_filter_map_contains(f, e);
    }
}

/// A package that only the target has at an architecture is never reported
/// as newer there, and is among the target's exclusive packages there.
pub proof fn law_target_only_package(
    target: Seq<ArchView>,
    secondary: Seq<ArchView>,
    a: Seq<char>,
    n: Seq<char>,
)
    requires
        index_wf(target),
        index_wf(secondary),
        lookup(target, a, n) is Some,
        lookup(secondary, a, n) is None,
    ensures
        forall|i: int, j: int|
            0 <= i < newer_of(target, secondary).len() && newer_of(target, secondary)[i].0 == a
                && 0 <= j < newer_of(target, secondary)[i].1.len() ==> (#[trigger] newer_of(
                target,
                secondary,
            )[i].1[j]).0 != n,
        packages_at(exclusive_of(target, secondary), a) matches Some(pkgs) && pkgs.contains(
            (n, lookup(target, a, n)->0),
        ),
{
    let r = newer_of(target, secondary);
    let g = |b: ArchView| newer_arch(secondary, b);
    assert forall|i: int, j: int|
        0 <= i < r.len() && r[i].0 == a && 0 <= j < r[i].1.len() implies (#[trigger] r[i].1[j]).0
        != n by {
        assert(target.filter_map(g).contains(r[i]));
        target.lemma_filter_map_contains(g, r[i]);
        let t = choose|t: ArchView| #[trigger] target.contains(t) && g(t) == Some(r[i]);
        let f = |p: PkgView| newer_entry(secondary, a, p);
        let e = r[i].1[j];
        assert(t.1.filter_map(f).contains(e));
        t.1.lemma_filter_map_contains(f, e);
    }
    let i = choose|i: int| 0 <= i < target.len() && target[i].0 == a;
    lemma_packages_at_position(target, i);
    lemma_exclusive_at(target, secondary, i);
    let pkgs = target[i].1;
    let j = choose|j: int| 0 <= j < pkgs.len() && pkgs[j].0 == n;
    lemma_version_at_position(pkgs, j);
    pkgs.lemma_filter_contains(|p: PkgView| !index_contains(secondary, a, p.0), j);
}

} // verus!
