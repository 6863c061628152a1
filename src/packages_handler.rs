//! The package index of one branch: for each architecture, the packages
//! built for it, each name at most once.
use crate::api_struct::PkgRaw;
use crate::evr::{compose_evr, evr_text};
use vstd::prelude::*;

verus! {

/// An architecture name, such as `x86_64` or `noarch`. Two architectures are
/// the same when their names are the same text.
#[derive(Debug, Clone, PartialEq, Eq, Hash)]
pub struct Architecture(pub String);

impl View for Architecture {
    type V = Seq<char>;

    open spec fn view(&self) -> Seq<char> {
        self.0@
    }
}

impl Architecture {
    /// A copy of this architecture.
    pub fn duplicate(&self) -> (r: Architecture)
        ensures
            r@ == self@,
    {
        Architecture(self.0.clone())
    }

    /// Whether two architectures have the same name.
    pub fn same_as(&self, other: &Architecture) -> (r: bool)
        ensures
            r == (self@ == other@),
    {
        self.0 == other.0
    }
}

/// A package of an index: its name and its EVR string.
#[derive(Debug, Clone)]
pub struct PkgEntry {
    pub name: String,
    /// `epoch:version-release`
    pub rpm_version: String,
}

/// A package as a pair of name and EVR.
pub type PkgView = (Seq<char>, Seq<char>);

/// The packages of one architecture: its name and its packages in the order
/// in which they were added.
pub type ArchView = (Seq<char>, Seq<PkgView>);

/// A raw record: architecture, name and EVR.
pub type RawView = (Seq<char>, Seq<char>, Seq<char>);

impl View for PkgEntry {
    type V = PkgView;

    open spec fn view(&self) -> PkgView {
        (self.name@, self.rpm_version@)
    }
}

/// Two entries are the same package when they have the same name.
impl PartialEq for PkgEntry {
    fn eq(&self, other: &PkgEntry) -> (r: bool) {
        self.name == other.name
    }
}

impl vstd::std_specs::cmp::PartialEqSpecImpl for PkgEntry {
    open spec fn obeys_eq_spec() -> bool {
        true
    }

    open spec fn eq_spec(&self, other: &PkgEntry) -> bool {
        self.name@ == other.name@
    }
}

impl PkgEntry {
    /// A copy of this entry.
    pub fn duplicate(&self) -> (r: PkgEntry)
        ensures
            r@ == self@,
    {
        PkgEntry { name: self.name.clone(), rpm_version: self.rpm_version.clone() }
    }
}

/// Entries as pairs of name and EVR.
pub open spec fn entries_view(s: Seq<PkgEntry>) -> Seq<PkgView> {
    s.map_values(|e: PkgEntry| e@)
}

/// Stored architectures as name and packages.
pub open spec fn buckets_view(s: Seq<(Architecture, Vec<PkgEntry>)>) -> Seq<ArchView> {
    s.map_values(|b: (Architecture, Vec<PkgEntry>)| (b.0@, entries_view(b.1@)))
}

/// Whether the index has packages for architecture `a`.
pub open spec fn has_arch(idx: Seq<ArchView>, a: Seq<char>) -> bool {
    exists|i: int| 0 <= i < idx.len() && idx[i].0 == a
}

/// The packages of architecture `a`, if the index has any.
pub open spec fn packages_at(idx: Seq<ArchView>, a: Seq<char>) -> Option<Seq<PkgView>> {
    if has_arch(idx, a) {
        Some(idx[choose|i: int| 0 <= i < idx.len() && idx[i].0 == a].1)
    } else {
        None
    }
}

/// The EVR of the package named `n` among `pkgs`, if there is one.
pub open spec fn version_in(pkgs: Seq<PkgView>, n: Seq<char>) -> Option<Seq<char>> {
    if exists|j: int| 0 <= j < pkgs.len() && pkgs[j].0 == n {
        Some(pkgs[choose|j: int| 0 <= j < pkgs.len() && pkgs[j].0 == n].1)
    } else {
        None
    }
}

/// The EVR of package `n` at architecture `a`, if the index has it.
pub open spec fn lookup(idx: Seq<ArchView>, a: Seq<char>, n: Seq<char>) -> Option<Seq<char>> {
    match packages_at(idx, a) {
        Some(pkgs) => version_in(pkgs, n),
        None => None,
    }
}

/// Whether the index has package `n` at architecture `a`.
pub open spec fn index_contains(idx: Seq<ArchView>, a: Seq<char>, n: Seq<char>) -> bool {
    lookup(idx, a, n) is Some
}

/// No name appears twice among `pkgs`.
pub open spec fn names_unique(pkgs: Seq<PkgView>) -> bool {
    forall|j: int, k: int| 0 <= j < k < pkgs.len() ==> pkgs[j].0 != pkgs[k].0
}

/// Each architecture appears once and has at least one package; within an
/// architecture each name appears once.
pub open spec fn index_wf(idx: Seq<ArchView>) -> bool {
    &&& forall|i: int, k: int| 0 <= i < k < idx.len() ==> idx[i].0 != idx[k].0
    &&& forall|i: int|
        0 <= i < idx.len() ==> idx[i].1.len() > 0 && names_unique(#[trigger] idx[i].1)
}

/// The index after one more record: a new name is appended to its
/// architecture (which is appended to the index if it is new); a name that
/// the architecture already has leaves the index as it is.
pub open spec fn add_record(idx: Seq<ArchView>, rec: RawView) -> Seq<ArchView> {
    if has_arch(idx, rec.0) {
        let i = choose|i: int| 0 <= i < idx.len() && idx[i].0 == rec.0;
        if version_in(idx[i].1, rec.1) is Some {
            idx
        } else {
            idx.update(i, (rec.0, idx[i].1.push((rec.1, rec.2))))
        }
    } else {
        idx.push((rec.0, seq![(rec.1, rec.2)]))
    }
}

/// The index of a list of records, added in order.
pub open spec fn index_of_records(recs: Seq<RawView>) -> Seq<ArchView>
    decreases recs.len(),
{
    if recs.len() == 0 {
        Seq::empty()
    } else {
        add_record(index_of_records(recs.drop_last()), recs.last())
    }
}

/// A raw package as architecture, name and composed EVR.
pub open spec fn raw_view(p: PkgRaw) -> RawView {
    (p.arch@, p.name@, evr_text(p.epoch as int, p.version@, p.release@))
}

/// Raw packages as architecture, name and composed EVR.
pub open spec fn raws_view(s: Seq<PkgRaw>) -> Seq<RawView> {
    s.map_values(|p: PkgRaw| raw_view(p))
}

/// In a well-formed index, the packages of the architecture at position `i`
/// are those stored there, and each of them is found under its name.
pub proof fn lemma_bucket_at(idx: Seq<ArchView>, i: int)
    requires
        index_wf(idx),
        0 <= i < idx.len(),
    ensures
        packages_at(idx, idx[i].0) == Some(idx[i].1),
        forall|j: int|
            0 <= j < idx[i].1.len() ==> lookup(idx, idx[i].0, #[trigger] idx[i].1[j].0) == Some(
                idx[i].1[j].1,
            ),
{
    lemma_packages_at_position(idx, i);
    let pkgs = idx[i].1;
    assert forall|j: int| 0 <= j < pkgs.len() implies lookup(idx, idx[i].0, #[trigger] pkgs[j].0)
        == Some(pkgs[j].1) by {
        lemma_version_at_position(pkgs, j);
    }
}

/// The packages of one branch, grouped by architecture.
#[derive(Debug)]
pub struct BranchPkgsHandler {
    arch_packages: Vec<(Architecture, Vec<PkgEntry>)>,
}

impl View for BranchPkgsHandler {
    type V = Seq<ArchView>;

    closed spec fn view(&self) -> Seq<ArchView> {
        buckets_view(self.arch_packages@)
    }
}

fn arch_position(buckets: &Vec<(Architecture, Vec<PkgEntry>)>, arch: &Architecture) -> (r: Option<
    usize,
>)
    ensures
        match r {
            Some(i) => i < buckets@.len() && buckets@[i as int].0@ == arch@,
            None => forall|i: int| 0 <= i < buckets@.len() ==> buckets@[i].0@ != arch@,
        },
{
    let mut i: usize = 0;
    while i < buckets.len()
        invariant
            i <= buckets@.len(),
            forall|k: int| 0 <= k < i ==> buckets@[k].0@ != arch@,
        decreases buckets@.len() - i,
    {
        if buckets[i].0.0 == arch.0 {
            return Some(i);
        }
        i = i + 1;
    }
    None
}

fn name_position(pkgs: &Vec<PkgEntry>, name: &String) -> (r: Option<usize>)
    ensures
        match r {
            Some(j) => j < pkgs@.len() && pkgs@[j as int].name@ == name@,
            None => forall|j: int| 0 <= j < pkgs@.len() ==> pkgs@[j].name@ != name@,
        },
{
    let mut j: usize = 0;
    while j < pkgs.len()
        invariant
            j <= pkgs@.len(),
            forall|k: int| 0 <= k < j ==> pkgs@[k].name@ != name@,
        decreases pkgs@.len() - j,
    {
        if pkgs[j].name == *name {
            return Some(j);
        }
        j = j + 1;
    }
    None
}

impl BranchPkgsHandler {
    /// The invariant of an index.
    pub open spec fn wf(&self) -> bool {
        index_wf(self@)
    }

    /// Builds the index of a list of raw packages. Each record's EVR is
    /// composed as `epoch:version-release`; of several records with the same
    /// architecture and name, the first is kept.
    pub fn from_raw(packages: Vec<PkgRaw>) -> (r: BranchPkgsHandler)
        ensures
            r.wf(),
            r@ == index_of_records(raws_view(packages@)),
    {
        let mut arch_packages: Vec<(Architecture, Vec<PkgEntry>)> = Vec::new();
        let ghost raws = raws_view(packages@);
        let mut k: usize = 0;
        proof {
            assert(raws.take(0) =~= Seq::<RawView>::empty());
            assert(buckets_view(arch_packages@) =~= Seq::<ArchView>::empty());
        }
        while k < packages.len()
            invariant
                k <= packages@.len(),
                raws == raws_view(packages@),
                index_wf(buckets_view(arch_packages@)),
                buckets_view(arch_packages@) == index_of_records(raws.take(k as int)),
            decreases packages@.len() - k,
        {
            let pkg = &packages[k];
            let ghost idx = buckets_view(arch_packages@);
            let ghost rec = raw_view(*pkg);
            proof {
                assert(raws.take(k + 1).drop_last() =~= raws.take(k as int));
                assert(raws.take(k + 1).last() == rec);
            }
            let entry = PkgEntry {
                name: pkg.name.clone(),
                rpm_version: compose_evr(pkg.epoch, pkg.version.as_str(), pkg.release.as_str()),
            };
            match arch_position(&arch_packages, &pkg.arch) {
                Some(i) => {
                    proof {
                        assert(idx[i as int].0 == rec.0);
                        let c = choose|c: int| 0 <= c < idx.len() && idx[c].0 == rec.0;
                        assert(c == i);
                    }
                    match name_position(&arch_packages[i].1, &pkg.name) {
                        Some(j) => {
                            proof {
                                assert(idx[i as int].1[j as int].0 == rec.1);
                            }
                        },
                        None => {
                            let ghost old_pkgs = arch_packages@[i as int].1@;
                            proof {
                                assert(!(exists|j: int|
                                    0 <= j < idx[i as int].1.len() && idx[i as int].1[j].0
                                        == rec.1));
                            }
                            arch_packages[i].1.push(entry);
                            proof {
                                assert(entries_view(arch_packages@[i as int].1@) =~= entries_view(
                                    old_pkgs,
                                ).push((rec.1, rec.2)));
                                assert(buckets_view(arch_packages@) =~= idx.update(
                                    i as int,
                                    (rec.0, idx[i as int].1.push((rec.1, rec.2))),
                                ));
                            }
                        },
                    }
                },
                None => {
                    let arch = pkg.arch.duplicate();
                    let mut pkgs: Vec<PkgEntry> = Vec::new();
                    pkgs.push(entry);
                    proof {
                        assert(entries_view(pkgs@) =~= seq![(rec.1, rec.2)]);
                    }
                    arch_packages.push((arch, pkgs));
                    proof {
                        assert(!has_arch(idx, rec.0));
                        assert(buckets_view(arch_packages@) =~= idx.push(
                            (rec.0, seq![(rec.1, rec.2)]),
                        ));
                    }
                },
            }
            k = k + 1;
        }
        proof {
            assert(raws.take(packages@.len() as int) =~= raws);
        }
        BranchPkgsHandler { arch_packages }
    }

    /// The architectures that have packages, in the order of their first
    /// record.
    pub fn architectures(&self) -> (r: Vec<Architecture>)
        ensures
            r@.len() == self@.len(),
            r@.map_values(|a: Architecture| a@) == self@.map_values(|b: ArchView| b.0),
    {
        let mut r: Vec<Architecture> = Vec::new();
        let mut i: usize = 0;
        while i < self.arch_packages.len()
            invariant
                i <= self.arch_packages@.len(),
                r@.len() == i,
                forall|k: int| 0 <= k < i ==> r@[k]@ == #[trigger] self@[k].0,
            decreases self.arch_packages@.len() - i,
        {
            r.push(self.arch_packages[i].0.duplicate());
            i = i + 1;
        }
        proof {
            assert(r@.map_values(|a: Architecture| a@) =~= self@.map_values(|b: ArchView| b.0));
        }
        r
    }

    /// The packages of an architecture, or `None` if it has none.
    pub fn packages_iter(&self, arch: &Architecture) -> (r: Option<&Vec<PkgEntry>>)
        requires
            self.wf(),
        ensures
            match r {
                Some(pkgs) => packages_at(self@, arch@) == Some(entries_view(pkgs@)),
                None => packages_at(self@, arch@) is None,
            },
    {
        match arch_position(&self.arch_packages, arch) {
            Some(i) => {
                proof {
                    let c = choose|c: int| 0 <= c < self@.len() && self@[c].0 == arch@;
                    assert(self@[i as int].0 == arch@);
                    assert(c == i);
                }
                Some(&self.arch_packages[i].1)
            },
            None => {
                proof {
                    assert(forall|c: int| 0 <= c < self@.len() ==> self@[c].0 != arch@);
                }
                None
            },
        }
    }

    fn find_package(&self, arch: &Architecture, pkg_name: &str) -> (r: Option<(usize, usize)>)
        requires
            self.wf(),
        ensures
            match r {
                Some((i, j)) => {
                    &&& i < self@.len()
                    &&& self@[i as int].0 == arch@
                    &&& j < self@[i as int].1.len()
                    &&& self@[i as int].1[j as int].0 == pkg_name@
                    &&& lookup(self@, arch@, pkg_name@) == Some(self@[i as int].1[j as int].1)
                },
                None => lookup(self@, arch@, pkg_name@) is None,
            },
    {
        let name = pkg_name.to_owned();
        match arch_position(&self.arch_packages, arch) {
            Some(i) => {
                let ghost pkgs = self@[i as int].1;
                proof {
                    let c = choose|c: int| 0 <= c < self@.len() && self@[c].0 == arch@;
                    assert(self@[i as int].0 == arch@);
                    assert(c == i);
                    assert(packages_at(self@, arch@) == Some(pkgs));
                }
                match name_position(&self.arch_packages[i].1, &name) {
                    Some(j) => {
                        proof {
                            assert(pkgs[j as int].0 == pkg_name@);
                            let d = choose|d: int| 0 <= d < pkgs.len() && pkgs[d].0 == pkg_name@;
                            assert(names_unique(pkgs));
                            assert(d == j);
                        }
                        Some((i, j))
                    },
                    None => {
                        proof {
                            assert(forall|d: int| 0 <= d < pkgs.len() ==> pkgs[d].0 != pkg_name@);
                        }
                        None
                    },
                }
            },
            None => {
                proof {
                    assert(forall|c: int| 0 <= c < self@.len() ==> self@[c].0 != arch@);
                }
                None
            },
        }
    }

    /// Whether package `pkg_name` is present for architecture `arch`.
    pub fn contains(&self, arch: &Architecture, pkg_name: &str) -> (r: bool)
        requires
            self.wf(),
        ensures
            r == index_contains(self@, arch@, pkg_name@),
    {
        self.find_package(arch, pkg_name).is_some()
    }

    /// The package `pkg_name` of architecture `arch`, if present.
    pub fn get_package(&self, arch: &Architecture, pkg_name: &str) -> (r: Option<&PkgEntry>)
        requires
            self.wf(),
        ensures
            match r {
                Some(e) => e@.0 == pkg_name@ && lookup(self@, arch@, pkg_name@) == Some(e@.1),
                None => lookup(self@, arch@, pkg_name@) is None,
            },
    {
        match self.find_package(arch, pkg_name) {
            Some((i, j)) => Some(&self.arch_packages[i].1[j]),
            None => None,
        }
    }
}


/// The architectures of `idx` are pairwise distinct.
pub open spec fn archs_unique(idx: Seq<ArchView>) -> bool {
    forall|i: int, k: int| 0 <= i < k < idx.len() ==> idx[i].0 != idx[k].0
}

/// With distinct architectures, the packages of the architecture at
/// position `i` are those stored there.
pub proof fn lemma_packages_at_position(idx: Seq<ArchView>, i: int)
    requires
        archs_unique(idx),
        0 <= i < idx.len(),
    ensures
        packages_at(idx, idx[i].0) == Some(idx[i].1),
{
    let c = choose|c: int| 0 <= c < idx.len() && idx[c].0 == idx[i].0;
    assert(c == i);
}

/// With distinct names, the EVR found under the name at position `j` is the
/// one stored there.
pub proof fn lemma_version_at_position(pkgs: Seq<PkgView>, j: int)
    requires
        names_unique(pkgs),
        0 <= j < pkgs.len(),
    ensures
        version_in(pkgs, pkgs[j].0) == Some(pkgs[j].1),
{
    let d = choose|d: int| 0 <= d < pkgs.len() && pkgs[d].0 == pkgs[j].0;
    assert(d == j);
}

proof fn lemma_version_in_push(pkgs: Seq<PkgView>, p: PkgView, n: Seq<char>)
    requires
        names_unique(pkgs),
        version_in(pkgs, p.0) is None,
    ensures
        names_unique(pkgs.push(p)),
        version_in(pkgs.push(p), n) == (if n == p.0 {
            Some(p.1)
        } else {
            version_in(pkgs, n)
        }),
{
    let q = pkgs.push(p);
    assert(forall|j: int| 0 <= j < pkgs.len() ==> pkgs[j].0 != p.0);
    assert(names_unique(q));
    if n == p.0 {
        lemma_version_at_position(q, pkgs.len() as int);
    } else if exists|j: int| 0 <= j < pkgs.len() && pkgs[j].0 == n {
        let j = choose|j: int| 0 <= j < pkgs.len() && pkgs[j].0 == n;
        lemma_version_at_position(pkgs, j);
        lemma_version_at_position(q, j);
    } else {
        assert(forall|j: int| 0 <= j < q.len() ==> q[j].0 != n);
    }
}

/// Adding a record keeps the index well formed, and changes what it holds
/// only for the record's architecture and name, and only when that name is
/// new there.
pub proof fn lemma_add_record(idx: Seq<ArchView>, rec: RawView, a: Seq<char>, n: Seq<char>)
    requires
        index_wf(idx),
    ensures
        index_wf(add_record(idx, rec)),
        lookup(add_record(idx, rec), a, n) == (if a == rec.0 && n == rec.1 && lookup(idx, a, n)
            is None {
            Some(rec.2)
        } else {
            lookup(idx, a, n)
        }),
{
    let next = add_record(idx, rec);
    if has_arch(idx, rec.0) {
        let i = choose|i: int| 0 <= i < idx.len() && idx[i].0 == rec.0;
        lemma_packages_at_position(idx, i);
        if version_in(idx[i].1, rec.1) is None {
            let pkgs = idx[i].1.push((rec.1, rec.2));
            lemma_version_in_push(idx[i].1, (rec.1, rec.2), n);
            assert(next == idx.update(i, (rec.0, pkgs)));
            assert(forall|c: int| 0 <= c < idx.len() ==> next[c].0 == idx[c].0);
            assert forall|c: int| 0 <= c < next.len() implies next[c].1.len() > 0 && names_unique(
                #[trigger] next[c].1,
            ) by {
                if c != i {
                    assert(next[c] == idx[c]);
                }
            }
            assert(index_wf(next));
            if has_arch(idx, a) {
                let c = choose|c: int| 0 <= c < idx.len() && idx[c].0 == a;
                lemma_packages_at_position(idx, c);
                lemma_packages_at_position(next, c);
            } else {
                assert(forall|c: int| 0 <= c < next.len() ==> next[c].0 != a);
            }
        }
    } else {
        let pkgs = seq![(rec.1, rec.2)];
        assert(next == idx.push((rec.0, pkgs)));
        assert(names_unique(pkgs));
        assert forall|c: int| 0 <= c < next.len() implies next[c].1.len() > 0 && names_unique(
            #[trigger] next[c].1,
        ) by {
            if c < idx.len() {
                assert(next[c] == idx[c]);
            }
        }
        assert(index_wf(next));
        if a == rec.0 {
            lemma_packages_at_position(next, idx.len() as int);
            if n == rec.1 {
                lemma_version_at_position(pkgs, 0);
            } else {
                assert(forall|j: int| 0 <= j < pkgs.len() ==> pkgs[j].0 != n);
            }
        } else if has_arch(idx, a) {
            let c = choose|c: int| 0 <= c < idx.len() && idx[c].0 == a;
            lemma_packages_at_position(idx, c);
            lemma_packages_at_position(next, c);
        } else {
            assert(forall|c: int| 0 <= c < next.len() ==> next[c].0 != a);
        }
    }
}

/// The index of any list of records is well formed.
pub proof fn lemma_index_of_records_wf(recs: Seq<RawView>)
    ensures
        index_wf(index_of_records(recs)),
    decreases recs.len(),
{
    if recs.len() > 0 {
        lemma_index_of_records_wf(recs.drop_last());
        let last = recs.last();
        lemma_add_record(index_of_records(recs.drop_last()), last, last.0, last.1);
    }
}

/// The index of a list of records holds, for an architecture and a name, the
/// EVR of the first record with that architecture and name: later records
/// with the same architecture and name are dropped.
pub proof fn law_first_record_kept(recs: Seq<RawView>, k: int)
    requires
        0 <= k < recs.len(),
        forall|m: int| 0 <= m < k ==> !(recs[m].0 == recs[k].0 && recs[m].1 == recs[k].1),
    ensures
        lookup(index_of_records(recs), recs[k].0, recs[k].1) == Some(recs[k].2),
    decreases recs.len(),
{
    let rest = recs.drop_last();
    lemma_index_of_records_wf(rest);
    lemma_add_record(index_of_records(rest), recs.last(), recs[k].0, recs[k].1);
    if k < recs.len() - 1 {
        law_first_record_kept(rest, k);
    } else {
        law_record_absent(rest, recs[k].0, recs[k].1);
    }
}

/// An architecture and name that no record has are not in the index of the
/// records.
pub proof fn law_record_absent(recs: Seq<RawView>, a: Seq<char>, n: Seq<char>)
    requires
        forall|m: int| 0 <= m < recs.len() ==> !(recs[m].0 == a && recs[m].1 == n),
    ensures
        lookup(index_of_records(recs), a, n) is None,
    decreases recs.len(),
{
    if recs.len() > 0 {
        let rest = recs.drop_last();
        lemma_index_of_records_wf(rest);
        lemma_add_record(index_of_records(rest), recs.last(), a, n);
        law_record_absent(rest, a, n);
    }
}

} // verus!
