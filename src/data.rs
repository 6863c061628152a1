//! What a comparison of two branches reports.
use crate::packages_handler::{entries_view, ArchView, Architecture, PkgEntry};
use vstd::prelude::*;

verus! {

/// The packages of one architecture that one branch has and the other lacks.
pub struct BranchExclusivePkgs {
    pub arch: Architecture,
    pub packages: Vec<PkgEntry>,
}

/// The packages of one architecture whose version is newer in the target
/// branch than in the secondary one.
pub struct NewerInTargetPkgs {
    pub arch: Architecture,
    pub packages: Vec<VersionedPkg>,
}

/// A package with its EVR in both branches.
pub struct VersionedPkg {
    pub name: String,
    /// `epoch:version-release` in the target branch
    pub target_rpm_version: String,
    /// `epoch:version-release` in the secondary branch
    pub secondary_rpm_version: String,
}

/// A package as name, target EVR and secondary EVR.
pub type VersionedView = (Seq<char>, Seq<char>, Seq<char>);

/// One architecture's newer packages: its name and the packages.
pub type NewerView = (Seq<char>, Seq<VersionedView>);

impl View for VersionedPkg {
    type V = VersionedView;

    open spec fn view(&self) -> VersionedView {
        (self.name@, self.target_rpm_version@, self.secondary_rpm_version@)
    }
}

impl View for BranchExclusivePkgs {
    type V = ArchView;

    open spec fn view(&self) -> ArchView {
        (self.arch@, entries_view(self.packages@))
    }
}

impl View for NewerInTargetPkgs {
    type V = NewerView;

    open spec fn view(&self) -> NewerView {
        (self.arch@, self.packages@.map_values(|p: VersionedPkg| p@))
    }
}

} // verus!
