//! Records as the package database service sends them.
use crate::packages_handler::Architecture;
use vstd::prelude::*;

verus! {

/// One binary package of a branch, as listed by the service.
pub struct PkgRaw {
    pub arch: Architecture,
    pub name: String,
    pub epoch: i32,
    pub version: String,
    pub release: String,
}

/// The architectures that a branch supports, as listed by the service.
pub struct BranchArchs {
    pub archs: Vec<ArchData>,
}

/// One architecture of a branch, as listed by the service.
pub struct ArchData {
    pub arch: Architecture,
}

impl BranchArchs {
    /// The architectures listed, in order.
    pub fn architectures(&self) -> (r: Vec<Architecture>)
        ensures
            r@.len() == self.archs@.len(),
            forall|i: int| 0 <= i < r@.len() ==> #[trigger] r@[i]@ == self.archs@[i].arch@,
    {
        let mut r: Vec<Architecture> = Vec::new();
        let mut i: usize = 0;
        while i < self.archs.len()
            invariant
                i <= self.archs@.len(),
                r@.len() == i,
                forall|k: int| 0 <= k < i ==> #[trigger] r@[k]@ == self.archs@[k].arch@,
            decreases self.archs@.len() - i,
        {
            r.push(self.archs[i].arch.duplicate());
            i = i + 1;
        }
        r
    }
}

} // verus!
