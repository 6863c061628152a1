//! Reconciliation of the binary package lists of two distribution branches:
//! which packages one branch has and the other lacks, per architecture, and
//! which packages are newer in one branch by EVR order.
pub mod api_struct;
pub mod checks;
pub mod compare;
pub mod data;
pub mod evr;
pub mod packages_handler;
