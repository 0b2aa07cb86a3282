//! Verified core of a viewer for the patches that `zypper` reports.

pub mod browser;
pub mod order;
pub mod patch;
pub mod text;
pub mod zypper;

pub use patch::{
    Patch, PatchIssue, PatchIssueDate, PatchIssueList, PatchList, PatchMessage, PatchUpdateList,
    PatchUpdateStatus, RepoSource,
};
pub mod laws;
