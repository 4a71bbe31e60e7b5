use vstd::prelude::*;

verus! {

/// Where and when the running program was built.
#[derive(Clone, Debug, PartialEq, Eq)]
pub struct BuildInfo {
    pub timestamp: String,
    pub version: String,
    pub commit_hash: String,
    pub branch_name: String,
}

} // verus!
