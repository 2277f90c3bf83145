//! The registry of snapshots: which names exist, and where each one lies.

use vstd::prelude::*;
use vstd::string::*;
use crate::strmap::StrMap;

verus! {

/// The registry: a map from the name of a snapshot to its directory. A
/// directory that no name of the registry leads to belongs to no snapshot.
#[derive(Debug)]
pub struct SnapLog {
    pub snaps: StrMap,
}

impl View for SnapLog {
    type V = Map<Seq<char>, Seq<char>>;

    /// The registry as a map from names to directories.
    open spec fn view(&self) -> Map<Seq<char>, Seq<char>> {
        self.snaps@
    }
}

impl SnapLog {
    /// The invariant of the type: no name is registered twice.
    pub open spec fn wf(&self) -> bool {
        self.snaps.wf()
    }

    /// A registry without snapshots.
    pub fn new() -> (log: SnapLog)
        ensures
            log.wf(),
            log@ == Map::<Seq<char>, Seq<char>>::empty(),
    {
        SnapLog { snaps: StrMap::new() }
    }

    /// Whether a snapshot of this name is registered.
    pub fn exist(&self, snap_name: &str) -> (b: bool)
        ensures
            b == self@.contains_key(snap_name@),
    {
        self.snaps.contains_key(snap_name)
    }
}

} // verus!
