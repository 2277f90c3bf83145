//! What is recorded with each snapshot: when it was taken, how large it is,
//! where each stored file came from, and the hooks it was taken with.

use vstd::prelude::*;
use vstd::string::*;
use crate::hooks::{
    classify_outcome, command_to_run, hook_status, hook_stored, runnable_command, stored_command,
    HookOutcome, HookStatus, HookType, Hooks,
};
use crate::strmap::StrMap;

verus! {

/// The record of one snapshot.
///
/// `items` maps the path each file was taken from to the path of its stored
/// copy. Nothing else remembers where a stored file came from.
#[derive(Debug)]
pub struct SnapMetaData {
    /// The local time at which the snapshot was taken, with its offset.
    pub timestamp: String,
    /// The number of bytes copied into the snapshot.
    pub size: u64,
    pub items: StrMap,
    pub hooks: Option<Hooks>,
}

impl SnapMetaData {
    /// The invariant of the type: no source path is recorded twice.
    pub open spec fn wf(&self) -> bool {
        self.items.wf()
    }

    /// The record of a snapshot taken at the time `timestamp`, which the
    /// caller reads from the clock.
    pub fn new(items: StrMap, hooks: Option<Hooks>, size: u64, timestamp: String) -> (meta:
        SnapMetaData)
        ensures
            meta.timestamp == timestamp,
            meta.size == size,
            meta.items == items,
            meta.hooks == hooks,
    {
        SnapMetaData { timestamp, size, items, hooks }
    }

    /// Whether a command is stored for the given hook, blank or not.
    pub fn hook_exist(&self, hook_type: HookType) -> (b: bool)
        ensures
            b == stored_command(self.hooks, hook_type).is_some(),
    {
        hook_stored(&self.hooks, hook_type)
    }

    /// The command that a shell is to run for the given hook: the stored
    /// command, unless there is none or it holds nothing but white space.
    pub fn hook_command(&self, hook_type: HookType) -> (cmd: Option<&String>)
        ensures
            cmd.is_some() == runnable_command(self.hooks, hook_type).is_some(),
            cmd matches Some(c) ==> Some(*c) == runnable_command(self.hooks, hook_type),
    {
        command_to_run(&self.hooks, hook_type)
    }

    /// The status of the given hook, once the shell that was to run its
    /// command has ended with `outcome`. Where there is no command to run the
    /// status is `Nothing`, whatever the outcome says.
    pub fn run_hook(&self, hook_type: HookType, outcome: HookOutcome) -> (status: HookStatus)
        ensures
            status == hook_status(self.hooks, hook_type, outcome),
    {
        match self.hook_command(hook_type) {
            Some(_) => classify_outcome(outcome),
            None => HookStatus::Nothing,
        }
    }

    /// The size shown in a listing: the number of bytes divided by 100,
    /// rounded down.
    pub fn listed_size(&self) -> (shown: u64)
        ensures
            shown == self.size / 100,
    {
        self.size / 100
    }
}

} // verus!
