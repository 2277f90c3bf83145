//! Commands that run before and after a snapshot is restored.

use vstd::prelude::*;
use vstd::string::*;
use crate::text::{blank, is_blank};

verus! {

/// How an attempt to run a hook ended.
#[derive(Clone, Copy, Debug, PartialEq, Eq, Structural)]
pub enum HookStatus {
    /// The command ran and reported success.
    Success,
    /// The command could not be started, could not be awaited, or ran and
    /// reported failure.
    Error,
    /// There was nothing to run.
    Nothing,
}

/// Which of the two hooks is meant.
#[derive(Clone, Copy, Debug, PartialEq, Eq, Structural)]
pub enum HookType {
    /// The hook that runs before the files are copied back.
    Pre,
    /// The hook that runs after the files have been copied back.
    Post,
}

/// What became of the shell that was asked to run a command.
#[derive(Clone, Copy, Debug, PartialEq, Eq, Structural)]
pub enum HookOutcome {
    /// The shell could not be started.
    SpawnFailed,
    /// The shell was started but its end could not be awaited.
    WaitFailed,
    /// The shell ended; `success` tells whether its exit code was zero.
    Exited { success: bool },
}

/// The pair of commands stored with a snapshot.
#[derive(Debug)]
pub struct Hooks {
    pub pre_load: Option<String>,
    pub post_load: Option<String>,
}

impl Hooks {
    /// The pair made of the two given commands.
    pub fn new(pre_hook: Option<String>, post_hook: Option<String>) -> (hooks: Hooks)
        ensures
            hooks.pre_load == pre_hook,
            hooks.post_load == post_hook,
    {
        Hooks { pre_load: pre_hook, post_load: post_hook }
    }

    /// The command stored for the given hook.
    pub open spec fn spec_command(&self, hook_type: HookType) -> Option<String> {
        match hook_type {
            HookType::Pre => self.pre_load,
            HookType::Post => self.post_load,
        }
    }

    /// The command stored for the given hook.
    pub fn command(&self, hook_type: HookType) -> (cmd: &Option<String>)
        ensures
            *cmd == self.spec_command(hook_type),
    {
        match hook_type {
            HookType::Pre => &self.pre_load,
            HookType::Post => &self.post_load,
        }
    }

    /// A copy of the pair.
    pub fn duplicate(&self) -> (copy: Hooks)
        ensures
            copy == *self,
    {
        let pre_load = match &self.pre_load {
            Some(c) => Some(c.clone()),
            None => None,
        };
        let post_load = match &self.post_load {
            Some(c) => Some(c.clone()),
            None => None,
        };
        Hooks { pre_load, post_load }
    }
}

/// The command of a snapshot's hook of the given type, as far as one is stored.
pub open spec fn stored_command(hooks: Option<Hooks>, hook_type: HookType) -> Option<String> {
    match hooks {
        Some(h) => h.spec_command(hook_type),
        None => None,
    }
}

/// The command that a shell is to run for the given hook: the stored
/// command, unless it holds nothing but white space.
pub open spec fn runnable_command(hooks: Option<Hooks>, hook_type: HookType) -> Option<String> {
    match stored_command(hooks, hook_type) {
        Some(cmd) => if is_blank(cmd@) {
            None
        } else {
            Some(cmd)
        },
        None => None,
    }
}

/// The status that an outcome of the shell stands for: success where the
/// shell ended with exit code zero, an error in every other case.
pub open spec fn outcome_status(outcome: HookOutcome) -> HookStatus {
    match outcome {
        HookOutcome::SpawnFailed => HookStatus::Error,
        HookOutcome::WaitFailed => HookStatus::Error,
        HookOutcome::Exited { success } => if success {
            HookStatus::Success
        } else {
            HookStatus::Error
        },
    }
}

/// The status of a hook: `Nothing` where there is no command to run, else
/// what the outcome of the shell stands for.
pub open spec fn hook_status(
    hooks: Option<Hooks>,
    hook_type: HookType,
    outcome: HookOutcome,
) -> HookStatus {
    if runnable_command(hooks, hook_type).is_some() {
        outcome_status(outcome)
    } else {
        HookStatus::Nothing
    }
}

/// Whether a command is stored for the given hook, blank or not.
pub fn hook_stored(hooks: &Option<Hooks>, hook_type: HookType) -> (b: bool)
    ensures
        b == stored_command(*hooks, hook_type).is_some(),
{
    match hooks {
        Some(h) => h.command(hook_type).is_some(),
        None => false,
    }
}

/// The command that a shell is to run for the given hook, if there is one.
pub fn command_to_run(hooks: &Option<Hooks>, hook_type: HookType) -> (cmd: Option<&String>)
    ensures
        cmd.is_some() == runnable_command(*hooks, hook_type).is_some(),
        cmd matches Some(c) ==> Some(*c) == runnable_command(*hooks, hook_type),
{
    match hooks {
        Some(h) => match h.command(hook_type) {
            Some(c) => if blank(c.as_str()) {
                None
            } else {
                Some(c)
            },
            None => None,
        },
        None => None,
    }
}

/// Classifies what became of the shell that ran a hook's command.
pub fn classify_outcome(outcome: HookOutcome) -> (status: HookStatus)
    ensures
        status == outcome_status(outcome),
{
    match outcome {
        HookOutcome::SpawnFailed => HookStatus::Error,
        HookOutcome::WaitFailed => HookStatus::Error,
        HookOutcome::Exited { success } => if success {
            HookStatus::Success
        } else {
            HookStatus::Error
        },
    }
}

/// A hook with a command to run never has the status `Nothing`: its status
/// is `Success` exactly where the shell ended with exit code zero, and
/// `Error` for every other outcome.
pub proof fn lemma_run_hook_is_decided(
    hooks: Option<Hooks>,
    hook_type: HookType,
    outcome: HookOutcome,
)
    requires
        runnable_command(hooks, hook_type).is_some(),
    ensures
        hook_status(hooks, hook_type, outcome) != HookStatus::Nothing,
        hook_status(hooks, hook_type, outcome) == HookStatus::Success <==> outcome
            == (HookOutcome::Exited { success: true }),
        hook_status(hooks, hook_type, outcome) == HookStatus::Error <==> outcome
            != (HookOutcome::Exited { success: true }),
{
}

/// A hook whose command is empty, or holds nothing but white space, has
/// the status `Nothing`, however the shell ended; and so has a hook for
/// which no command is stored.
pub proof fn lemma_blank_hook_is_nothing(
    hooks: Option<Hooks>,
    hook_type: HookType,
    outcome: HookOutcome,
)
    requires
        match stored_command(hooks, hook_type) {
            Some(cmd) => cmd@.len() == 0 || is_blank(cmd@),
            None => true,
        },
    ensures
        hook_status(hooks, hook_type, outcome) == HookStatus::Nothing,
{
}

} // verus!
