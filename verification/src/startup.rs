//! The order of the steps with which the program starts, and how it ends.

use vstd::prelude::*;

verus! {

/// What the program is doing on its way to running the action that it was called
/// for, or how that way has ended.
#[derive(Debug, Clone, Copy, PartialEq, Eq, Structural)]
pub enum Startup {
    /// The place of the configuration file is being found.
    LocatingConfig,
    /// The configuration file is being read.
    LoadingConfig,
    /// The place where an earlier version kept its configuration is being looked
    /// at.
    LocatingOldConfig,
    /// The operator is being told where to read about the new syntax.
    ShowingTransitionLink,
    /// The default configuration is being written to the configuration file; it is
    /// the configuration from now on.
    SavingDefaultConfig,
    /// The directory of the group files is being found.
    LocatingGroupDir,
    /// The group files are being read.
    LoadingGroups,
    /// The action is being run.
    RunningAction,
    /// The action has been run with success.
    Finished,
    /// The program has failed while it was at `0`.
    Failed(Context),
}

/// What the program was about when it failed.
#[derive(Debug, Clone, Copy, PartialEq, Eq, Structural)]
pub enum Context {
    GettingConfigFile,
    LoadingConfig,
    ResolvingGroupDir,
    LoadingGroups,
    RunningAction,
}

/// How a step of the start has gone. `Missing` says that what was looked for is not
/// there, which only the look at the old configuration tells apart from `Done`.
#[derive(Debug, Clone, Copy, PartialEq, Eq, Structural)]
pub enum Outcome {
    Done,
    Missing,
    Failed,
}

/// The step that follows on `state` once its `outcome` is known.
///
/// A configuration file that cannot be read is no failure: the default
/// configuration is written in its place and used. Before that the operator is
/// shown the transition link if an earlier version has left its configuration
/// behind.
pub open spec fn next_step(state: Startup, outcome: Outcome) -> Startup {
    match state {
        Startup::LocatingConfig => if outcome == Outcome::Failed {
            Startup::Failed(Context::GettingConfigFile)
        } else {
            Startup::LoadingConfig
        },
        Startup::LoadingConfig => if outcome == Outcome::Failed {
            Startup::LocatingOldConfig
        } else {
            Startup::LocatingGroupDir
        },
        Startup::LocatingOldConfig => match outcome {
            Outcome::Done => Startup::ShowingTransitionLink,
            Outcome::Missing => Startup::SavingDefaultConfig,
            Outcome::Failed => Startup::Failed(Context::LoadingConfig),
        },
        Startup::ShowingTransitionLink => Startup::SavingDefaultConfig,
        Startup::SavingDefaultConfig => if outcome == Outcome::Failed {
            Startup::Failed(Context::LoadingConfig)
        } else {
            Startup::LocatingGroupDir
        },
        Startup::LocatingGroupDir => if outcome == Outcome::Failed {
            Startup::Failed(Context::ResolvingGroupDir)
        } else {
            Startup::LoadingGroups
        },
        Startup::LoadingGroups => if outcome == Outcome::Failed {
            Startup::Failed(Context::LoadingGroups)
        } else {
            Startup::RunningAction
        },
        Startup::RunningAction => if outcome == Outcome::Failed {
            Startup::Failed(Context::RunningAction)
        } else {
            Startup::Finished
        },
        Startup::Finished => Startup::Finished,
        Startup::Failed(context) => Startup::Failed(context),
    }
}

/// The step that follows on `state` once its `outcome` is known. The program
/// starts at `Startup::LocatingConfig` and is over at `Finished` or `Failed`.
pub fn main_inner(state: Startup, outcome: Outcome) -> (next: Startup)
    ensures
        next == next_step(state, outcome),
{
    let failed = match outcome {
        Outcome::Failed => true,
        _ => false,
    };
    match state {
        Startup::LocatingConfig => if failed {
            Startup::Failed(Context::GettingConfigFile)
        } else {
            Startup::LoadingConfig
        },
        Startup::LoadingConfig => if failed {
            Startup::LocatingOldConfig
        } else {
            Startup::LocatingGroupDir
        },
        Startup::LocatingOldConfig => match outcome {
            Outcome::Done => Startup::ShowingTransitionLink,
            Outcome::Missing => Startup::SavingDefaultConfig,
            Outcome::Failed => Startup::Failed(Context::LoadingConfig),
        },
        Startup::ShowingTransitionLink => Startup::SavingDefaultConfig,
        Startup::SavingDefaultConfig => if failed {
            Startup::Failed(Context::LoadingConfig)
        } else {
            Startup::LocatingGroupDir
        },
        Startup::LocatingGroupDir => if failed {
            Startup::Failed(Context::ResolvingGroupDir)
        } else {
            Startup::LoadingGroups
        },
        Startup::LoadingGroups => if failed {
            Startup::Failed(Context::LoadingGroups)
        } else {
            Startup::RunningAction
        },
        Startup::RunningAction => if failed {
            Startup::Failed(Context::RunningAction)
        } else {
            Startup::Finished
        },
        Startup::Finished => Startup::Finished,
        Startup::Failed(context) => Startup::Failed(context),
    }
}

/// How the run of the program has ended, as far as its exit depends on it.
#[derive(Debug, Clone, Copy, PartialEq, Eq, Structural)]
pub enum RunResult {
    /// Without a failure.
    Succeeded,
    /// A search for packages has found none.
    NoPackagesFound,
    /// With another failure of the program's own kinds.
    OtherKnownFailure,
    /// With a failure that comes from elsewhere.
    ForeignFailure,
}

/// How the program exits: with success or not, and whether the chain of causes of
/// the failure is reported, under a context of its own or as it is.
#[derive(Debug, Clone, Copy, PartialEq, Eq, Structural)]
pub enum Exit {
    Success,
    SilentFailure,
    ReportedWithContext,
    Reported,
}

/// The exit that belongs to a result. A search without results is a failure that
/// is not reported.
pub open spec fn exit_of(result: RunResult) -> Exit {
    match result {
        RunResult::Succeeded => Exit::Success,
        RunResult::NoPackagesFound => Exit::SilentFailure,
        RunResult::OtherKnownFailure => Exit::ReportedWithContext,
        RunResult::ForeignFailure => Exit::Reported,
    }
}

/// The exit that belongs to a result.
pub fn handle_final_result(result: RunResult) -> (exit: Exit)
    ensures
        exit == exit_of(result),
{
    match result {
        RunResult::Succeeded => Exit::Success,
        RunResult::NoPackagesFound => Exit::SilentFailure,
        RunResult::OtherKnownFailure => Exit::ReportedWithContext,
        RunResult::ForeignFailure => Exit::Reported,
    }
}

} // verus!
