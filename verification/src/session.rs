//! The course of one run of the program: the stages it goes through, in order, and
//! how it ends. The program performs each stage and reports whether it succeeded;
//! these functions decide what comes next.
use vstd::prelude::*;

verus! {

/// The stages of a run, in the order in which they are performed.
#[derive(Debug, Clone, Copy, PartialEq, Eq, Structural)]
pub enum Stage {
    /// Reading the command line.
    ParseArguments,
    /// Installing the logger that writes to standard error.
    SetUpLogging,
    /// Installing the cryptography provider for the web client.
    InstallCryptography,
    /// Reading the manifest.
    ReadManifest,
    /// Working out the target's directories from the manifest.
    TargetDirectories,
    /// Working out the host's directories.
    HostDirectories,
    /// Reading the recipes.
    ReadRecipes,
    /// Planning which recipes to install.
    PlanRecipes,
    /// Locking each recipe's download.
    LockDownloads,
    /// Hashing the locked recipes.
    HashRecipes,
    /// Downloading the sources.
    Download,
    /// Building the packages.
    Build,
    /// Checking the built images.
    Check,
    /// Staging the images.
    Stage,
    /// Installing the staged files.
    Install,
}

/// What the program does next.
#[derive(Debug, Clone, Copy, PartialEq, Eq, Structural)]
pub enum Next {
    /// Performs the stage.
    Run(Stage),
    /// Exits, successfully or not; `error_shown` says whether the error that ended the
    /// run is written to standard error, which happens only once the logger is
    /// installed. Nothing is ever written to standard output.
    Exit { success: bool, error_shown: bool },
}

/// The position of a stage in a run.
pub open spec fn stage_rank(stage: Stage) -> nat {
    match stage {
        Stage::ParseArguments => 0,
        Stage::SetUpLogging => 1,
        Stage::InstallCryptography => 2,
        Stage::ReadManifest => 3,
        Stage::TargetDirectories => 4,
        Stage::HostDirectories => 5,
        Stage::ReadRecipes => 6,
        Stage::PlanRecipes => 7,
        Stage::LockDownloads => 8,
        Stage::HashRecipes => 9,
        Stage::Download => 10,
        Stage::Build => 11,
        Stage::Check => 12,
        Stage::Stage => 13,
        Stage::Install => 14,
    }
}

/// The stage that follows `stage`, if any.
pub open spec fn following_stage(stage: Stage) -> Option<Stage> {
    match stage {
        Stage::ParseArguments => Some(Stage::SetUpLogging),
        Stage::SetUpLogging => Some(Stage::InstallCryptography),
        Stage::InstallCryptography => Some(Stage::ReadManifest),
        Stage::ReadManifest => Some(Stage::TargetDirectories),
        Stage::TargetDirectories => Some(Stage::HostDirectories),
        Stage::HostDirectories => Some(Stage::ReadRecipes),
        Stage::ReadRecipes => Some(Stage::PlanRecipes),
        Stage::PlanRecipes => Some(Stage::LockDownloads),
        Stage::LockDownloads => Some(Stage::HashRecipes),
        Stage::HashRecipes => Some(Stage::Download),
        Stage::Download => Some(Stage::Build),
        Stage::Build => Some(Stage::Check),
        Stage::Check => Some(Stage::Stage),
        Stage::Stage => Some(Stage::Install),
        Stage::Install => None,
    }
}

/// Whether the logger is installed once `stage` has failed: it is from the stage
/// after the one that installs it.
pub open spec fn logging_ready(stage: Stage) -> bool {
    stage_rank(stage) > stage_rank(Stage::SetUpLogging)
}

/// What follows a stage: the next stage if it succeeded, a successful exit after the
/// last one, and a failed exit as soon as one fails.
pub open spec fn next_after(stage: Stage, succeeded: bool) -> Next {
    if !succeeded {
        Next::Exit { success: false, error_shown: logging_ready(stage) }
    } else {
        match following_stage(stage) {
            Some(next) => Next::Run(next),
            None => Next::Exit { success: true, error_shown: false },
        }
    }
}

/// The first thing a run does: read the command line.
pub fn first_step() -> (r: Next)
    ensures
        r == Next::Run(Stage::ParseArguments),
{
    Next::Run(Stage::ParseArguments)
}

/// What follows `stage`, which succeeded or not.
pub fn after_stage(stage: Stage, succeeded: bool) -> (r: Next)
    ensures
        r == next_after(stage, succeeded),
{
    if !succeeded {
        let error_shown = match stage {
            Stage::ParseArguments | Stage::SetUpLogging => false,
            _ => true,
        };
        return Next::Exit { success: false, error_shown };
    }
    match stage {
        Stage::ParseArguments => Next::Run(Stage::SetUpLogging),
        Stage::SetUpLogging => Next::Run(Stage::InstallCryptography),
        Stage::InstallCryptography => Next::Run(Stage::ReadManifest),
        Stage::ReadManifest => Next::Run(Stage::TargetDirectories),
        Stage::TargetDirectories => Next::Run(Stage::HostDirectories),
        Stage::HostDirectories => Next::Run(Stage::ReadRecipes),
        Stage::ReadRecipes => Next::Run(Stage::PlanRecipes),
        Stage::PlanRecipes => Next::Run(Stage::LockDownloads),
        Stage::LockDownloads => Next::Run(Stage::HashRecipes),
        Stage::HashRecipes => Next::Run(Stage::Download),
        Stage::Download => Next::Run(Stage::Build),
        Stage::Build => Next::Run(Stage::Check),
        Stage::Check => Next::Run(Stage::Stage),
        Stage::Stage => Next::Run(Stage::Install),
        Stage::Install => Next::Exit { success: true, error_shown: false },
    }
}

/// A run moves forward: the stage that follows a successful one comes one place
/// later, so no stage is performed twice and every run ends.
pub proof fn lemma_runs_move_forward(stage: Stage)
    ensures
        next_after(stage, true) matches Next::Run(next) ==> stage_rank(next) == stage_rank(stage)
            + 1,
{
}

/// A run succeeds only by completing its last stage, and a failed stage always ends
/// the run in failure.
pub proof fn lemma_success_only_at_the_end(stage: Stage, succeeded: bool)
    ensures
        next_after(stage, succeeded) matches Next::Exit { success, error_shown: _ } ==> (success
            <==> (succeeded && stage == Stage::Install)),
        !succeeded ==> next_after(stage, succeeded) is Exit,
{
}

} // verus!
