use package_manager::session::{after_stage, first_step, Next, Stage};

#[test]
fn no_arguments() {
    // A run starts by reading the command line; when that fails (no subcommand was
    // given), the run ends in failure before the logger exists, so nothing is written.
    assert_eq!(first_step(), Next::Run(Stage::ParseArguments));
    assert_eq!(
        after_stage(Stage::ParseArguments, false),
        Next::Exit { success: false, error_shown: false }
    );
}

#[test]
fn stages_follow_in_order() {
    let order = [
        Stage::ParseArguments,
        Stage::SetUpLogging,
        Stage::InstallCryptography,
        Stage::ReadManifest,
        Stage::TargetDirectories,
        Stage::HostDirectories,
        Stage::ReadRecipes,
        Stage::PlanRecipes,
        Stage::LockDownloads,
        Stage::HashRecipes,
        Stage::Download,
        Stage::Build,
        Stage::Check,
        Stage::Stage,
        Stage::Install,
    ];
    for pair in order.windows(2) {
        assert_eq!(after_stage(pair[0], true), Next::Run(pair[1]));
    }
    assert_eq!(
        after_stage(Stage::Install, true),
        Next::Exit { success: true, error_shown: false }
    );
}

#[test]
fn failures_after_logging_are_shown() {
    assert_eq!(
        after_stage(Stage::SetUpLogging, false),
        Next::Exit { success: false, error_shown: false }
    );
    assert_eq!(
        after_stage(Stage::InstallCryptography, false),
        Next::Exit { success: false, error_shown: true }
    );
    assert_eq!(
        after_stage(Stage::Build, false),
        Next::Exit { success: false, error_shown: true }
    );
    assert_eq!(
        after_stage(Stage::Install, false),
        Next::Exit { success: false, error_shown: true }
    );
}
