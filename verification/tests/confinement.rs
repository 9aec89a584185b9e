use package_manager::confinement::{
    judge_sandbox, Enforcement, LandlockSupport, SandboxError, LATEST_LANDLOCK_ABI,
};

fn available(effective_abi: u32, kernel_abi: Option<i32>) -> LandlockSupport {
    LandlockSupport::Available { effective_abi, kernel_abi }
}

#[test]
fn sandboxes_without_landlock_are_refused() {
    assert_eq!(
        judge_sandbox(LandlockSupport::NotEnabled, Enforcement::Full, true),
        Err(SandboxError::Disabled)
    );
    assert_eq!(
        judge_sandbox(LandlockSupport::NotImplemented, Enforcement::Full, true),
        Err(SandboxError::NotImplemented)
    );
}

#[test]
fn the_abi_in_use_must_be_below_the_latest() {
    assert_eq!(LATEST_LANDLOCK_ABI, 9);
    assert_eq!(judge_sandbox(available(8, None), Enforcement::Full, true), Ok(None));
    assert_eq!(
        judge_sandbox(available(9, None), Enforcement::Full, true),
        Err(SandboxError::UnexpectedAbi { effective_abi: 9 })
    );
    // A kernel newer than the latest known ABI is accepted with a warning.
    assert_eq!(judge_sandbox(available(9, Some(11)), Enforcement::Full, true), Ok(Some(11)));
}

#[test]
fn every_rule_and_privileges_must_be_enforced() {
    assert_eq!(
        judge_sandbox(available(5, None), Enforcement::Partial, true),
        Err(SandboxError::PartiallyEnforced)
    );
    assert_eq!(
        judge_sandbox(available(5, None), Enforcement::Nothing, true),
        Err(SandboxError::NotEnforced)
    );
    assert_eq!(
        judge_sandbox(available(5, None), Enforcement::Full, false),
        Err(SandboxError::PrivilegesNotRestricted)
    );
}
