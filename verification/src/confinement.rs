//! Whether the Landlock sandbox that a build runs in is good enough, judged from what
//! the kernel reports once the rules are applied.
use vstd::prelude::*;

verus! {

/// The Landlock ABI version that this program asks for: the latest it knows.
pub const LATEST_LANDLOCK_ABI: u32 = 9;

/// What the running kernel offers of Landlock.
#[derive(Debug, Clone, Copy, PartialEq, Eq, Structural)]
pub enum LandlockSupport {
    /// Landlock is built in but not enabled.
    NotEnabled,
    /// Landlock is not built into the kernel.
    NotImplemented,
    /// Landlock works; `effective_abi` is the version in use, and `kernel_abi` the
    /// kernel's own where that is newer than any this program knows.
    Available { effective_abi: u32, kernel_abi: Option<i32> },
}

/// How much of the requested rules the kernel enforces.
#[derive(Debug, Clone, Copy, PartialEq, Eq, Structural)]
pub enum Enforcement {
    Full,
    Partial,
    Nothing,
}

/// Why a sandbox is refused.
#[derive(Debug, Clone, Copy, PartialEq, Eq, Structural)]
pub enum SandboxError {
    /// Landlock is disabled in the kernel.
    Disabled,
    /// Landlock is not compiled into the kernel.
    NotImplemented,
    /// The ABI version in use is not below the latest one.
    UnexpectedAbi { effective_abi: u32 },
    /// Only some of the rules are enforced.
    PartiallyEnforced,
    /// None of the rules are enforced.
    NotEnforced,
    /// Privilege escalation could not be prevented.
    PrivilegesNotRestricted,
}

/// The verdict on a sandbox: refused for the first problem found (the kernel's
/// support, then the enforcement of the rules, then privileges), otherwise accepted,
/// with the kernel's newer ABI version to warn about where it reported one.
pub open spec fn verdict(
    support: LandlockSupport,
    enforcement: Enforcement,
    no_new_privileges: bool,
) -> Result<Option<i32>, SandboxError> {
    match support {
        LandlockSupport::NotEnabled => Err(SandboxError::Disabled),
        LandlockSupport::NotImplemented => Err(SandboxError::NotImplemented),
        LandlockSupport::Available { effective_abi, kernel_abi } => if kernel_abi is None
            && effective_abi >= LATEST_LANDLOCK_ABI {
            Err(SandboxError::UnexpectedAbi { effective_abi })
        } else {
            match enforcement {
                Enforcement::Partial => Err(SandboxError::PartiallyEnforced),
                Enforcement::Nothing => Err(SandboxError::NotEnforced),
                Enforcement::Full => if !no_new_privileges {
                    Err(SandboxError::PrivilegesNotRestricted)
                } else {
                    Ok(kernel_abi)
                },
            }
        },
    }
}

/// Judges the sandbox that applying the rules gave (see [`verdict`]).
pub fn judge_sandbox(
    support: LandlockSupport,
    enforcement: Enforcement,
    no_new_privileges: bool,
) -> (r: Result<Option<i32>, SandboxError>)
    ensures
        r == verdict(support, enforcement, no_new_privileges),
{
    let newer_kernel = match support {
        LandlockSupport::NotEnabled => return Err(SandboxError::Disabled),
        LandlockSupport::NotImplemented => return Err(SandboxError::NotImplemented),
        LandlockSupport::Available { effective_abi, kernel_abi: None } => {
            if effective_abi >= LATEST_LANDLOCK_ABI {
                return Err(SandboxError::UnexpectedAbi { effective_abi });
            }
            None
        },
        LandlockSupport::Available { effective_abi: _, kernel_abi: Some(kernel_abi) } => Some(
            kernel_abi,
        ),
    };
    match enforcement {
        Enforcement::Full => {},
        Enforcement::Partial => return Err(SandboxError::PartiallyEnforced),
        Enforcement::Nothing => return Err(SandboxError::NotEnforced),
    }
    if !no_new_privileges {
        return Err(SandboxError::PrivilegesNotRestricted);
    }
    Ok(newer_kernel)
}

} // verus!
