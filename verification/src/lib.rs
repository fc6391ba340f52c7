//! Switch the active credential-configuration directory between versioned
//! alternatives while preserving the access-key / secret-key pair of every
//! profile that survives the switch.
//!
//! The library models the `credentials` file as an ordered list of sections,
//! each an ordered list of `key = value` entries, and proves that parsing,
//! extraction of credentials, and restoration into the replacement file do
//! exactly what the contracts say. Filesystem traffic stays outside; callers
//! hand the library file contents as bytes and write back what it returns.

use vstd::prelude::*;

pub mod cli;
pub mod creds;
pub mod ini;
pub mod laws;
pub mod parse;
pub mod text;
pub mod write;

verus! {

/// Errors the switch can run into, in the order the program meets them.
#[derive(Clone, Copy, Debug, PartialEq, Eq, Structural)]
pub enum SwitchError {
    /// A required configuration directory is absent; checked up front.
    ConfigurationMissing,
    /// The `credentials` file is not section/key=value text.
    ParseError,
    /// A delete, copy or write failed.
    IoError,
    /// The command line named no known subcommand.
    UnrecognizedCommand,
}

/// Process exit code for an error: the configuration-error code is distinct
/// from the generic failure code, and both are non-zero.
pub fn exit_code(e: &SwitchError) -> (r: i32)
    ensures
        r == (if e is ConfigurationMissing { 2int } else { 1int }),
{
    match e {
        SwitchError::ConfigurationMissing => 2,
        _ => 1,
    }
}

/// Up-front check that both directories taking part in the switch exist.
/// Succeeds exactly when both do; the caller performs no filesystem
/// mutation otherwise.
pub fn check_directories(active_exists: bool, alternative_exists: bool) -> (r: Result<
    (),
    SwitchError,
>)
    ensures
        r is Ok <==> active_exists && alternative_exists,
        r is Err ==> r->Err_0 == SwitchError::ConfigurationMissing,
{
    if active_exists && alternative_exists {
        Ok(())
    } else {
        Err(SwitchError::ConfigurationMissing)
    }
}

} // verus!
