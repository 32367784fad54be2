//! Decisions around opening a file with the OS default handler.
//!
//! The launch itself is an external collaborator's job — the engine decides
//! whether a launch is allowed and what outcome the caller is told. Only an
//! existing file is ever handed to the launcher; every other path state,
//! indeterminate observations included, is reported as a failure.

use vstd::prelude::*;
use crate::path_state::{classify, classify_spec, PathProbe, PathState};

verus! {

/// Why an open request failed.
#[derive(Clone, Copy, Debug, PartialEq, Eq, Structural)]
pub enum OpenError {
    /// The path is not an existing file, or its state could not be
    /// determined.
    NotAFile,
    /// The OS failed to open the file with its default handler.
    LaunchFailed,
}

/// Whether an open request for a path in the observed state proceeds to a
/// launch: only an existing file does.
pub open spec fn launch_allowed(probe: PathProbe) -> bool {
    classify_spec(probe) == Some(PathState::IsFile)
}

/// Decides whether the launcher is invoked for a path with this
/// observation.
pub fn open_file_precheck(probe: PathProbe) -> (r: bool)
    ensures
        r == launch_allowed(probe),
{
    match classify(probe) {
        Some(PathState::IsFile) => true,
        _ => false,
    }
}

/// The outcome reported for an open request: success exactly where the path
/// was an existing file and the launcher reported success; `NotAFile` where
/// the launch was never allowed, and `LaunchFailed` where it was allowed
/// but the launcher failed.
pub fn open_file_outcome(probe: PathProbe, launched: bool) -> (r: Result<(), OpenError>)
    ensures
        r is Ok <==> launch_allowed(probe) && launched,
        !launch_allowed(probe) ==> r == Err::<(), OpenError>(OpenError::NotAFile),
        launch_allowed(probe) && !launched ==> r == Err::<(), OpenError>(OpenError::LaunchFailed),
{
    if open_file_precheck(probe) {
        if launched {
            Ok(())
        } else {
            Err(OpenError::LaunchFailed)
        }
    } else {
        Err(OpenError::NotAFile)
    }
}

} // verus!
