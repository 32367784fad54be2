//! Classification of a filesystem path into its navigation state.
//!
//! The state of a path is recomputed from a live filesystem observation on
//! every call; nothing here is cached. The observation itself is delivered as
//! a plain [`PathProbe`] value by the caller, so the classification rules are
//! fully verified.

use vstd::prelude::*;

verus! {

/// How an attempt to enumerate a directory's contents ended.
#[derive(Clone, Copy, Debug, PartialEq, Eq, Structural)]
pub enum DirAccess {
    /// Enumeration succeeded (possibly with zero entries).
    Readable,
    /// Enumeration failed because permission was denied.
    PermissionDenied,
    /// Enumeration failed for any other reason.
    FailedOtherwise,
}

/// What a metadata query (followed, for directories, by an enumeration
/// attempt) observed about a path.
#[derive(Clone, Copy, Debug, PartialEq, Eq, Structural)]
pub enum PathProbe {
    /// The metadata lookup failed with "not found".
    NotFound,
    /// The metadata lookup failed with any other error.
    FailedOtherwise,
    /// Metadata succeeded and the path is not a directory.
    File,
    /// Metadata succeeded and the path is a directory; the payload records
    /// how the enumeration attempt ended.
    Dir(DirAccess),
}

/// The navigation state of a path. Exactly one state holds for any path at
/// observation time.
#[derive(Clone, Copy, Debug, PartialEq, Eq, Structural)]
pub enum PathState {
    /// The path exists and is not a directory.
    IsFile,
    /// The path is a directory whose contents can be enumerated.
    IsOpenDir,
    /// The path is a directory that exists but cannot be read.
    IsClosedDir,
    /// The path does not exist.
    DoesNotExist,
}

/// The classification rule: maps an observation to a state, or to `None`
/// when the observation is indeterminate (an unexpected filesystem error),
/// which callers must treat as "no applicable state".
pub open spec fn classify_spec(probe: PathProbe) -> Option<PathState> {
    match probe {
        PathProbe::NotFound => Some(PathState::DoesNotExist),
        PathProbe::FailedOtherwise => None,
        PathProbe::File => Some(PathState::IsFile),
        PathProbe::Dir(DirAccess::Readable) => Some(PathState::IsOpenDir),
        PathProbe::Dir(DirAccess::PermissionDenied) => Some(PathState::IsClosedDir),
        PathProbe::Dir(DirAccess::FailedOtherwise) => None,
    }
}

/// Classifies a path from its observation.
///
/// A directory that exists and is readable is always `IsOpenDir`, and a path
/// that does not exist is always `DoesNotExist`; an unexpected filesystem
/// error yields no state at all rather than a wrong one.
pub fn classify(probe: PathProbe) -> (r: Option<PathState>)
    ensures
        r == classify_spec(probe),
        probe == PathProbe::Dir(DirAccess::Readable) ==> r == Some(PathState::IsOpenDir),
        probe == PathProbe::NotFound ==> r == Some(PathState::DoesNotExist),
{
    match probe {
        PathProbe::NotFound => Some(PathState::DoesNotExist),
        PathProbe::FailedOtherwise => None,
        PathProbe::File => Some(PathState::IsFile),
        PathProbe::Dir(DirAccess::Readable) => Some(PathState::IsOpenDir),
        PathProbe::Dir(DirAccess::PermissionDenied) => Some(PathState::IsClosedDir),
        PathProbe::Dir(DirAccess::FailedOtherwise) => None,
    }
}

/// Law: a directory that exists and is readable always classifies as an
/// open directory, and a path that does not exist always classifies as
/// missing.
pub proof fn lemma_classification_of_definite_states()
    ensures
        classify_spec(PathProbe::Dir(DirAccess::Readable)) == Some(PathState::IsOpenDir),
        classify_spec(PathProbe::NotFound) == Some(PathState::DoesNotExist),
{
}

} // verus!
