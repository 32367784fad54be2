//! The current-directory cursor.
//!
//! A single mutable value holding the current directory. It is initialised
//! to a configured root and mutated only through the validated set
//! operation: a candidate is accepted exactly when its live classification
//! is an open directory, and every other outcome — a file, a closed
//! directory, a missing path, an indeterminate observation — leaves the
//! cursor untouched. Invalid navigation never corrupts the cursor and never
//! fails the caller.

use vstd::prelude::*;
use crate::path_state::{classify, classify_spec, PathProbe, PathState};
use crate::ancestors::{breadcrumbs_view, get_ancestors, get_parent_dir, parent_view, Breadcrumb};

verus! {

/// The navigation cursor: an explicitly owned state object, one per running
/// instance.
#[derive(Debug)]
pub struct DirectoryCursor {
    current: String,
}

impl View for DirectoryCursor {
    type V = Seq<char>;

    /// A cursor is just the path it points at.
    closed spec fn view(&self) -> Seq<char> {
        self.current@
    }
}

/// Whether a set request with the given observation is accepted: only a
/// candidate observed to be an open directory moves the cursor.
pub open spec fn set_accepted(probe: PathProbe) -> bool {
    classify_spec(probe) == Some(PathState::IsOpenDir)
}

impl DirectoryCursor {
    /// A cursor anchored at the configured root.
    pub fn new(root: String) -> (c: Self)
        ensures
            c@ == root@,
    {
        DirectoryCursor { current: root }
    }

    /// The current directory.
    pub fn get_current_directory(&self) -> (r: &str)
        ensures
            r@ == self@,
    {
        self.current.as_str()
    }

    /// Requests a move to `candidate`, whose live filesystem observation is
    /// `probe`. The move is applied only when the candidate is an open
    /// directory; any other observation (a file, an unreadable directory, a
    /// missing path, an indeterminate error) is a silent no-op and the
    /// cursor keeps its previous value. Returns whether the change was
    /// applied; the caller notifies its collaborator of the resulting path
    /// unconditionally, even on a no-op.
    pub fn set_current_directory(&mut self, candidate: String, probe: PathProbe) -> (applied: bool)
        ensures
            applied == set_accepted(probe),
            set_accepted(probe) ==> final(self)@ == candidate@,
            !set_accepted(probe) ==> final(self)@ == old(self)@,
    {
        match classify(probe) {
            Some(PathState::IsOpenDir) => {
                self.current = candidate;
                true
            },
            _ => false,
        }
    }

    /// The breadcrumb chain of the current directory, root-first.
    pub fn get_ancestors(&self) -> (r: Vec<Breadcrumb>)
        ensures
            r@.map_values(|b: Breadcrumb| b@) == breadcrumbs_view(self@),
    {
        get_ancestors(self.current.as_str())
    }

    /// The lexical parent of the current directory, or the current
    /// directory itself unchanged where it has none (moving up from the
    /// root is a no-op).
    pub fn get_parent_dir(&self) -> (r: String)
        ensures
            r@ == match parent_view(self@) {
                Some(p) => p,
                None => self@,
            },
    {
        get_parent_dir(self.current.as_str())
    }
}

/// Law: a set request for a path that does not exist is never accepted, so
/// the cursor keeps its previous value on such a request.
pub proof fn lemma_missing_path_never_accepted()
    ensures
        !set_accepted(PathProbe::NotFound),
{
}

} // verus!
