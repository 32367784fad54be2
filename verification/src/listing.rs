//! Directory listings.
//!
//! A listing is built from one fresh enumeration of a directory, delivered
//! by the caller as plain per-entry records. A child is displayable only
//! when it was classified as a file or an open directory; unreadable or
//! indeterminate children are silently skipped. The output is ordered with
//! directories before files, and within each group the enumeration order is
//! preserved exactly — no further sorting is applied.

use vstd::prelude::*;
use crate::path_state::{classify, classify_spec, PathProbe, PathState};

verus! {

/// One displayable child of a directory, fresh from a single enumeration.
#[derive(Debug, PartialEq, Eq)]
pub struct DirectoryEntry {
    pub display_name: String,
    pub full_path: String,
    pub is_directory: bool,
}

/// What a listing states of an entry: its display name, its full path and
/// whether it is a directory.
pub type EntryView = (Seq<char>, Seq<char>, bool);

impl View for DirectoryEntry {
    type V = EntryView;

    open spec fn view(&self) -> EntryView {
        (self.display_name@, self.full_path@, self.is_directory)
    }
}

/// One child as the enumeration reported it: its final name component
/// (`None` where the child has no usable name, in which case it is
/// skipped), its full path, and the observation that classifies it.
#[derive(Debug)]
pub struct RawChild {
    pub name: Option<String>,
    pub path: String,
    pub probe: PathProbe,
}

/// One record of a directory enumeration.
#[derive(Debug)]
pub enum RawEntry {
    /// The directory-entry record itself could not be read.
    Unreadable,
    /// A child that was read.
    Child(RawChild),
}

/// How the enumeration of the listed directory itself ended.
#[derive(Debug)]
pub enum ReadDirProbe {
    /// The directory could not be enumerated at all (not found, or
    /// permission denied).
    Failed,
    /// The directory was enumerated; here are its records, in enumeration
    /// order.
    Entries(Vec<RawEntry>),
}

/// Why a listing failed.
#[derive(Clone, Copy, Debug, PartialEq, Eq, Structural)]
pub enum ListError {
    /// The listed path itself cannot be enumerated.
    NotAccessible,
    /// An individual directory-entry record could not be read at all.
    EntryReadFailed,
}

/// Whether a raw record yields a displayable entry: it was read, it has a
/// usable name, and it was classified as a file or an open directory.
pub open spec fn displayable(e: RawEntry) -> bool {
    match e {
        RawEntry::Unreadable => false,
        RawEntry::Child(c) => c.name is Some && (classify_spec(c.probe) == Some(PathState::IsFile)
            || classify_spec(c.probe) == Some(PathState::IsOpenDir)),
    }
}

/// The entry a displayable raw record turns into.
pub open spec fn entry_view(e: RawEntry) -> EntryView
    recommends
        displayable(e),
{
    match e {
        RawEntry::Unreadable => (Seq::empty(), Seq::empty(), false),
        RawEntry::Child(c) => (
            c.name->0@,
            c.path@,
            classify_spec(c.probe) == Some(PathState::IsOpenDir),
        ),
    }
}

/// Selects displayable records.
pub open spec fn disp_pred() -> spec_fn(RawEntry) -> bool {
    |e: RawEntry| displayable(e)
}

/// Maps a raw record to its entry.
pub open spec fn entry_fn() -> spec_fn(RawEntry) -> EntryView {
    |e: RawEntry| entry_view(e)
}

/// Selects directory entries.
pub open spec fn dir_pred() -> spec_fn(EntryView) -> bool {
    |e: EntryView| e.2
}

/// Selects non-directory entries.
pub open spec fn file_pred() -> spec_fn(EntryView) -> bool {
    |e: EntryView| !e.2
}

/// The displayable entries of an enumeration, in enumeration order.
pub open spec fn kept_view(raw: Seq<RawEntry>) -> Seq<EntryView> {
    raw.filter(disp_pred()).map_values(entry_fn())
}

/// The ordering policy: directories first, and within each group the given
/// order preserved.
pub open spec fn dirs_first(s: Seq<EntryView>) -> Seq<EntryView> {
    s.filter(dir_pred()) + s.filter(file_pred())
}

/// What a listing returns for a given enumeration: an error where the
/// directory itself was not enumerable or a record was unreadable, and the
/// ordered displayable entries otherwise.
pub open spec fn listing_view(probe: ReadDirProbe) -> Result<Seq<EntryView>, ListError> {
    match probe {
        ReadDirProbe::Failed => Err(ListError::NotAccessible),
        ReadDirProbe::Entries(es) => {
            if exists|i: int| 0 <= i < es@.len() && (#[trigger] es@[i]) is Unreadable {
                Err(ListError::EntryReadFailed)
            } else {
                Ok(dirs_first(kept_view(es@)))
            }
        },
    }
}

proof fn lemma_filter_push<A>(s: Seq<A>, pred: spec_fn(A) -> bool, x: A)
    ensures
        s.push(x).filter(pred) == if pred(x) {
            s.filter(pred).push(x)
        } else {
            s.filter(pred)
        },
{
    reveal(Seq::filter);
    assert(s.push(x).drop_last() =~= s);
    assert(s.push(x).last() == x);
}

/// Builds the listing of a directory from one fresh enumeration of it.
///
/// Fails with `NotAccessible` where the directory itself could not be
/// enumerated and with `EntryReadFailed` where any individual record could
/// not be read; otherwise returns every displayable child, directories
/// before files, each group in enumeration order.
pub fn load_files_in_current_directory(probe: ReadDirProbe) -> (r: Result<
    Vec<DirectoryEntry>,
    ListError,
>)
    ensures
        r is Ok <==> listing_view(probe) is Ok,
        r matches Ok(v) ==> listing_view(probe) == Ok::<_, ListError>(
            v@.map_values(|d: DirectoryEntry| d@),
        ),
        r matches Err(e) ==> listing_view(probe) == Err::<Seq<EntryView>, _>(e),
{
    match probe {
        ReadDirProbe::Failed => Err(ListError::NotAccessible),
        ReadDirProbe::Entries(es) => {
            let mut dirs: Vec<DirectoryEntry> = Vec::new();
            let mut files: Vec<DirectoryEntry> = Vec::new();
            let mut i: usize = 0;
            proof {
                assert(es@.take(0) =~= Seq::<RawEntry>::empty());
                reveal(Seq::filter);
                assert(dirs@.map_values(|d: DirectoryEntry| d@) =~= kept_view(es@.take(0)).filter(
                    dir_pred(),
                ));
                assert(files@.map_values(|d: DirectoryEntry| d@) =~= kept_view(es@.take(0)).filter(
                    file_pred(),
                ));
            }
            while i < es.len()
                invariant
                    probe == ReadDirProbe::Entries(es),
                    0 <= i <= es@.len(),
                    forall|j: int| 0 <= j < i ==> !((#[trigger] es@[j]) is Unreadable),
                    dirs@.map_values(|d: DirectoryEntry| d@) == kept_view(es@.take(i as int)).filter(
                        dir_pred(),
                    ),
                    files@.map_values(|d: DirectoryEntry| d@) == kept_view(
                        es@.take(i as int),
                    ).filter(file_pred()),
                decreases es@.len() - i,
            {
                let ghost prev_dirs = dirs@;
                let ghost prev_files = files@;
                match &es[i] {
                    RawEntry::Unreadable => {
                        proof {
                            assert((es@[i as int]) is Unreadable);
                            assert(exists|j: int|
                                0 <= j < es@.len() && (#[trigger] es@[j]) is Unreadable);
                        }
                        return Err(ListError::EntryReadFailed);
                    },
                    RawEntry::Child(c) => {
                        if let Some(name) = &c.name {
                            match classify(c.probe) {
                                Some(PathState::IsOpenDir) => {
                                    dirs.push(
                                        DirectoryEntry {
                                            display_name: name.clone(),
                                            full_path: c.path.clone(),
                                            is_directory: true,
                                        },
                                    );
                                },
                                Some(PathState::IsFile) => {
                                    files.push(
                                        DirectoryEntry {
                                            display_name: name.clone(),
                                            full_path: c.path.clone(),
                                            is_directory: false,
                                        },
                                    );
                                },
                                _ => {},
                            }
                        }
                    },
                }
                proof {
                    let e = es@[i as int];
                    let raws = es@.take(i as int);
                    assert(es@.take(i + 1) =~= raws.push(e));
                    lemma_filter_push(raws, disp_pred(), e);
                    let kept = kept_view(raws);
                    if displayable(e) {
                        assert(kept_view(raws.push(e)) =~= kept.push(entry_view(e)));
                        lemma_filter_push(kept, dir_pred(), entry_view(e));
                        lemma_filter_push(kept, file_pred(), entry_view(e));
                        if entry_view(e).2 {
                            assert(dirs@.map_values(|d: DirectoryEntry| d@) =~= prev_dirs.map_values(
                                |d: DirectoryEntry| d@,
                            ).push(entry_view(e)));
                        } else {
                            assert(files@.map_values(|d: DirectoryEntry| d@)
                                =~= prev_files.map_values(|d: DirectoryEntry| d@).push(
                                entry_view(e),
                            ));
                        }
                    } else {
                        assert(kept_view(raws.push(e)) =~= kept);
                    }
                }
                i += 1;
            }
            proof {
                assert(es@.take(es@.len() as int) =~= es@);
            }
            let mut out = dirs;
            out.append(&mut files);
            proof {
                assert(out@.map_values(|d: DirectoryEntry| d@) =~= dirs_first(kept_view(es@)));
            }
            Ok(out)
        },
    }
}

proof fn lemma_filter_all_true<A>(s: Seq<A>, pred: spec_fn(A) -> bool)
    requires
        forall|i: int| 0 <= i < s.len() ==> pred(#[trigger] s[i]),
    ensures
        s.filter(pred) == s,
    decreases s.len(),
{
    reveal(Seq::filter);
    if s.len() > 0 {
        lemma_filter_all_true(s.drop_last(), pred);
        assert(s.drop_last().push(s.last()) =~= s);
    }
}

proof fn lemma_filter_all_false<A>(s: Seq<A>, pred: spec_fn(A) -> bool)
    requires
        forall|i: int| 0 <= i < s.len() ==> !pred(#[trigger] s[i]),
    ensures
        s.filter(pred) == Seq::<A>::empty(),
    decreases s.len(),
{
    reveal(Seq::filter);
    if s.len() > 0 {
        lemma_filter_all_false(s.drop_last(), pred);
    }
}

/// Law: in an ordered listing every directory entry stands before every
/// non-directory entry, and within each group the relative order of the
/// underlying enumeration is preserved exactly.
pub proof fn lemma_dirs_first_ordered(s: Seq<EntryView>)
    ensures
        forall|i: int, j: int|
            0 <= i < j < dirs_first(s).len() && !(#[trigger] dirs_first(s)[i]).2 ==> !(
            #[trigger] dirs_first(s)[j]).2,
        dirs_first(s).filter(dir_pred()) == s.filter(dir_pred()),
        dirs_first(s).filter(file_pred()) == s.filter(file_pred()),
        dirs_first(s).len() == s.filter(dir_pred()).len() + s.filter(file_pred()).len(),
{
    let d = s.filter(dir_pred());
    let f = s.filter(file_pred());
    assert forall|i: int| 0 <= i < d.len() implies (#[trigger] d[i]).2 by {
        s.lemma_filter_pred(dir_pred(), i);
    }
    assert forall|i: int| 0 <= i < f.len() implies !(#[trigger] f[i]).2 by {
        s.lemma_filter_pred(file_pred(), i);
    }
    assert forall|i: int, j: int|
        0 <= i < j < dirs_first(s).len() && !(#[trigger] dirs_first(s)[i]).2 implies !(
    #[trigger] dirs_first(s)[j]).2 by {
        if i < d.len() {
            assert(dirs_first(s)[i] == d[i]);
        } else {
            assert(dirs_first(s)[j] == f[j - d.len()]);
        }
    }
    Seq::filter_distributes_over_add(d, f, dir_pred());
    Seq::filter_distributes_over_add(d, f, file_pred());
    lemma_filter_all_true(d, dir_pred());
    lemma_filter_all_false(f, dir_pred());
    lemma_filter_all_true(f, file_pred());
    lemma_filter_all_false(d, file_pred());
    assert(dirs_first(s).filter(dir_pred()) =~= s.filter(dir_pred()));
    assert(dirs_first(s).filter(file_pred()) =~= s.filter(file_pred()));
}

} // verus!
