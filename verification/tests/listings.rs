use file_navigator::listing::{
    load_files_in_current_directory, ListError, RawChild, RawEntry, ReadDirProbe,
};
use file_navigator::path_state::{DirAccess, PathProbe};

fn child(name: &str, path: &str, probe: PathProbe) -> RawEntry {
    RawEntry::Child(RawChild {
        name: Some(name.to_string()),
        path: path.to_string(),
        probe,
    })
}

#[test]
fn directories_sort_before_files_in_enumeration_order() {
    let probe = ReadDirProbe::Entries(vec![
        child("z.txt", "/d/z.txt", PathProbe::File),
        child("beta", "/d/beta", PathProbe::Dir(DirAccess::Readable)),
        child("a.txt", "/d/a.txt", PathProbe::File),
        child("alpha", "/d/alpha", PathProbe::Dir(DirAccess::Readable)),
    ]);
    let out = load_files_in_current_directory(probe).unwrap();
    let summary: Vec<(String, bool)> = out
        .iter()
        .map(|e| (e.display_name.clone(), e.is_directory))
        .collect();
    // directories first, then files; inside each group the enumeration
    // order stands (beta before alpha, z before a: no alphabetic sort)
    assert_eq!(
        summary,
        vec![
            ("beta".to_string(), true),
            ("alpha".to_string(), true),
            ("z.txt".to_string(), false),
            ("a.txt".to_string(), false),
        ]
    );
}

#[test]
fn listing_keeps_full_paths() {
    let probe = ReadDirProbe::Entries(vec![child(
        "notes.txt",
        "/home/notes.txt",
        PathProbe::File,
    )]);
    let out = load_files_in_current_directory(probe).unwrap();
    assert_eq!(out.len(), 1);
    assert_eq!(out[0].display_name, "notes.txt");
    assert_eq!(out[0].full_path, "/home/notes.txt");
    assert!(!out[0].is_directory);
}

#[test]
fn unlistable_children_are_silently_skipped() {
    let probe = ReadDirProbe::Entries(vec![
        child("locked", "/d/locked", PathProbe::Dir(DirAccess::PermissionDenied)),
        child("gone", "/d/gone", PathProbe::NotFound),
        child("odd", "/d/odd", PathProbe::FailedOtherwise),
        child("kept", "/d/kept", PathProbe::File),
        RawEntry::Child(RawChild {
            name: None,
            path: "/d/nameless".to_string(),
            probe: PathProbe::File,
        }),
    ]);
    let out = load_files_in_current_directory(probe).unwrap();
    assert_eq!(out.len(), 1);
    assert_eq!(out[0].display_name, "kept");
}

#[test]
fn empty_enumeration_lists_nothing() {
    let out = load_files_in_current_directory(ReadDirProbe::Entries(vec![])).unwrap();
    assert!(out.is_empty());
}

#[test]
fn unenumerable_directory_is_not_accessible() {
    let r = load_files_in_current_directory(ReadDirProbe::Failed);
    assert_eq!(r, Err(ListError::NotAccessible));
}

#[test]
fn unreadable_record_fails_the_whole_listing() {
    let probe = ReadDirProbe::Entries(vec![
        child("fine", "/d/fine", PathProbe::File),
        RawEntry::Unreadable,
        child("late", "/d/late", PathProbe::File),
    ]);
    let r = load_files_in_current_directory(probe);
    assert_eq!(r, Err(ListError::EntryReadFailed));
}
