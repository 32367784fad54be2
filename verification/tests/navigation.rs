use file_navigator::ancestors;
use file_navigator::cursor::DirectoryCursor;
use file_navigator::path_state::{classify, DirAccess, PathProbe, PathState};

#[test]
fn readable_directory_classifies_open() {
    assert_eq!(
        classify(PathProbe::Dir(DirAccess::Readable)),
        Some(PathState::IsOpenDir)
    );
}

#[test]
fn missing_path_classifies_does_not_exist() {
    assert_eq!(classify(PathProbe::NotFound), Some(PathState::DoesNotExist));
}

#[test]
fn file_and_closed_directory_classify() {
    assert_eq!(classify(PathProbe::File), Some(PathState::IsFile));
    assert_eq!(
        classify(PathProbe::Dir(DirAccess::PermissionDenied)),
        Some(PathState::IsClosedDir)
    );
}

#[test]
fn indeterminate_observations_classify_to_nothing() {
    assert_eq!(classify(PathProbe::FailedOtherwise), None);
    assert_eq!(classify(PathProbe::Dir(DirAccess::FailedOtherwise)), None);
}

#[test]
fn cursor_moves_to_open_directory() {
    let mut c = DirectoryCursor::new("/home/user".to_string());
    let applied = c.set_current_directory(
        "/home/user/docs".to_string(),
        PathProbe::Dir(DirAccess::Readable),
    );
    assert!(applied);
    assert_eq!(c.get_current_directory(), "/home/user/docs");

    let crumbs = c.get_ancestors();
    let pairs: Vec<(String, String)> = crumbs
        .iter()
        .map(|b| (b.full_path.clone(), b.display_label.clone()))
        .collect();
    assert_eq!(
        pairs,
        vec![
            ("/".to_string(), "/".to_string()),
            ("/home".to_string(), "home\\".to_string()),
            ("/home/user".to_string(), "user\\".to_string()),
            ("/home/user/docs".to_string(), "docs\\".to_string()),
        ]
    );
}

#[test]
fn cursor_ignores_missing_candidate_but_still_reports_its_path() {
    let mut c = DirectoryCursor::new("/home/user/docs".to_string());
    let applied = c.set_current_directory("/nonexistent".to_string(), PathProbe::NotFound);
    assert!(!applied);
    // the notification the surrounding application emits carries the
    // authoritative, unchanged path
    assert_eq!(c.get_current_directory(), "/home/user/docs");
}

#[test]
fn cursor_ignores_files_closed_dirs_and_indeterminate_candidates() {
    let mut c = DirectoryCursor::new("/start".to_string());
    assert!(!c.set_current_directory("/a".to_string(), PathProbe::File));
    assert!(!c.set_current_directory("/a".to_string(), PathProbe::Dir(DirAccess::PermissionDenied)));
    assert!(!c.set_current_directory("/a".to_string(), PathProbe::FailedOtherwise));
    assert_eq!(c.get_current_directory(), "/start");
}

#[test]
fn ancestors_are_root_first_and_end_at_the_path() {
    let crumbs = ancestors::get_ancestors("/a/b/c");
    assert_eq!(crumbs.len(), 4);
    assert_eq!(crumbs[0].full_path, "/");
    assert_eq!(crumbs[0].display_label, "/");
    assert_eq!(crumbs[3].full_path, "/a/b/c");
    assert_eq!(crumbs[3].display_label, "c\\");
}

#[test]
fn ancestors_of_root_is_just_the_root() {
    let crumbs = ancestors::get_ancestors("/");
    assert_eq!(crumbs.len(), 1);
    assert_eq!(crumbs[0].full_path, "/");
    assert_eq!(crumbs[0].display_label, "/");
}

#[test]
fn ancestors_of_separator_free_path_is_itself() {
    let crumbs = ancestors::get_ancestors("docs");
    assert_eq!(crumbs.len(), 1);
    assert_eq!(crumbs[0].full_path, "docs");
    assert_eq!(crumbs[0].display_label, "docs");
}

#[test]
fn parent_walks_one_level_up() {
    assert_eq!(ancestors::get_parent_dir("/home/user"), "/home");
    assert_eq!(ancestors::get_parent_dir("/home"), "/");
}

#[test]
fn parent_of_root_is_root_unchanged() {
    assert_eq!(ancestors::get_parent_dir("/"), "/");
}

#[test]
fn cursor_parent_at_root_stays_at_root() {
    let c = DirectoryCursor::new("/".to_string());
    assert_eq!(c.get_parent_dir(), "/");
}
