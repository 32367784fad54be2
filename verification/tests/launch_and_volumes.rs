use file_navigator::launcher::{open_file_outcome, open_file_precheck, OpenError};
use file_navigator::path_state::{DirAccess, PathProbe};
use file_navigator::volumes::{format_volumes, get_all_disks, volume_entry};

#[test]
fn only_existing_files_reach_the_launcher() {
    assert!(open_file_precheck(PathProbe::File));
    assert!(!open_file_precheck(PathProbe::Dir(DirAccess::Readable)));
    assert!(!open_file_precheck(PathProbe::NotFound));
    assert!(!open_file_precheck(PathProbe::FailedOtherwise));
}

#[test]
fn open_outcome_reports_each_failure_kind() {
    assert_eq!(open_file_outcome(PathProbe::File, true), Ok(()));
    assert_eq!(
        open_file_outcome(PathProbe::File, false),
        Err(OpenError::LaunchFailed)
    );
    assert_eq!(
        open_file_outcome(PathProbe::Dir(DirAccess::Readable), true),
        Err(OpenError::NotAFile)
    );
    assert_eq!(
        open_file_outcome(PathProbe::NotFound, false),
        Err(OpenError::NotAFile)
    );
}

#[test]
fn volume_entries_carry_mount_path_and_label() {
    let e = volume_entry("System", "/mnt/sys");
    assert_eq!(e, ("/mnt/sys".to_string(), "System (/mnt/sys)".to_string()));
}

#[test]
fn unnamed_volumes_are_labelled_local_disk() {
    let e = volume_entry("", "C:/");
    assert_eq!(e, ("C:/".to_string(), "Local Disk (C:/)".to_string()));
}

#[test]
fn volumes_format_in_order() {
    let raw = vec![
        ("".to_string(), "/".to_string()),
        ("data".to_string(), "/mnt/data".to_string()),
    ];
    let out = format_volumes(&raw);
    assert_eq!(
        out,
        vec![
            ("/".to_string(), "Local Disk (/)".to_string()),
            ("/mnt/data".to_string(), "data (/mnt/data)".to_string()),
        ]
    );
}

#[test]
fn host_volumes_follow_the_labelling_rule() {
    // whatever this machine reports, every label ends with its own mount
    // path in parentheses
    for (mount, label) in get_all_disks() {
        let suffix = format!(" ({})", mount);
        assert!(label.ends_with(&suffix));
    }
}
