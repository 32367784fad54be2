//! Volume enumeration for the navigation root list.
//!
//! The host's disks come from the operating system through an opaque
//! collaborator; what the engine owns — and verifies — is how each disk is
//! turned into a (mount path, display label) entry.

use vstd::prelude::*;
use vstd::string::StringExecFns;

verus! {

/// The display label of one volume: its name — `Local Disk` where the name
/// is empty — followed by the mount path in parentheses.
pub open spec fn volume_label(name: Seq<char>, mount: Seq<char>) -> Seq<char> {
    (if name.len() == 0 {
        "Local Disk"@
    } else {
        name
    }) + " ("@ + mount + ")"@
}

/// Relies on sysinfo's `Disks::new_with_refreshed_list`, `Disk::name` and
/// `Disk::mount_point`: enumerates the host's disks once, reporting each
/// disk's name and mount point. The outcome depends on the machine, so
/// nothing is promised of it.
#[verifier::external_body]
fn refreshed_disk_list() -> Vec<(String, String)> {
    sysinfo::Disks::new_with_refreshed_list()
        .list()
        .iter()
        .map(
            |d|
                (
                    d.name().to_string_lossy().into_owned(),
                    d.mount_point().to_string_lossy().into_owned(),
                ),
        )
        .collect()
}

/// The volume entry shown for one disk: its mount path, and its display
/// label built by the labelling rule.
pub fn volume_entry(name: &str, mount: &str) -> (r: (String, String))
    ensures
        r.0@ == mount@,
        r.1@ == volume_label(name@, mount@),
{
    let mut label: String = if name.is_empty() {
        "Local Disk".to_owned()
    } else {
        name.to_owned()
    };
    label.append(" (");
    label.append(mount);
    label.append(")");
    proof {
        assert(label@ =~= volume_label(name@, mount@));
    }
    (mount.to_owned(), label)
}

/// The volume entries for the given (name, mount path) pairs, one each and
/// in order.
pub fn format_volumes(raw: &Vec<(String, String)>) -> (r: Vec<(String, String)>)
    ensures
        r@.len() == raw@.len(),
        forall|i: int|
            0 <= i < raw@.len() ==> (#[trigger] r@[i]).0@ == raw@[i].1@ && r@[i].1@ == volume_label(
                raw@[i].0@,
                raw@[i].1@,
            ),
{
    let mut out: Vec<(String, String)> = Vec::new();
    let mut i: usize = 0;
    while i < raw.len()
        invariant
            0 <= i <= raw@.len(),
            out@.len() == i,
            forall|j: int|
                0 <= j < i ==> (#[trigger] out@[j]).0@ == raw@[j].1@ && out@[j].1@ == volume_label(
                    raw@[j].0@,
                    raw@[j].1@,
                ),
        decreases raw@.len() - i,
    {
        let entry = volume_entry(raw[i].0.as_str(), raw[i].1.as_str());
        out.push(entry);
        i += 1;
    }
    out
}

/// Whether a volume entry is labelled from some disk name and its own
/// mount path by the labelling rule.
pub open spec fn labelled_entry(e: (String, String)) -> bool {
    exists|name: Seq<char>| e.1@ == volume_label(name, e.0@)
}

/// The volumes to offer as navigation roots: one (mount path, display
/// label) entry per disk the host reports. Whatever the host reported, each
/// entry is labelled from its own disk's name and mount path by the
/// labelling rule.
pub fn get_all_disks() -> (r: Vec<(String, String)>)
    ensures
        forall|i: int| 0 <= i < r@.len() ==> labelled_entry(#[trigger] r@[i]),
{
    let raw = refreshed_disk_list();
    let r = format_volumes(&raw);
    proof {
        assert forall|i: int| 0 <= i < r@.len() implies labelled_entry(#[trigger] r@[i]) by {
            assert(r@[i].1@ == volume_label(raw@[i].0@, r@[i].0@));
        }
    }
    r
}

} // verus!
