use repro::control::{file_type, is_inside, read, readdir, root_directory, unlink, FileKind};
use repro::inode::{Inode, Table};

fn b(s: &str) -> Vec<u8> {
    s.as_bytes().to_vec()
}

fn tree() -> (Table, Inode, Inode, Inode, Inode, Inode) {
    let mut t = Table::new();
    let ctrl = t.lookup(Inode(1), &b(".repro"));
    let pid = t.lookup(ctrl, &b("pid"));
    let lic = t.lookup(ctrl, &b("licorne"));
    let mag = t.lookup(lic, &b("magique"));
    let other = t.lookup(Inode(1), &b("other"));
    (t, ctrl, pid, lic, mag, other)
}

#[test]
fn control_directory_name() {
    assert_eq!(root_directory(), b(".repro"));
}

#[test]
fn containment_gate() {
    let (t, ctrl, pid, lic, mag, other) = tree();
    assert!(is_inside(&t, ctrl));
    assert!(is_inside(&t, pid));
    assert!(is_inside(&t, lic));
    assert!(is_inside(&t, mag));
    assert!(!is_inside(&t, other));
    assert!(!is_inside(&t, Inode(1)));
    assert!(!is_inside(&t, Inode(0)));
    assert!(!is_inside(&t, Inode(99)));
}

#[test]
fn directory_catalogue() {
    let (t, ctrl, pid, lic, mag, other) = tree();
    assert_eq!(
        readdir(&t, ctrl),
        Some(vec![(b("pid"), FileKind::RegularFile), (b("licorne"), FileKind::Directory)])
    );
    assert_eq!(readdir(&t, lic), Some(vec![(b("magique"), FileKind::RegularFile)]));
    assert_eq!(readdir(&t, pid), None);
    assert_eq!(readdir(&t, mag), None);
    assert_eq!(readdir(&t, other), None);
    assert_eq!(readdir(&t, Inode(1)), None);
}

#[test]
fn kinds_of_entries() {
    let (mut t, ctrl, pid, lic, mag, other) = tree();
    assert_eq!(file_type(&t, ctrl), Some(FileKind::Directory));
    assert_eq!(file_type(&t, pid), Some(FileKind::RegularFile));
    assert_eq!(file_type(&t, lic), Some(FileKind::Directory));
    assert_eq!(file_type(&t, mag), Some(FileKind::RegularFile));
    assert_eq!(file_type(&t, other), None);
    let stray = t.lookup(ctrl, &b("magique"));
    assert_eq!(file_type(&t, stray), None);
    assert!(is_inside(&t, stray));
}

#[test]
fn pid_file_content() {
    let (t, _ctrl, pid, _lic, mag, _other) = tree();
    assert_eq!(read(&t, pid, 4321), Some(b("4321")));
    assert_eq!(read(&t, pid, 0), Some(b("0")));
    assert_eq!(read(&t, mag, 4321), None);
}

#[test]
fn delete_trigger_only_for_pid() {
    let (t, ctrl, _pid, lic, _mag, _other) = tree();
    assert!(unlink(&t, ctrl, &b("pid")));
    assert!(!unlink(&t, ctrl, &b("licorne")));
    assert!(!unlink(&t, lic, &b("magique")));
    assert!(!unlink(&t, lic, &b("pid")));
}
