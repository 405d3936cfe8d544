use repro::control::FileKind;
use repro::filesystem::{DirEntry, Errno, Filesystem, Found};

fn b(s: &str) -> Vec<u8> {
    s.as_bytes().to_vec()
}

fn names(v: &[DirEntry]) -> Vec<Vec<u8>> {
    v.iter().map(|e| e.name.clone()).collect()
}

fn offsets(v: &[DirEntry]) -> Vec<i64> {
    v.iter().map(|e| e.offset).collect()
}

#[test]
fn fresh_mount_scenario() {
    let mut fs = Filesystem::new();
    let root = fs.readdir(1, 0).unwrap();
    assert_eq!(names(&root), vec![b("."), b(".."), b(".repro")]);
    assert_eq!(offsets(&root), vec![1, 2, 3]);
    assert_eq!(root[0].inode, 1);
    assert_eq!(root[1].inode, 0);

    let ctrl = fs.lookup(1, &b(".repro")).unwrap();
    assert_eq!(ctrl, Found { inode: 2, kind: FileKind::Directory, generation: 0 });
    let listing = fs.readdir(ctrl.inode, 0).unwrap();
    assert_eq!(names(&listing), vec![b("."), b(".."), b("pid"), b("licorne")]);
    assert_eq!(listing[0].inode, 2);
    assert_eq!(listing[1].inode, 1);
    assert_eq!(listing[2].kind, FileKind::RegularFile);
    assert_eq!(listing[3].kind, FileKind::Directory);

    let pid = fs.lookup(ctrl.inode, &b("pid")).unwrap();
    assert_eq!(pid.kind, FileKind::RegularFile);
    assert_eq!(fs.read(pid.inode, 0, 4096, 31337), Ok(b("31337")));
}

#[test]
fn listing_licorne() {
    let mut fs = Filesystem::new();
    let ctrl = fs.lookup(1, &b(".repro")).unwrap();
    let lic = fs.lookup(ctrl.inode, &b("licorne")).unwrap();
    let listing = fs.readdir(lic.inode, 0).unwrap();
    assert_eq!(names(&listing), vec![b("."), b(".."), b("magique")]);
    assert_eq!(listing[1].inode, ctrl.inode);
    assert_eq!(listing[2].kind, FileKind::RegularFile);
}

#[test]
fn listing_resumes_from_offset() {
    let mut fs = Filesystem::new();
    let ctrl = fs.lookup(1, &b(".repro")).unwrap();
    let rest = fs.readdir(ctrl.inode, 2).unwrap();
    assert_eq!(names(&rest), vec![b("pid"), b("licorne")]);
    assert_eq!(offsets(&rest), vec![3, 4]);
    assert!(fs.readdir(ctrl.inode, 4).unwrap().is_empty());
    assert!(fs.readdir(ctrl.inode, 100).unwrap().is_empty());
    assert!(fs.readdir(ctrl.inode, -1).unwrap().is_empty());
}

#[test]
fn listing_unknown_identities() {
    let mut fs = Filesystem::new();
    assert_eq!(fs.readdir(2, 0).err(), Some(Errno::NotFound));
    let ctrl = fs.lookup(1, &b(".repro")).unwrap();
    let pid = fs.lookup(ctrl.inode, &b("pid")).unwrap();
    assert_eq!(fs.readdir(pid.inode, 0).err(), Some(Errno::NotFound));
    assert_eq!(fs.lookup(1, &b("elsewhere")), Err(Errno::NotFound));
    assert_eq!(fs.readdir(4, 0).err(), Some(Errno::NotFound));
}

#[test]
fn lookup_of_unknown_names() {
    let mut fs = Filesystem::new();
    assert_eq!(fs.lookup(1, &b("nothing")), Err(Errno::NotFound));
    assert_eq!(fs.lookup(50, &b("pid")), Err(Errno::NotFound));
    let ctrl = fs.lookup(1, &b(".repro")).unwrap();
    assert_eq!(fs.lookup(ctrl.inode, &b("nothing")), Err(Errno::NotFound));
    assert_eq!(fs.lookup(1, &b(".repro")), Ok(ctrl));
}

#[test]
fn read_clipping() {
    let mut fs = Filesystem::new();
    let ctrl = fs.lookup(1, &b(".repro")).unwrap();
    let pid = fs.lookup(ctrl.inode, &b("pid")).unwrap();
    assert_eq!(fs.read(pid.inode, 0, 100, 4242), Ok(b("4242")));
    assert_eq!(fs.read(pid.inode, 1, 2, 4242), Ok(b("24")));
    assert_eq!(fs.read(pid.inode, 2, 100, 4242), Ok(b("42")));
    assert_eq!(fs.read(pid.inode, 4, 10, 4242), Ok(Vec::new()));
    assert_eq!(fs.read(pid.inode, 9, 10, 4242), Ok(Vec::new()));
    assert_eq!(fs.read(pid.inode, 0, 0, 4242), Ok(Vec::new()));
    assert_eq!(fs.read(pid.inode, -3, 10, 4242), Ok(Vec::new()));
}

#[test]
fn read_outside_or_without_content() {
    let mut fs = Filesystem::new();
    assert_eq!(fs.read(1, 0, 10, 5), Err(Errno::NotSupported));
    let ctrl = fs.lookup(1, &b(".repro")).unwrap();
    let lic = fs.lookup(ctrl.inode, &b("licorne")).unwrap();
    let mag = fs.lookup(lic.inode, &b("magique")).unwrap();
    assert_eq!(fs.read(mag.inode, 0, 10, 5), Err(Errno::NotSupported));
}

#[test]
fn delete_trigger() {
    let mut fs = Filesystem::new();
    let ctrl = fs.lookup(1, &b(".repro")).unwrap();
    let lic = fs.lookup(ctrl.inode, &b("licorne")).unwrap();
    assert_eq!(fs.unlink(ctrl.inode, &b("pid")), Ok(true));
    assert_eq!(fs.unlink(lic.inode, &b("magique")), Ok(false));
    assert_eq!(fs.unlink(ctrl.inode, &b("licorne")), Ok(false));
    assert_eq!(fs.unlink(1, &b("pid")), Err(Errno::NotSupported));
}

#[test]
fn attributes_kind() {
    let mut fs = Filesystem::new();
    assert_eq!(fs.getattr(1), Ok(FileKind::Directory));
    assert_eq!(fs.getattr(2), Err(Errno::NotFound));
    let ctrl = fs.lookup(1, &b(".repro")).unwrap();
    let pid = fs.lookup(ctrl.inode, &b("pid")).unwrap();
    assert_eq!(fs.getattr(ctrl.inode), Ok(FileKind::Directory));
    assert_eq!(fs.getattr(pid.inode), Ok(FileKind::RegularFile));
}
