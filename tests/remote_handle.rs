use repro::remote::{control_directory, join_path, remote};

fn b(s: &str) -> Vec<u8> {
    s.as_bytes().to_vec()
}

#[test]
fn control_directory_paths() {
    assert_eq!(control_directory(&b("/mnt/d")), b("/mnt/d/.repro"));
    assert_eq!(control_directory(&b("/mnt/d/")), b("/mnt/d/.repro"));
    assert_eq!(control_directory(&b("")), b(".repro"));
    assert_eq!(join_path(&b("a"), &b("b")), b("a/b"));
}

#[test]
fn remote_detection() {
    assert!(remote(&b("/mnt/d"), false).is_none());
    let r = remote(&b("/mnt/d"), true).unwrap();
    assert_eq!(r.dir(), b("/mnt/d/.repro"));
    assert_eq!(r.pid_file(), b("/mnt/d/.repro/pid"));
}

#[test]
fn remote_pid_parsing() {
    let r = remote(&b("/mnt/d"), true).unwrap();
    assert_eq!(r.parse_pid(&b("1234")), Some(1234));
    assert_eq!(r.parse_pid(&b("12x4")), None);
    assert_eq!(r.parse_pid(&b("")), None);
}
