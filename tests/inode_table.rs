use repro::inode::{Inode, Table};

fn b(s: &str) -> Vec<u8> {
    s.as_bytes().to_vec()
}

#[test]
fn lookup_is_stable_for_repeated_pairs() {
    let mut t = Table::new();
    let a = t.lookup(Inode(1), &b(".repro"));
    let c = t.lookup(a, &b("pid"));
    let a2 = t.lookup(Inode(1), &b(".repro"));
    let c2 = t.lookup(a, &b("pid"));
    assert_eq!(a, a2);
    assert_eq!(c, c2);
    assert_eq!(t.len(), 2);
}

#[test]
fn lookup_gives_distinct_identities_to_distinct_pairs() {
    let mut t = Table::new();
    let a = t.lookup(Inode(1), &b("x"));
    let c = t.lookup(Inode(1), &b("y"));
    let d = t.lookup(a, &b("y"));
    assert_eq!(a, Inode(2));
    assert_eq!(c, Inode(3));
    assert_eq!(d, Inode(4));
}

#[test]
fn name_parent_and_generation() {
    let mut t = Table::new();
    let a = t.lookup(Inode(1), &b(".repro"));
    let c = t.lookup(a, &b("licorne"));
    assert_eq!(t.name(c), b("licorne"));
    assert_eq!(t.parent(c), a);
    assert_eq!(t.parent(a), Inode(1));
    assert_eq!(t.generation(c), 0);
}

#[test]
fn parents_walk_up_to_the_root() {
    let mut t = Table::new();
    let a = t.lookup(Inode(1), &b(".repro"));
    let l = t.lookup(a, &b("licorne"));
    let m = t.lookup(l, &b("magique"));
    assert_eq!(t.parents(m), vec![b("licorne"), b(".repro")]);
    assert_eq!(t.parents(a), Vec::<Vec<u8>>::new());
    assert_eq!(t.chain(m), vec![b("magique"), b("licorne"), b(".repro")]);
}

#[test]
fn inode_index_conversions() {
    assert_eq!(Inode::from_index(0), Inode(2));
    assert_eq!(Inode(7).as_index(), 5);
    assert!(Inode(1).is_root());
    assert!(!Inode(2).is_root());
}

#[test]
fn contains_only_handed_out_identities() {
    let mut t = Table::new();
    assert!(!t.contains(Inode(2)));
    let a = t.lookup(Inode(1), &b("x"));
    assert!(t.contains(a));
    assert!(!t.contains(Inode(1)));
    assert!(!t.contains(Inode(0)));
    assert!(!t.contains(Inode(3)));
}
