use vstd::prelude::*;

use crate::decimal::{decimal, decimal_text};
use crate::inode::{allocated, chain, copy_bytes, path_of, same_bytes, views, Inode, Keys, Table};

verus! {

/// Kinds of entries in the virtual tree.
#[derive(PartialEq, Eq, Structural, Clone, Copy, Debug)]
pub enum FileKind {
    Directory,
    RegularFile,
}

/// Name of the control directory, at the top of the mount: `.repro` in ASCII.
pub open spec fn control_name() -> Seq<u8> {
    seq![46, 114, 101, 112, 114, 111]
}

/// Name of the file that holds the process id: `pid` in ASCII.
pub open spec fn pid_name() -> Seq<u8> {
    seq![112, 105, 100]
}

/// `licorne` in ASCII.
pub open spec fn licorne_name() -> Seq<u8> {
    seq![108, 105, 99, 111, 114, 110, 101]
}

/// `magique` in ASCII.
pub open spec fn magique_name() -> Seq<u8> {
    seq![109, 97, 103, 105, 113, 117, 101]
}

/// The catalogue of virtual paths, from the mount root down, with their kinds.
pub open spec fn catalogue_kind(path: Seq<Seq<u8>>) -> Option<FileKind> {
    if path == seq![control_name()] {
        Some(FileKind::Directory)
    } else if path == seq![control_name(), pid_name()] {
        Some(FileKind::RegularFile)
    } else if path == seq![control_name(), licorne_name()] {
        Some(FileKind::Directory)
    } else if path == seq![control_name(), licorne_name(), magique_name()] {
        Some(FileKind::RegularFile)
    } else {
        None
    }
}

/// The children of each virtual directory, in listing order, with their kinds.
pub open spec fn catalogue_children(path: Seq<Seq<u8>>) -> Option<Seq<(Seq<u8>, FileKind)>> {
    if path == seq![control_name()] {
        Some(seq![(pid_name(), FileKind::RegularFile), (licorne_name(), FileKind::Directory)])
    } else if path == seq![control_name(), licorne_name()] {
        Some(seq![(magique_name(), FileKind::RegularFile)])
    } else {
        None
    }
}

/// Every child that a virtual directory lists is itself in the catalogue,
/// with the kind that the listing gives it.
pub proof fn lemma_children_kinds(path: Seq<Seq<u8>>)
    requires
        catalogue_children(path) is Some,
    ensures
        forall|i: int| 0 <= i < catalogue_children(path).unwrap().len()
            ==> catalogue_kind(path.push(#[trigger] catalogue_children(path).unwrap()[i].0))
                == Some(catalogue_children(path).unwrap()[i].1),
{
    if path == seq![control_name()] {
        assert(path.push(pid_name()) =~= seq![control_name(), pid_name()]);
        assert(path.push(licorne_name()) =~= seq![control_name(), licorne_name()]);
        assert(pid_name() != licorne_name());
    } else {
        assert(path.push(magique_name()) =~= seq![control_name(), licorne_name(), magique_name()]);
    }
}

/// The byte views of a listing of names and kinds.
pub open spec fn child_views(v: Seq<(Vec<u8>, FileKind)>) -> Seq<(Seq<u8>, FileKind)> {
    v.map_values(|c: (Vec<u8>, FileKind)| (c.0@, c.1))
}

/// The content of the file at `path` when the process id is `pid`: its
/// decimal text for the pid file, nothing for any other path.
pub open spec fn catalogue_content(path: Seq<Seq<u8>>, pid: u32) -> Option<Seq<u8>> {
    if path == seq![control_name(), pid_name()] {
        Some(decimal(pid as nat))
    } else {
        None
    }
}

/// Deleting `name` from the directory at `path` shuts the process down.
pub open spec fn catalogue_shutdown(path: Seq<Seq<u8>>, name: Seq<u8>) -> bool {
    path == seq![control_name()] && name == pid_name()
}

/// `ino` lies in the control subtree: its path starts at the control directory.
pub open spec fn inside(t: Keys, ino: int) -> bool {
    allocated(t, ino) && path_of(t, ino)[0] == control_name()
}

/// `ino` is the virtual path `decl` below the control directory.
pub open spec fn matches_path(t: Keys, ino: int, decl: Seq<Seq<u8>>) -> bool {
    allocated(t, ino) && path_of(t, ino) == seq![control_name()] + decl
}

/// The name of the control directory.
pub fn root_directory() -> (r: Vec<u8>)
    ensures
        r@ == control_name(),
{
    let r = vec![46u8, 114, 101, 112, 114, 111];
    assert(r@ =~= control_name());
    r
}

fn pid_file() -> (r: Vec<u8>)
    ensures
        r@ == pid_name(),
{
    let r = vec![112u8, 105, 100];
    assert(r@ =~= pid_name());
    r
}

fn licorne() -> (r: Vec<u8>)
    ensures
        r@ == licorne_name(),
{
    let r = vec![108u8, 105, 99, 111, 114, 110, 101];
    assert(r@ =~= licorne_name());
    r
}

fn magique() -> (r: Vec<u8>)
    ensures
        r@ == magique_name(),
{
    let r = vec![109u8, 97, 103, 105, 113, 117, 101];
    assert(r@ =~= magique_name());
    r
}

proof fn lemma_reverse_index(s: Seq<Seq<u8>>)
    ensures
        s.reverse().len() == s.len(),
        forall|i: int| 0 <= i < s.len() ==> #[trigger] s.reverse()[i] == s[s.len() - 1 - i],
{
}

/// An identity of `table`, to be compared with virtual paths.
struct Matcher<'a>(&'a Table, Inode);

impl Matcher<'_> {
    /// The identity's path is the control directory followed by `path`.
    fn matches(&self, path: &Vec<Vec<u8>>) -> (r: bool)
        requires
            self.0.wf(),
        ensures
            r == matches_path(self.0@, self.1.0 as int, views(path@)),
    {
        let table = self.0;
        let inode = self.1;
        if !table.contains(inode) {
            return false;
        }
        let names = table.chain(inode);
        let ghost c = chain(table@, inode.0 - 2);
        let ghost e = seq![control_name()] + views(path@);
        proof {
            lemma_reverse_index(c);
            assert(c.len() >= 1);
        }
        let n = path.len();
        if names.len() - 1 != n {
            assert(path_of(table@, inode.0 as int).len() != e.len());
            return false;
        }
        let root = root_directory();
        let mut k: usize = 0;
        while k < names.len()
            invariant
                views(names@) == c,
                c == chain(table@, inode.0 - 2),
                table == self.0,
                inode == self.1,
                allocated(table@, inode.0 as int),
                c.len() == n + 1,
                e == seq![control_name()] + views(path@),
                n == path@.len(),
                root@ == control_name(),
                0 <= k <= names@.len(),
                forall|j: int| 0 <= j < k ==> c[j] == e[n - j],
            decreases names@.len() - k,
        {
            let j = n - k;
            let same = if j == 0 {
                same_bytes(&names[k], &root)
            } else {
                same_bytes(&names[k], &path[j - 1])
            };
            assert(views(names@)[k as int] == names@[k as int]@);
            if j > 0 {
                assert(views(path@)[j - 1] == path@[j - 1]@);
            }
            if !same {
                proof { lemma_reverse_index(c); }
                assert(path_of(table@, inode.0 as int)[j as int] != e[j as int]);
                return false;
            }
            k = k + 1;
        }
        assert(path_of(table@, inode.0 as int) =~= e) by {
            lemma_reverse_index(c);
            assert forall|j: int| 0 <= j < e.len() implies path_of(table@, inode.0 as int)[j] == e[j] by {
                assert(c[n - j] == e[n - (n - j)]);
            }
        }
        true
    }
}

/// The identity lies in the control subtree: the topmost ancestor, or the
/// identity itself when it has none, is the control directory. False for the
/// root and for identities that the table has not handed out.
pub fn is_inside(table: &Table, inode: Inode) -> (r: bool)
    requires
        table.wf(),
    ensures
        r == inside(table@, inode.0 as int),
{
    if !table.contains(inode) {
        return false;
    }
    let names = table.chain(inode);
    proof {
        lemma_reverse_index(chain(table@, inode.0 - 2));
    }
    let last = names.len() - 1;
    assert(views(names@)[last as int] == names@[last as int]@);
    same_bytes(&names[last], &root_directory())
}

fn path_of_names(a: &Vec<u8>, b: &Vec<u8>) -> (r: Vec<Vec<u8>>)
    ensures
        views(r@) == seq![a@, b@],
{
    let mut r: Vec<Vec<u8>> = Vec::new();
    r.push(copy_bytes(a));
    r.push(copy_bytes(b));
    assert(views(r@) =~= seq![a@, b@]);
    r
}

fn path_of_name(a: &Vec<u8>) -> (r: Vec<Vec<u8>>)
    ensures
        views(r@) == seq![a@],
{
    let mut r: Vec<Vec<u8>> = Vec::new();
    r.push(copy_bytes(a));
    assert(views(r@) =~= seq![a@]);
    r
}

/// The children of the virtual directory that the identity is, in listing
/// order and with their kinds; `None` where it is no virtual directory.
pub fn readdir(table: &Table, inode: Inode) -> (r: Option<Vec<(Vec<u8>, FileKind)>>)
    requires
        table.wf(),
    ensures
        match r {
            Some(v) => catalogue_children(path_of(table@, inode.0 as int)) == Some(child_views(v@)),
            None => catalogue_children(path_of(table@, inode.0 as int)) is None,
        },
{
    let matcher = Matcher(table, inode);
    let empty: Vec<Vec<u8>> = Vec::new();
    assert(seq![control_name()] + views(empty@) =~= seq![control_name()]);
    assert(seq![control_name()] + seq![licorne_name()] =~= seq![control_name(), licorne_name()]);
    if matcher.matches(&empty) {
        let r = vec![(pid_file(), FileKind::RegularFile), (licorne(), FileKind::Directory)];
        assert(child_views(r@) =~= seq![(pid_name(), FileKind::RegularFile), (licorne_name(), FileKind::Directory)]);
        Some(r)
    } else if matcher.matches(&path_of_name(&licorne())) {
        let r = vec![(magique(), FileKind::RegularFile)];
        assert(child_views(r@) =~= seq![(magique_name(), FileKind::RegularFile)]);
        Some(r)
    } else {
        None
    }
}

/// The kind of entry that the identity is in the virtual tree; `None` where
/// it is not in the tree.
pub fn file_type(table: &Table, inode: Inode) -> (r: Option<FileKind>)
    requires
        table.wf(),
    ensures
        r == catalogue_kind(path_of(table@, inode.0 as int)),
{
    let matcher = Matcher(table, inode);
    let empty: Vec<Vec<u8>> = Vec::new();
    let pid = path_of_name(&pid_file());
    let lic = path_of_name(&licorne());
    let mag = path_of_names(&licorne(), &magique());
    assert(seq![control_name()] + views(empty@) =~= seq![control_name()]);
    assert(seq![control_name()] + views(pid@) =~= seq![control_name(), pid_name()]);
    assert(seq![control_name()] + views(lic@) =~= seq![control_name(), licorne_name()]);
    assert(seq![control_name()] + views(mag@) =~= seq![control_name(), licorne_name(), magique_name()]);
    if matcher.matches(&empty) {
        Some(FileKind::Directory)
    } else if matcher.matches(&pid) {
        Some(FileKind::RegularFile)
    } else if matcher.matches(&lic) {
        Some(FileKind::Directory)
    } else if matcher.matches(&mag) {
        Some(FileKind::RegularFile)
    } else {
        None
    }
}

/// The content of the file that the identity is, generated now from the
/// process id `pid`; `None` where no content is defined.
pub fn read(table: &Table, inode: Inode, pid: u32) -> (r: Option<Vec<u8>>)
    requires
        table.wf(),
    ensures
        match r {
            Some(v) => catalogue_content(path_of(table@, inode.0 as int), pid) == Some(v@),
            None => catalogue_content(path_of(table@, inode.0 as int), pid) is None,
        },
{
    let matcher = Matcher(table, inode);
    let path = path_of_name(&pid_file());
    assert(seq![control_name()] + views(path@) =~= seq![control_name(), pid_name()]);
    if matcher.matches(&path) {
        Some(decimal_text(pid))
    } else {
        None
    }
}

/// Whether deleting `name` from the directory `parent` is the shutdown
/// trigger: the pid file of the control directory. Every other delete has no
/// effect.
pub fn unlink(table: &Table, parent: Inode, name: &Vec<u8>) -> (shutdown: bool)
    requires
        table.wf(),
    ensures
        shutdown == catalogue_shutdown(path_of(table@, parent.0 as int), name@),
{
    let matcher = Matcher(table, parent);
    let empty: Vec<Vec<u8>> = Vec::new();
    assert(seq![control_name()] + views(empty@) =~= seq![control_name()]);
    matcher.matches(&empty) && same_bytes(name, &pid_file())
}

} // verus!
