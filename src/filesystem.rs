use vstd::prelude::*;

use crate::control::{
    self, catalogue_children, catalogue_content, catalogue_kind, catalogue_shutdown, child_views,
    control_name, inside, licorne_name, magique_name, pid_name, FileKind,
};
use crate::decimal::{decimal, lemma_decimal_round_trip};
use crate::inode::{
    allocated, chain, copy_bytes, keys_wf, known, lookup_spec, path_of, Inode, Keys, Table, ROOT,
};

verus! {

/// The errors that the mount protocol is told of.
#[derive(PartialEq, Eq, Structural, Clone, Copy, Debug)]
pub enum Errno {
    /// No such entry.
    NotFound,
    /// Operation not supported.
    NotSupported,
}

/// What a successful lookup answers.
#[derive(PartialEq, Eq, Structural, Clone, Copy, Debug)]
pub struct Found {
    pub inode: u64,
    pub kind: FileKind,
    pub generation: u64,
}

/// One entry of a directory listing. `offset` is the position of the next
/// entry, from which a later listing resumes.
pub struct DirEntry {
    pub inode: u64,
    pub offset: i64,
    pub kind: FileKind,
    pub name: Vec<u8>,
}

impl View for DirEntry {
    type V = (u64, i64, FileKind, Seq<u8>);

    open spec fn view(&self) -> (u64, i64, FileKind, Seq<u8>) {
        (self.inode, self.offset, self.kind, self.name@)
    }
}

/// Identity reported where none is given: the parent of the mount root and
/// the entries of a listing.
pub const UNKNOWN: u64 = 0;

/// The full listing of `ino`, `.` and `..` first; `None` where `ino` is no
/// directory that this filesystem lists.
pub open spec fn listing(t: Keys, ino: u64) -> Option<Seq<(u64, FileKind, Seq<u8>)>> {
    if ino == ROOT {
        Some(seq![
            (ino, FileKind::Directory, seq![46u8]),
            (UNKNOWN, FileKind::Directory, seq![46u8, 46u8]),
            (UNKNOWN, FileKind::Directory, control_name()),
        ])
    } else if inside(t, ino as int) && catalogue_children(path_of(t, ino as int)) is Some {
        Some(seq![
            (ino, FileKind::Directory, seq![46u8]),
            (t[ino - 2].0, FileKind::Directory, seq![46u8, 46u8]),
        ] + catalogue_children(path_of(t, ino as int)).unwrap().map_values(
            |c: (Seq<u8>, FileKind)| (UNKNOWN, c.1, c.0),
        ))
    } else {
        None
    }
}

/// The names of a listing, in order.
pub open spec fn names_of(l: Seq<(u64, FileKind, Seq<u8>)>) -> Seq<Seq<u8>> {
    l.map_values(|e: (u64, FileKind, Seq<u8>)| e.2)
}

/// Each entry of a listing with the position of the one after it.
pub open spec fn numbered(l: Seq<(u64, FileKind, Seq<u8>)>) -> Seq<(u64, i64, FileKind, Seq<u8>)> {
    Seq::new(l.len(), |k: int| (l[k].0, (k + 1) as i64, l[k].1, l[k].2))
}

/// The part of a listing from `offset` on.
pub open spec fn listing_from(l: Seq<(u64, FileKind, Seq<u8>)>, offset: i64) -> Seq<(u64, i64, FileKind, Seq<u8>)> {
    if offset < 0 || offset >= l.len() {
        Seq::empty()
    } else {
        numbered(l).subrange(offset as int, l.len() as int)
    }
}

pub open spec fn entry_views(v: Seq<DirEntry>) -> Seq<(u64, i64, FileKind, Seq<u8>)> {
    v.map_values(|e: DirEntry| e@)
}

/// The bytes `[offset, offset + size)` of `c`, cut at its end.
pub open spec fn clip(c: Seq<u8>, offset: i64, size: u32) -> Seq<u8> {
    if offset < 0 || offset >= c.len() {
        Seq::empty()
    } else if offset + size > c.len() {
        c.subrange(offset as int, c.len() as int)
    } else {
        c.subrange(offset as int, offset + size)
    }
}

/// The name `.`.
fn dot() -> (r: Vec<u8>)
    ensures
        r@ == seq![46u8],
{
    let mut r: Vec<u8> = Vec::new();
    r.push(46u8);
    assert(r@ =~= seq![46u8]);
    r
}

/// The name `..`.
fn dot_dot() -> (r: Vec<u8>)
    ensures
        r@ == seq![46u8, 46u8],
{
    let mut r: Vec<u8> = Vec::new();
    r.push(46u8);
    r.push(46u8);
    assert(r@ =~= seq![46u8, 46u8]);
    r
}

/// The mount root is never inside the control subtree, and an identity is
/// inside exactly when its path from the root starts at the control directory.
pub proof fn lemma_containment(t: Keys, ino: u64)
    ensures
        !inside(t, ROOT as int),
        inside(t, ino as int) <==> (allocated(t, ino as int) && path_of(t, ino as int).len() > 0
            && path_of(t, ino as int)[0] == control_name()),
{
    if allocated(t, ino as int) {
        assert(chain(t, ino - 2).len() > 0);
        assert(path_of(t, ino as int).len() > 0);
    }
}

/// Listing the control directory gives `.`, `..`, `pid` and `licorne`;
/// listing `licorne` below it gives `.`, `..` and `magique`.
pub proof fn lemma_listing_names(t: Keys, ino: u64)
    requires
        keys_wf(t),
    ensures
        path_of(t, ino as int) == seq![control_name()] ==> (listing(t, ino) matches Some(l)
            && names_of(l) == seq![seq![46u8], seq![46u8, 46u8], pid_name(), licorne_name()]),
        path_of(t, ino as int) == seq![control_name(), licorne_name()] ==> (listing(t, ino) matches Some(l)
            && names_of(l) == seq![seq![46u8], seq![46u8, 46u8], magique_name()]),
{
    lemma_containment(t, ino);
    if path_of(t, ino as int) == seq![control_name()] {
        assert(path_of(t, ino as int).len() == 1);
        assert(allocated(t, ino as int)) by {
            if !allocated(t, ino as int) {
                assert(path_of(t, ino as int) =~= Seq::<Seq<u8>>::empty());
            }
        }
        assert(path_of(t, ino as int) != seq![control_name(), licorne_name()]);
        let l = listing(t, ino).unwrap();
        assert(names_of(l) =~= seq![seq![46u8], seq![46u8, 46u8], pid_name(), licorne_name()]);
    }
    if path_of(t, ino as int) == seq![control_name(), licorne_name()] {
        assert(path_of(t, ino as int).len() == 2);
        assert(allocated(t, ino as int)) by {
            if !allocated(t, ino as int) {
                assert(path_of(t, ino as int) =~= Seq::<Seq<u8>>::empty());
            }
        }
        assert(path_of(t, ino as int) != seq![control_name()]);
        let l = listing(t, ino).unwrap();
        assert(names_of(l) =~= seq![seq![46u8], seq![46u8, 46u8], magique_name()]);
    }
}

/// Reading from an offset at or past the end gives nothing; reading from
/// the start at least the content's length gives all of it; and the pid
/// file's content is the decimal text of the process id at the time of the
/// read.
pub proof fn lemma_read_clipping(t: Keys, ino: u64, pid: u32, offset: i64, size: u32)
    requires
        keys_wf(t),
    ensures
        path_of(t, ino as int) == seq![control_name(), pid_name()] ==> catalogue_content(path_of(t, ino as int), pid)
            == Some(decimal(pid as nat)),
        offset >= decimal(pid as nat).len() ==> clip(decimal(pid as nat), offset, size) == Seq::<u8>::empty(),
        offset == 0 && size >= decimal(pid as nat).len() ==> clip(decimal(pid as nat), offset, size) == decimal(pid as nat),
{
    let c = decimal(pid as nat);
    if offset == 0 && size >= c.len() {
        lemma_decimal_round_trip(pid as nat);
        assert(c.subrange(0, c.len() as int) =~= c);
    }
}

/// Deleting `pid` from the control directory is the shutdown trigger;
/// deleting `magique` from `licorne` is accepted and triggers nothing.
pub proof fn lemma_delete_trigger(t: Keys, parent: u64, name: Seq<u8>)
    requires
        keys_wf(t),
    ensures
        path_of(t, parent as int) == seq![control_name()] ==> inside(t, parent as int)
            && (catalogue_shutdown(path_of(t, parent as int), name) <==> name == pid_name()),
        path_of(t, parent as int) == seq![control_name(), licorne_name()] ==> inside(t, parent as int)
            && !catalogue_shutdown(path_of(t, parent as int), name),
{
    lemma_containment(t, parent);
    if path_of(t, parent as int) == seq![control_name()] {
        assert(path_of(t, parent as int).len() == 1);
    }
    if path_of(t, parent as int) == seq![control_name(), licorne_name()] {
        assert(path_of(t, parent as int).len() == 2);
    }
}

/// The request handler of the mount: it owns the inode table.
pub struct Filesystem {
    inodes: Table,
}

impl View for Filesystem {
    type V = Keys;

    closed spec fn view(&self) -> Keys {
        self.inodes@
    }
}

impl Filesystem {
    pub closed spec fn wf(&self) -> bool {
        self.inodes.wf()
    }

    pub fn new() -> (r: Filesystem)
        ensures
            r.wf(),
            r@ == Seq::<(u64, Seq<u8>)>::empty(),
    {
        Filesystem { inodes: Table::new() }
    }

    /// Resolves `name` in the directory `parent`. It succeeds only for an
    /// entry of the virtual tree; every other name of a known parent is still
    /// given an identity. A parent that the table does not know, or a table
    /// whose identities are spent, gives `NotFound` and leaves it unchanged.
    pub fn lookup(&mut self, parent: u64, name: &Vec<u8>) -> (r: Result<Found, Errno>)
        requires
            old(self).wf(),
        ensures
            final(self).wf(),
            !known(old(self)@, parent as int) || old(self)@.len() + 3 > u64::MAX ==> {
                &&& final(self)@ == old(self)@
                &&& r == Err::<Found, Errno>(Errno::NotFound)
            },
            known(old(self)@, parent as int) && old(self)@.len() + 3 <= u64::MAX ==> {
                let (t, ino) = lookup_spec(old(self)@, parent, name@);
                &&& final(self)@ == t
                &&& r == if inside(t, ino) && catalogue_kind(path_of(t, ino)) is Some {
                    Ok(Found { inode: ino as u64, kind: catalogue_kind(path_of(t, ino)).unwrap(), generation: 0 })
                } else {
                    Err(Errno::NotFound)
                }
            },
    {
        let parent = Inode(parent);
        if !parent.is_root() && !self.inodes.contains(parent) {
            return Err(Errno::NotFound);
        }
        if self.inodes.len() as u64 > u64::MAX - 3 {
            return Err(Errno::NotFound);
        }
        let ino = self.inodes.lookup(parent, name);
        if control::is_inside(&self.inodes, ino) {
            match control::file_type(&self.inodes, ino) {
                Some(kind) => Ok(Found { inode: ino.0, kind, generation: self.inodes.generation(ino) }),
                None => Err(Errno::NotFound),
            }
        } else {
            Err(Errno::NotFound)
        }
    }

    /// The listing of directory `ino` from position `offset` on: `.` and
    /// `..` first, then the control directory for the root, or the
    /// catalogue's children for a virtual directory. Any other identity gives
    /// `NotFound`.
    pub fn readdir(&self, ino: u64, offset: i64) -> (r: Result<Vec<DirEntry>, Errno>)
        requires
            self.wf(),
        ensures
            match listing(self@, ino) {
                Some(l) => r matches Ok(v) && entry_views(v@) == listing_from(l, offset),
                None => r matches Err(e) && e == Errno::NotFound,
            },
    {
        let inode = Inode(ino);
        let mut full: Vec<DirEntry> = Vec::new();
        let ghost l: Seq<(u64, FileKind, Seq<u8>)>;
        if inode.is_root() {
            full.push(DirEntry { inode: ino, offset: 1, kind: FileKind::Directory, name: dot() });
            full.push(DirEntry { inode: UNKNOWN, offset: 2, kind: FileKind::Directory, name: dot_dot() });
            full.push(DirEntry { inode: UNKNOWN, offset: 3, kind: FileKind::Directory, name: control::root_directory() });
            proof {
                l = listing(self@, ino).unwrap();
                assert(entry_views(full@) =~= numbered(l));
            }
        } else {
            if !control::is_inside(&self.inodes, inode) {
                return Err(Errno::NotFound);
            }
            let children = match control::readdir(&self.inodes, inode) {
                Some(children) => children,
                None => return Err(Errno::NotFound),
            };
            let parent = self.inodes.parent(inode);
            full.push(DirEntry { inode: ino, offset: 1, kind: FileKind::Directory, name: dot() });
            full.push(DirEntry { inode: parent.0, offset: 2, kind: FileKind::Directory, name: dot_dot() });
            proof {
                l = listing(self@, ino).unwrap();
                assert(entry_views(full@) =~= numbered(l).subrange(0, 2));
            }
            let mut k: usize = 0;
            while k < children.len()
                invariant
                    ino != ROOT,
                    inside(self@, ino as int),
                    listing(self@, ino) is Some,
                    l == listing(self@, ino).unwrap(),
                    l.len() == children@.len() + 2,
                    catalogue_children(path_of(self@, ino as int)) == Some(child_views(children@)),
                    children@.len() <= 2,
                    0 <= k <= children@.len(),
                    entry_views(full@) == numbered(l).subrange(0, k + 2),
                decreases children@.len() - k,
            {
                let ghost before = full@;
                let name = copy_bytes(&children[k].0);
                full.push(DirEntry { inode: UNKNOWN, offset: k as i64 + 3, kind: children[k].1, name });
                assert(child_views(children@)[k as int] == (children@[k as int].0@, children@[k as int].1));
                assert(l[k + 2] == (UNKNOWN, children@[k as int].1, children@[k as int].0@));
                assert(entry_views(full@) =~= entry_views(before).push(
                    (UNKNOWN, (k + 3) as i64, children@[k as int].1, children@[k as int].0@),
                ));
                assert(entry_views(full@) =~= numbered(l).subrange(0, k + 3));
                k = k + 1;
            }
        }
        assert(entry_views(full@) =~= numbered(l));
        if offset < 0 || offset as u64 >= full.len() as u64 {
            return Ok(Vec::new());
        }
        let rest = full.split_off(offset as usize);
        assert(entry_views(rest@) =~= listing_from(l, offset));
        Ok(rest)
    }

    /// The kind of entry of `ino`: a directory for the root, else its kind in
    /// the virtual tree.
    pub fn getattr(&self, ino: u64) -> (r: Result<FileKind, Errno>)
        requires
            self.wf(),
        ensures
            ino == ROOT ==> r == Ok::<FileKind, Errno>(FileKind::Directory),
            ino != ROOT ==> r == match catalogue_kind(path_of(self@, ino as int)) {
                Some(k) => Ok(k),
                None => Err(Errno::NotFound),
            },
    {
        let ino = Inode(ino);
        if ino.is_root() {
            Ok(FileKind::Directory)
        } else {
            match control::file_type(&self.inodes, ino) {
                Some(kind) => Ok(kind),
                None => Err(Errno::NotFound),
            }
        }
    }

    /// The bytes `[offset, offset + size)` of the file `ino`, cut at the end
    /// of its content, which is generated now from the process id `pid`.
    /// Outside the control subtree, and for files without content, the
    /// operation is not supported.
    pub fn read(&self, ino: u64, offset: i64, size: u32, pid: u32) -> (r: Result<Vec<u8>, Errno>)
        requires
            self.wf(),
        ensures
            match r {
                Ok(v) => inside(self@, ino as int)
                    && catalogue_content(path_of(self@, ino as int), pid) is Some
                    && v@ == clip(catalogue_content(path_of(self@, ino as int), pid).unwrap(), offset, size),
                Err(e) => e == Errno::NotSupported && !(inside(self@, ino as int)
                    && catalogue_content(path_of(self@, ino as int), pid) is Some),
            },
    {
        let ino = Inode(ino);
        if !control::is_inside(&self.inodes, ino) {
            return Err(Errno::NotSupported);
        }
        let data = match control::read(&self.inodes, ino, pid) {
            Some(data) => data,
            None => return Err(Errno::NotSupported),
        };
        let len = data.len();
        if offset < 0 || offset as u64 >= len as u64 {
            return Ok(Vec::new());
        }
        let start = offset as usize;
        let end = if size as usize > len - start { len } else { start + size as usize };
        let mut out: Vec<u8> = Vec::new();
        let mut i: usize = start;
        while i < end
            invariant
                start <= i <= end <= len == data@.len(),
                out@ == data@.subrange(start as int, i as int),
            decreases end - i,
        {
            out.push(data[i]);
            i = i + 1;
            assert(out@ =~= data@.subrange(start as int, i as int));
        }
        Ok(out)
    }

    /// Deleting `name` from the directory `parent`: `Ok(true)` for the
    /// shutdown trigger, after which the process is to exit; `Ok(false)` for
    /// every other name inside the control subtree, which changes nothing.
    pub fn unlink(&self, parent: u64, name: &Vec<u8>) -> (r: Result<bool, Errno>)
        requires
            self.wf(),
        ensures
            r == if inside(self@, parent as int) {
                Ok::<bool, Errno>(catalogue_shutdown(path_of(self@, parent as int), name@))
            } else {
                Err(Errno::NotSupported)
            },
    {
        let parent = Inode(parent);
        if control::is_inside(&self.inodes, parent) {
            Ok(control::unlink(&self.inodes, parent, name))
        } else {
            Err(Errno::NotSupported)
        }
    }
}

} // verus!
