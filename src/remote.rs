use vstd::prelude::*;

use crate::control::{catalogue_content, control_name, pid_name, root_directory};
use crate::decimal::{lemma_parse_decimal_text, parse_decimal, parse_spec};
use crate::inode::copy_bytes;

verus! {

/// `dir` and `name` joined by a path separator, with none added after an
/// empty `dir` or one that already ends in a separator.
pub open spec fn join(dir: Seq<u8>, name: Seq<u8>) -> Seq<u8> {
    if dir.len() == 0 || dir.last() == 47u8 {
        dir + name
    } else {
        dir.push(47u8) + name
    }
}

/// Appends `name` to the path `dir`.
pub fn join_path(dir: &Vec<u8>, name: &Vec<u8>) -> (r: Vec<u8>)
    ensures
        r@ == join(dir@, name@),
{
    let mut r = copy_bytes(dir);
    if r.len() > 0 && r[r.len() - 1] != 47u8 {
        r.push(47u8);
    }
    let mut i: usize = 0;
    let ghost base = r@;
    while i < name.len()
        invariant
            0 <= i <= name@.len(),
            r@ == base + name@.subrange(0, i as int),
        decreases name@.len() - i,
    {
        r.push(name[i]);
        i = i + 1;
        assert(r@ =~= base + name@.subrange(0, i as int));
    }
    assert(name@.subrange(0, name@.len() as int) =~= name@);
    r
}

/// The path of the control directory below `mountpoint`.
pub fn control_directory(mountpoint: &Vec<u8>) -> (r: Vec<u8>)
    ensures
        r@ == join(mountpoint@, control_name()),
{
    join_path(mountpoint, &root_directory())
}

/// A second process that reads the pid file of a mount made by a process
/// with id `pid` parses that very id back.
pub proof fn lemma_remote_pid(pid: u32)
    ensures
        catalogue_content(seq![control_name(), pid_name()], pid) matches Some(c) && parse_spec(c) == Some(pid),
{
    lemma_parse_decimal_text(pid);
}

/// A handle on a filesystem that another process has mounted, reached through
/// its control directory.
pub struct Remote {
    dir: Vec<u8>,
}

impl View for Remote {
    type V = Seq<u8>;

    /// The path of the control directory.
    closed spec fn view(&self) -> Seq<u8> {
        self.dir@
    }
}

/// A handle on the filesystem mounted at `mountpoint`, where its control
/// directory exists there; the existence of that directory is the only sign
/// of a mount.
pub fn remote(mountpoint: &Vec<u8>, control_directory_exists: bool) -> (r: Option<Remote>)
    ensures
        control_directory_exists ==> (r matches Some(h) && h@ == join(mountpoint@, control_name())),
        !control_directory_exists ==> r is None,
{
    if control_directory_exists {
        Some(Remote { dir: control_directory(mountpoint) })
    } else {
        None
    }
}

impl Remote {
    /// The path of the control directory.
    pub fn dir(&self) -> (r: Vec<u8>)
        ensures
            r@ == self@,
    {
        copy_bytes(&self.dir)
    }

    /// The path of the pid file, which is read for the process id and deleted
    /// to shut the mounted process down.
    pub fn pid_file(&self) -> (r: Vec<u8>)
        ensures
            r@ == join(self@, pid_name()),
    {
        let name = vec![112u8, 105u8, 100u8];
        assert(name@ =~= pid_name());
        join_path(&self.dir, &name)
    }

    /// The process id that the pid file's `content` spells.
    pub fn parse_pid(&self, content: &Vec<u8>) -> (r: Option<u32>)
        ensures
            r == parse_spec(content@),
    {
        parse_decimal(content)
    }
}

} // verus!
