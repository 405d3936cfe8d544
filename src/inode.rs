use vstd::prelude::*;

verus! {

/// Identity of the mount root.
pub const ROOT: u64 = 1;

/// A filesystem identity: `0` is invalid, `1` is the mount root and every
/// other value names an entry of the inode table.
#[derive(PartialEq, Eq, Structural, Clone, Copy, Debug, Hash)]
pub struct Inode(pub u64);

impl Inode {
    /// Identity of the table entry stored at `index`.
    pub fn from_index(index: usize) -> (r: Inode)
        requires
            index + 2 <= u64::MAX,
        ensures
            r.0 == index + 2,
    {
        Inode(index as u64 + 2)
    }

    pub fn is_root(&self) -> (r: bool)
        ensures
            r == (self.0 == ROOT),
    {
        self.0 == ROOT
    }

    /// Position in the table of a non-root, non-null identity.
    pub fn as_index(&self) -> (r: usize)
        requires
            self.0 >= 2,
            self.0 - 2 <= usize::MAX,
        ensures
            r == self.0 - 2,
    {
        (self.0 - 2) as usize
    }
}

/// What the table records of each entry: its parent's identity and its name.
pub type Keys = Seq<(u64, Seq<u8>)>;

/// The byte views of a sequence of names.
pub open spec fn views(v: Seq<Vec<u8>>) -> Seq<Seq<u8>> {
    v.map_values(|b: Vec<u8>| b@)
}

/// `ino` is the root or an identity that the table has handed out.
pub open spec fn known(t: Keys, ino: int) -> bool {
    ino == ROOT || (2 <= ino && ino - 2 < t.len())
}

/// `ino` is an identity that the table has handed out (not the root).
pub open spec fn allocated(t: Keys, ino: int) -> bool {
    2 <= ino && ino - 2 < t.len()
}

/// Every parent was known before its child was added, and no `(parent, name)`
/// pair is stored twice.
pub open spec fn keys_wf(t: Keys) -> bool {
    &&& forall|i: int| 0 <= i < t.len() ==> (#[trigger] t[i]).0 == ROOT || (2 <= t[i].0 && t[i].0 - 2 < i)
    &&& forall|i: int, j: int| 0 <= i < t.len() && 0 <= j < t.len() && i != j ==> #[trigger] t[i] != #[trigger] t[j]
}

/// The names from the entry at index `i` up to, but not including, the root:
/// its own name first.
pub open spec fn chain(t: Keys, i: int) -> Seq<Seq<u8>>
    decreases i,
{
    if 0 <= i < t.len() {
        seq![t[i].1] + ancestors(t, i)
    } else {
        Seq::empty()
    }
}

/// The names of the ancestors of the entry at index `i`, from its immediate
/// parent up to, but not including, the root.
pub open spec fn ancestors(t: Keys, i: int) -> Seq<Seq<u8>>
    decreases i, 0int,
{
    if 0 <= i < t.len() && 2 <= t[i].0 && t[i].0 - 2 < i {
        chain(t, t[i].0 - 2)
    } else {
        Seq::empty()
    }
}

/// The path of `ino` from the mount root down: empty for the root.
pub open spec fn path_of(t: Keys, ino: int) -> Seq<Seq<u8>> {
    if allocated(t, ino) {
        chain(t, ino - 2).reverse()
    } else {
        Seq::empty()
    }
}

/// The table after `lookup(parent, name)`, and the identity it returns.
pub open spec fn lookup_spec(t: Keys, parent: u64, name: Seq<u8>) -> (Keys, int) {
    if exists|i: int| 0 <= i < t.len() && t[i] == (parent, name) {
        let i = choose|i: int| 0 <= i < t.len() && t[i] == (parent, name);
        (t, i + 2)
    } else {
        (t.push((parent, name)), t.len() as int + 2)
    }
}

/// What a lookup does to the table: it keeps every earlier entry, stores the
/// pair at the identity it returns, and keeps the table well formed.
pub proof fn lemma_lookup_spec(t: Keys, parent: u64, name: Seq<u8>)
    requires
        keys_wf(t),
        known(t, parent as int),
    ensures
        ({
            let (u, ino) = lookup_spec(t, parent, name);
            &&& keys_wf(u)
            &&& allocated(u, ino)
            &&& u[ino - 2] == (parent, name)
            &&& u.len() >= t.len()
            &&& u.subrange(0, t.len() as int) == t
        }),
{
    let (u, ino) = lookup_spec(t, parent, name);
    assert(t.subrange(0, t.len() as int) =~= t);
    if !(exists|i: int| 0 <= i < t.len() && t[i] == (parent, name)) {
        assert(u.subrange(0, t.len() as int) =~= t);
        assert forall|i: int, j: int| 0 <= i < u.len() && 0 <= j < u.len() && i != j implies #[trigger] u[i] != #[trigger] u[j] by {
            if i < t.len() && j < t.len() {
                assert(u[i] == t[i] && u[j] == t[j]);
            }
        }
        assert forall|i: int| 0 <= i < u.len() implies (#[trigger] u[i]).0 == ROOT || (2 <= u[i].0 && u[i].0 - 2 < i) by {
            if i < t.len() {
                assert(u[i] == t[i]);
            }
        }
    } else {
        let i = choose|i: int| 0 <= i < t.len() && t[i] == (parent, name);
        assert(u[ino - 2] == t[i]);
    }
}

/// Chains of existing entries do not change as the table grows.
pub proof fn lemma_chain_prefix(t: Keys, u: Keys, i: int)
    requires
        keys_wf(t),
        u.len() >= t.len(),
        u.subrange(0, t.len() as int) == t,
        0 <= i < t.len(),
    ensures
        chain(u, i) == chain(t, i),
        ancestors(u, i) == ancestors(t, i),
    decreases i,
{
    assert(u[i] == u.subrange(0, t.len() as int)[i]);
    if 2 <= t[i].0 && t[i].0 - 2 < i {
        lemma_chain_prefix(t, u, t[i].0 - 2);
    }
}

/// Identity stability: once `(parent, name)` has been looked up, looking it
/// up again, after any further lookups, returns the same identity and leaves
/// the table as it is; and two different pairs never share an identity.
pub proof fn lemma_identity_stable(
    t: Keys,
    u: Keys,
    parent: u64,
    name: Seq<u8>,
    other_parent: u64,
    other_name: Seq<u8>,
)
    requires
        keys_wf(t),
        known(t, parent as int),
        keys_wf(u),
        u.len() >= lookup_spec(t, parent, name).0.len(),
        u.subrange(0, lookup_spec(t, parent, name).0.len() as int) == lookup_spec(t, parent, name).0,
        known(u, other_parent as int),
    ensures
        lookup_spec(u, parent, name) == (u, lookup_spec(t, parent, name).1),
        (other_parent, other_name) != (parent, name) ==> lookup_spec(u, other_parent, other_name).1
            != lookup_spec(t, parent, name).1,
{
    let (t1, ino) = lookup_spec(t, parent, name);
    lemma_lookup_spec(t, parent, name);
    assert(u[ino - 2] == u.subrange(0, t1.len() as int)[ino - 2]);
    assert(u[ino - 2] == (parent, name));
    let j = choose|j: int| 0 <= j < u.len() && u[j] == (parent, name);
    assert(j == ino - 2) by {
        if j != ino - 2 {
            assert(u[j] != u[ino - 2]);
        }
    }
    lemma_lookup_spec(u, other_parent, other_name);
    let (u2, ino2) = lookup_spec(u, other_parent, other_name);
    assert(u2[ino - 2] == u2.subrange(0, u.len() as int)[ino - 2]);
}

/// Ancestor chain: the entry that `lookup(parent, name)` yields has as
/// ancestors the parent's name followed by the parent's own ancestors (none
/// when the parent is the root), and its path from the root is the parent's
/// path with `name` appended.
pub proof fn lemma_ancestor_chain(t: Keys, parent: u64, name: Seq<u8>)
    requires
        keys_wf(t),
        known(t, parent as int),
    ensures
        ({
            let (u, ino) = lookup_spec(t, parent, name);
            &&& ancestors(u, ino - 2) == (if parent == ROOT {
                Seq::empty()
            } else {
                seq![t[parent - 2].1] + ancestors(t, parent - 2)
            })
            &&& path_of(u, ino) == path_of(t, parent as int).push(name)
        }),
{
    let (u, ino) = lookup_spec(t, parent, name);
    lemma_lookup_spec(t, parent, name);
    let i = ino - 2;
    assert(u[i] == (parent, name));
    if parent != ROOT {
        let p = parent - 2;
        lemma_chain_prefix(t, u, p);
        if i < t.len() {
            assert(u == t);
            assert(t[i].0 == parent);
        }
        assert(p < i);
        assert(chain(u, i) == seq![name] + chain(t, p));
        assert(path_of(u, ino) =~= path_of(t, parent as int).push(name));
    } else {
        assert(chain(u, i) =~= seq![name]);
        assert(path_of(u, ino) =~= path_of(t, parent as int).push(name));
    }
}

struct Entry {
    parent: Inode,
    name: Vec<u8>,
    nlookup: u64,
    generation: u64,
}

/// The inode table: an arena of entries where the entry of identity `i`
/// stands at index `i - 2`. It only grows.
pub struct Table {
    entries: Vec<Entry>,
}

impl View for Table {
    type V = Keys;

    closed spec fn view(&self) -> Keys {
        self.entries@.map_values(|e: Entry| (e.parent.0, e.name@))
    }
}

/// `a` and `b` hold the same bytes.
pub fn same_bytes(a: &Vec<u8>, b: &Vec<u8>) -> (r: bool)
    ensures
        r == (a@ == b@),
{
    if a.len() != b.len() {
        return false;
    }
    let mut i: usize = 0;
    while i < a.len()
        invariant
            a@.len() == b@.len(),
            0 <= i <= a@.len(),
            forall|k: int| 0 <= k < i ==> a@[k] == b@[k],
        decreases a@.len() - i,
    {
        if a[i] != b[i] {
            return false;
        }
        i = i + 1;
    }
    assert(a@ =~= b@);
    true
}

/// A copy of `a`.
pub fn copy_bytes(a: &Vec<u8>) -> (r: Vec<u8>)
    ensures
        r@ == a@,
{
    let mut r: Vec<u8> = Vec::new();
    let mut i: usize = 0;
    while i < a.len()
        invariant
            0 <= i <= a@.len(),
            r@ == a@.subrange(0, i as int),
        decreases a@.len() - i,
    {
        r.push(a[i]);
        i = i + 1;
        assert(r@ =~= a@.subrange(0, i as int));
    }
    assert(a@.subrange(0, a@.len() as int) =~= a@);
    r
}

impl Table {
    /// The table is well formed and every generation is zero.
    pub closed spec fn wf(&self) -> bool {
        &&& keys_wf(self@)
        &&& forall|i: int| 0 <= i < self.entries@.len() ==> (#[trigger] self.entries@[i]).generation == 0
    }

    /// How many times each entry has been handed out by `lookup`.
    pub closed spec fn lookup_counts(&self) -> Seq<u64> {
        self.entries@.map_values(|e: Entry| e.nlookup)
    }

    pub fn new() -> (r: Table)
        ensures
            r.wf(),
            r@ == Seq::<(u64, Seq<u8>)>::empty(),
    {
        let r = Table { entries: Vec::new() };
        assert(r@ =~= Seq::<(u64, Seq<u8>)>::empty());
        r
    }

    /// Number of entries, that is of identities handed out so far.
    pub fn len(&self) -> (r: usize)
        ensures
            r == self@.len(),
    {
        self.entries.len()
    }

    /// Position in the arena of the entry of an allocated identity.
    fn index(&self, inode: Inode) -> (i: usize)
        requires
            allocated(self@, inode.0 as int),
        ensures
            i == inode.0 - 2,
            i < self.entries@.len(),
    {
        let len = self.entries.len();
        assert(inode.0 - 2 < len);
        inode.as_index()
    }

    pub fn name(&self, inode: Inode) -> (r: Vec<u8>)
        requires
            allocated(self@, inode.0 as int),
        ensures
            r@ == self@[inode.0 - 2].1,
    {
        copy_bytes(&self.entries[self.index(inode)].name)
    }

    pub fn parent(&self, inode: Inode) -> (r: Inode)
        requires
            allocated(self@, inode.0 as int),
        ensures
            r.0 == self@[inode.0 - 2].0,
    {
        self.entries[self.index(inode)].parent
    }

    pub fn generation(&self, inode: Inode) -> (r: u64)
        requires
            self.wf(),
            allocated(self@, inode.0 as int),
        ensures
            r == 0,
    {
        self.entries[self.index(inode)].generation
    }
    /// The identity of `(parent, name)`, allocated on first sight. Every call
    /// counts one more lookup of the identity it returns.
    pub fn lookup(&mut self, parent: Inode, name: &Vec<u8>) -> (r: Inode)
        requires
            old(self).wf(),
            known(old(self)@, parent.0 as int),
            old(self)@.len() + 3 <= u64::MAX,
        ensures
            final(self).wf(),
            (final(self)@, r.0 as int) == lookup_spec(old(self)@, parent.0, name@),
            allocated(final(self)@, r.0 as int),
            final(self)@[r.0 - 2] == (parent.0, name@),
            final(self).lookup_counts().len() == final(self)@.len(),
            final(self)@.len() == old(self)@.len() ==> final(self).lookup_counts()[r.0 - 2]
                == (if old(self).lookup_counts()[r.0 - 2] == u64::MAX { u64::MAX as int } else { old(self).lookup_counts()[r.0 - 2] + 1 }),
            final(self)@.len() > old(self)@.len() ==> final(self).lookup_counts()[r.0 - 2] == 1,
            forall|i: int| 0 <= i < old(self)@.len() && i != r.0 - 2
                ==> #[trigger] final(self).lookup_counts()[i] == old(self).lookup_counts()[i],
    {
        let n = self.entries.len();
        let mut i: usize = 0;
        while i < n
            invariant
                n == self.entries@.len(),
                n == self@.len(),
                n + 3 <= u64::MAX,
                self.wf(),
                self == old(self),
                0 <= i <= n,
                forall|k: int| 0 <= k < i ==> self@[k] != (parent.0, name@),
            decreases n - i,
        {
            if self.entries[i].parent == parent && same_bytes(&self.entries[i].name, name) {
                proof {
                    assert(self@[i as int] == (parent.0, name@));
                    assert forall|k: int| 0 <= k < self@.len() && self@[k] == (parent.0, name@) implies k == i by {
                        if k != i {
                            assert(self@[k] != self@[i as int]);
                        }
                    }
                }
                let r = Inode::from_index(i);
                let count = self.entries[i].nlookup.saturating_add(1);
                self.entries[i].nlookup = count;
                assert(self@ =~= old(self)@);
                assert(self.lookup_counts() =~= old(self).lookup_counts().update(i as int, count));
                return r;
            }
            i = i + 1;
        }
        let copy = copy_bytes(name);
        self.entries.push(Entry { parent, name: copy, nlookup: 1, generation: 0 });
        assert(self@ =~= old(self)@.push((parent.0, name@)));
        assert(self.lookup_counts() =~= old(self).lookup_counts().push(1));
        Inode::from_index(n)
    }

    /// `inode` is an identity that the table has handed out.
    pub fn contains(&self, inode: Inode) -> (r: bool)
        ensures
            r == allocated(self@, inode.0 as int),
    {
        let n = self.entries.len();
        assert(self@.len() == n);
        inode.0 >= 2 && inode.0 - 2 < n as u64
    }

    /// The name of `inode` followed by those of its ancestors, up to but not
    /// including the root.
    pub fn chain(&self, inode: Inode) -> (r: Vec<Vec<u8>>)
        requires
            self.wf(),
            allocated(self@, inode.0 as int),
        ensures
            views(r@) == chain(self@, inode.0 - 2),
    {
        let mut r = self.parents(inode);
        let name = self.name(inode);
        let ghost before = r@;
        r.insert(0, name);
        assert(views(r@) =~= seq![self@[inode.0 - 2].1] + views(before));
        r
    }


    /// The names of the ancestors of `inode`, from its immediate parent up
    /// to, but not including, the root.
    pub fn parents(&self, inode: Inode) -> (r: Vec<Vec<u8>>)
        requires
            self.wf(),
            allocated(self@, inode.0 as int),
        ensures
            views(r@) == ancestors(self@, inode.0 - 2),
    {
        let mut r: Vec<Vec<u8>> = Vec::new();
        let mut current = self.parent(inode);
        assert(views(r@) + (if current.0 == ROOT { Seq::empty() } else { chain(self@, current.0 - 2) })
            =~= ancestors(self@, inode.0 - 2));
        while !current.is_root()
            invariant
                self.wf(),
                known(self@, current.0 as int),
                views(r@) + (if current.0 == ROOT { Seq::empty() } else { chain(self@, current.0 - 2) })
                    == ancestors(self@, inode.0 - 2),
            decreases current.0,
        {
            let ghost before = r@;
            let ghost c = current.0 - 2;
            let name = self.name(current);
            let next = self.parent(current);
            r.push(name);
            assert(views(r@) =~= views(before).push(self@[c].1));
            assert(chain(self@, c) =~= seq![self@[c].1] + (if next.0 == ROOT { Seq::empty() } else { chain(self@, next.0 - 2) }));
            assert(views(r@) + (if next.0 == ROOT { Seq::empty() } else { chain(self@, next.0 - 2) })
                =~= views(before) + chain(self@, c));
            current = next;
        }
        assert(views(r@) =~= views(r@) + Seq::<Seq<u8>>::empty());
        r
    }
}

} // verus!
