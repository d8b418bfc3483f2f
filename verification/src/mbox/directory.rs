//! Cluster-wide service directory: a map from service names to mailboxes in
//! which the last writer, by Lamport clock, wins.
//!
//! A service that goes away leaves a tombstone, so that a late ad with an older
//! clock cannot bring it back.
use crate::ident::NetId;
use crate::mbox::error::ServiceError;
use crate::text::text_eq;
use crate::time::Duration;
use vstd::prelude::*;
use vstd::utf8::encode_utf8;

verus! {

/// Maximum service-name length in bytes (UTF-8).
pub const MAX_SVC_NAME: usize = 256;

/// How long tombstones live before they may be collected, in nanoseconds. After
/// that a later-arriving ad is accepted even though the tombstone is forgotten.
pub const TOMBSTONE_TTL: u128 = 60_000_000_000;

/// Identifies a task, so that everything it declared can be forgotten when it
/// exits.
pub type TaskId = u64;

pub type Lamport = u64;

/// What is known of one mailbox under one service name.
#[derive(Copy, Clone, Debug, PartialEq, Eq, Structural)]
pub struct Info {
    pub lamport: Lamport,
    pub tombstone: bool,
    pub last_seen: Duration,
}

/// One mailbox under one service name.
#[derive(Debug, PartialEq, Eq)]
pub struct ServiceEntry {
    pub name: String,
    pub net_id: NetId,
    pub info: Info,
}

/// A service that a task declared.
#[derive(Debug, PartialEq, Eq)]
pub struct Owned {
    pub task_id: TaskId,
    pub name: String,
    pub net_id: NetId,
}

/// What an [`Owned`] says.
pub struct OwnedView {
    pub task_id: TaskId,
    pub name: Seq<char>,
    pub net_id: NetId,
}

impl View for Owned {
    type V = OwnedView;

    open spec fn view(&self) -> OwnedView {
        OwnedView { task_id: self.task_id, name: self.name@, net_id: self.net_id }
    }
}

/// Where round-robin over a service's mailboxes has got to.
#[derive(Debug, PartialEq, Eq)]
pub struct Cursor {
    pub name: String,
    pub next: usize,
}

/// The service directory of one node.
pub struct Directory {
    /// In the order of the mailboxes: by node, then by mailbox.
    pub rows: Vec<ServiceEntry>,
    pub by_task: Vec<Owned>,
    pub cursors: Vec<Cursor>,
    pub clock: Lamport,
}

/// A service name and a mailbox.
pub type Key = (Seq<char>, NetId);

/// What a [`Directory`] says.
pub struct DirectoryView {
    pub entries: Map<Key, Info>,
    pub by_task: Seq<OwnedView>,
    pub cursors: Map<Seq<char>, usize>,
    pub clock: Lamport,
}

/// The order of mailboxes: by node, then by mailbox.
pub open spec fn id_before(a: NetId, b: NetId) -> bool {
    a.node.0 < b.node.0 || (a.node.0 == b.node.0 && a.mbox.0 < b.mbox.0)
}

fn is_id_before(a: NetId, b: NetId) -> (r: bool)
    ensures
        r == id_before(a, b),
{
    a.node.0 < b.node.0 || (a.node.0 == b.node.0 && a.mbox.0 < b.mbox.0)
}

pub open spec fn key_of(r: ServiceEntry) -> Key {
    (r.name@, r.net_id)
}

/// Whether a row has the key.
pub open spec fn has_key(rows: Seq<ServiceEntry>, k: Key) -> bool {
    exists|i: int| 0 <= i < rows.len() && key_of(#[trigger] rows[i]) == k
}

/// Where the row with the key is.
pub open spec fn row_of(rows: Seq<ServiceEntry>, k: Key) -> int {
    choose|i: int| 0 <= i < rows.len() && key_of(#[trigger] rows[i]) == k
}

/// The rows as a map.
pub open spec fn entries_of(rows: Seq<ServiceEntry>) -> Map<Key, Info> {
    Map::new(|k: Key| has_key(rows, k), |k: Key| rows[row_of(rows, k)].info)
}

/// No two rows have the same key.
pub open spec fn unique_keys(rows: Seq<ServiceEntry>) -> bool {
    forall|i: int, j: int|
        0 <= i < j < rows.len() ==> key_of(#[trigger] rows[i]) != key_of(#[trigger] rows[j])
}

/// No row is followed by one whose mailbox comes before its own.
pub open spec fn ids_ascend(rows: Seq<ServiceEntry>) -> bool {
    forall|i: int, j: int|
        0 <= i < j < rows.len() ==> !id_before(
            (#[trigger] rows[j]).net_id,
            (#[trigger] rows[i]).net_id,
        )
}

/// The cursors as a map.
pub open spec fn cursors_of(cs: Seq<Cursor>) -> Map<Seq<char>, usize> {
    Map::new(
        |n: Seq<char>| exists|i: int| 0 <= i < cs.len() && (#[trigger] cs[i]).name@ == n,
        |n: Seq<char>|
            cs[choose|i: int| 0 <= i < cs.len() && (#[trigger] cs[i]).name@ == n].next,
    )
}

/// No two cursors are for the same name.
pub open spec fn unique_cursors(cs: Seq<Cursor>) -> bool {
    forall|i: int, j: int|
        0 <= i < j < cs.len() ==> (#[trigger] cs[i]).name@ != (#[trigger] cs[j]).name@
}

/// What a list of owned services says.
pub open spec fn owned_view(v: Seq<Owned>) -> Seq<OwnedView> {
    Seq::new(v.len(), |i: int| v[i]@)
}

impl View for Directory {
    type V = DirectoryView;

    open spec fn view(&self) -> DirectoryView {
        DirectoryView {
            entries: entries_of(self.rows@),
            by_task: owned_view(self.by_task@),
            cursors: cursors_of(self.cursors@),
            clock: self.clock,
        }
    }
}

/// Whether a name is too long.
pub open spec fn too_long(name: Seq<char>) -> bool {
    encode_utf8(name).len() > MAX_SVC_NAME
}

/// The clock after a remote one was seen: ahead of both, as far as it goes.
pub open spec fn observed(clock: Lamport, remote: Lamport) -> Lamport {
    let m = if clock < remote {
        remote
    } else {
        clock
    };
    if m < u64::MAX {
        (m + 1) as u64
    } else {
        m
    }
}

/// The list without the task's declaration of the mailbox under the name.
pub open spec fn disowned(
    owned: Seq<OwnedView>,
    task_id: TaskId,
    name: Seq<char>,
    net_id: NetId,
) -> Seq<OwnedView>
    decreases owned.len(),
{
    if owned.len() == 0 {
        Seq::empty()
    } else {
        let init = disowned(owned.drop_last(), task_id, name, net_id);
        if owned.last() == (OwnedView { task_id, name, net_id }) {
            init
        } else {
            init.push(owned.last())
        }
    }
}

impl DirectoryView {
    /// Whether the mailbox offers the service.
    pub open spec fn live(self, name: Seq<char>, net_id: NetId) -> bool {
        self.entries.contains_key((name, net_id)) && !self.entries[(name, net_id)].tombstone
    }

    /// The directory after the own node declared a service.
    pub open spec fn declared(
        self,
        task_id: TaskId,
        name: Seq<char>,
        net_id: NetId,
        now: Duration,
    ) -> DirectoryView {
        let lamport = (self.clock + 1) as u64;
        DirectoryView {
            entries: self.entries.insert(
                (name, net_id),
                Info { lamport, tombstone: false, last_seen: now },
            ),
            by_task: self.by_task.push(OwnedView { task_id, name, net_id }),
            clock: lamport,
            ..self
        }
    }

    /// The directory after the own node forgot a service: a live entry becomes
    /// a tombstone; where there is none the entries stay as they are.
    pub open spec fn forgotten(
        self,
        task_id: TaskId,
        name: Seq<char>,
        net_id: NetId,
        now: Duration,
    ) -> DirectoryView {
        let lamport = (self.clock + 1) as u64;
        DirectoryView {
            entries: if self.live(name, net_id) {
                self.entries.insert(
                    (name, net_id),
                    Info { lamport, tombstone: true, last_seen: now },
                )
            } else {
                self.entries
            },
            by_task: disowned(self.by_task, task_id, name, net_id),
            clock: lamport,
            ..self
        }
    }

    /// The directory after the own node took a declaration back: whatever was
    /// known of the mailbox under the name, there is a tombstone now.
    pub open spec fn retracted(
        self,
        task_id: TaskId,
        name: Seq<char>,
        net_id: NetId,
        now: Duration,
    ) -> DirectoryView {
        let lamport = (self.clock + 1) as u64;
        DirectoryView {
            entries: self.entries.insert(
                (name, net_id),
                Info { lamport, tombstone: true, last_seen: now },
            ),
            by_task: disowned(self.by_task, task_id, name, net_id),
            clock: lamport,
            ..self
        }
    }

    /// Whether news of another node is taken in: the name is valid and nothing
    /// as new is known.
    pub open spec fn accepts(self, name: Seq<char>, net_id: NetId, lamport: Lamport) -> bool {
        !too_long(name) && !(self.entries.contains_key((name, net_id)) && self.entries[(
            name,
            net_id,
        )].lamport >= lamport)
    }

    /// The directory after news of another node.
    pub open spec fn heard(
        self,
        name: Seq<char>,
        net_id: NetId,
        lamport: Lamport,
        tombstone: bool,
        now: Duration,
    ) -> DirectoryView {
        if too_long(name) {
            self
        } else {
            DirectoryView {
                entries: if self.accepts(name, net_id, lamport) {
                    self.entries.insert((name, net_id), Info { lamport, tombstone, last_seen: now })
                } else {
                    self.entries
                },
                clock: observed(self.clock, lamport),
                ..self
            }
        }
    }

    /// The cursor of a name; zero where it was never used.
    pub open spec fn cursor(self, name: Seq<char>) -> usize {
        if self.cursors.contains_key(name) {
            self.cursors[name]
        } else {
            0
        }
    }

    /// The directory once the cursor of a name with `n` mailboxes moved on: by
    /// one, and from its end to where the turn of the next mailbox is.
    pub open spec fn turned(self, name: Seq<char>, n: int) -> DirectoryView {
        let at = self.cursor(name);
        DirectoryView {
            cursors: self.cursors.insert(
                name,
                if at == usize::MAX {
                    ((at as int % n + 1) % n) as usize
                } else {
                    (at + 1) as usize
                },
            ),
            ..self
        }
    }

    /// Which of `n` mailboxes has its turn under a name.
    pub open spec fn turn(self, name: Seq<char>, n: int) -> int {
        self.cursor(name) as int % n
    }

    /// Whether an entry is a tombstone whose time is over.
    pub open spec fn expired(self, k: Key, now: Duration) -> bool {
        &&& self.entries.contains_key(k)
        &&& self.entries[k].tombstone
        &&& now.nanos >= self.entries[k].last_seen.nanos + TOMBSTONE_TTL
    }

    /// The directory without the tombstones whose time is over.
    pub open spec fn collected(self, now: Duration) -> DirectoryView {
        DirectoryView {
            entries: Map::new(
                |k: Key| self.entries.contains_key(k) && !self.expired(k, now),
                |k: Key| self.entries[k],
            ),
            ..self
        }
    }
}

proof fn lemma_row(rows: Seq<ServiceEntry>, i: int)
    requires
        unique_keys(rows),
        0 <= i < rows.len(),
    ensures
        has_key(rows, key_of(rows[i])),
        row_of(rows, key_of(rows[i])) == i,
        entries_of(rows).contains_key(key_of(rows[i])),
        entries_of(rows)[key_of(rows[i])] == rows[i].info,
{
    let k = key_of(rows[i]);
    assert(has_key(rows, k));
    let j = row_of(rows, k);
    assert(key_of(rows[j]) == k);
    if i < j {
        assert(key_of(rows[i]) != key_of(rows[j]));
    }
    if j < i {
        assert(key_of(rows[j]) != key_of(rows[i]));
    }
}

/// The map has as many entries as there are rows.
proof fn lemma_entries_len(rows: Seq<ServiceEntry>)
    requires
        unique_keys(rows),
    ensures
        entries_of(rows).dom().finite(),
        entries_of(rows).dom().len() == rows.len(),
{
    let keys = rows.map_values(|r: ServiceEntry| key_of(r));
    assert forall|i: int, j: int|
        0 <= i < keys.len() && 0 <= j < keys.len() && i != j implies keys[i] != keys[j] by {
        if i < j {
            assert(key_of(rows[i]) != key_of(rows[j]));
        } else {
            assert(key_of(rows[j]) != key_of(rows[i]));
        }
    }
    keys.unique_seq_to_set();
    assert(keys.to_set() =~= entries_of(rows).dom()) by {
        assert forall|k: Key| keys.to_set().contains(k) <==> entries_of(rows).dom().contains(k) by {
            if keys.contains(k) {
                let i = choose|i: int| 0 <= i < keys.len() && keys[i] == k;
                assert(key_of(rows[i]) == k);
            }
            if has_key(rows, k) {
                let i = row_of(rows, k);
                assert(keys[i] == k);
            }
        }
    }
}

impl Directory {
    /// Rows are unique and in order, cursors are unique.
    pub open spec fn wf(&self) -> bool {
        unique_keys(self.rows@) && ids_ascend(self.rows@) && unique_cursors(self.cursors@)
    }

    pub fn new() -> (d: Self)
        ensures
            d.wf(),
            d@.entries == Map::<Key, Info>::empty(),
            d@.by_task == Seq::<OwnedView>::empty(),
            d@.cursors == Map::<Seq<char>, usize>::empty(),
            d@.clock == 0,
    {
        let d = Directory {
            rows: Vec::new(),
            by_task: Vec::new(),
            cursors: Vec::new(),
            clock: 0,
        };
        assert(d@.entries =~= Map::empty());
        assert(d@.by_task =~= Seq::empty());
        assert(d@.cursors =~= Map::empty());
        d
    }

    fn find(&self, name: &str, net_id: NetId) -> (r: Option<usize>)
        requires
            self.wf(),
        ensures
            match r {
                Some(i) => {
                    &&& i < self.rows@.len()
                    &&& key_of(self.rows@[i as int]) == (name@, net_id)
                    &&& self@.entries.contains_key((name@, net_id))
                    &&& self@.entries[(name@, net_id)] == self.rows@[i as int].info
                },
                None => !self@.entries.contains_key((name@, net_id)),
            },
    {
        let mut i: usize = 0;
        while i < self.rows.len()
            invariant
                i <= self.rows@.len(),
                self.wf(),
                forall|k: int| 0 <= k < i ==> key_of(#[trigger] self.rows@[k]) != (name@, net_id),
            decreases self.rows@.len() - i,
        {
            if self.rows[i].net_id == net_id && text_eq(self.rows[i].name.as_str(), name) {
                proof {
                    lemma_row(self.rows@, i as int);
                }
                return Some(i);
            }
            i = i + 1;
        }
        None
    }

    /// Puts an entry, in place of the one with the same key if there is one.
    fn put(&mut self, name: &str, net_id: NetId, info: Info)
        requires
            old(self).wf(),
        ensures
            final(self).wf(),
            final(self)@ == (DirectoryView {
                entries: old(self)@.entries.insert((name@, net_id), info),
                ..old(self)@
            }),
    {
        let ghost was = self.rows@;
        let ghost k = (name@, net_id);
        match self.find(name, net_id) {
            Some(i) => {
                let e = ServiceEntry { name: name.to_owned(), net_id, info };
                self.rows.set(i, e);
                proof {
                    let now = self.rows@;
                    assert forall|a: int| 0 <= a < now.len() implies key_of(#[trigger] now[a])
                        == key_of(was[a]) by {}
                    assert(unique_keys(now)) by {
                        assert forall|a: int, b: int| 0 <= a < b < now.len() implies key_of(
                            #[trigger] now[a],
                        ) != key_of(#[trigger] now[b]) by {
                            assert(key_of(was[a]) != key_of(was[b]));
                        }
                    }
                    assert(ids_ascend(now)) by {
                        assert forall|a: int, b: int| 0 <= a < b < now.len() implies !id_before(
                            (#[trigger] now[b]).net_id,
                            (#[trigger] now[a]).net_id,
                        ) by {
                            assert(key_of(now[a]) == key_of(was[a]));
                            assert(key_of(now[b]) == key_of(was[b]));
                            assert(!id_before(was[b].net_id, was[a].net_id));
                        }
                    }
                    lemma_put(was, now, k, info, i as int);
                }
            },
            None => {
                let mut at: usize = 0;
                while at < self.rows.len() && !is_id_before(net_id, self.rows[at].net_id)
                    invariant
                        at <= self.rows@.len(),
                        self.rows@ == was,
                        forall|a: int|
                            0 <= a < at ==> !id_before(net_id, (#[trigger] was[a]).net_id),
                    decreases self.rows@.len() - at,
                {
                    at = at + 1;
                }
                let e = ServiceEntry { name: name.to_owned(), net_id, info };
                self.rows.insert(at, e);
                proof {
                    let now = self.rows@;
                    assert(now =~= was.insert(at as int, e));
                    lemma_inserted(was, now, e, at as int);
                    lemma_put(was, now, k, info, at as int);
                }
            },
        }
        assert(self@.entries =~= old(self)@.entries.insert(k, info));
    }

    /// Moves the local clock past an observed remote one.
    fn observe_remote(&mut self, lamport: Lamport)
        ensures
            final(self)@ == (DirectoryView {
                clock: observed(old(self).clock, lamport),
                ..old(self)@
            }),
            old(self).wf() ==> final(self).wf(),
    {
        let m: u64 = if self.clock < lamport {
            lamport
        } else {
            self.clock
        };
        self.clock = m.saturating_add(1);
    }

    fn disown(&mut self, task_id: TaskId, name: &str, net_id: NetId)
        ensures
            final(self)@ == (DirectoryView {
                by_task: disowned(old(self)@.by_task, task_id, name@, net_id),
                ..old(self)@
            }),
            old(self).wf() ==> final(self).wf(),
    {
        let ghost all = owned_view(self.by_task@);
        let mut kept: Vec<Owned> = Vec::new();
        let mut i: usize = 0;
        assert(all.take(0) =~= Seq::empty());
        assert(owned_view(kept@) =~= Seq::empty());
        while i < self.by_task.len()
            invariant
                i <= self.by_task@.len(),
                all == owned_view(self.by_task@),
                owned_view(kept@) == disowned(all.take(i as int), task_id, name@, net_id),
            decreases self.by_task@.len() - i,
        {
            let o = &self.by_task[i];
            let ghost was = kept@;
            assert(all.take(i + 1).drop_last() =~= all.take(i as int));
            assert(all.take(i + 1).last() == o@);
            let gone = o.task_id == task_id && o.net_id == net_id && text_eq(o.name.as_str(), name);
            assert(gone == (o@ == OwnedView { task_id, name: name@, net_id }));
            if !gone {
                let copy = Owned { task_id: o.task_id, name: o.name.clone(), net_id: o.net_id };
                kept.push(copy);
                assert(owned_view(kept@) =~= owned_view(was).push(o@));
            }
            i = i + 1;
        }
        assert(all.take(i as int) =~= all);
        self.by_task = kept;
    }

    /// News of another node: last writer wins.
    fn apply_remote(
        &mut self,
        name: &str,
        net_id: NetId,
        lamport: Lamport,
        tombstone: bool,
        now: Duration,
    ) -> (updated: bool)
        requires
            old(self).wf(),
        ensures
            final(self).wf(),
            updated == old(self)@.accepts(name@, net_id, lamport),
            final(self)@ == old(self)@.heard(name@, net_id, lamport, tombstone, now),
    {
        if name.as_bytes().len() > MAX_SVC_NAME {
            return false;
        }
        self.observe_remote(lamport);
        if let Some(i) = self.find(name, net_id) {
            if self.rows[i].info.lamport >= lamport {
                return false;
            }
        }
        self.put(name, net_id, Info { lamport, tombstone, last_seen: now });
        true
    }

    /// Moves the cursor of a name with `n` mailboxes on and returns where it was.
    fn advance_cursor(&mut self, name: &str, n: usize) -> (at: usize)
        requires
            old(self).wf(),
            n > 0,
        ensures
            final(self).wf(),
            at == old(self)@.cursor(name@),
            final(self)@ == old(self)@.turned(name@, n as int),
    {
        let ghost was = self.cursors@;
        let mut i: usize = 0;
        while i < self.cursors.len() && !text_eq(self.cursors[i].name.as_str(), name)
            invariant
                i <= self.cursors@.len(),
                self.cursors@ == was,
                forall|k: int| 0 <= k < i ==> (#[trigger] was[k]).name@ != name@,
            decreases self.cursors@.len() - i,
        {
            i = i + 1;
        }
        if i < self.cursors.len() {
            let at: usize = self.cursors[i].next;
            let next: usize = if at == usize::MAX {
                (at % n + 1) % n
            } else {
                at + 1
            };
            let c = Cursor { name: name.to_owned(), next };
            self.cursors.set(i, c);
            proof {
                let now = self.cursors@;
                lemma_cursor(was, i as int);
                assert(unique_cursors(now)) by {
                    assert forall|a: int, b: int| 0 <= a < b < now.len() implies (
                    #[trigger] now[a]).name@ != (#[trigger] now[b]).name@ by {
                        assert(was[a].name@ != was[b].name@);
                    }
                }
                lemma_cursor_put(was, now, name@, next, i as int);
            }
            at
        } else {
            let c = Cursor { name: name.to_owned(), next: 1 };
            self.cursors.push(c);
            proof {
                let now = self.cursors@;
                assert(!cursors_of(was).contains_key(name@));
                assert(unique_cursors(now)) by {
                    assert forall|a: int, b: int| 0 <= a < b < now.len() implies (
                    #[trigger] now[a]).name@ != (#[trigger] now[b]).name@ by {
                        if b < was.len() {
                            assert(was[a].name@ != was[b].name@);
                        } else {
                            assert(was[a].name@ != name@);
                        }
                    }
                }
                lemma_cursor_put(was, now, name@, 1, was.len() as int);
            }
            0
        }
    }
}

/// Clears the directory.
pub fn test_clear(dir: &mut Directory)
    ensures
        final(dir).wf(),
        final(dir)@.entries == Map::<Key, Info>::empty(),
        final(dir)@.by_task == Seq::<OwnedView>::empty(),
        final(dir)@.cursors == Map::<Seq<char>, usize>::empty(),
        final(dir)@.clock == 0,
{
    *dir = Directory::new();
}

/// Bump the local Lamport clock and return its new value.
pub fn bump_local_clock(dir: &mut Directory) -> (l: Lamport)
    requires
        old(dir).clock < u64::MAX,
    ensures
        l == old(dir).clock + 1,
        final(dir)@ == (DirectoryView { clock: l, ..old(dir)@ }),
        old(dir).wf() ==> final(dir).wf(),
{
    dir.clock = dir.clock + 1;
    dir.clock
}

/// Local declaration. Bumps the local clock and puts the entry for `(name,
/// net_id)`. Returns the clock and that the directory changed, which a local
/// declaration always counts as.
pub fn apply_local_declare(
    dir: &mut Directory,
    task_id: TaskId,
    name: &str,
    net_id: NetId,
    now: Duration,
) -> (r: Result<(Lamport, bool), ServiceError>)
    requires
        old(dir).wf(),
        old(dir).clock < u64::MAX,
    ensures
        final(dir).wf(),
        if too_long(name@) {
            &&& r == Err::<(Lamport, bool), ServiceError>(
                ServiceError::NameTooLong(encode_utf8(name@).len() as usize),
            )
            &&& final(dir)@ == old(dir)@
        } else {
            &&& r == Ok::<(Lamport, bool), ServiceError>(((old(dir).clock + 1) as u64, true))
            &&& final(dir)@ == old(dir)@.declared(task_id, name@, net_id, now)
        },
{
    let len: usize = name.as_bytes().len();
    if len > MAX_SVC_NAME {
        return Err(ServiceError::NameTooLong(len));
    }
    let lamport: u64 = bump_local_clock(dir);
    dir.put(name, net_id, Info { lamport, tombstone: false, last_seen: now });
    let ghost had = dir.by_task@;
    let o = Owned { task_id, name: name.to_owned(), net_id };
    dir.by_task.push(o);
    assert(owned_view(dir.by_task@) =~= owned_view(had).push(o@));
    Ok((lamport, true))
}

/// Local forgetting: an existing live entry becomes a tombstone; where there
/// is none the entries stay as they are. Returns the clock and whether an
/// entry changed.
pub fn apply_local_forget(
    dir: &mut Directory,
    task_id: TaskId,
    name: &str,
    net_id: NetId,
    now: Duration,
) -> (r: Result<(Lamport, bool), ServiceError>)
    requires
        old(dir).wf(),
        old(dir).clock < u64::MAX,
    ensures
        final(dir).wf(),
        if too_long(name@) {
            &&& r == Err::<(Lamport, bool), ServiceError>(
                ServiceError::NameTooLong(encode_utf8(name@).len() as usize),
            )
            &&& final(dir)@ == old(dir)@
        } else {
            &&& r == Ok::<(Lamport, bool), ServiceError>(
                ((old(dir).clock + 1) as u64, old(dir)@.live(name@, net_id)),
            )
            &&& final(dir)@ == old(dir)@.forgotten(task_id, name@, net_id, now)
        },
{
    let len: usize = name.as_bytes().len();
    if len > MAX_SVC_NAME {
        return Err(ServiceError::NameTooLong(len));
    }
    let lamport: u64 = bump_local_clock(dir);
    let changed = match dir.find(name, net_id) {
        Some(i) => !dir.rows[i].info.tombstone,
        None => false,
    };
    if changed {
        dir.put(name, net_id, Info { lamport, tombstone: true, last_seen: now });
    }
    dir.disown(task_id, name, net_id);
    Ok((lamport, changed))
}

/// Forgetting what was declared: the entry becomes a tombstone with a new stamp,
/// also where it was one already. Returns the clock.
pub(crate) fn retract(
    dir: &mut Directory,
    task_id: TaskId,
    name: &str,
    net_id: NetId,
    now: Duration,
) -> (r: Result<Lamport, ServiceError>)
    requires
        old(dir).wf(),
        old(dir).clock < u64::MAX,
    ensures
        final(dir).wf(),
        if too_long(name@) {
            &&& r == Err::<Lamport, ServiceError>(
                ServiceError::NameTooLong(encode_utf8(name@).len() as usize),
            )
            &&& final(dir)@ == old(dir)@
        } else {
            &&& r == Ok::<Lamport, ServiceError>((old(dir).clock + 1) as u64)
            &&& final(dir)@ == old(dir)@.retracted(task_id, name@, net_id, now)
        },
{
    match apply_local_forget(dir, task_id, name, net_id, now) {
        Ok((lamport, changed)) => {
            if !changed {
                dir.put(name, net_id, Info { lamport, tombstone: true, last_seen: now });
            }
            Ok(lamport)
        },
        Err(e) => Err(e),
    }
}

/// Inbound ad. Returns true if the directory was updated.
pub fn apply_remote_ad(
    dir: &mut Directory,
    name: &str,
    net_id: NetId,
    lamport: Lamport,
    now: Duration,
) -> (updated: bool)
    requires
        old(dir).wf(),
    ensures
        final(dir).wf(),
        updated == old(dir)@.accepts(name@, net_id, lamport),
        final(dir)@ == old(dir)@.heard(name@, net_id, lamport, false, now),
{
    dir.apply_remote(name, net_id, lamport, false, now)
}

/// Inbound forget. Returns true if the directory was updated (the entry is
/// now a tombstone).
pub fn apply_remote_forget(
    dir: &mut Directory,
    name: &str,
    net_id: NetId,
    lamport: Lamport,
    now: Duration,
) -> (updated: bool)
    requires
        old(dir).wf(),
    ensures
        final(dir).wf(),
        updated == old(dir)@.accepts(name@, net_id, lamport),
        final(dir)@ == old(dir)@.heard(name@, net_id, lamport, true, now),
{
    dir.apply_remote(name, net_id, lamport, true, now)
}

/// All live mailboxes registered for `name`, in order. Empty if the name is
/// unknown or every entry is a tombstone.
pub fn service_lookup(dir: &Directory, name: &str) -> (r: Vec<NetId>)
    requires
        dir.wf(),
    ensures
        is_lookup(dir@, name@, r@),
{
    let mut out: Vec<NetId> = Vec::new();
    let mut i: usize = 0;
    while i < dir.rows.len()
        invariant
            i <= dir.rows@.len(),
            dir.wf(),
            forall|a: int, b: int|
                0 <= a < b < out@.len() ==> id_before(#[trigger] out@[a], #[trigger] out@[b]),
            forall|a: int|
                0 <= a < out@.len() ==> offered(dir.rows@, i as int, name@, #[trigger] out@[a]),
            forall|k: int|
                0 <= k < i && (#[trigger] dir.rows@[k]).name@ == name@
                    && !dir.rows@[k].info.tombstone ==> out@.contains(dir.rows@[k].net_id),
        decreases dir.rows@.len() - i,
    {
        let row = &dir.rows[i];
        let ghost was = out@;
        if !row.info.tombstone && text_eq(row.name.as_str(), name) {
            proof {
                assert forall|a: int| 0 <= a < was.len() implies id_before(
                    #[trigger] was[a],
                    row.net_id,
                ) by {
                    assert(offered(dir.rows@, i as int, name@, was[a]));
                    let k = choose|k: int| offer_at(dir.rows@, i as int, name@, was[a], k);
                    assert(!id_before(dir.rows@[i as int].net_id, dir.rows@[k].net_id));
                    assert(key_of(dir.rows@[k]) != key_of(dir.rows@[i as int]));
                }
            }
            out.push(row.net_id);
            proof {
                assert(out@[out@.len() - 1] == row.net_id);
                assert forall|k: int|
                    0 <= k < i + 1 && (#[trigger] dir.rows@[k]).name@ == name@
                        && !dir.rows@[k].info.tombstone implies out@.contains(
                    dir.rows@[k].net_id,
                ) by {
                    if k < i {
                        let a = choose|a: int|
                            0 <= a < was.len() && was[a] == dir.rows@[k].net_id;
                        assert(out@[a] == dir.rows@[k].net_id);
                    }
                }
            }
        }
        proof {
            assert forall|a: int| 0 <= a < out@.len() implies offered(
                dir.rows@,
                i + 1,
                name@,
                #[trigger] out@[a],
            ) by {
                if a < was.len() {
                    assert(out@[a] == was[a]);
                    assert(offered(dir.rows@, i as int, name@, was[a]));
                    let k = choose|k: int| offer_at(dir.rows@, i as int, name@, was[a], k);
                    assert(offer_at(dir.rows@, i + 1, name@, out@[a], k));
                } else {
                    assert(offer_at(dir.rows@, i + 1, name@, out@[a], i as int));
                }
            }
        }
        i = i + 1;
    }
    proof {
        assert forall|id: NetId| out@.contains(id) <==> dir@.live(name@, id) by {
            if out@.contains(id) {
                let a = choose|a: int| 0 <= a < out@.len() && out@[a] == id;
                assert(offered(dir.rows@, i as int, name@, out@[a]));
                let k = choose|k: int| offer_at(dir.rows@, i as int, name@, out@[a], k);
                lemma_row(dir.rows@, k);
            }
            if dir@.live(name@, id) {
                let k = row_of(dir.rows@, (name@, id));
                assert(key_of(dir.rows@[k]) == (name@, id));
                lemma_row(dir.rows@, k);
                assert(dir.rows@[k].name@ == name@);
                assert(out@.contains(id));
            }
        }
    }
    out
}

/// Pick one live mailbox for `name`, round-robining across them. `None` if
/// there is none. The cursor is per-name and survives the call.
pub fn service_lookup_one(dir: &mut Directory, name: &str) -> (r: Option<NetId>)
    requires
        old(dir).wf(),
    ensures
        final(dir).wf(),
        match r {
            None => {
                &&& forall|id: NetId| !old(dir)@.live(name@, id)
                &&& is_lookup(old(dir)@, name@, Seq::empty())
                &&& final(dir)@ == old(dir)@
            },
            Some(id) => exists|ids: Seq<NetId>| #[trigger]
                is_lookup(old(dir)@, name@, ids) && ids.len() > 0 && id
                    == ids[old(dir)@.turn(name@, ids.len() as int)] && final(dir)@
                    == old(dir)@.turned(name@, ids.len() as int),
        },
{
    let live = service_lookup(dir, name);
    if live.len() == 0 {
        proof {
            assert forall|id: NetId| !old(dir)@.live(name@, id) by {
                assert(!live@.contains(id));
            }
        }
        return None;
    }
    let at: usize = dir.advance_cursor(name, live.len());
    let pick = live[at % live.len()];
    assert(is_lookup(old(dir)@, name@, live@));
    Some(pick)
}

/// Drops tombstones whose time is over. Returns how many there were.
pub fn gc_expired_tombstones(dir: &mut Directory, now: Duration) -> (removed: usize)
    requires
        old(dir).wf(),
    ensures
        final(dir).wf(),
        final(dir)@ == old(dir)@.collected(now),
        removed == old(dir)@.entries.dom().len() - final(dir)@.entries.dom().len(),
{
    let ghost was = dir.rows@;
    let ghost before = dir@;
    let n: usize = dir.rows.len();
    let mut kept: Vec<ServiceEntry> = Vec::new();
    let mut i: usize = 0;
    while i < dir.rows.len()
        invariant
            i <= dir.rows@.len(),
            dir.rows@ == was,
            unique_keys(was),
            ids_ascend(was),
            n == was.len(),
            kept@.len() <= i,
            forall|a: int| 0 <= a < kept@.len() ==> came_from(was, i as int, #[trigger] kept@[a]),
            forall|a: int, b: int|
                0 <= a < b < kept@.len() ==> key_of(#[trigger] kept@[a]) != key_of(
                    #[trigger] kept@[b],
                ) && !id_before(kept@[b].net_id, kept@[a].net_id),
            forall|a: int| 0 <= a < kept@.len() ==> !over((#[trigger] kept@[a]).info, now),
            forall|k: int|
                0 <= k < i && !over((#[trigger] was[k]).info, now) ==> has_key(
                    kept@,
                    key_of(was[k]),
                ),
        decreases dir.rows@.len() - i,
    {
        let row = &dir.rows[i];
        let ghost had = kept@;
        let age: u128 = now.nanos.saturating_sub(row.info.last_seen.nanos);
        let gone = row.info.tombstone && age >= TOMBSTONE_TTL;
        assert(gone == over(row.info, now));
        if !gone {
            let copy = ServiceEntry {
                name: row.name.clone(),
                net_id: row.net_id,
                info: row.info,
            };
            kept.push(copy);
            proof {
                assert(key_of(copy) == key_of(was[i as int]));
                assert forall|a: int| 0 <= a < had.len() implies key_of(#[trigger] had[a])
                    != key_of(copy) && !id_before(copy.net_id, had[a].net_id) by {
                    assert(came_from(was, i as int, had[a]));
                    let k = choose|k: int|
                        0 <= k < i && key_of(#[trigger] was[k]) == key_of(had[a])
                            && was[k].info == had[a].info;
                    assert(key_of(was[k]) != key_of(was[i as int]));
                    assert(!id_before(was[i as int].net_id, was[k].net_id));
                }
                assert forall|a: int, b: int| 0 <= a < b < kept@.len() implies key_of(
                    #[trigger] kept@[a],
                ) != key_of(#[trigger] kept@[b]) && !id_before(
                    kept@[b].net_id,
                    kept@[a].net_id,
                ) by {
                    assert(kept@[a] == had[a]);
                    if b < had.len() {
                        assert(kept@[b] == had[b]);
                    }
                }
            }
        }
        proof {
            assert forall|a: int| 0 <= a < kept@.len() implies came_from(
                was,
                i + 1,
                #[trigger] kept@[a],
            ) by {
                if a < had.len() {
                    assert(kept@[a] == had[a]);
                    assert(came_from(was, i as int, had[a]));
                    let k = choose|k: int|
                        0 <= k < i && key_of(#[trigger] was[k]) == key_of(had[a])
                            && was[k].info == had[a].info;
                    assert(0 <= k < i + 1 && key_of(was[k]) == key_of(kept@[a]));
                } else {
                    assert(key_of(was[i as int]) == key_of(kept@[a]));
                }
            }
            assert forall|k: int|
                0 <= k < i + 1 && !over((#[trigger] was[k]).info, now) implies has_key(
                kept@,
                key_of(was[k]),
            ) by {
                if k < i {
                    let a = row_of(had, key_of(was[k]));
                    assert(key_of(had[a]) == key_of(was[k]));
                    assert(kept@[a] == had[a]);
                } else {
                    assert(key_of(kept@[kept@.len() - 1]) == key_of(was[k]));
                }
            }
        }
        i = i + 1;
    }
    let left: usize = kept.len();
    dir.rows = kept;
    proof {
        let rows = dir.rows@;
        assert forall|k: Key| #[trigger]
            same_at(entries_of(rows), before.collected(now).entries, k) by {
            if has_key(rows, k) {
                let a = row_of(rows, k);
                lemma_row(rows, a);
                assert(came_from(was, i as int, rows[a]));
                let m = choose|m: int|
                    0 <= m < i && key_of(#[trigger] was[m]) == key_of(rows[a]) && was[m].info
                        == rows[a].info;
                lemma_row(was, m);
            }
            if before.entries.contains_key(k) && !before.expired(k, now) {
                let m = row_of(was, k);
                assert(key_of(was[m]) == k);
                lemma_row(was, m);
                assert(has_key(rows, k));
            }
        }
        lemma_same_maps(entries_of(rows), before.collected(now).entries);
        lemma_entries_len(was);
        lemma_entries_len(rows);
    }
    n - left
}

/// Every entry, live and tombstoned, for the answer to a peer that comes
/// up.
pub fn snapshot(dir: &Directory) -> (r: Vec<SnapshotEntry>)
    requires
        dir.wf(),
    ensures
        is_snapshot(dir@.entries, snapshot_view(r@)),
{
    let mut out: Vec<SnapshotEntry> = Vec::new();
    let mut i: usize = 0;
    while i < dir.rows.len()
        invariant
            i <= dir.rows@.len(),
            out@.len() == i,
            forall|k: int| 0 <= k < i ==> #[trigger] out@[k]@ == row_shown(dir.rows@[k]),
        decreases dir.rows@.len() - i,
    {
        let row = &dir.rows[i];
        out.push(
            SnapshotEntry {
                name: row.name.clone(),
                net_id: row.net_id,
                lamport: row.info.lamport,
                tombstone: row.info.tombstone,
            },
        );
        i = i + 1;
    }
    proof {
        let s = snapshot_view(out@);
        let rows = dir.rows@;
        assert forall|k: int| 0 <= k < s.len() implies {
            &&& dir@.entries.contains_key((#[trigger] s[k]).key())
            &&& dir@.entries[s[k].key()].lamport == s[k].lamport
            &&& dir@.entries[s[k].key()].tombstone == s[k].tombstone
        } by {
            assert(s[k] == row_shown(rows[k]));
            assert(s[k].key() == key_of(rows[k]));
            lemma_row(rows, k);
        }
        assert forall|a: int, b: int| 0 <= a < b < s.len() implies (#[trigger] s[a]).key() != (
        #[trigger] s[b]).key() by {
            assert(s[a].key() == key_of(rows[a]) && s[b].key() == key_of(rows[b]));
        }
        assert forall|key: Key| #[trigger] dir@.entries.contains_key(key) implies exists|k: int|
            0 <= k < s.len() && (#[trigger] s[k]).key() == key by {
            let k = row_of(rows, key);
            assert(key_of(rows[k]) == key);
            assert(s[k].key() == key);
        }
    }
    out
}

/// Whether the `k`-th row, one of the first `n`, offers the service at the
/// mailbox.
spec fn offer_at(rows: Seq<ServiceEntry>, n: int, name: Seq<char>, id: NetId, k: int) -> bool {
    0 <= k < n && rows[k].name@ == name && !rows[k].info.tombstone && rows[k].net_id == id
}

/// Whether one of the first `n` rows offers the service at the mailbox.
spec fn offered(rows: Seq<ServiceEntry>, n: int, name: Seq<char>, id: NetId) -> bool {
    exists|k: int| offer_at(rows, n, name, id, k)
}

/// Whether two maps agree on a key.
spec fn same_at<K, V>(a: Map<K, V>, b: Map<K, V>, k: K) -> bool {
    a.contains_key(k) == b.contains_key(k) && (a.contains_key(k) ==> a[k] == b[k])
}

proof fn lemma_same_maps<K, V>(a: Map<K, V>, b: Map<K, V>)
    requires
        forall|k: K| #[trigger] same_at(a, b, k),
    ensures
        a == b,
{
    assert forall|k: K| a.dom().contains(k) <==> b.dom().contains(k) by {
        assert(same_at(a, b, k));
    }
    assert forall|k: K| a.dom().contains(k) implies a[k] == b[k] by {
        assert(same_at(a, b, k));
    }
    assert(a =~= b);
}

/// Whether the row stood among the first `n`.
spec fn came_from(rows: Seq<ServiceEntry>, n: int, r: ServiceEntry) -> bool {
    exists|k: int|
        0 <= k < n && key_of(#[trigger] rows[k]) == key_of(r) && rows[k].info == r.info
}

/// Whether the entry is a tombstone whose time is over.
spec fn over(info: Info, now: Duration) -> bool {
    info.tombstone && now.nanos >= info.last_seen.nanos + TOMBSTONE_TTL
}

proof fn lemma_inserted(
    was: Seq<ServiceEntry>,
    now: Seq<ServiceEntry>,
    e: ServiceEntry,
    at: int,
)
    requires
        unique_keys(was),
        ids_ascend(was),
        0 <= at <= was.len(),
        now == was.insert(at, e),
        !has_key(was, key_of(e)),
        forall|a: int| 0 <= a < at ==> !id_before(e.net_id, (#[trigger] was[a]).net_id),
        at < was.len() ==> id_before(e.net_id, was[at].net_id),
    ensures
        unique_keys(now),
        ids_ascend(now),
{
    assert forall|a: int, b: int| 0 <= a < b < now.len() implies key_of(#[trigger] now[a])
        != key_of(#[trigger] now[b]) && !id_before(now[b].net_id, now[a].net_id) by {
        let a0 = if a < at {
            a
        } else {
            a - 1
        };
        let b0 = if b < at {
            b
        } else {
            b - 1
        };
        if a == at {
            assert(now[b] == was[b0]);
            assert(key_of(was[b0]) != key_of(e));
            assert(!id_before(was[b0].net_id, was[at].net_id) || b0 == at);
        } else if b == at {
            assert(now[a] == was[a0]);
            assert(key_of(was[a0]) != key_of(e));
        } else {
            assert(now[a] == was[a0] && now[b] == was[b0]);
            assert(key_of(was[a0]) != key_of(was[b0]));
            assert(!id_before(was[b0].net_id, was[a0].net_id));
        }
    }
}

/// Rows that differ only in that the one with the key is new or changed.
proof fn lemma_put(
    was: Seq<ServiceEntry>,
    now: Seq<ServiceEntry>,
    k: Key,
    info: Info,
    at: int,
)
    requires
        unique_keys(was),
        unique_keys(now),
        0 <= at < now.len(),
        key_of(now[at]) == k,
        now[at].info == info,
        now == was.insert(at, now[at]) && 0 <= at <= was.len() || now == was.update(at, now[at])
            && at < was.len() && key_of(was[at]) == k,
    ensures
        entries_of(now) == entries_of(was).insert(k, info),
{
    let a = entries_of(now);
    let b = entries_of(was).insert(k, info);
    assert forall|x: Key| #[trigger] same_at(a, b, x) by {
        if x == k {
            lemma_row(now, at);
        } else {
            if has_key(now, x) {
                let i = row_of(now, x);
                assert(key_of(now[i]) == x);
                assert(i != at);
                let j = if now.len() == was.len() || i < at {
                    i
                } else {
                    i - 1
                };
                assert(now[i] == was[j]);
                lemma_row(was, j);
                lemma_row(now, i);
            }
            if has_key(was, x) {
                let j = row_of(was, x);
                assert(key_of(was[j]) == x);
                let i = if now.len() == was.len() || j < at {
                    j
                } else {
                    j + 1
                };
                assert(now[i] == was[j]);
                lemma_row(now, i);
                lemma_row(was, j);
            }
        }
    }
    lemma_same_maps(a, b);
}

proof fn lemma_cursor(cs: Seq<Cursor>, i: int)
    requires
        unique_cursors(cs),
        0 <= i < cs.len(),
    ensures
        cursors_of(cs).contains_key(cs[i].name@),
        cursors_of(cs)[cs[i].name@] == cs[i].next,
{
    let n = cs[i].name@;
    let j = choose|j: int| 0 <= j < cs.len() && (#[trigger] cs[j]).name@ == n;
    assert(cs[i].name@ == n);
    if i < j {
        assert(cs[i].name@ != cs[j].name@);
    }
    if j < i {
        assert(cs[j].name@ != cs[i].name@);
    }
}

proof fn lemma_cursor_put(was: Seq<Cursor>, now: Seq<Cursor>, n: Seq<char>, next: usize, at: int)
    requires
        unique_cursors(was),
        unique_cursors(now),
        0 <= at < now.len(),
        now[at].name@ == n,
        now[at].next == next,
        now == was.push(now[at]) && at == was.len() || now == was.update(at, now[at]) && at
            < was.len() && was[at].name@ == n,
    ensures
        cursors_of(now) == cursors_of(was).insert(n, next),
{
    let a = cursors_of(now);
    let b = cursors_of(was).insert(n, next);
    assert forall|x: Seq<char>| #[trigger] same_at(a, b, x) by {
        if x == n {
            lemma_cursor(now, at);
        } else {
            if a.contains_key(x) {
                let i = choose|i: int| 0 <= i < now.len() && (#[trigger] now[i]).name@ == x;
                assert(i != at);
                assert(now[i] == was[i]);
                lemma_cursor(was, i);
                lemma_cursor(now, i);
            }
            if cursors_of(was).contains_key(x) {
                let i = choose|i: int| 0 <= i < was.len() && (#[trigger] was[i]).name@ == x;
                assert(now[i] == was[i]);
                lemma_cursor(now, i);
                lemma_cursor(was, i);
            }
        }
    }
    lemma_same_maps(a, b);
}

/// Whether the list has exactly the live mailboxes of the name, in order.
pub open spec fn is_lookup(d: DirectoryView, name: Seq<char>, ids: Seq<NetId>) -> bool {
    &&& forall|a: int, b: int|
        0 <= a < b < ids.len() ==> id_before(#[trigger] ids[a], #[trigger] ids[b])
    &&& forall|id: NetId| #[trigger] ids.contains(id) <==> d.live(name, id)
}

/// A lookup has one answer: directories with the same entries give the same
/// mailboxes in the same order.
pub proof fn law_lookup_unique(
    d: DirectoryView,
    name: Seq<char>,
    a: Seq<NetId>,
    b: Seq<NetId>,
)
    requires
        is_lookup(d, name, a),
        is_lookup(d, name, b),
    ensures
        a == b,
{
    lemma_same_members(a, b, 0);
    assert(a.skip(0) =~= a && b.skip(0) =~= b);
}

proof fn lemma_same_members(a: Seq<NetId>, b: Seq<NetId>, k: int)
    requires
        0 <= k <= a.len(),
        k <= b.len(),
        forall|i: int, j: int|
            0 <= i < j < a.len() ==> id_before(#[trigger] a[i], #[trigger] a[j]),
        forall|i: int, j: int|
            0 <= i < j < b.len() ==> id_before(#[trigger] b[i], #[trigger] b[j]),
        forall|id: NetId| #[trigger] a.contains(id) <==> b.contains(id),
        forall|i: int| 0 <= i < k ==> a[i] == b[i],
    ensures
        a.skip(k) == b.skip(k),
    decreases a.len() - k,
{
    if k < a.len() && k < b.len() {
        assert(a[k] == b[k]) by {
            assert(b.contains(a[k])) by {
                assert(a.contains(a[k]));
            }
            assert(a.contains(b[k])) by {
                assert(b.contains(b[k]));
            }
            let j = choose|j: int| 0 <= j < b.len() && b[j] == a[k];
            let i = choose|i: int| 0 <= i < a.len() && a[i] == b[k];
            if j < k {
                assert(a[j] == b[j]);
                assert(id_before(a[j], a[k]));
            }
            if i < k {
                assert(a[i] == b[i]);
                assert(id_before(b[i], b[k]));
            }
            if j > k && i > k {
                assert(id_before(b[k], b[j]));
                assert(id_before(a[k], a[i]));
            }
        }
        lemma_same_members(a, b, k + 1);
        assert(a.skip(k) =~= seq![a[k]] + a.skip(k + 1));
        assert(b.skip(k) =~= seq![b[k]] + b.skip(k + 1));
    } else if k < a.len() {
        assert(a.contains(a[k]));
        let j = choose|j: int| 0 <= j < b.len() && b[j] == a[k];
        assert(a[j] == b[j]);
        assert(id_before(a[j], a[k]));
    } else if k < b.len() {
        assert(b.contains(b[k]));
        assert(a.contains(b[k]));
        let i = choose|i: int| 0 <= i < a.len() && a[i] == b[k];
        assert(a[i] == b[i]);
        assert(id_before(b[i], b[k]));
    } else {
        assert(a.skip(k) =~= b.skip(k));
    }
}

/// One row of a snapshot.
#[derive(Debug, PartialEq, Eq)]
pub struct SnapshotEntry {
    pub name: String,
    pub net_id: NetId,
    pub lamport: Lamport,
    pub tombstone: bool,
}

/// What a [`SnapshotEntry`] says.
pub struct SnapshotEntryView {
    pub name: Seq<char>,
    pub net_id: NetId,
    pub lamport: Lamport,
    pub tombstone: bool,
}

impl SnapshotEntryView {
    pub open spec fn key(self) -> Key {
        (self.name, self.net_id)
    }
}

impl View for SnapshotEntry {
    type V = SnapshotEntryView;

    open spec fn view(&self) -> SnapshotEntryView {
        SnapshotEntryView {
            name: self.name@,
            net_id: self.net_id,
            lamport: self.lamport,
            tombstone: self.tombstone,
        }
    }
}

/// What a list of snapshot rows says.
pub open spec fn snapshot_view(v: Seq<SnapshotEntry>) -> Seq<SnapshotEntryView> {
    Seq::new(v.len(), |i: int| v[i]@)
}

/// What a row shows of itself in a snapshot.
pub open spec fn row_shown(r: ServiceEntry) -> SnapshotEntryView {
    SnapshotEntryView {
        name: r.name@,
        net_id: r.net_id,
        lamport: r.info.lamport,
        tombstone: r.info.tombstone,
    }
}

/// Whether the list shows every entry once and as it is.
pub open spec fn is_snapshot(entries: Map<Key, Info>, s: Seq<SnapshotEntryView>) -> bool {
    &&& forall|i: int|
        0 <= i < s.len() ==> {
            &&& entries.contains_key((#[trigger] s[i]).key())
            &&& entries[s[i].key()].lamport == s[i].lamport
            &&& entries[s[i].key()].tombstone == s[i].tombstone
        }
    &&& forall|i: int, j: int|
        0 <= i < j < s.len() ==> (#[trigger] s[i]).key() != (#[trigger] s[j]).key()
    &&& forall|k: Key| #[trigger]
        entries.contains_key(k) ==> exists|i: int|
            0 <= i < s.len() && (#[trigger] s[i]).key() == k
}

} // verus!
