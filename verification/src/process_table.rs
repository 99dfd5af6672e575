//! The shared index of processes, by identity and by raw process id.
//!
//! A raw process id resolves to the most recently born process that has it,
//! which is the right answer where ids are reused. Entries stay after death,
//! so later events can still refer to them; a bound keeps the index small.

use vstd::prelude::*;
use vstd::string::*;

use crate::json::copy_opt;
use crate::seqs::{distinct_by, first_where, first_where_from, first_where_is_first, push_item};

verus! {

/// The most entries that the index holds, unless every one of them is the
/// latest of its process id.
pub const CAP: usize = 8192;

/// The most ancestors that are listed.
pub const MAX_ANCESTORS: usize = 32;

/// One process.
#[derive(Debug)]
pub struct ProcessEntry {
    pub pid: u32,
    pub start_unix_secs: u64,
    pub ppid: Option<u32>,
    pub uid: Option<u32>,
    pub comm: Option<String>,
    pub name: Option<String>,
    pub exec_path: Option<String>,
    pub alive: bool,
    /// The order of insertion, which `ProcessTable::insert` sets.
    pub seq: u64,
}

/// What a `ProcessEntry` holds.
pub struct ProcessEntryView {
    pub pid: u32,
    pub start_unix_secs: u64,
    pub ppid: Option<u32>,
    pub uid: Option<u32>,
    pub comm: Option<Seq<char>>,
    pub name: Option<Seq<char>>,
    pub exec_path: Option<Seq<char>>,
    pub alive: bool,
    pub seq: u64,
}

impl DeepView for ProcessEntry {
    type V = ProcessEntryView;

    open spec fn deep_view(&self) -> ProcessEntryView {
        ProcessEntryView {
            pid: self.pid,
            start_unix_secs: self.start_unix_secs,
            ppid: self.ppid,
            uid: self.uid,
            comm: self.comm.deep_view(),
            name: self.name.deep_view(),
            exec_path: self.exec_path.deep_view(),
            alive: self.alive,
            seq: self.seq,
        }
    }
}

impl Clone for ProcessEntry {
    fn clone(&self) -> (r: Self)
        ensures
            r.deep_view() == self.deep_view(),
    {
        ProcessEntry {
            pid: self.pid,
            start_unix_secs: self.start_unix_secs,
            ppid: self.ppid,
            uid: self.uid,
            comm: copy_opt(&self.comm),
            name: copy_opt(&self.name),
            exec_path: copy_opt(&self.exec_path),
            alive: self.alive,
            seq: self.seq,
        }
    }
}

/// The identity of a process.
#[derive(Debug, Clone, Copy, Hash, PartialEq, Eq, Structural)]
pub struct ProcKey {
    pub pid: u32,
    pub start_unix_secs: u64,
}

impl DeepView for ProcKey {
    type V = ProcKey;

    open spec fn deep_view(&self) -> ProcKey {
        *self
    }
}

/// One ancestor of a process.
#[derive(Debug)]
pub struct AncestorEntry {
    pub pid: u32,
    pub comm: Option<String>,
    pub name: Option<String>,
    pub exec_path: Option<String>,
}

/// What an `AncestorEntry` holds.
pub struct AncestorEntryView {
    pub pid: u32,
    pub comm: Option<Seq<char>>,
    pub name: Option<Seq<char>>,
    pub exec_path: Option<Seq<char>>,
}

impl DeepView for AncestorEntry {
    type V = AncestorEntryView;

    open spec fn deep_view(&self) -> AncestorEntryView {
        AncestorEntryView {
            pid: self.pid,
            comm: self.comm.deep_view(),
            name: self.name.deep_view(),
            exec_path: self.exec_path.deep_view(),
        }
    }
}

impl Clone for AncestorEntry {
    fn clone(&self) -> (r: Self)
        ensures
            r.deep_view() == self.deep_view(),
    {
        AncestorEntry {
            pid: self.pid,
            comm: copy_opt(&self.comm),
            name: copy_opt(&self.name),
            exec_path: copy_opt(&self.exec_path),
        }
    }
}

/// The index.
#[derive(Debug)]
pub struct ProcessTable {
    entries: Vec<ProcessEntry>,
    /// For each process id, the identity that it resolves to.
    latest: Vec<ProcKey>,
    next_seq: u64,
}

/// What the index holds.
#[verifier::ext_equal]
pub struct TableView {
    pub entries: Seq<ProcessEntryView>,
    pub latest: Seq<ProcKey>,
    pub next_seq: u64,
}

impl View for ProcessTable {
    type V = TableView;

    closed spec fn view(&self) -> TableView {
        TableView {
            entries: self.entries.deep_view(),
            latest: self.latest@,
            next_seq: self.next_seq,
        }
    }
}

/// An entry's identity.
pub open spec fn entry_key(e: ProcessEntryView) -> ProcKey {
    ProcKey { pid: e.pid, start_unix_secs: e.start_unix_secs }
}

/// An entry's identity, as a function.
pub open spec fn key_of_entry() -> spec_fn(ProcessEntryView) -> ProcKey {
    |e: ProcessEntryView| entry_key(e)
}

/// An identity's process id, as a function.
pub open spec fn pid_of_key() -> spec_fn(ProcKey) -> u32 {
    |k: ProcKey| k.pid
}

/// Whether an entry has an identity.
pub open spec fn has_key(key: ProcKey) -> spec_fn(ProcessEntryView) -> bool {
    |e: ProcessEntryView| entry_key(e) == key
}

/// Whether an identity has a process id.
pub open spec fn has_pid(pid: u32) -> spec_fn(ProcKey) -> bool {
    |k: ProcKey| k.pid == pid
}

/// The entry to evict: of those that no process id resolves to, the one that
/// was inserted first.
pub open spec fn victim(entries: Seq<ProcessEntryView>, latest: Seq<ProcKey>) -> Option<int>
    decreases entries.len(),
{
    if entries.len() == 0 {
        None
    } else {
        let best = victim(entries.drop_last(), latest);
        let i = entries.len() - 1;
        if latest.contains(entry_key(entries[i])) {
            best
        } else {
            match best {
                Some(b) => if entries[b].seq <= entries[i].seq {
                    Some(b)
                } else {
                    Some(i)
                },
                None => Some(i),
            }
        }
    }
}

/// The parent's process id where it is one that is followed: neither the
/// kernel nor the first process.
pub open spec fn followed(ppid: Option<u32>) -> Option<u32> {
    match ppid {
        Some(p) if p > 1 => Some(p),
        _ => None,
    }
}

/// What is listed of an ancestor.
pub open spec fn ancestor_of_entry(e: ProcessEntryView) -> AncestorEntryView {
    AncestorEntryView { pid: e.pid, comm: e.comm, name: e.name, exec_path: e.exec_path }
}

impl TableView {
    /// The entry of an identity.
    pub open spec fn by_key(self, key: ProcKey) -> Option<ProcessEntryView> {
        match first_where(self.entries, has_key(key)) {
            Some(i) => Some(self.entries[i]),
            None => None,
        }
    }

    /// The identity that a process id resolves to.
    pub open spec fn latest_of(self, pid: u32) -> Option<ProcKey> {
        match first_where(self.latest, has_pid(pid)) {
            Some(i) => Some(self.latest[i]),
            None => None,
        }
    }

    /// The entry that a process id resolves to.
    pub open spec fn by_pid(self, pid: u32) -> Option<ProcessEntryView> {
        match self.latest_of(pid) {
            Some(k) => self.by_key(k),
            None => None,
        }
    }

    /// The index after an entry was put under its identity.
    pub open spec fn put_entry(self, e: ProcessEntryView) -> TableView {
        TableView {
            entries: match first_where(self.entries, has_key(entry_key(e))) {
                Some(i) => self.entries.update(i, e),
                None => self.entries.push(e),
            },
            ..self
        }
    }

    /// The index after a process id was made to resolve to an identity.
    pub open spec fn put_latest(self, key: ProcKey) -> TableView {
        TableView {
            latest: match first_where(self.latest, has_pid(key.pid)) {
                Some(i) => self.latest.update(i, key),
                None => self.latest.push(key),
            },
            ..self
        }
    }

    /// The index after one entry too many was evicted.
    pub open spec fn evicted(self) -> TableView {
        if self.entries.len() <= CAP {
            self
        } else {
            match victim(self.entries, self.latest) {
                Some(i) => TableView { entries: self.entries.remove(i), ..self },
                None => self,
            }
        }
    }

    /// The index once an entry is in and before any is evicted: the entry stands
    /// under its identity, and its process id resolves to it unless it resolves
    /// to a later start.
    pub open spec fn entered(self, e: ProcessEntryView) -> TableView {
        let key = entry_key(e);
        let put = self.put_entry(ProcessEntryView { seq: self.next_seq, ..e });
        let counted = TableView {
            next_seq: if self.next_seq == u64::MAX {
                0
            } else {
                (self.next_seq + 1) as u64
            },
            ..put
        };
        match self.latest_of(key.pid) {
            Some(k) if key.start_unix_secs < k.start_unix_secs => counted,
            _ => counted.put_latest(key),
        }
    }

    /// The index after an insertion.
    pub open spec fn inserted(self, e: ProcessEntryView) -> TableView {
        self.entered(e).evicted()
    }

    /// The index after a process died.
    pub open spec fn died(self, key: ProcKey) -> TableView {
        match first_where(self.entries, has_key(key)) {
            Some(i) => TableView {
                entries: self.entries.update(
                    i,
                    ProcessEntryView { alive: false, ..self.entries[i] },
                ),
                ..self
            },
            None => self,
        }
    }

    /// The ancestors met by following parents from a process id, at most `n`
    /// of them, none twice.
    pub open spec fn climb(self, pid: u32, seen: Seq<u32>, n: nat) -> Seq<AncestorEntryView>
        decreases n,
    {
        if n == 0 || seen.contains(pid) {
            Seq::empty()
        } else {
            match self.by_pid(pid) {
                None => Seq::empty(),
                Some(e) => seq![ancestor_of_entry(e)] + match followed(e.ppid) {
                    Some(p) => self.climb(p, seen.push(pid), (n - 1) as nat),
                    None => Seq::empty(),
                },
            }
        }
    }

    /// The ancestors of a process, nearest first.
    pub open spec fn ancestors(self, pid: u32) -> Seq<AncestorEntryView> {
        match self.by_pid(pid) {
            Some(e) => match followed(e.ppid) {
                Some(p) => self.climb(p, seq![pid], MAX_ANCESTORS as nat),
                None => Seq::empty(),
            },
            None => Seq::empty(),
        }
    }

    /// Whether the process id of an entry resolves to another identity, or to
    /// none.
    pub open spec fn superseded(self, i: int) -> bool {
        !self.latest.contains(entry_key(self.entries[i]))
    }

    /// The index is within its bound, but for entries that process ids resolve
    /// to: those are never evicted.
    pub open spec fn bounded(self) -> bool {
        self.entries.len() <= CAP || forall|i: int|
            0 <= i < self.entries.len() ==> !#[trigger] self.superseded(i)
    }

    /// Whether eviction takes away the entry at a place and nothing else, and
    /// whether it is the one inserted first of those that are superseded.
    pub open spec fn evicts(self, v: int) -> bool {
        &&& 0 <= v < self.entries.len()
        &&& self.superseded(v)
        &&& forall|i: int|
            0 <= i < self.entries.len() && #[trigger] self.superseded(i) ==> self.entries[v].seq
                <= self.entries[i].seq
        &&& self.evicted() == (TableView { entries: self.entries.remove(v), ..self })
    }

    /// Whether a new process makes an entry leave: the index is full, and once
    /// the process is in, some entry is superseded.
    pub open spec fn evicts_for(self, e: ProcessEntryView) -> bool {
        &&& self.entries.len() == CAP
        &&& self.by_key(entry_key(e)) is None
        &&& exists|i: int| 0 <= i <= self.entries.len() && #[trigger] self.entered(e).superseded(i)
    }

    /// No identity stands twice, no process id resolves twice, and what a
    /// process id resolves to is there.
    pub open spec fn wf(self) -> bool {
        &&& distinct_by(self.entries, key_of_entry())
        &&& distinct_by(self.latest, pid_of_key())
        &&& forall|i: int|
            0 <= i < self.latest.len() ==> self.by_key(#[trigger] self.latest[i]) is Some
    }
}

impl ProcessTable {
    /// An empty index.
    pub fn new() -> (r: Self)
        ensures
            r@ == (TableView { entries: Seq::empty(), latest: Seq::empty(), next_seq: 0 }),
            r@.wf(),
            r@.bounded(),
    {
        let r = ProcessTable { entries: Vec::new(), latest: Vec::new(), next_seq: 0 };
        assert(r@ =~= (TableView { entries: Seq::empty(), latest: Seq::empty(), next_seq: 0 }));
        r
    }

    fn find(&self, key: ProcKey) -> (r: Option<usize>)
        ensures
            match r {
                Some(i) => first_where(self@.entries, has_key(key)) == Some(i as int) && i
                    < self@.entries.len(),
                None => first_where(self@.entries, has_key(key)) is None,
            },
    {
        let ghost all = self.entries.deep_view();
        let mut i: usize = 0;
        while i < self.entries.len()
            invariant
                all == self.entries.deep_view(),
                i <= self.entries@.len(),
                first_where(all, has_key(key)) == first_where_from(all, has_key(key), i as int),
            decreases self.entries@.len() - i,
        {
            assert(all[i as int] == self.entries@[i as int].deep_view());
            if self.entries[i].pid == key.pid && self.entries[i].start_unix_secs
                == key.start_unix_secs {
                return Some(i);
            }
            i = i + 1;
        }
        None
    }

    fn find_latest(&self, pid: u32) -> (r: Option<usize>)
        ensures
            match r {
                Some(i) => first_where(self@.latest, has_pid(pid)) == Some(i as int) && i
                    < self@.latest.len(),
                None => first_where(self@.latest, has_pid(pid)) is None,
            },
    {
        let mut i: usize = 0;
        while i < self.latest.len()
            invariant
                i <= self.latest@.len(),
                first_where(self.latest@, has_pid(pid)) == first_where_from(
                    self.latest@,
                    has_pid(pid),
                    i as int,
                ),
            decreases self.latest@.len() - i,
        {
            if self.latest[i].pid == pid {
                return Some(i);
            }
            i = i + 1;
        }
        None
    }

    /// Puts a process into the index.
    pub fn insert(&mut self, entry: ProcessEntry)
        ensures
            final(self)@ == old(self)@.inserted(entry.deep_view()),
            old(self)@.wf() ==> final(self)@.wf(),
            old(self)@.wf() && old(self)@.bounded() ==> final(self)@.bounded(),
            old(self)@.wf() && old(self)@.evicts_for(entry.deep_view()) ==> {
                let entered = old(self)@.entered(entry.deep_view());
                &&& exists|v: int|
                    #[trigger] entered.evicts(v) && final(self)@.entries
                        == entered.entries.remove(v)
                &&& final(self)@.entries.len() == CAP
                &&& forall|pid: u32| #[trigger] final(self)@.by_pid(pid) == entered.by_pid(pid)
            },
    {
        let ghost start = self@;
        let ghost ev = entry.deep_view();
        proof {
            inserted_is_wf(start, ev);
            if start.wf() && start.bounded() {
                insertion_keeps_the_bound(start, ev);
            }
            if start.wf() && start.evicts_for(ev) {
                let i = choose|i: int|
                    0 <= i <= start.entries.len() && #[trigger] start.entered(ev).superseded(i);
                let v = full_index_evicts_one(start, ev, i);
                assert(start.entered(ev).evicts(v));
            }
        }
        let key = ProcKey { pid: entry.pid, start_unix_secs: entry.start_unix_secs };
        let resolved: Option<usize> = self.find_latest(key.pid);
        let replace: bool = match resolved {
            None => true,
            Some(i) => entry.start_unix_secs >= self.latest[i].start_unix_secs,
        };
        let mut entry = entry;
        entry.seq = self.next_seq;
        let ghost sv = entry.deep_view();
        match self.find(key) {
            Some(i) => {
                let ghost before = self.entries.deep_view();
                self.entries[i] = entry;
                assert(self.entries.deep_view() =~= before.update(i as int, sv));
            },
            None => {
                push_item(&mut self.entries, entry);
            },
        }
        self.next_seq = if self.next_seq == u64::MAX {
            0
        } else {
            self.next_seq + 1
        };
        if replace {
            match resolved {
                Some(i) => {
                    self.latest[i] = key;
                },
                None => {
                    self.latest.push(key);
                },
            }
        }
        self.evict_if_needed();
    }

    fn is_latest(&self, key: ProcKey) -> (r: bool)
        ensures
            r == self@.latest.contains(key),
    {
        let mut i: usize = 0;
        while i < self.latest.len()
            invariant
                i <= self.latest@.len(),
                forall|k: int| 0 <= k < i ==> self.latest@[k] != key,
            decreases self.latest@.len() - i,
        {
            if self.latest[i] == key {
                return true;
            }
            i = i + 1;
        }
        false
    }

    fn evict_if_needed(&mut self)
        ensures
            final(self)@ == old(self)@.evicted(),
    {
        if self.entries.len() <= CAP {
            return;
        }
        let ghost all = self.entries.deep_view();
        let mut best: Option<usize> = None;
        let mut i: usize = 0;
        while i < self.entries.len()
            invariant
                self@ == old(self)@,
                all == self.entries.deep_view(),
                i <= self.entries@.len(),
                match best {
                    Some(b) => b < i && victim(all.take(i as int), self.latest@) == Some(b as int),
                    None => victim(all.take(i as int), self.latest@) is None,
                },
            decreases self.entries@.len() - i,
        {
            assert(all.take(i + 1).drop_last() =~= all.take(i as int));
            let e: &ProcessEntry = &self.entries[i];
            assert(all[i as int] == e.deep_view());
            let key = ProcKey { pid: e.pid, start_unix_secs: e.start_unix_secs };
            if !self.is_latest(key) {
                best = match best {
                    Some(b) => {
                        assert(all[b as int] == self.entries@[b as int].deep_view());
                        if self.entries[b].seq <= e.seq {
                            Some(b)
                        } else {
                            Some(i)
                        }
                    },
                    None => Some(i),
                };
            }
            i = i + 1;
        }
        assert(all.take(all.len() as int) =~= all);
        match best {
            Some(b) => {
                self.entries.remove(b);
                assert(self.entries.deep_view() =~= all.remove(b as int));
            },
            None => {},
        }
    }

    /// Marks a process as dead; its entry stays.
    pub fn mark_dead(&mut self, key: &ProcKey)
        ensures
            final(self)@ == old(self)@.died(*key),
            old(self)@.wf() ==> final(self)@.wf(),
            old(self)@.bounded() ==> final(self)@.bounded(),
    {
        proof {
            died_is_wf(self@, *key);
            if self@.bounded() {
                death_keeps_the_bound(self@, *key);
            }
        }
        match self.find(*key) {
            Some(i) => {
                let ghost before = self.entries.deep_view();
                let e: &ProcessEntry = &self.entries[i];
                let dead = ProcessEntry {
                    pid: e.pid,
                    start_unix_secs: e.start_unix_secs,
                    ppid: e.ppid,
                    uid: e.uid,
                    comm: copy_opt(&e.comm),
                    name: copy_opt(&e.name),
                    exec_path: copy_opt(&e.exec_path),
                    alive: false,
                    seq: e.seq,
                };
                let ghost dv = dead.deep_view();
                self.entries[i] = dead;
                assert(self.entries.deep_view() =~= before.update(i as int, dv));
            },
            None => {},
        }
    }

    /// The process that a raw id resolves to: the most recently born one.
    pub fn by_pid(&self, pid: u32) -> (r: Option<&ProcessEntry>)
        ensures
            r.deep_view() == self@.by_pid(pid),
    {
        match self.find_latest(pid) {
            Some(i) => {
                let key: ProcKey = self.latest[i];
                self.by_key(&key)
            },
            None => None,
        }
    }

    /// The process with an identity.
    pub fn by_key(&self, key: &ProcKey) -> (r: Option<&ProcessEntry>)
        ensures
            r.deep_view() == self@.by_key(*key),
    {
        match self.find(*key) {
            Some(i) => Some(&self.entries[i]),
            None => None,
        }
    }

    /// The ancestors of a process, nearest first: at most `MAX_ANCESTORS`, up
    /// to the first process, an unknown parent, or a cycle.
    pub fn ancestors(&self, pid: u32) -> (r: Vec<AncestorEntry>)
        ensures
            r.deep_view() == self@.ancestors(pid),
    {
        let mut out: Vec<AncestorEntry> = Vec::new();
        assert(out.deep_view() =~= Seq::<AncestorEntryView>::empty());
        let mut cur: u32 = match self.by_pid(pid) {
            Some(e) => match e.ppid {
                Some(p) => if p > 1 {
                    p
                } else {
                    return out;
                },
                None => return out,
            },
            None => return out,
        };
        let mut seen: Vec<u32> = Vec::new();
        seen.push(pid);
        let ghost whole = self@.climb(cur, seq![pid], MAX_ANCESTORS as nat);
        assert(seen@ =~= seq![pid]);
        assert(out.deep_view() + whole =~= whole);
        let mut left: usize = MAX_ANCESTORS;
        while left > 0
            invariant_except_break
                whole == out.deep_view() + self@.climb(cur, seen@, left as nat),
            ensures
                whole == out.deep_view(),
            decreases left,
        {
            let ghost before = out.deep_view();
            if has_u32(&seen, cur) {
                assert(before + Seq::<AncestorEntryView>::empty() =~= before);
                break;
            }
            match self.by_pid(cur) {
                None => {
                    assert(before + Seq::<AncestorEntryView>::empty() =~= before);
                    break;
                },
                Some(e) => {
                    let a = AncestorEntry {
                        pid: e.pid,
                        comm: copy_opt(&e.comm),
                        name: copy_opt(&e.name),
                        exec_path: copy_opt(&e.exec_path),
                    };
                    let ghost av = a.deep_view();
                    push_item(&mut out, a);
                    let next: Option<u32> = match e.ppid {
                        Some(p) => if p > 1 {
                            Some(p)
                        } else {
                            None
                        },
                        None => None,
                    };
                    match next {
                        Some(p) => {
                            assert(before + (seq![av] + self@.climb(
                                p,
                                seen@.push(cur),
                                (left - 1) as nat,
                            )) =~= before.push(av) + self@.climb(p, seen@.push(cur), (left - 1) as nat));
                            seen.push(cur);
                            cur = p;
                        },
                        None => {
                            assert(before + (seq![av] + Seq::<AncestorEntryView>::empty())
                                =~= before.push(av));
                            break;
                        },
                    }
                },
            }
            left = left - 1;
            assert(left == 0 ==> self@.climb(cur, seen@, 0) == Seq::<AncestorEntryView>::empty());
            assert(left == 0 ==> out.deep_view() + Seq::<AncestorEntryView>::empty()
                =~= out.deep_view());
        }
        out
    }
}

impl Default for ProcessTable {
    fn default() -> (r: Self)
        ensures
            r@ == (TableView { entries: Seq::empty(), latest: Seq::empty(), next_seq: 0 }),
    {
        ProcessTable::new()
    }
}

/// Whether a list has a number.
fn has_u32(v: &Vec<u32>, x: u32) -> (r: bool)
    ensures
        r == v@.contains(x),
{
    let mut i: usize = 0;
    while i < v.len()
        invariant
            i <= v@.len(),
            forall|k: int| 0 <= k < i ==> v@[k] != x,
        decreases v@.len() - i,
    {
        if v[i] == x {
            return true;
        }
        i = i + 1;
    }
    false
}

// ---------- laws -----------------------------------------------------------------

/// The entry to evict is none that a process id resolves to.
proof fn victim_is_not_latest(entries: Seq<ProcessEntryView>, latest: Seq<ProcKey>)
    ensures
        victim(entries, latest) matches Some(i) ==> 0 <= i < entries.len() && !latest.contains(
            entry_key(entries[i]),
        ),
    decreases entries.len(),
{
    if entries.len() > 0 {
        victim_is_not_latest(entries.drop_last(), latest);
    }
}

/// An identity is found at its only place.
proof fn found_at(t: TableView, i: int)
    requires
        distinct_by(t.entries, key_of_entry()),
        0 <= i < t.entries.len(),
    ensures
        t.by_key(entry_key(t.entries[i])) == Some(t.entries[i]),
{
    let p = has_key(entry_key(t.entries[i]));
    first_where_is_first(t.entries, p);
    assert(p(t.entries[i]));
    let k = first_where(t.entries, p)->0;
    if k != i {
        assert(key_of_entry()(t.entries[k]) != key_of_entry()(t.entries[i]));
    }
}

/// Putting an entry in gives it back under its identity, keeps identities
/// apart, and leaves every other identity as it was.
proof fn put_entry_reads_back(t: TableView, e: ProcessEntryView, key: ProcKey)
    requires
        distinct_by(t.entries, key_of_entry()),
    ensures
        distinct_by(t.put_entry(e).entries, key_of_entry()),
        t.put_entry(e).by_key(key) == if key == entry_key(e) {
            Some(e)
        } else {
            t.by_key(key)
        },
{
    let after = t.put_entry(e);
    let p = has_key(entry_key(e));
    let q = has_key(key);
    first_where_is_first(t.entries, p);
    first_where_is_first(t.entries, q);
    first_where_is_first(after.entries, q);
    let at = match first_where(t.entries, p) {
        Some(i) => i,
        None => t.entries.len() as int,
    };
    let k = key_of_entry();
    assert(after.entries[at] == e);
    assert forall|i: int, j: int| 0 <= i < j < after.entries.len() implies k(
        #[trigger] after.entries[i],
    ) != k(#[trigger] after.entries[j]) by {
        if i != at && j != at {
            assert(k(t.entries[i]) != k(t.entries[j]));
        } else if j < t.entries.len() {
            assert(k(t.entries[i]) != k(t.entries[j]));
        } else {
            assert(!p(t.entries[i]));
        }
    }
    if key == entry_key(e) {
        assert(q(after.entries[at]));
        assert forall|j: int| 0 <= j < at implies !q(#[trigger] after.entries[j]) by {
            assert(after.entries[j] == t.entries[j]);
        }
    } else {
        assert(!q(after.entries[at]));
        match first_where(t.entries, q) {
            Some(m) => {
                assert(m != at);
                assert(after.entries[m] == t.entries[m]);
                assert forall|j: int| 0 <= j < m implies !q(#[trigger] after.entries[j]) by {
                    if j != at {
                        assert(after.entries[j] == t.entries[j]);
                    }
                }
            },
            None => {
                assert forall|j: int| 0 <= j < after.entries.len() implies !q(
                    #[trigger] after.entries[j],
                ) by {
                    if j != at {
                        assert(after.entries[j] == t.entries[j]);
                    }
                }
            },
        }
    }
}

/// Making a process id resolve gives the identity back, and leaves every other
/// id as it was.
proof fn put_latest_reads_back(t: TableView, key: ProcKey, pid: u32)
    requires
        distinct_by(t.latest, pid_of_key()),
    ensures
        distinct_by(t.put_latest(key).latest, pid_of_key()),
        t.put_latest(key).latest_of(pid) == if pid == key.pid {
            Some(key)
        } else {
            t.latest_of(pid)
        },
        forall|k: ProcKey|
            #[trigger] t.put_latest(key).latest.contains(k) ==> k == key || t.latest.contains(k),
        t.put_latest(key).latest.contains(key),
{
    let after = t.put_latest(key);
    let p = has_pid(key.pid);
    let q = has_pid(pid);
    first_where_is_first(t.latest, p);
    first_where_is_first(t.latest, q);
    first_where_is_first(after.latest, q);
    let at = match first_where(t.latest, p) {
        Some(i) => i,
        None => t.latest.len() as int,
    };
    let k = pid_of_key();
    assert(after.latest[at] == key);
    assert forall|i: int, j: int| 0 <= i < j < after.latest.len() implies k(
        #[trigger] after.latest[i],
    ) != k(#[trigger] after.latest[j]) by {
        if i != at && j != at {
            assert(k(t.latest[i]) != k(t.latest[j]));
        } else if j < t.latest.len() {
            assert(k(t.latest[i]) != k(t.latest[j]));
        } else {
            assert(!p(t.latest[i]));
        }
    }
    assert forall|x: ProcKey| #[trigger] after.latest.contains(x) implies x == key
        || t.latest.contains(x) by {
        let i = choose|i: int| 0 <= i < after.latest.len() && after.latest[i] == x;
        if i != at {
            assert(t.latest[i] == x);
        }
    }
    if pid == key.pid {
        assert(q(after.latest[at]));
        assert forall|j: int| 0 <= j < at implies !q(#[trigger] after.latest[j]) by {
            assert(after.latest[j] == t.latest[j]);
        }
    } else {
        assert(!q(after.latest[at]));
        match first_where(t.latest, q) {
            Some(m) => {
                assert(m != at);
                assert(after.latest[m] == t.latest[m]);
                assert forall|j: int| 0 <= j < m implies !q(#[trigger] after.latest[j]) by {
                    if j != at {
                        assert(after.latest[j] == t.latest[j]);
                    }
                }
            },
            None => {
                assert forall|j: int| 0 <= j < after.latest.len() implies !q(
                    #[trigger] after.latest[j],
                ) by {
                    if j != at {
                        assert(after.latest[j] == t.latest[j]);
                    }
                }
            },
        }
    }
}

/// Eviction takes away nothing that a process id resolves to.
proof fn evicted_keeps_latest(t: TableView)
    requires
        t.wf(),
    ensures
        t.evicted().wf(),
        forall|k: ProcKey| t.latest.contains(k) ==> #[trigger] t.evicted().by_key(k) == t.by_key(k),
{
    let after = t.evicted();
    victim_is_not_latest(t.entries, t.latest);
    if t.entries.len() > CAP && victim(t.entries, t.latest) is Some {
        let v = victim(t.entries, t.latest)->0;
        let key = key_of_entry();
        assert forall|i: int, j: int| 0 <= i < j < after.entries.len() implies key(
            #[trigger] after.entries[i],
        ) != key(#[trigger] after.entries[j]) by {
            let a = if i < v {
                i
            } else {
                i + 1
            };
            let b = if j < v {
                j
            } else {
                j + 1
            };
            assert(key(t.entries[a]) != key(t.entries[b]));
        }
        assert forall|k: ProcKey| t.latest.contains(k) implies #[trigger] after.by_key(k)
            == t.by_key(k) by {
            let m = choose|m: int| 0 <= m < t.latest.len() && t.latest[m] == k;
            assert(t.by_key(t.latest[m]) is Some);
            first_where_is_first(t.entries, has_key(k));
            let i = first_where(t.entries, has_key(k))->0;
            assert(i != v);
            let a = if i < v {
                i
            } else {
                i - 1
            };
            assert(after.entries[a] == t.entries[i]);
            found_at(after, a);
        }
        assert forall|i: int| 0 <= i < after.latest.len() implies after.by_key(
            #[trigger] after.latest[i],
        ) is Some by {
            assert(t.latest.contains(t.latest[i]));
            assert(t.by_key(t.latest[i]) is Some);
        }
    }
}

/// An index that an entry was put into is well formed.
proof fn entered_is_wf(t: TableView, e: ProcessEntryView)
    requires
        t.wf(),
    ensures
        t.entered(e).wf(),
{
    let key = entry_key(e);
    let se = ProcessEntryView { seq: t.next_seq, ..e };
    let put = t.put_entry(se);
    let counted = TableView {
        next_seq: if t.next_seq == u64::MAX {
            0
        } else {
            (t.next_seq + 1) as u64
        },
        ..put
    };
    let stays = t.latest_of(key.pid) matches Some(k) && key.start_unix_secs < k.start_unix_secs;
    let resolved = if stays {
        counted
    } else {
        counted.put_latest(key)
    };
    assert(t.entered(e) == resolved);
    put_entry_reads_back(t, se, key);
    put_latest_reads_back(counted, key, key.pid);
    assert forall|i: int| 0 <= i < resolved.latest.len() implies resolved.by_key(
        #[trigger] resolved.latest[i],
    ) is Some by {
        let k = resolved.latest[i];
        put_entry_reads_back(t, se, k);
        assert(resolved.latest.contains(k));
        if k != key {
            assert(t.latest.contains(k));
            let m = choose|m: int| 0 <= m < t.latest.len() && t.latest[m] == k;
            assert(t.by_key(t.latest[m]) is Some);
        }
    }
}

/// An insertion keeps the index well formed.
proof fn inserted_is_wf(t: TableView, e: ProcessEntryView)
    ensures
        t.wf() ==> t.inserted(e).wf(),
{
    if t.wf() {
        inserted_resolves(t, e, e.pid);
    }
}

/// After an insertion the index is well formed. The inserted process is what
/// its id resolves to, unless the id resolved to a later start; every other id
/// resolves as before.
pub proof fn inserted_resolves(t: TableView, e: ProcessEntryView, pid: u32)
    requires
        t.wf(),
    ensures
        t.inserted(e).wf(),
        t.inserted(e).by_pid(pid) == if pid == e.pid && !(t.latest_of(e.pid) matches Some(k)
            && e.start_unix_secs < k.start_unix_secs) {
            Some(ProcessEntryView { seq: t.next_seq, ..e })
        } else {
            t.by_pid(pid)
        },
{
    let key = entry_key(e);
    let se = ProcessEntryView { seq: t.next_seq, ..e };
    let put = t.put_entry(se);
    let stays = t.latest_of(key.pid) matches Some(k) && key.start_unix_secs < k.start_unix_secs;
    let resolved = t.entered(e);
    entered_is_wf(t, e);
    put_latest_reads_back(t, key, pid);
    assert(resolved.latest == if stays {
        t.latest
    } else {
        t.put_latest(key).latest
    });
    evicted_keeps_latest(resolved);
    assert(resolved.evicted().latest == resolved.latest);
    match resolved.latest_of(pid) {
        Some(k) => {
            first_where_is_first(resolved.latest, has_pid(pid));
            assert(resolved.latest.contains(k));
            put_entry_reads_back(t, se, k);
            assert(resolved.evicted().by_key(k) == resolved.by_key(k));
            assert(resolved.by_key(k) == put.by_key(k));
            if pid == e.pid && stays {
                assert(k == t.latest_of(pid)->0);
                assert(k != key);
            }
            if pid != e.pid {
                assert(k.pid == pid);
                assert(k != key);
            }
        },
        None => {},
    }
}

/// Death keeps the index well formed.
proof fn died_is_wf(t: TableView, key: ProcKey)
    ensures
        t.wf() ==> t.died(key).wf(),
{
    if t.wf() {
        died_stays_queryable(t, key, key.pid);
    }
}

/// A process that died is still found, as dead; nothing else changes.
pub proof fn died_stays_queryable(t: TableView, key: ProcKey, pid: u32)
    requires
        t.wf(),
    ensures
        t.died(key).wf(),
        t.died(key).by_pid(pid) == match t.by_pid(pid) {
            Some(e) if entry_key(e) == key => Some(ProcessEntryView { alive: false, ..e }),
            other => other,
        },
{
    let after = t.died(key);
    first_where_is_first(t.entries, has_key(key));
    match first_where(t.entries, has_key(key)) {
        Some(i) => {
            let dead = ProcessEntryView { alive: false, ..t.entries[i] };
            assert(after == t.put_entry(dead));
            put_entry_reads_back(t, dead, key);
            assert forall|m: int| 0 <= m < after.latest.len() implies after.by_key(
                #[trigger] after.latest[m],
            ) is Some by {
                put_entry_reads_back(t, dead, after.latest[m]);
                assert(t.by_key(t.latest[m]) is Some);
            }
            match t.latest_of(pid) {
                Some(k) => {
                    put_entry_reads_back(t, dead, k);
                    first_where_is_first(t.entries, has_key(k));
                },
                None => {},
            }
        },
        None => {
            match t.latest_of(pid) {
                Some(k) => {
                    first_where_is_first(t.entries, has_key(k));
                },
                None => {},
            }
        },
    }
}

/// The entry to evict is a superseded one, and no superseded entry was inserted
/// before it.
proof fn victim_is_oldest(entries: Seq<ProcessEntryView>, latest: Seq<ProcKey>)
    ensures
        victim(entries, latest) is None ==> forall|i: int|
            0 <= i < entries.len() ==> latest.contains(entry_key(#[trigger] entries[i])),
        victim(entries, latest) matches Some(v) ==> forall|i: int|
            0 <= i < entries.len() && !latest.contains(entry_key(#[trigger] entries[i]))
                ==> entries[v].seq <= entries[i].seq,
    decreases entries.len(),
{
    if entries.len() > 0 {
        victim_is_oldest(entries.drop_last(), latest);
        victim_is_not_latest(entries.drop_last(), latest);
        assert forall|i: int| 0 <= i < entries.len() - 1 implies #[trigger] entries[i]
            == entries.drop_last()[i] by {}
    }
}

/// Where the index is over its bound and holds a superseded entry, eviction
/// takes away exactly one: the superseded entry that was inserted first. All
/// other entries, and what process ids resolve to, stay.
pub proof fn eviction_takes_the_oldest(t: TableView, i: int) -> (v: int)
    requires
        t.wf(),
        t.entries.len() > CAP,
        0 <= i < t.entries.len(),
        t.superseded(i),
    ensures
        t.evicts(v),
        forall|pid: u32| #[trigger] t.evicted().by_pid(pid) == t.by_pid(pid),
{
    victim_is_oldest(t.entries, t.latest);
    victim_is_not_latest(t.entries, t.latest);
    evicted_keeps_latest(t);
    assert forall|pid: u32| #[trigger] t.evicted().by_pid(pid) == t.by_pid(pid) by {
        first_where_is_first(t.latest, has_pid(pid));
        match t.latest_of(pid) {
            Some(k) => {
                assert(t.latest.contains(k));
            },
            None => {},
        }
    }
    let v = victim(t.entries, t.latest)->0;
    assert forall|k: int| 0 <= k < t.entries.len() && #[trigger] t.superseded(k) implies t.entries[v].seq
        <= t.entries[k].seq by {
        assert(!t.latest.contains(entry_key(t.entries[k])));
    }
    v
}

/// A new process put into a full index, where some entry is superseded once it
/// is in, makes exactly one entry leave: the superseded one that was inserted
/// first. The index stays full.
pub proof fn full_index_evicts_one(t: TableView, e: ProcessEntryView, i: int) -> (v: int)
    requires
        t.wf(),
        t.entries.len() == CAP,
        t.by_key(entry_key(e)) is None,
        0 <= i <= t.entries.len(),
        t.entered(e).superseded(i),
    ensures
        t.entered(e).entries == t.entries.push(ProcessEntryView { seq: t.next_seq, ..e }),
        t.entered(e).evicts(v),
        t.inserted(e).entries == t.entered(e).entries.remove(v),
        t.inserted(e).entries.len() == CAP,
        forall|pid: u32| #[trigger] t.inserted(e).by_pid(pid) == t.entered(e).by_pid(pid),
{
    entered_is_wf(t, e);
    let v = eviction_takes_the_oldest(t.entered(e), i);
    assert forall|pid: u32| #[trigger] t.inserted(e).by_pid(pid) == t.entered(e).by_pid(pid) by {
        assert(t.entered(e).evicted().by_pid(pid) == t.entered(e).by_pid(pid));
    }
    v
}

/// However many processes are put in, the index stays within its bound, but for
/// entries that process ids resolve to.
pub proof fn insertion_keeps_the_bound(t: TableView, e: ProcessEntryView)
    requires
        t.wf(),
        t.bounded(),
    ensures
        t.inserted(e).bounded(),
{
    let r = t.entered(e);
    let after = t.inserted(e);
    let key = entry_key(e);
    entered_is_wf(t, e);
    victim_is_oldest(r.entries, r.latest);
    victim_is_not_latest(r.entries, r.latest);
    first_where_is_first(t.entries, has_key(key));
    if r.entries.len() > CAP {
        match victim(r.entries, r.latest) {
            None => {
                assert forall|i: int| 0 <= i < r.entries.len() implies !#[trigger] r.superseded(
                    i,
                ) by {
                    assert(r.latest.contains(entry_key(r.entries[i])));
                }
            },
            Some(v) => {
                if t.entries.len() > CAP {
                    assert forall|i: int| 0 <= i < after.entries.len() implies !#[trigger] after.superseded(
                        i,
                    ) by {
                        let a = if i < v {
                            i
                        } else {
                            i + 1
                        };
                        assert(after.entries[i] == r.entries[a]);
                        if r.superseded(a) {
                            one_is_superseded(t, e, a, v);
                        }
                    }
                }
            },
        }
    }
}

/// Where no entry was superseded, an insertion supersedes one at most.
proof fn one_is_superseded(t: TableView, e: ProcessEntryView, a: int, b: int)
    requires
        t.wf(),
        forall|i: int| 0 <= i < t.entries.len() ==> !#[trigger] t.superseded(i),
        0 <= a < t.entered(e).entries.len(),
        0 <= b < t.entered(e).entries.len(),
        t.entered(e).superseded(a),
        t.entered(e).superseded(b),
    ensures
        a == b,
{
    let r = t.entered(e);
    let key = entry_key(e);
    entered_is_wf(t, e);
    first_where_is_first(t.entries, has_key(key));
    first_where_is_first(t.latest, has_pid(key.pid));
    let stays = t.latest_of(key.pid) matches Some(k) && key.start_unix_secs < k.start_unix_secs;
    let known = |i: int| 0 <= i < r.entries.len() && r.superseded(i);
    // The identity that is superseded: the entry's own where its process id
    // resolves to a later start, else the one that it resolved to before.
    let lost = if stays {
        key
    } else {
        match t.latest_of(key.pid) {
            Some(k) => k,
            None => key,
        }
    };
    assert forall|i: int| #[trigger] known(i) implies entry_key(r.entries[i]) == lost by {
        let k = entry_key(r.entries[i]);
        if k == key {
            if !stays {
                put_latest_reads_back(t, key, key.pid);
                assert(r.latest == t.put_latest(key).latest);
                assert(false);
            }
        } else {
            assert(i < t.entries.len() && r.entries[i] == t.entries[i]);
            assert(!t.superseded(i));
            let m = choose|m: int| 0 <= m < t.latest.len() && t.latest[m] == k;
            assert(t.latest.contains(k));
            if stays {
                assert(r.latest == t.latest);
                assert(false);
            } else {
                assert(r.latest == t.put_latest(key).latest);
                match first_where(t.latest, has_pid(key.pid)) {
                    Some(at) => {
                        if m != at {
                            assert(r.latest[m] == k);
                            assert(false);
                        }
                    },
                    None => {
                        assert(r.latest[m] == k);
                        assert(false);
                    },
                }
            }
        }
    }
    assert(known(a) && known(b));
    let f = key_of_entry();
    if a < b {
        assert(f(r.entries[a]) != f(r.entries[b]));
    } else if b < a {
        assert(f(r.entries[b]) != f(r.entries[a]));
    }
}

/// A death leaves the index within its bound.
pub proof fn death_keeps_the_bound(t: TableView, key: ProcKey)
    requires
        t.bounded(),
    ensures
        t.died(key).bounded(),
{
    let after = t.died(key);
    first_where_is_first(t.entries, has_key(key));
    if t.entries.len() > CAP {
        assert forall|i: int| 0 <= i < after.entries.len() implies !#[trigger] after.superseded(
            i,
        ) by {
            assert(!t.superseded(i));
            assert(entry_key(after.entries[i]) == entry_key(t.entries[i]));
        }
    }
}

/// No more than `n` ancestors are met.
pub proof fn climb_is_bounded(t: TableView, pid: u32, seen: Seq<u32>, n: nat)
    ensures
        t.climb(pid, seen, n).len() <= n,
    decreases n,
{
    if n > 0 && !seen.contains(pid) {
        match t.by_pid(pid) {
            Some(e) => match followed(e.ppid) {
                Some(p) => {
                    climb_is_bounded(t, p, seen.push(pid), (n - 1) as nat);
                },
                None => {},
            },
            None => {},
        }
    }
}

/// Whatever the parents are, a cycle among them included, at most
/// `MAX_ANCESTORS` ancestors are listed.
pub proof fn ancestors_are_bounded(t: TableView, pid: u32)
    ensures
        t.ancestors(pid).len() <= MAX_ANCESTORS,
{
    match t.by_pid(pid) {
        Some(e) => match followed(e.ppid) {
            Some(p) => {
                climb_is_bounded(t, p, seq![pid], MAX_ANCESTORS as nat);
            },
            None => {},
        },
        None => {},
    }
}

/// A climb meets nothing that was seen before, and nothing twice.
proof fn climb_meets_new_ones(t: TableView, pid: u32, seen: Seq<u32>, n: nat, i: int, j: int)
    requires
        0 <= i < t.climb(pid, seen, n).len(),
        i < j < t.climb(pid, seen, n).len() || j == i,
    ensures
        !seen.contains(t.climb(pid, seen, n)[i].pid),
        i < j ==> t.climb(pid, seen, n)[i].pid != t.climb(pid, seen, n)[j].pid,
    decreases n,
{
    let all = t.climb(pid, seen, n);
    let e = t.by_pid(pid)->0;
    first_where_is_first(t.latest, has_pid(pid));
    first_where_is_first(t.entries, has_key(t.latest_of(pid)->0));
    assert(e.pid == pid);
    match followed(e.ppid) {
        Some(p) => {
            let rest = t.climb(p, seen.push(pid), (n - 1) as nat);
            assert forall|k: int| 1 <= k < all.len() implies #[trigger] all[k] == rest[k - 1] by {}
            if i > 0 {
                climb_meets_new_ones(t, p, seen.push(pid), (n - 1) as nat, i - 1, j - 1);
                assert(seen.push(pid).drop_last() =~= seen);
                if seen.contains(all[i].pid) {
                    let m = choose|m: int| 0 <= m < seen.len() && seen[m] == all[i].pid;
                    assert(seen.push(pid)[m] == all[i].pid);
                }
            } else if j > 0 {
                climb_meets_new_ones(t, p, seen.push(pid), (n - 1) as nat, j - 1, j - 1);
                assert(seen.push(pid)[seen.len() as int] == pid);
            }
        },
        None => {},
    }
}

/// Whatever the parents are, a cycle among them included, no process is listed
/// twice, and none is its own ancestor.
pub proof fn ancestors_are_new(t: TableView, pid: u32, i: int, j: int)
    requires
        0 <= i < j < t.ancestors(pid).len() || 0 <= i == j < t.ancestors(pid).len(),
    ensures
        t.ancestors(pid)[i].pid != pid,
        i < j ==> t.ancestors(pid)[i].pid != t.ancestors(pid)[j].pid,
{
    let p = followed(t.by_pid(pid)->0.ppid)->0;
    climb_meets_new_ones(t, p, seq![pid], MAX_ANCESTORS as nat, i, j);
    assert(seq![pid][0] == pid);
}

} // verus!
