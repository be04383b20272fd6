//! TTL-based dedup table for outstanding cleaner requests.
//!
//! The table is written to disk with the time that each entry has left, so that a restart does
//! not immediately re-fire requests sent seconds before. Times are nanoseconds on a steady clock.

use vstd::prelude::*;

use crate::cleaner::runs::{covered, lemma_covered_concat};
use crate::control::messages::{RequestedRange, SenderQueueSnapshot};
use crate::sender::queue::{
    add_to_groups, groups, law_snapshots_show_each_file, WorkItemView,
};

verus! {

/// What the cleaner asks the sender for.
#[derive(Debug, Copy, Clone, PartialEq, Eq, Structural)]
pub enum RequestType {
    /// A range of chunks.
    Retransmit,
    /// The name of a file.
    ResendName,
}

/// What an entry of the table is for.
#[derive(Debug, Copy, Clone, PartialEq, Eq, Structural, Hash)]
pub enum Kind {
    /// A range of chunks.
    Retransmit,
    /// The name of a file.
    ResendName,
}

/// What an entry for a request is for.
pub open spec fn kind_of(k: RequestType) -> Kind {
    match k {
        RequestType::Retransmit => Kind::Retransmit,
        RequestType::ResendName => Kind::ResendName,
    }
}

/// What an entry for a request is for.
pub fn kind_to(k: RequestType) -> (kind: Kind)
    ensures
        kind == kind_of(k),
{
    match k {
        RequestType::Retransmit => Kind::Retransmit,
        RequestType::ResendName => Kind::ResendName,
    }
}

/// One outstanding request and when it stops counting as such.
#[derive(Debug, Copy, Clone, PartialEq, Eq, Structural)]
pub struct Entry {
    pub file_id: i64,
    pub kind: Kind,
    pub range: RequestedRange,
    pub expiry: u128,
}

/// An entry as it is written to disk.
#[derive(Debug, Copy, Clone, PartialEq, Eq, Structural)]
pub struct PersistedEntry {
    pub file_id: i64,
    pub kind: Kind,
    pub range: RequestedRange,
    /// Seconds until expiry from the time the table was written.
    pub ttl_secs_remaining: u64,
}

/// What tells entries apart.
pub struct Key {
    pub file_id: i64,
    pub kind: Kind,
    pub range: RequestedRange,
}

impl Entry {
    /// What tells the entry apart from others.
    pub open spec fn key(self) -> Key {
        Key { file_id: self.file_id, kind: self.kind, range: self.range }
    }
}

impl PersistedEntry {
    /// What tells the entry apart from others.
    pub open spec fn key(self) -> Key {
        Key { file_id: self.file_id, kind: self.kind, range: self.range }
    }
}

/// Whether no two entries are for the same request.
pub open spec fn distinct(entries: Seq<Entry>) -> bool {
    forall|i: int, j: int|
        0 <= i < j < entries.len() ==> #[trigger] entries[i].key() != #[trigger] entries[j].key()
}

/// Whether there is an entry for a request, expired or not.
pub open spec fn has_key(entries: Seq<Entry>, key: Key) -> bool {
    exists|i: int| 0 <= i < entries.len() && #[trigger] entries[i].key() == key
}

/// Whether a request is still outstanding at a time.
pub open spec fn live(entries: Seq<Entry>, key: Key, now: int) -> bool {
    exists|i: int|
        0 <= i < entries.len() && #[trigger] entries[i].key() == key && entries[i].expiry > now
}

/// Whether a chunk of a file was asked for and the request is still outstanding at a time.
pub open spec fn asked_lately(entries: Seq<Entry>, file_id: i64, chunk: int, now: int) -> bool {
    exists|i: int|
        0 <= i < entries.len() && asks_lately(#[trigger] entries[i], file_id, now)
            && entries[i].range.has(chunk)
}

/// Whether an entry is an outstanding request for chunks of a file.
pub open spec fn asks_lately(e: Entry, file_id: i64, now: int) -> bool {
    e.file_id == file_id && e.kind is Retransmit && e.expiry > now
}

/// The ranges of a file that outstanding requests are for.
pub open spec fn asked_of(entries: Seq<Entry>, file_id: i64, now: int) -> Seq<RequestedRange>
    decreases entries.len(),
{
    if entries.len() == 0 {
        seq![]
    } else if asks_lately(entries.last(), file_id, now) {
        asked_of(entries.drop_last(), file_id, now).push(entries.last().range)
    } else {
        asked_of(entries.drop_last(), file_id, now)
    }
}

/// The entries with one put in, in place of one for the same request.
pub open spec fn with_entry(entries: Seq<Entry>, e: Entry) -> Seq<Entry> {
    if has_key(entries, e.key()) {
        let i = choose|i: int|
            0 <= i < entries.len() && #[trigger] entries[i].key() == e.key();
        entries.update(i, e)
    } else {
        entries.push(e)
    }
}

/// Nanoseconds in a number of seconds.
pub open spec fn nanos(secs: int) -> int {
    secs * 1_000_000_000
}

/// What is written to disk of the entries at a time: those that have not expired, with the whole
/// seconds that they have left.
pub open spec fn saved(entries: Seq<Entry>, now: u64) -> Seq<PersistedEntry>
    decreases entries.len(),
{
    if entries.len() == 0 {
        seq![]
    } else {
        let rest = saved(entries.drop_last(), now);
        let e = entries.last();
        if e.expiry >= now {
            rest.push(saved_entry(e, now))
        } else {
            rest
        }
    }
}

/// What is written to disk of an entry at a time.
pub open spec fn saved_entry(e: Entry, now: u64) -> PersistedEntry {
    PersistedEntry {
        file_id: e.file_id,
        kind: e.kind,
        range: e.range,
        ttl_secs_remaining: (if (e.expiry - now) / 1_000_000_000 > u64::MAX {
            u64::MAX as int
        } else {
            (e.expiry - now) / 1_000_000_000
        }) as u64,
    }
}

/// The entries that what was written to disk makes at a time.
pub open spec fn loaded(list: Seq<PersistedEntry>, now: u64) -> Seq<Entry>
    decreases list.len(),
{
    if list.len() == 0 {
        seq![]
    } else {
        with_entry(loaded(list.drop_last(), now), loaded_entry(list.last(), now))
    }
}

/// The entry that one written to disk makes at a time.
pub open spec fn loaded_entry(p: PersistedEntry, now: u64) -> Entry {
    Entry {
        file_id: p.file_id,
        kind: p.kind,
        range: p.range,
        expiry: (now + nanos(p.ttl_secs_remaining as int)) as u128,
    }
}

/// The entries that have not expired at a time.
pub open spec fn unexpired(entries: Seq<Entry>, now: u64) -> Seq<Entry> {
    entries.filter(|e: Entry| e.expiry > now)
}

/// Each entry as a unit of work that the sender has pending.
pub open spec fn as_work(entries: Seq<Entry>) -> Seq<WorkItemView> {
    entries.map_values(|e: Entry| entry_as_work(e))
}

/// An entry as a unit of work that the sender has pending.
pub open spec fn entry_as_work(e: Entry) -> WorkItemView {
    match e.kind {
        Kind::Retransmit => WorkItemView::Retransmit { file_id: e.file_id, range: e.range },
        Kind::ResendName => WorkItemView::Manifest { file_id: e.file_id, file_name: Seq::empty() },
    }
}

/// Per-file snapshots of a list of triples.
pub open spec fn triples(
    list: Seq<(i64, Vec<RequestedRange>, bool)>,
    snap: Seq<SenderQueueSnapshot>,
) -> bool {
    &&& list.len() == snap.len()
    &&& forall|i: int|
        0 <= i < list.len() ==> {
            &&& (#[trigger] list[i]).0 == snap[i].file_id
            &&& list[i].1@ == snap[i].ranges@
            &&& list[i].2 == snap[i].manifest_pending
        }
}

/// The requests made lately, each for as long as the time to live says.
#[derive(Debug)]
pub struct DedupTable {
    entries: Vec<Entry>,
    ttl_secs: u64,
}

impl DedupTable {
    /// No two entries are for the same request.
    #[verifier::type_invariant]
    closed spec fn no_twins(self) -> bool {
        distinct(self.entries@)
    }

    /// The entries.
    pub closed spec fn list(self) -> Seq<Entry> {
        self.entries@
    }

    /// How long an entry lives, in seconds.
    pub closed spec fn ttl(self) -> u64 {
        self.ttl_secs
    }

    /// An empty table.
    pub fn new(ttl_secs: u64) -> (t: DedupTable)
        ensures
            t.list() == Seq::<Entry>::empty(),
            t.ttl() == ttl_secs,
            distinct(t.list()),
    {
        DedupTable { entries: Vec::new(), ttl_secs }
    }

    /// The table that was written to disk, with the time that its entries had left counted from
    /// now. Where nothing readable was written the list is empty.
    pub fn load(persisted: &Vec<PersistedEntry>, ttl_secs: u64, now: u64) -> (t: DedupTable)
        ensures
            t.list() == loaded(persisted@, now),
            t.ttl() == ttl_secs,
            distinct(t.list()),
    {
        let mut entries: Vec<Entry> = Vec::new();
        let mut i: usize = 0;
        assert(persisted@.take(0) =~= Seq::empty());
        while i < persisted.len()
            invariant
                i <= persisted@.len(),
                entries@ == loaded(persisted@.take(i as int), now),
                distinct(entries@),
            decreases persisted@.len() - i,
        {
            let p = persisted[i];
            assert(persisted@.take(i + 1).drop_last() =~= persisted@.take(i as int));
            let expiry: u128 = now as u128 + p.ttl_secs_remaining as u128 * 1_000_000_000;
            put(
                &mut entries,
                Entry { file_id: p.file_id, kind: p.kind, range: p.range, expiry },
            );
            i += 1;
        }
        assert(persisted@.take(persisted@.len() as int) =~= persisted@);
        DedupTable { entries, ttl_secs }
    }

    /// What to write to disk.
    pub fn save(&self, now: u64) -> (list: Vec<PersistedEntry>)
        ensures
            list@ == saved(self.list(), now),
    {
        let mut list: Vec<PersistedEntry> = Vec::new();
        let mut i: usize = 0;
        assert(self.entries@.take(0) =~= Seq::empty());
        while i < self.entries.len()
            invariant
                i <= self.entries@.len(),
                list@ == saved(self.entries@.take(i as int), now),
            decreases self.entries@.len() - i,
        {
            let e = self.entries[i];
            assert(self.entries@.take(i + 1).drop_last() =~= self.entries@.take(i as int));
            if e.expiry >= now as u128 {
                let left: u128 = (e.expiry - now as u128) / 1_000_000_000;
                list.push(
                    PersistedEntry {
                        file_id: e.file_id,
                        kind: e.kind,
                        range: e.range,
                        ttl_secs_remaining: if left > u64::MAX as u128 {
                            u64::MAX
                        } else {
                            left as u64
                        },
                    },
                );
            }
            i += 1;
        }
        assert(self.entries@.take(self.entries@.len() as int) =~= self.entries@);
        list
    }

    /// Returns `true` if the entry was added, `false` if it was already present and not yet
    /// expired.
    pub fn try_insert(&mut self, file_id: i64, range: RequestedRange, kind: RequestType, now: u64)
        -> (added: bool)
        ensures
            final(self).ttl() == old(self).ttl(),
            distinct(final(self).list()),
            ({
                let e = Entry {
                    file_id,
                    kind: kind_of(kind),
                    range,
                    expiry: (now + nanos(old(self).ttl() as int)) as u128,
                };
                &&& added == !live(old(self).list(), e.key(), now as int)
                &&& final(self).list() == if added {
                    with_entry(old(self).list(), e)
                } else {
                    old(self).list()
                }
            }),
    {
        proof {
            use_type_invariant(&*self);
        }
        let k = kind_to(kind);
        let ghost key = Key { file_id, kind: k, range };
        let mut i: usize = 0;
        while i < self.entries.len()
            invariant
                i <= self.entries@.len(),
                distinct(self.entries@),
                self.entries@ == old(self).entries@,
                self.ttl_secs == old(self).ttl_secs,
                k == kind_of(kind),
                key == (Key { file_id, kind: k, range }),
                forall|j: int|
                    0 <= j < i ==> !(#[trigger] self.entries@[j].key() == key
                        && self.entries@[j].expiry > now),
            decreases self.entries@.len() - i,
        {
            let e = self.entries[i];
            if e.file_id == file_id && e.kind == k && e.range == range && e.expiry > now as u128 {
                assert(self.entries@[i as int].key() == key);
                assert(live(old(self).list(), key, now as int));
                return false;
            }
            i += 1;
        }
        let expiry: u128 = now as u128 + self.ttl_secs as u128 * 1_000_000_000;
        let mut entries: Vec<Entry> = Vec::new();
        std::mem::swap(&mut entries, &mut self.entries);
        put(&mut entries, Entry { file_id, kind: k, range, expiry });
        self.entries = entries;
        true
    }

    /// The ranges of a file that outstanding requests are for.
    pub fn asked_ranges(&self, file_id: i64, now: u64) -> (ranges: Vec<RequestedRange>)
        ensures
            ranges@ == asked_of(self.list(), file_id, now as int),
    {
        let mut ranges: Vec<RequestedRange> = Vec::new();
        let mut i: usize = 0;
        assert(self.entries@.take(0) =~= Seq::empty());
        while i < self.entries.len()
            invariant
                i <= self.entries@.len(),
                ranges@ == asked_of(self.entries@.take(i as int), file_id, now as int),
            decreases self.entries@.len() - i,
        {
            let e = self.entries[i];
            assert(self.entries@.take(i + 1).drop_last() =~= self.entries@.take(i as int));
            if e.file_id == file_id && e.kind == Kind::Retransmit && e.expiry > now as u128 {
                ranges.push(e.range);
            }
            i += 1;
        }
        assert(self.entries@.take(self.entries@.len() as int) =~= self.entries@);
        ranges
    }

    /// Drop what has expired.
    pub fn gc(&mut self, now: u64)
        ensures
            final(self).ttl() == old(self).ttl(),
            distinct(final(self).list()),
            final(self).list() == unexpired(old(self).list(), now),
    {
        proof {
            use_type_invariant(&*self);
        }
        let mut kept: Vec<Entry> = Vec::new();
        let mut i: usize = 0;
        let ghost all = self.entries@;
        let ghost fresh = |e: Entry| e.expiry > now;
        assert(all.take(0) =~= Seq::empty());
        reveal(Seq::filter);
        while i < self.entries.len()
            invariant
                i <= self.entries@.len(),
                self.entries@ == all,
                self.ttl_secs == old(self).ttl_secs,
                fresh == |e: Entry| e.expiry > now,
                kept@ == all.take(i as int).filter(fresh),
            decreases all.len() - i,
        {
            let e = self.entries[i];
            proof {
                reveal(Seq::filter);
                assert(all.take(i + 1).drop_last() =~= all.take(i as int));
            }
            if e.expiry > now as u128 {
                kept.push(e);
            }
            i += 1;
        }
        proof {
            assert(all.take(all.len() as int) =~= all);
            lemma_unexpired(all, now);
            assert(kept@ == unexpired(all, now));
        }
        self.entries = kept;
    }

    /// How many entries there are.
    pub fn recent_count(&self) -> (n: usize)
        ensures
            n == self.list().len(),
    {
        self.entries.len()
    }

    /// The entries grouped by file, in the order of the ids, as a status report shows them.
    pub fn snapshot(&self) -> (snap: Vec<SenderQueueSnapshot>)
        ensures
            groups(snap@, as_work(self.list())),
    {
        let mut snap: Vec<SenderQueueSnapshot> = Vec::new();
        let mut i: usize = 0;
        let ghost work = as_work(self.entries@);
        assert(work.take(0) =~= Seq::empty());
        while i < self.entries.len()
            invariant
                i <= self.entries@.len(),
                work == as_work(self.entries@),
                groups(snap@, work.take(i as int)),
            decreases self.entries@.len() - i,
        {
            let e = self.entries[i];
            assert(work.take(i + 1) =~= work.take(i as int).push(entry_as_work(e)));
            let range = match e.kind {
                Kind::Retransmit => Some(e.range),
                Kind::ResendName => None,
            };
            add_to_groups(
                &mut snap,
                e.file_id,
                range,
                Ghost(work.take(i as int)),
                Ghost(entry_as_work(e)),
            );
            i += 1;
        }
        assert(work.take(work.len() as int) =~= work);
        snap
    }

    /// The entries grouped by file, in the order of the ids: the ranges asked for, and whether the
    /// name was.
    pub fn group_by_file(&self) -> (list: Vec<(i64, Vec<RequestedRange>, bool)>)
        ensures
            exists|snap: Seq<SenderQueueSnapshot>|
                groups(snap, as_work(self.list())) && #[trigger] triples(list@, snap),
    {
        let snap = self.snapshot();
        let mut list: Vec<(i64, Vec<RequestedRange>, bool)> = Vec::new();
        let mut k: usize = 0;
        while k < snap.len()
            invariant
                k <= snap@.len(),
                triples(list@, snap@.take(k as int)),
            decreases snap@.len() - k,
        {
            let mut ranges: Vec<RequestedRange> = Vec::new();
            ranges.extend_from_slice(snap[k].ranges.as_slice());
            assert(ranges@ =~= snap@[k as int].ranges@);
            list.push((snap[k].file_id, ranges, snap[k].manifest_pending));
            k += 1;
        }
        assert(snap@.take(snap@.len() as int) =~= snap@);
        assert(triples(list@, snap@));
        list
    }
}

/// The ranges of outstanding requests cover exactly the chunks that were asked for lately.
pub proof fn lemma_asked(entries: Seq<Entry>, file_id: i64, chunk: int, now: int)
    ensures
        covered(asked_of(entries, file_id, now), chunk) == asked_lately(
            entries,
            file_id,
            chunk,
            now,
        ),
    decreases entries.len(),
{
    if entries.len() > 0 {
        let rest = entries.drop_last();
        let e = entries.last();
        let before = asked_of(rest, file_id, now);
        let all = asked_of(entries, file_id, now);
        lemma_asked(rest, file_id, chunk, now);
        if asks_lately(e, file_id, now) {
            assert(all =~= before + seq![e.range]);
            lemma_covered_concat(before, seq![e.range], chunk);
            assert(covered(seq![e.range], chunk) == e.range.has(chunk)) by {
                assert(seq![e.range][0] == e.range);
            }
        }
        if asked_lately(rest, file_id, chunk, now) {
            let i = choose|i: int|
                0 <= i < rest.len() && asks_lately(#[trigger] rest[i], file_id, now)
                    && rest[i].range.has(chunk);
            assert(entries[i] == rest[i]);
        }
        assert(entries[entries.len() - 1] == e);
        if asked_lately(entries, file_id, chunk, now) {
            let i = choose|i: int|
                0 <= i < entries.len() && asks_lately(#[trigger] entries[i], file_id, now)
                    && entries[i].range.has(chunk);
            if i < rest.len() {
                assert(rest[i] == entries[i]);
            }
        }
    }
}

/// Puts an entry in, in place of one for the same request.
fn put(entries: &mut Vec<Entry>, e: Entry)
    requires
        distinct(old(entries)@),
    ensures
        final(entries)@ == with_entry(old(entries)@, e),
        distinct(final(entries)@),
{
    let mut i: usize = 0;
    while i < entries.len()
        invariant
            i <= entries@.len(),
            entries@ == old(entries)@,
            distinct(entries@),
            forall|j: int| 0 <= j < i ==> #[trigger] entries@[j].key() != e.key(),
        decreases entries@.len() - i,
    {
        let x = entries[i];
        if x.file_id == e.file_id && x.kind == e.kind && x.range == e.range {
            proof {
                assert(entries@[i as int].key() == e.key());
                lemma_with_entry(entries@, e, i as int);
            }
            entries.set(i, e);
            return;
        }
        i += 1;
    }
    entries.push(e);
}

/// Where an entry is put when there is one for the same request.
proof fn lemma_with_entry(entries: Seq<Entry>, e: Entry, at: int)
    requires
        distinct(entries),
        0 <= at < entries.len(),
        entries[at].key() == e.key(),
    ensures
        with_entry(entries, e) == entries.update(at, e),
        distinct(entries.update(at, e)),
{
    let i = choose|i: int| 0 <= i < entries.len() && #[trigger] entries[i].key() == e.key();
    assert(i == at);
    let now = entries.update(at, e);
    assert forall|i: int, j: int| 0 <= i < j < now.len() implies #[trigger] now[i].key()
        != #[trigger] now[j].key() by {
        assert(now[i].key() == entries[i].key() && now[j].key() == entries[j].key());
    }
}

/// Dropping expired entries keeps exactly the others.
proof fn lemma_unexpired(entries: Seq<Entry>, now: u64)
    requires
        distinct(entries),
    ensures
        distinct(unexpired(entries, now)),
        forall|e: Entry|
            #[trigger] unexpired(entries, now).contains(e) <==> entries.contains(e) && e.expiry
                > now,
    decreases entries.len(),
{
    reveal(Seq::filter);
    if entries.len() > 0 {
        let rest = entries.drop_last();
        let last = entries.last();
        assert forall|i: int, j: int| 0 <= i < j < rest.len() implies #[trigger] rest[i].key()
            != #[trigger] rest[j].key() by {
            assert(entries[i] == rest[i] && entries[j] == rest[j]);
        }
        lemma_unexpired(rest, now);
        let kept = unexpired(entries, now);
        let fewer = unexpired(rest, now);
        assert forall|i: int, j: int| 0 <= i < j < kept.len() implies #[trigger] kept[i].key()
            != #[trigger] kept[j].key() by {
            if j == fewer.len() {
                assert(fewer.contains(fewer[i]));
                let k = choose|k: int| 0 <= k < rest.len() && rest[k] == fewer[i];
                assert(entries[k] == fewer[i]);
                assert(entries[entries.len() - 1] == last);
                assert(entries[k].key() != entries[entries.len() - 1].key());
            } else {
                assert(fewer[i].key() != fewer[j].key());
            }
        }
        assert forall|e: Entry| #[trigger] kept.contains(e) <==> entries.contains(e) && e.expiry
            > now by {
            if kept.contains(e) {
                let k = choose|k: int| 0 <= k < kept.len() && kept[k] == e;
                if k < fewer.len() {
                    assert(fewer.contains(e));
                    let l = choose|l: int| 0 <= l < rest.len() && rest[l] == e;
                    assert(entries[l] == e);
                } else {
                    assert(entries[entries.len() - 1] == e);
                }
            }
            if entries.contains(e) && e.expiry > now {
                let l = choose|l: int| 0 <= l < entries.len() && entries[l] == e;
                if l < rest.len() {
                    assert(rest[l] == e);
                    assert(fewer.contains(e));
                    let k = choose|k: int| 0 <= k < fewer.len() && fewer[k] == e;
                    assert(kept[k] == e);
                } else {
                    assert(kept[kept.len() - 1] == e);
                }
            }
        }
    }
}

/// Putting an entry in keeps a request outstanding that is outstanding, and makes the entry's own
/// request outstanding until it expires.
proof fn lemma_put_keeps(entries: Seq<Entry>, e: Entry, key: Key, now: int)
    requires
        distinct(entries),
    ensures
        distinct(with_entry(entries, e)),
        key != e.key() ==> live(with_entry(entries, e), key, now) == live(entries, key, now),
        live(with_entry(entries, e), e.key(), now) == (e.expiry > now),
        forall|k: Key|
            #[trigger] has_key(with_entry(entries, e), k) == (has_key(entries, k) || k == e.key()),
{
    let after = with_entry(entries, e);
    let at = if has_key(entries, e.key()) {
        choose|i: int| 0 <= i < entries.len() && #[trigger] entries[i].key() == e.key()
    } else {
        entries.len() as int
    };
    if has_key(entries, e.key()) {
        lemma_with_entry(entries, e, at);
    } else {
        assert forall|i: int, j: int| 0 <= i < j < after.len() implies #[trigger] after[i].key()
            != #[trigger] after[j].key() by {
            assert(after[i] == entries[i]);
            if j < entries.len() {
                assert(after[j] == entries[j]);
            }
        }
    }
    assert(after[at] == e);
    assert(forall|i: int| 0 <= i < entries.len() && i != at ==> after[i] == entries[i]);
    if live(entries, key, now) && key != e.key() {
        let i = choose|i: int|
            0 <= i < entries.len() && #[trigger] entries[i].key() == key && entries[i].expiry > now;
        assert(after[i].key() == key);
    }
    if live(after, key, now) && key != e.key() {
        let i = choose|i: int|
            0 <= i < after.len() && #[trigger] after[i].key() == key && after[i].expiry > now;
        assert(entries[i].key() == key);
    }
    if e.expiry > now {
        assert(after[at].key() == e.key());
    }
    if live(after, e.key(), now) {
        let i = choose|i: int|
            0 <= i < after.len() && #[trigger] after[i].key() == e.key() && after[i].expiry > now;
        assert(after[i].key() == after[at].key());
        if i < at {
            assert(after[i].key() != after[at].key());
        } else if at < i {
            assert(after[at].key() != after[i].key());
        }
    }
    assert forall|k: Key| #[trigger] has_key(after, k) == (has_key(entries, k) || k == e.key()) by {
        if has_key(entries, k) {
            let i = choose|i: int| 0 <= i < entries.len() && #[trigger] entries[i].key() == k;
            assert(after[i].key() == k);
        }
        if k == e.key() {
            assert(after[at].key() == k);
        }
        if has_key(after, k) && k != e.key() {
            let i = choose|i: int| 0 <= i < after.len() && #[trigger] after[i].key() == k;
            assert(entries[i].key() == k);
        }
    }
}

/// A request that was made is not made again within its time to live: it stays outstanding until
/// it expires, whatever other requests are made and however often the table is cleared of what
/// has expired meanwhile.
pub proof fn law_request_blocks_for_its_ttl(
    entries: Seq<Entry>,
    made: Entry,
    other: Entry,
    cleared: u64,
    later: int,
)
    requires
        distinct(entries),
        made.key() != other.key(),
        cleared <= later < made.expiry,
    ensures
        live(with_entry(entries, made), made.key(), later),
        live(with_entry(with_entry(entries, made), other), made.key(), later),
        live(unexpired(with_entry(entries, made), cleared), made.key(), later),
{
    lemma_put_keeps(entries, made, made.key(), later);
    let with = with_entry(entries, made);
    lemma_put_keeps(with, other, made.key(), later);
    lemma_unexpired(with, cleared);
    let i = choose|i: int|
        0 <= i < with.len() && #[trigger] with[i].key() == made.key() && with[i].expiry > later;
    let e = with[i];
    assert(with.contains(e));
    let kept = unexpired(with, cleared);
    assert(kept.contains(e));
    let k = choose|k: int| 0 <= k < kept.len() && kept[k] == e;
    assert(kept[k].key() == made.key());
}

/// What was written to disk and read back still blocks what it blocked: an entry lives on for the
/// whole seconds that it had left when it was written.
pub proof fn law_restart_keeps_requests(entries: Seq<Entry>, at: int, written: u64, read: u64)
    requires
        distinct(entries),
        0 <= at < entries.len(),
        entries[at].expiry >= written,
        entries[at].expiry <= written + nanos(u64::MAX as int),
    ensures
        loaded(saved(entries, written), read).contains(
            Entry {
                expiry: (read + nanos((entries[at].expiry - written) / 1_000_000_000)) as u128,
                ..entries[at]
            },
        ),
{
    lemma_saved(entries, written);
    let list = saved(entries, written);
    let p = saved_entry(entries[at], written);
    assert(entries.contains(entries[at]));
    assert(list.contains(p));
    lemma_loaded(list, read);
    assert(loaded(list, read).contains(loaded_entry(p, read)));
}

/// What is written to disk is for distinct requests, one per entry that has not expired.
proof fn lemma_saved(entries: Seq<Entry>, now: u64)
    requires
        distinct(entries),
    ensures
        forall|i: int, j: int|
            0 <= i < j < saved(entries, now).len() ==> #[trigger] saved(entries, now)[i].key()
                != #[trigger] saved(entries, now)[j].key(),
        forall|e: Entry|
            #[trigger] entries.contains(e) && e.expiry >= now ==> saved(entries, now).contains(
                saved_entry(e, now),
            ),
        forall|i: int|
            0 <= i < saved(entries, now).len() ==> has_key(
                entries,
                #[trigger] saved(entries, now)[i].key(),
            ),
    decreases entries.len(),
{
    if entries.len() > 0 {
        let rest = entries.drop_last();
        let last = entries.last();
        assert forall|i: int, j: int| 0 <= i < j < rest.len() implies #[trigger] rest[i].key()
            != #[trigger] rest[j].key() by {
            assert(entries[i] == rest[i] && entries[j] == rest[j]);
        }
        lemma_saved(rest, now);
        let list = saved(entries, now);
        let fewer = saved(rest, now);
        assert forall|k: Key| has_key(rest, k) implies #[trigger] has_key(entries, k) && k
            != last.key() by {
            let i = choose|i: int| 0 <= i < rest.len() && #[trigger] rest[i].key() == k;
            assert(entries[i].key() == k);
            assert(entries[i].key() != entries[entries.len() - 1].key());
        }
        assert(entries[entries.len() - 1].key() == last.key());
        assert forall|i: int| 0 <= i < list.len() implies has_key(
            entries,
            #[trigger] list[i].key(),
        ) by {
            if i < fewer.len() {
                assert(list[i] == fewer[i]);
                assert(has_key(rest, fewer[i].key()));
            } else {
                assert(list[i].key() == last.key());
            }
        }
        assert forall|i: int, j: int| 0 <= i < j < list.len() implies #[trigger] list[i].key()
            != #[trigger] list[j].key() by {
            assert(list[i] == fewer[i]);
            assert(has_key(rest, fewer[i].key()));
            if j < fewer.len() {
                assert(list[j] == fewer[j]);
            } else {
                assert(list[j].key() == last.key());
                assert(has_key(entries, fewer[i].key()));
            }
        }
        assert forall|e: Entry| #[trigger] entries.contains(e) && e.expiry >= now implies list.contains(
            saved_entry(e, now),
        ) by {
            let i = choose|i: int| 0 <= i < entries.len() && entries[i] == e;
            if i < rest.len() {
                assert(rest[i] == e);
                assert(rest.contains(e));
                let p = saved_entry(e, now);
                let k = choose|k: int| 0 <= k < fewer.len() && fewer[k] == p;
                assert(list[k] == p);
            } else {
                assert(list[list.len() - 1] == saved_entry(e, now));
            }
        }
    }
}

/// Entries for distinct requests are all read back.
proof fn lemma_loaded(list: Seq<PersistedEntry>, now: u64)
    requires
        forall|i: int, j: int|
            0 <= i < j < list.len() ==> #[trigger] list[i].key() != #[trigger] list[j].key(),
    ensures
        distinct(loaded(list, now)),
        forall|p: PersistedEntry|
            #[trigger] list.contains(p) ==> loaded(list, now).contains(loaded_entry(p, now)),
        forall|k: Key|
            #[trigger] has_key(loaded(list, now), k) ==> exists|i: int|
                0 <= i < list.len() && #[trigger] list[i].key() == k,
    decreases list.len(),
{
    if list.len() > 0 {
        let rest = list.drop_last();
        let last = list.last();
        let e = loaded_entry(last, now);
        assert forall|i: int, j: int| 0 <= i < j < rest.len() implies #[trigger] rest[i].key()
            != #[trigger] rest[j].key() by {
            assert(list[i] == rest[i] && list[j] == rest[j]);
        }
        lemma_loaded(rest, now);
        let fewer = loaded(rest, now);
        let all = loaded(list, now);
        assert(!has_key(fewer, e.key())) by {
            if has_key(fewer, e.key()) {
                let i = choose|i: int| 0 <= i < rest.len() && #[trigger] rest[i].key() == e.key();
                assert(list[i].key() != list[list.len() - 1].key());
            }
        }
        assert(all == fewer.push(e));
        lemma_put_keeps(fewer, e, e.key(), 0);
        assert forall|p: PersistedEntry| #[trigger] list.contains(p) implies all.contains(
            loaded_entry(p, now),
        ) by {
            let i = choose|i: int| 0 <= i < list.len() && list[i] == p;
            if i < rest.len() {
                assert(rest[i] == p);
                assert(rest.contains(p));
                let k = choose|k: int| 0 <= k < fewer.len() && fewer[k] == loaded_entry(p, now);
                assert(all[k] == loaded_entry(p, now));
            } else {
                assert(all[all.len() - 1] == loaded_entry(p, now));
            }
        }
        assert forall|k: Key| #[trigger] has_key(all, k) implies exists|i: int|
            0 <= i < list.len() && #[trigger] list[i].key() == k by {
            if has_key(fewer, k) {
                let i = choose|i: int| 0 <= i < rest.len() && #[trigger] rest[i].key() == k;
                assert(list[i].key() == k);
            } else {
                assert(list[list.len() - 1].key() == k);
            }
        }
    }
}

/// A request that was entered is outstanding from then on until its time to live is over, to the
/// nanosecond, and then no more. No other request is affected.
pub proof fn law_request_is_outstanding_for_its_ttl(
    entries: Seq<Entry>,
    file_id: i64,
    kind: RequestType,
    range: RequestedRange,
    ttl: u64,
    now: u64,
    key: Key,
    later: int,
)
    requires
        distinct(entries),
    ensures
        ({
            let e = Entry {
                file_id,
                kind: kind_of(kind),
                range,
                expiry: (now + nanos(ttl as int)) as u128,
            };
            &&& live(with_entry(entries, e), e.key(), later) <==> later < now + ttl * 1_000_000_000
            &&& key != e.key() ==> live(with_entry(entries, e), key, later) == live(
                entries,
                key,
                later,
            )
        }),
{
    let e = Entry { file_id, kind: kind_of(kind), range, expiry: (now + nanos(ttl as int)) as u128 };
    lemma_put_keeps(entries, e, key, later);
}

/// A request is outstanding exactly where an entry with its file, kind and range expires later.
pub proof fn law_what_is_outstanding(entries: Seq<Entry>, key: Key, now: int)
    ensures
        live(entries, key, now) <==> exists|i: int|
            {
                &&& 0 <= i < entries.len()
                &&& (#[trigger] entries[i]).file_id == key.file_id
                &&& entries[i].kind == key.kind
                &&& entries[i].range == key.range
                &&& entries[i].expiry > now
            },
{
    if live(entries, key, now) {
        let i = choose|i: int|
            0 <= i < entries.len() && #[trigger] entries[i].key() == key && entries[i].expiry > now;
        assert(entries[i].file_id == key.file_id);
    }
    if exists|i: int|
        {
            &&& 0 <= i < entries.len()
            &&& (#[trigger] entries[i]).file_id == key.file_id
            &&& entries[i].kind == key.kind
            &&& entries[i].range == key.range
            &&& entries[i].expiry > now
        } {
        let i = choose|i: int|
            {
                &&& 0 <= i < entries.len()
                &&& (#[trigger] entries[i]).file_id == key.file_id
                &&& entries[i].kind == key.kind
                &&& entries[i].range == key.range
                &&& entries[i].expiry > now
            };
        assert(entries[i].key() == key);
    }
}

/// A chunk was asked for lately exactly where an entry for chunks of its file has it in its range
/// and expires later. A request for a name does not count.
pub proof fn law_what_was_asked_lately(entries: Seq<Entry>, file_id: i64, chunk: int, now: int)
    ensures
        asked_lately(entries, file_id, chunk, now) <==> exists|i: int|
            {
                &&& 0 <= i < entries.len()
                &&& (#[trigger] entries[i]).file_id == file_id
                &&& entries[i].kind == Kind::Retransmit
                &&& entries[i].range.start <= chunk < entries[i].range.start
                    + entries[i].range.count
                &&& entries[i].expiry > now
            },
        covered(asked_of(entries, file_id, now), chunk) == asked_lately(
            entries,
            file_id,
            chunk,
            now,
        ),
{
    lemma_asked(entries, file_id, chunk, now);
    if asked_lately(entries, file_id, chunk, now) {
        let i = choose|i: int|
            0 <= i < entries.len() && asks_lately(#[trigger] entries[i], file_id, now)
                && entries[i].range.has(chunk);
        assert(entries[i].file_id == file_id);
    }
    if exists|i: int|
        {
            &&& 0 <= i < entries.len()
            &&& (#[trigger] entries[i]).file_id == file_id
            &&& entries[i].kind == Kind::Retransmit
            &&& entries[i].range.start <= chunk < entries[i].range.start + entries[i].range.count
            &&& entries[i].expiry > now
        } {
        let i = choose|i: int|
            {
                &&& 0 <= i < entries.len()
                &&& (#[trigger] entries[i]).file_id == file_id
                &&& entries[i].kind == Kind::Retransmit
                &&& entries[i].range.start <= chunk < entries[i].range.start
                    + entries[i].range.count
                &&& entries[i].expiry > now
            };
        assert(asks_lately(entries[i], file_id, now) && entries[i].range.has(chunk));
    }
}

/// Clearing the table drops what has expired, keeps the rest, and adds nothing.
pub proof fn law_clearing_drops_the_expired(entries: Seq<Entry>, now: u64, e: Entry)
    requires
        distinct(entries),
    ensures
        unexpired(entries, now).contains(e) <==> entries.contains(e) && e.expiry > now,
        distinct(unexpired(entries, now)),
        unexpired(entries, now).len() <= entries.len(),
{
    lemma_unexpired(entries, now);
    lemma_fewer(entries, now);
}

/// Clearing the table leaves no more entries than there were.
proof fn lemma_fewer(entries: Seq<Entry>, now: u64)
    ensures
        unexpired(entries, now).len() <= entries.len(),
    decreases entries.len(),
{
    reveal(Seq::filter);
    if entries.len() > 0 {
        lemma_fewer(entries.drop_last(), now);
    }
}

/// What is written to disk at a time: one entry for each that has not expired by then, for the same
/// file, kind and range, with the whole seconds that it has left (as many as the field holds), and
/// nothing else.
pub proof fn law_what_is_written(entries: Seq<Entry>, now: u64, p: PersistedEntry)
    ensures
        saved(entries, now).contains(p) <==> exists|i: int|
            {
                &&& 0 <= i < entries.len()
                &&& (#[trigger] entries[i]).expiry >= now
                &&& p.file_id == entries[i].file_id
                &&& p.kind == entries[i].kind
                &&& p.range == entries[i].range
                &&& p.ttl_secs_remaining * 1_000_000_000 <= entries[i].expiry - now
                &&& entries[i].expiry - now < (p.ttl_secs_remaining + 1) * 1_000_000_000
                    || p.ttl_secs_remaining == u64::MAX
            },
    decreases entries.len(),
{
    let list = saved(entries, now);
    if entries.len() > 0 {
        let rest = entries.drop_last();
        let last = entries.last();
        let n = entries.len() - 1;
        law_what_is_written(rest, now, p);
        let fewer = saved(rest, now);
        assert(entries[n] == last);
        if list.contains(p) {
            let k = choose|k: int| 0 <= k < list.len() && list[k] == p;
            if k < fewer.len() {
                assert(fewer[k] == p);
                let i = choose|i: int|
                    {
                        &&& 0 <= i < rest.len()
                        &&& (#[trigger] rest[i]).expiry >= now
                        &&& p.file_id == rest[i].file_id
                        &&& p.kind == rest[i].kind
                        &&& p.range == rest[i].range
                        &&& p.ttl_secs_remaining * 1_000_000_000 <= rest[i].expiry - now
                        &&& rest[i].expiry - now < (p.ttl_secs_remaining + 1) * 1_000_000_000
                            || p.ttl_secs_remaining == u64::MAX
                    };
                assert(entries[i] == rest[i]);
            } else {
                assert(p == saved_entry(last, now));
                assert(entries[n].expiry >= now);
            }
        }
        if exists|i: int|
            {
                &&& 0 <= i < entries.len()
                &&& (#[trigger] entries[i]).expiry >= now
                &&& p.file_id == entries[i].file_id
                &&& p.kind == entries[i].kind
                &&& p.range == entries[i].range
                &&& p.ttl_secs_remaining * 1_000_000_000 <= entries[i].expiry - now
                &&& entries[i].expiry - now < (p.ttl_secs_remaining + 1) * 1_000_000_000
                    || p.ttl_secs_remaining == u64::MAX
            } {
            let i = choose|i: int|
                {
                    &&& 0 <= i < entries.len()
                    &&& (#[trigger] entries[i]).expiry >= now
                    &&& p.file_id == entries[i].file_id
                    &&& p.kind == entries[i].kind
                    &&& p.range == entries[i].range
                    &&& p.ttl_secs_remaining * 1_000_000_000 <= entries[i].expiry - now
                    &&& entries[i].expiry - now < (p.ttl_secs_remaining + 1) * 1_000_000_000
                        || p.ttl_secs_remaining == u64::MAX
                };
            if i < n {
                assert(rest[i] == entries[i]);
                assert(fewer.contains(p));
                let k = choose|k: int| 0 <= k < fewer.len() && fewer[k] == p;
                assert(list[k] == p);
            } else {
                assert(p == saved_entry(last, now));
                assert(list[list.len() - 1] == p);
            }
        }
    }
}

/// What is read back from disk: the last entry for a request counts, for the seconds that it had
/// left, counted from when it is read. No other request is affected, and nothing is outstanding
/// where nothing was written.
pub proof fn law_what_is_read_back(
    list: Seq<PersistedEntry>,
    p: PersistedEntry,
    now: u64,
    key: Key,
    later: int,
)
    ensures
        live(loaded(list.push(p), now), p.key(), later) <==> later < now + p.ttl_secs_remaining
            * 1_000_000_000,
        key != p.key() ==> live(loaded(list.push(p), now), key, later) == live(
            loaded(list, now),
            key,
            later,
        ),
        !live(loaded(Seq::empty(), now), key, later),
{
    assert(list.push(p).drop_last() =~= list);
    lemma_loaded_distinct(list, now);
    lemma_put_keeps(loaded(list, now), loaded_entry(p, now), key, later);
    assert(loaded_entry(p, now).key() == p.key());
}

/// What is read back is for distinct requests.
proof fn lemma_loaded_distinct(list: Seq<PersistedEntry>, now: u64)
    ensures
        distinct(loaded(list, now)),
    decreases list.len(),
{
    if list.len() > 0 {
        lemma_loaded_distinct(list.drop_last(), now);
        let before = loaded(list.drop_last(), now);
        let e = loaded_entry(list.last(), now);
        lemma_put_keeps(before, e, e.key(), 0);
    }
}

/// What the cleaner reports: a snapshot for each file that an entry is for, with the ranges of the
/// entries for its chunks, and its name as pending exactly where an entry for the name is there.
pub proof fn law_report_shows_the_entries(
    snap: Seq<SenderQueueSnapshot>,
    entries: Seq<Entry>,
    file_id: i64,
    range: RequestedRange,
)
    requires
        groups(snap, as_work(entries)),
    ensures
        (exists|i: int| 0 <= i < snap.len() && #[trigger] snap[i].file_id == file_id) <==> exists|
            k: int,
        |
            0 <= k < entries.len() && (#[trigger] entries[k]).file_id == file_id,
        forall|i: int|
            0 <= i < snap.len() && #[trigger] snap[i].file_id == file_id ==> {
                &&& snap[i].manifest_pending <==> exists|k: int|
                    0 <= k < entries.len() && (#[trigger] entries[k]).file_id == file_id
                        && entries[k].kind == Kind::ResendName
                &&& snap[i].ranges@.contains(range) <==> exists|k: int|
                    0 <= k < entries.len() && (#[trigger] entries[k]).file_id == file_id
                        && entries[k].kind == Kind::Retransmit && entries[k].range == range
            },
{
    let work = as_work(entries);
    law_snapshots_show_each_file(snap, work, file_id, range);
    let resent = WorkItemView::Retransmit { file_id, range };
    assert(forall|k: int| 0 <= k < entries.len() ==> work[k] == entry_as_work(#[trigger] entries[k]));
    if exists|k: int| 0 <= k < entries.len() && (#[trigger] entries[k]).file_id == file_id {
        let k = choose|k: int| 0 <= k < entries.len() && (#[trigger] entries[k]).file_id == file_id;
        assert(work[k] == entry_as_work(entries[k]));
    }
    assert forall|k: int| 0 <= k < work.len() implies #[trigger] work[k] == entry_as_work(
        entries[k],
    ) by {}
    assert(!work.contains((WorkItemView::Data { file_id, range })));
    assert(work.contains(resent) <==> exists|k: int|
        0 <= k < entries.len() && (#[trigger] entries[k]).file_id == file_id && entries[k].kind
            == Kind::Retransmit && entries[k].range == range) by {
        if work.contains(resent) {
            let k = choose|k: int| 0 <= k < work.len() && work[k] == resent;
            assert(entries[k].file_id == file_id);
        }
        if exists|k: int|
            0 <= k < entries.len() && (#[trigger] entries[k]).file_id == file_id && entries[k].kind
                == Kind::Retransmit && entries[k].range == range {
            let k = choose|k: int|
                0 <= k < entries.len() && (#[trigger] entries[k]).file_id == file_id
                    && entries[k].kind == Kind::Retransmit && entries[k].range == range;
            assert(work[k] == resent);
        }
    }
    assert((exists|k: int|
        0 <= k < work.len() && (#[trigger] work[k] matches WorkItemView::Manifest {
            file_id: id,
            ..
        } && id == file_id)) <==> exists|k: int|
        0 <= k < entries.len() && (#[trigger] entries[k]).file_id == file_id && entries[k].kind
            == Kind::ResendName) by {
        if exists|k: int|
            0 <= k < work.len() && (#[trigger] work[k] matches WorkItemView::Manifest {
                file_id: id,
                ..
            } && id == file_id) {
            let k = choose|k: int|
                0 <= k < work.len() && (#[trigger] work[k] matches WorkItemView::Manifest {
                    file_id: id,
                    ..
                } && id == file_id);
            assert(entries[k].file_id == file_id && entries[k].kind == Kind::ResendName);
        }
        if exists|k: int|
            0 <= k < entries.len() && (#[trigger] entries[k]).file_id == file_id && entries[k].kind
                == Kind::ResendName {
            let k = choose|k: int|
                0 <= k < entries.len() && (#[trigger] entries[k]).file_id == file_id
                    && entries[k].kind == Kind::ResendName;
            assert(work[k] matches WorkItemView::Manifest { file_id: id, .. } && id == file_id);
        }
    }
}

/// A request can be entered where it is not outstanding, and then not again until its time to live
/// is over; from then on it can.
pub proof fn law_entering_a_request_twice(
    table: &mut DedupTable,
    file_id: i64,
    range: RequestedRange,
    kind: RequestType,
    now: u64,
    added: bool,
    again: &mut DedupTable,
    later: u64,
    added_again: bool,
)
    requires
        distinct(old(table).list()),
        call_ensures(DedupTable::try_insert, (table, file_id, range, kind, now), added),
        old(again).list() == final(table).list(),
        old(again).ttl() == final(table).ttl(),
        now <= later,
        call_ensures(DedupTable::try_insert, (again, file_id, range, kind, later), added_again),
    ensures
        added ==> (added_again <==> later >= now + old(table).ttl() * 1_000_000_000),
        !added ==> final(table).list() == old(table).list(),
        final(table).ttl() == old(table).ttl(),
{
    let key = Key { file_id, kind: kind_of(kind), range };
    law_request_is_outstanding_for_its_ttl(
        old(table).list(),
        file_id,
        kind,
        range,
        old(table).ttl(),
        now,
        key,
        later as int,
    );
}

/// A restart keeps what is outstanding: what a table writes when it stops, and another reads when it
/// starts, blocks each request for the whole seconds that it had left.
pub proof fn law_restart_keeps_what_is_outstanding(
    table: DedupTable,
    written: Vec<PersistedEntry>,
    stopped: u64,
    read: DedupTable,
    ttl_secs: u64,
    started: u64,
    at: int,
)
    requires
        distinct(table.list()),
        call_ensures(DedupTable::save, (&table, stopped), written),
        call_ensures(DedupTable::load, (&written, ttl_secs, started), read),
        0 <= at < table.list().len(),
        table.list()[at].expiry >= stopped,
        table.list()[at].expiry <= stopped + u64::MAX * 1_000_000_000,
    ensures
        read.ttl() == ttl_secs,
        ({
            let e = table.list()[at];
            let left = (e.expiry - stopped) / 1_000_000_000;
            forall|later: int|
                later < started + left * 1_000_000_000 ==> #[trigger] live(
                    read.list(),
                    e.key(),
                    later,
                )
        }),
{
    let e = table.list()[at];
    let left = (e.expiry - stopped) / 1_000_000_000;
    law_restart_keeps_requests(table.list(), at, stopped, started);
    let kept = Entry { expiry: (started + nanos(left)) as u128, ..e };
    assert(read.list().contains(kept));
    let k = choose|k: int| 0 <= k < read.list().len() && read.list()[k] == kept;
    assert forall|later: int| later < started + left * 1_000_000_000 implies #[trigger] live(
        read.list(),
        e.key(),
        later,
    ) by {
        assert(read.list()[k].key() == e.key());
    }
}

/// Clearing a table keeps exactly what has not expired, and the table counts what it keeps. A list
/// by file shows each file once, in the order of the ids.
pub proof fn law_clearing_counting_and_listing(
    table: &mut DedupTable,
    now: u64,
    key: Key,
    later: int,
    n: usize,
    list: Vec<(i64, Vec<RequestedRange>, bool)>,
    i: int,
    j: int,
)
    requires
        distinct(old(table).list()),
        call_ensures(DedupTable::gc, (table, now), ()),
        call_ensures(DedupTable::recent_count, (&*final(table),), n),
        call_ensures(DedupTable::group_by_file, (&*final(table),), list),
        now <= later,
        0 <= i < j < list@.len(),
    ensures
        live(final(table).list(), key, later) == live(old(table).list(), key, later),
        final(table).ttl() == old(table).ttl(),
        n == final(table).list().len() && n <= old(table).list().len(),
        forall|k: int| 0 <= k < n ==> (#[trigger] final(table).list()[k]).expiry > now,
        list@[i].0 < list@[j].0,
        exists|k: int| 0 <= k < n && (#[trigger] final(table).list()[k]).file_id == list@[i].0,
{
    let before = old(table).list();
    let after = final(table).list();
    lemma_unexpired(before, now);
    lemma_fewer(before, now);
    assert forall|k: int| 0 <= k < n implies (#[trigger] after[k]).expiry > now by {
        assert(after.contains(after[k]));
    }
    if live(before, key, later) {
        let k = choose|k: int|
            0 <= k < before.len() && #[trigger] before[k].key() == key && before[k].expiry > later;
        assert(before.contains(before[k]));
        assert(after.contains(before[k]));
        let l = choose|l: int| 0 <= l < after.len() && after[l] == before[k];
        assert(after[l].key() == key);
    }
    if live(after, key, later) {
        let k = choose|k: int|
            0 <= k < after.len() && #[trigger] after[k].key() == key && after[k].expiry > later;
        assert(after.contains(after[k]));
        let l = choose|l: int| 0 <= l < before.len() && before[l] == after[k];
        assert(before[l].key() == key);
    }
    let snap = choose|snap: Seq<SenderQueueSnapshot>|
        groups(snap, as_work(after)) && #[trigger] triples(list@, snap);
    law_report_shows_the_entries(
        snap,
        after,
        list@[i].0,
        RequestedRange { start: 0, count: 0 },
    );
    assert(list@[i].0 == snap[i].file_id && list@[j].0 == snap[j].file_id);
}

} // verus!
