//! Per-file packet queue with introspection support.
//!
//! The queue keeps work as ranges of chunks, so that its memory cost does not depend on how large
//! the chunks are; their bytes are only read when they are transmitted.

use std::collections::VecDeque;

use vstd::prelude::*;

use crate::control::messages::{RequestedRange, SenderQueueSnapshot};

verus! {

/// One queued unit of work.
#[derive(Debug, Clone)]
pub enum WorkItem {
    /// Send the manifest packet for this file.
    Manifest { file_id: i64, file_name: String },
    /// Send a contiguous range of data chunks for this file.
    Data { file_id: i64, range: RequestedRange },
    /// Resend a contiguous range as retransmit packets.
    Retransmit { file_id: i64, range: RequestedRange },
}

/// A unit of work as a mathematical value.
#[verifier::ext_equal]
pub enum WorkItemView {
    Manifest { file_id: i64, file_name: Seq<char> },
    Data { file_id: i64, range: RequestedRange },
    Retransmit { file_id: i64, range: RequestedRange },
}

impl View for WorkItem {
    type V = WorkItemView;

    open spec fn view(&self) -> WorkItemView {
        match self {
            WorkItem::Manifest { file_id, file_name } => WorkItemView::Manifest {
                file_id: *file_id,
                file_name: file_name@,
            },
            WorkItem::Data { file_id, range } => WorkItemView::Data {
                file_id: *file_id,
                range: *range,
            },
            WorkItem::Retransmit { file_id, range } => WorkItemView::Retransmit {
                file_id: *file_id,
                range: *range,
            },
        }
    }
}

impl WorkItemView {
    /// File this item belongs to.
    pub open spec fn file(self) -> i64 {
        match self {
            WorkItemView::Manifest { file_id, .. } => file_id,
            WorkItemView::Data { file_id, .. } => file_id,
            WorkItemView::Retransmit { file_id, .. } => file_id,
        }
    }

    /// The chunks of this item; none for a manifest.
    pub open spec fn chunks(self) -> Option<RequestedRange> {
        match self {
            WorkItemView::Manifest { .. } => None,
            WorkItemView::Data { range, .. } => Some(range),
            WorkItemView::Retransmit { range, .. } => Some(range),
        }
    }

    /// Number of packets this item will produce.
    pub open spec fn packets(self) -> nat {
        match self.chunks() {
            None => 1,
            Some(range) => range.count as nat,
        }
    }
}

impl WorkItem {
    /// File this item belongs to.
    pub fn file_id(&self) -> (id: i64)
        ensures
            id == self@.file(),
    {
        match self {
            WorkItem::Manifest { file_id, .. } => *file_id,
            WorkItem::Data { file_id, .. } => *file_id,
            WorkItem::Retransmit { file_id, .. } => *file_id,
        }
    }

    /// Number of packets this item will produce.
    pub fn packet_count(&self) -> (n: u32)
        ensures
            n == self@.packets(),
    {
        match self {
            WorkItem::Manifest { .. } => 1,
            WorkItem::Data { range, .. } => range.count,
            WorkItem::Retransmit { range, .. } => range.count,
        }
    }

    /// The chunks of this item; none for a manifest.
    pub fn range(&self) -> (range: Option<RequestedRange>)
        ensures
            range == self@.chunks(),
    {
        match self {
            WorkItem::Manifest { .. } => None,
            WorkItem::Data { range, .. } => Some(*range),
            WorkItem::Retransmit { range, .. } => Some(*range),
        }
    }
}

/// FIFO queue with priority insertion at the front.
#[derive(Debug)]
pub struct PacketQueue {
    items: VecDeque<WorkItem>,
    /// Version counter. Grows on every mutation so that a poller can tell whether anything has
    /// changed since its last poll.
    revision: u64,
}

/// A queue as a mathematical value.
#[verifier::ext_equal]
pub struct QueueView {
    pub items: Seq<WorkItemView>,
    pub revision: u64,
}

/// A call on a queue, as far as it may change it.
pub enum QueueCall {
    PushBack(WorkItemView),
    PushFront(WorkItemView),
    PopFront,
    Clear,
    /// Looking at the first item, the depth, the snapshot, the revision or for a chunk.
    Look,
}

impl QueueView {
    /// A queue that nothing has been done to.
    pub open spec fn fresh() -> QueueView {
        QueueView { items: Seq::empty(), revision: 0 }
    }

    /// Whether a call changes the queue.
    pub open spec fn changed_by(self, call: QueueCall) -> bool {
        match call {
            QueueCall::PushBack(_) | QueueCall::PushFront(_) => true,
            QueueCall::PopFront | QueueCall::Clear => self.items.len() > 0,
            QueueCall::Look => false,
        }
    }

    /// The queue after a call. Every change raises the revision by one.
    pub open spec fn after(self, call: QueueCall) -> QueueView {
        if !self.changed_by(call) {
            self
        } else {
            QueueView {
                items: match call {
                    QueueCall::PushBack(item) => self.items.push(item),
                    QueueCall::PushFront(item) => seq![item] + self.items,
                    QueueCall::PopFront => self.items.skip(1),
                    QueueCall::Clear | QueueCall::Look => Seq::empty(),
                },
                revision: (self.revision + 1) as u64,
            }
        }
    }

    /// The queue after a sequence of calls.
    pub open spec fn after_all(self, calls: Seq<QueueCall>) -> QueueView
        decreases calls.len(),
    {
        if calls.len() == 0 {
            self
        } else {
            self.after_all(calls.drop_last()).after(calls.last())
        }
    }

    /// How many of a sequence of calls change the queue.
    pub open spec fn changes_in(self, calls: Seq<QueueCall>) -> nat
        decreases calls.len(),
    {
        if calls.len() == 0 {
            0
        } else {
            let before = self.after_all(calls.drop_last());
            self.changes_in(calls.drop_last()) + if before.changed_by(calls.last()) {
                1nat
            } else {
                0
            }
        }
    }
}

/// The revision counts the changes: over any sequence of calls it grows by exactly the number of
/// those that change the queue. So it never falls, and where it is the same the queue is the same.
pub proof fn law_revision_counts_changes(q: QueueView, calls: Seq<QueueCall>)
    requires
        q.revision + q.changes_in(calls) <= u64::MAX,
    ensures
        q.after_all(calls).revision == q.revision + q.changes_in(calls),
        q.after_all(calls).revision >= q.revision,
        q.after_all(calls).revision == q.revision ==> q.after_all(calls) == q,
    decreases calls.len(),
{
    if calls.len() > 0 {
        law_revision_counts_changes(q, calls.drop_last());
    }
}

/// Pushing each item of a list at the back, in order.
pub open spec fn pushes(items: Seq<WorkItemView>) -> Seq<QueueCall> {
    items.map_values(|item: WorkItemView| QueueCall::PushBack(item))
}

/// Popping a number of times.
pub open spec fn pops(n: nat) -> Seq<QueueCall> {
    Seq::new(n, |i: int| QueueCall::PopFront)
}

/// First in, first out: a fresh queue gives back what was pushed at its back, in order, one item
/// per pop, each of which raises the revision by one; once all are out a pop finds nothing and
/// changes nothing.
pub proof fn law_first_in_first_out(items: Seq<WorkItemView>, n: nat)
    requires
        2 * items.len() <= u64::MAX,
    ensures
        ({
            let q = QueueView::fresh().after_all(pushes(items) + pops(n));
            if n <= items.len() {
                &&& q.items == items.skip(n as int)
                &&& q.revision == items.len() + n
                &&& n < items.len() ==> q.items.len() > 0 && q.items[0] == items[n as int]
            } else {
                q.items.len() == 0 && q.revision == 2 * items.len()
            }
        }),
        n >= items.len() ==> ({
            let q = QueueView::fresh().after_all(pushes(items) + pops(n));
            q.after(QueueCall::PopFront) == q
        }),
    decreases items.len() + n,
{
    let calls = pushes(items) + pops(n);
    if n > 0 {
        assert(calls.drop_last() =~= pushes(items) + pops((n - 1) as nat));
        assert(calls.last() is PopFront);
        law_first_in_first_out(items, (n - 1) as nat);
        if n <= items.len() {
            assert(items.skip(n - 1).skip(1) =~= items.skip(n as int));
        }
    } else {
        assert(calls =~= pushes(items));
        if items.len() > 0 {
            let rest = items.drop_last();
            assert(calls.drop_last() =~= pushes(rest) + pops(0));
            law_first_in_first_out(rest, 0);
            assert(rest.skip(0) =~= rest);
            assert(rest.push(items.last()) =~= items);
        }
        assert(items.skip(0) =~= items);
    }
}

/// The views of a list of items.
pub open spec fn item_views(items: Seq<WorkItem>) -> Seq<WorkItemView> {
    items.map_values(|i: WorkItem| i@)
}

impl View for PacketQueue {
    type V = QueueView;

    closed spec fn view(&self) -> QueueView {
        QueueView { items: item_views(self.items@), revision: self.revision }
    }
}

/// How many packets a list of items will produce.
pub open spec fn total_packets(items: Seq<WorkItemView>) -> nat
    decreases items.len(),
{
    if items.len() == 0 {
        0
    } else {
        total_packets(items.drop_last()) + items.last().packets()
    }
}

/// The chunk ranges of one file in a list of items, in order.
pub open spec fn ranges_of(items: Seq<WorkItemView>, file_id: i64) -> Seq<RequestedRange>
    decreases items.len(),
{
    if items.len() == 0 {
        seq![]
    } else {
        let rest = ranges_of(items.drop_last(), file_id);
        match items.last().chunks() {
            Some(range) => if items.last().file() == file_id {
                rest.push(range)
            } else {
                rest
            },
            None => rest,
        }
    }
}

/// Whether a list of items has one for a file.
pub open spec fn mentions(items: Seq<WorkItemView>, file_id: i64) -> bool {
    exists|i: int| 0 <= i < items.len() && (#[trigger] items[i]).file() == file_id
}

/// Whether a list of items has the manifest of a file.
pub open spec fn manifest_in_queue(items: Seq<WorkItemView>, file_id: i64) -> bool {
    exists|i: int|
        0 <= i < items.len() && (#[trigger] items[i]) is Manifest && items[i].file() == file_id
}

/// Whether a list of items has a chunk of a file.
pub open spec fn chunk_in_queue(items: Seq<WorkItemView>, file_id: i64, chunk: int) -> bool {
    exists|i: int|
        0 <= i < items.len() && (#[trigger] items[i]).file() == file_id && (items[i].chunks()
            matches Some(range) && range.has(chunk))
}

/// Whether a list of per-file snapshots groups a list of items: one snapshot per file, in the
/// order of the ids, with the file's ranges in queue order and whether its manifest is pending.
pub open spec fn groups(snap: Seq<SenderQueueSnapshot>, items: Seq<WorkItemView>) -> bool {
    &&& forall|i: int, j: int|
        0 <= i < j < snap.len() ==> #[trigger] snap[i].file_id < #[trigger] snap[j].file_id
    &&& forall|i: int|
        0 <= i < snap.len() ==> {
            let id = (#[trigger] snap[i]).file_id;
            &&& mentions(items, id)
            &&& snap[i].ranges@ == ranges_of(items, id)
            &&& snap[i].manifest_pending == manifest_in_queue(items, id)
        }
    &&& forall|id: i64|
        #[trigger] mentions(items, id) ==> exists|i: int|
            0 <= i < snap.len() && #[trigger] snap[i].file_id == id
}

impl PacketQueue {
    /// Empty queue.
    pub fn new() -> (q: PacketQueue)
        ensures
            q@ == QueueView::fresh(),
    {
        let q = PacketQueue { items: VecDeque::new(), revision: 0 };
        assert(q@.items =~= Seq::empty());
        q
    }

    /// Append a unit of work to the back.
    pub fn push_back(&mut self, item: WorkItem)
        requires
            old(self)@.revision < u64::MAX,
        ensures
            final(self)@ == old(self)@.after(QueueCall::PushBack(item@)),
            final(self)@.items == old(self)@.items.push(item@),
            final(self)@.revision == old(self)@.revision + 1,
    {
        self.items.push_back(item);
        self.revision += 1;
        assert(self@.items =~= old(self)@.items.push(item@));
    }

    /// Append at the front (used for interrupt requests / retransmits).
    pub fn push_front(&mut self, item: WorkItem)
        requires
            old(self)@.revision < u64::MAX,
        ensures
            final(self)@ == old(self)@.after(QueueCall::PushFront(item@)),
            final(self)@.items == seq![item@] + old(self)@.items,
            final(self)@.revision == old(self)@.revision + 1,
    {
        self.items.push_front(item);
        self.revision += 1;
        assert(self@.items =~= seq![item@] + old(self)@.items);
    }

    /// Pop the next item.
    pub fn pop_front(&mut self) -> (item: Option<WorkItem>)
        requires
            old(self)@.items.len() > 0 ==> old(self)@.revision < u64::MAX,
        ensures
            final(self)@ == old(self)@.after(QueueCall::PopFront),
            match item {
                Some(i) => {
                    &&& old(self)@.items.len() > 0
                    &&& i@ == old(self)@.items[0]
                    &&& final(self)@.items == old(self)@.items.skip(1)
                    &&& final(self)@.revision == old(self)@.revision + 1
                },
                None => old(self)@.items.len() == 0 && final(self)@ == old(self)@,
            },
    {
        let v = self.items.pop_front();
        if v.is_some() {
            self.revision += 1;
            assert(self@.items =~= old(self)@.items.skip(1));
        }
        v
    }

    /// Peek the next item.
    pub fn front(&self) -> (item: Option<&WorkItem>)
        ensures
            match item {
                Some(i) => self@.items.len() > 0 && i@ == self@.items[0],
                None => self@.items.len() == 0,
            },
    {
        if self.items.len() == 0 {
            None
        } else {
            Some(&self.items[0])
        }
    }

    /// Total packets enqueued across all items, or `None` where the number does not fit 32 bits.
    pub fn checked_depth(&self) -> (n: Option<u32>)
        ensures
            match n {
                Some(n) => n == total_packets(self@.items),
                None => total_packets(self@.items) > u32::MAX,
            },
    {
        let mut n: u32 = 0;
        let mut i: usize = 0;
        assert(self@.items.take(0) =~= Seq::empty());
        while i < self.items.len()
            invariant
                i <= self.items@.len(),
                n == total_packets(self@.items.take(i as int)),
            decreases self.items@.len() - i,
        {
            proof {
                assert(self@.items.take(i + 1).drop_last() =~= self@.items.take(i as int));
            }
            match n.checked_add(self.items[i].packet_count()) {
                Some(sum) => {
                    n = sum;
                },
                None => {
                    proof {
                        lemma_partial_packets(self@.items, i + 1);
                    }
                    return None;
                },
            }
            i += 1;
        }
        assert(self@.items.take(self@.items.len() as int) =~= self@.items);
        Some(n)
    }

    /// Total packets enqueued across all items.
    pub fn depth(&self) -> (n: u32)
        requires
            total_packets(self@.items) <= u32::MAX,
        ensures
            n == total_packets(self@.items),
    {
        match self.checked_depth() {
            Some(n) => n,
            None => 0,
        }
    }

    /// Drop everything.
    pub fn clear(&mut self)
        requires
            old(self)@.items.len() > 0 ==> old(self)@.revision < u64::MAX,
        ensures
            final(self)@ == old(self)@.after(QueueCall::Clear),
            final(self)@.items == Seq::<WorkItemView>::empty(),
            final(self)@.revision == if old(self)@.items.len() > 0 {
                old(self)@.revision + 1
            } else {
                old(self)@.revision as int
            },
    {
        if self.items.len() > 0 {
            self.items.clear();
            self.revision += 1;
        }
        assert(self@.items =~= Seq::empty());
    }

    /// Current revision counter.
    pub fn revision(&self) -> (n: u64)
        ensures
            n == self@.revision,
    {
        self.revision
    }

    /// Group queue contents by file_id for the control-plane snapshot.
    pub fn snapshot(&self) -> (snap: Vec<SenderQueueSnapshot>)
        ensures
            groups(snap@, self@.items),
    {
        let mut snap: Vec<SenderQueueSnapshot> = Vec::new();
        let mut i: usize = 0;
        assert(self@.items.take(0) =~= Seq::empty());
        while i < self.items.len()
            invariant
                i <= self.items@.len(),
                groups(snap@, self@.items.take(i as int)),
            decreases self.items@.len() - i,
        {
            let item = &self.items[i];
            let ghost items = self@.items.take(i as int);
            proof {
                assert(self@.items.take(i + 1) =~= items.push(item@));
            }
            add_to_groups(&mut snap, item.file_id(), item.range(), Ghost(items), Ghost(item@));
            i += 1;
        }
        assert(self@.items.take(self@.items.len() as int) =~= self@.items);
        snap
    }

    /// Is `(file_id, chunk)` already enqueued?
    pub fn contains_chunk(&self, file_id: i64, chunk: u32) -> (yes: bool)
        ensures
            yes == chunk_in_queue(self@.items, file_id, chunk as int),
    {
        let mut i: usize = 0;
        while i < self.items.len()
            invariant
                i <= self.items@.len(),
                forall|j: int|
                    0 <= j < i && (#[trigger] self@.items[j]).file() == file_id ==> !(
                    self@.items[j].chunks() matches Some(range) && range.has(chunk as int)),
            decreases self.items@.len() - i,
        {
            let item = &self.items[i];
            assert(item@ == self@.items[i as int]);
            if item.file_id() == file_id {
                if let Some(range) = item.range() {
                    if range.contains(chunk) {
                        return true;
                    }
                }
            }
            i += 1;
        }
        false
    }
}

impl Default for PacketQueue {
    /// Empty queue.
    fn default() -> (q: PacketQueue)
        ensures
            q@ == QueueView::fresh(),
    {
        PacketQueue::new()
    }
}

/// Adds an item to per-file snapshots that group a list of items.
pub(crate) fn add_to_groups(
    snap: &mut Vec<SenderQueueSnapshot>,
    file_id: i64,
    range: Option<RequestedRange>,
    Ghost(items): Ghost<Seq<WorkItemView>>,
    Ghost(item): Ghost<WorkItemView>,
)
    requires
        groups(old(snap)@, items),
        item.file() == file_id,
        item.chunks() == range,
    ensures
        groups(final(snap)@, items.push(item)),
{
    let ghost before = snap@;
    // Where the file's snapshot is, or belongs.
    let mut at: usize = 0;
    while at < snap.len() && snap[at].file_id < file_id
        invariant
            at <= snap@.len(),
            snap@ == before,
            forall|j: int| 0 <= j < at ==> #[trigger] snap@[j].file_id < file_id,
        decreases snap@.len() - at,
    {
        at += 1;
    }
    if at == snap.len() || snap[at].file_id != file_id {
        let entry = SenderQueueSnapshot { file_id, ranges: Vec::new(), manifest_pending: false };
        snap.insert(at, entry);
    }
    let ghost placed = snap@;
    let mut ranges: Vec<RequestedRange> = Vec::new();
    ranges.extend_from_slice(snap[at].ranges.as_slice());
    assert(ranges@ =~= snap@[at as int].ranges@);
    let mut manifest_pending: bool = snap[at].manifest_pending;
    match range {
        None => {
            manifest_pending = true;
        },
        Some(range) => {
            ranges.push(range);
        },
    }
    snap.set(at, SenderQueueSnapshot { file_id, ranges, manifest_pending });
    proof {
        lemma_groups_push(before, placed, snap@, items, item, at as int);
    }
}

/// The first items produce no more packets than all do.
proof fn lemma_partial_packets(items: Seq<WorkItemView>, k: int)
    requires
        0 <= k <= items.len(),
    ensures
        total_packets(items.take(k)) <= total_packets(items),
    decreases items.len() - k,
{
    if k < items.len() {
        lemma_partial_packets(items, k + 1);
        assert(items.take(k + 1).drop_last() =~= items.take(k));
    } else {
        assert(items.take(k) =~= items);
    }
}

/// A file that no item is for has no ranges.
proof fn lemma_no_ranges(items: Seq<WorkItemView>, id: i64)
    requires
        !mentions(items, id),
    ensures
        ranges_of(items, id) == Seq::<RequestedRange>::empty(),
        !manifest_in_queue(items, id),
    decreases items.len(),
{
    if items.len() > 0 {
        let rest = items.drop_last();
        assert(items[items.len() - 1].file() != id);
        assert forall|i: int| 0 <= i < rest.len() implies (#[trigger] rest[i]).file() != id by {
            assert(items[i] == rest[i]);
        }
        lemma_no_ranges(rest, id);
    }
}

/// Adding an item to a grouped list.
proof fn lemma_groups_push(
    before: Seq<SenderQueueSnapshot>,
    placed: Seq<SenderQueueSnapshot>,
    snap: Seq<SenderQueueSnapshot>,
    items: Seq<WorkItemView>,
    item: WorkItemView,
    at: int,
)
    requires
        groups(before, items),
        0 <= at < placed.len(),
        placed[at].file_id == item.file(),
        // The file's snapshot is there, or an empty one was put where it belongs.
        (placed == before) || {
            &&& placed == before.insert(at, placed[at])
            &&& at <= before.len()
            &&& placed[at].ranges@ == Seq::<RequestedRange>::empty()
            &&& !placed[at].manifest_pending
            &&& forall|j: int| 0 <= j < at ==> #[trigger] before[j].file_id < item.file()
            &&& at < before.len() ==> before[at].file_id > item.file()
        },
        snap == placed.update(at, snap[at]),
        snap[at].file_id == item.file(),
        snap[at].ranges@ == (match item.chunks() {
            Some(range) => placed[at].ranges@.push(range),
            None => placed[at].ranges@,
        }),
        snap[at].manifest_pending == (placed[at].manifest_pending || item.chunks() is None),
    ensures
        groups(snap, items.push(item)),
{
    let all = items.push(item);
    let id = item.file();
    assert(all.drop_last() =~= items);
    assert(all[items.len() as int] == item);
    let fresh = placed != before;
    // What is known of each file after the item.
    assert forall|f: i64| #[trigger] mentions(all, f) == (mentions(items, f) || f == id) by {
        if mentions(items, f) {
            let i = choose|i: int| 0 <= i < items.len() && (#[trigger] items[i]).file() == f;
            assert(all[i].file() == f);
        }
        if f == id {
            assert(all[items.len() as int].file() == f);
        }
        if mentions(all, f) && f != id {
            let i = choose|i: int| 0 <= i < all.len() && (#[trigger] all[i]).file() == f;
            assert(items[i].file() == f);
        }
    }
    assert forall|f: i64| #[trigger] manifest_in_queue(all, f) == (manifest_in_queue(items, f) || (f
        == id && item is Manifest)) by {
        if manifest_in_queue(items, f) {
            let i = choose|i: int|
                0 <= i < items.len() && (#[trigger] items[i]) is Manifest && items[i].file() == f;
            assert(all[i] == items[i]);
        }
        if f == id && item is Manifest {
            assert(all[items.len() as int] is Manifest);
        }
        if manifest_in_queue(all, f) && !(f == id && item is Manifest) {
            let i = choose|i: int|
                0 <= i < all.len() && (#[trigger] all[i]) is Manifest && all[i].file() == f;
            assert(items[i] == all[i]);
        }
    }
    if fresh {
        assert(!mentions(items, id)) by {
            if mentions(items, id) {
                let i = choose|i: int| 0 <= i < before.len() && #[trigger] before[i].file_id == id;
                if i >= at {
                    assert(before[at].file_id <= before[i].file_id);
                }
            }
        }
        lemma_no_ranges(items, id);
    } else {
        assert(before[at].file_id == id);
    }
    assert forall|i: int, j: int| 0 <= i < j < snap.len() implies #[trigger] snap[i].file_id
        < #[trigger] snap[j].file_id by {
        assert(snap[i].file_id == placed[i].file_id && snap[j].file_id == placed[j].file_id);
        if fresh {
            if i < at && j == at {
                assert(before[i].file_id < id);
            } else if i == at {
                assert(placed[j] == before[j - 1]);
                assert(before[at].file_id <= before[j - 1].file_id);
            } else {
                let k = if i < at {
                    i
                } else {
                    i - 1
                };
                let l = if j < at {
                    j
                } else {
                    j - 1
                };
                assert(placed[i] == before[k] && placed[j] == before[l]);
            }
        }
    }
    assert forall|i: int| 0 <= i < snap.len() implies {
        let f = (#[trigger] snap[i]).file_id;
        &&& mentions(all, f)
        &&& snap[i].ranges@ == ranges_of(all, f)
        &&& snap[i].manifest_pending == manifest_in_queue(all, f)
    } by {
        let f = snap[i].file_id;
        if i != at {
            let k = if !fresh || i < at {
                i
            } else {
                i - 1
            };
            assert(snap[i] == placed[i]);
            assert(placed[i] == before[k]);
            if i < at {
                assert(snap[i].file_id < snap[at].file_id);
            } else {
                assert(snap[at].file_id < snap[i].file_id);
            }
            assert(f != id);
        } else {
            assert(mentions(all, id));
        }
    }
    assert forall|f: i64| #[trigger] mentions(all, f) implies exists|i: int|
        0 <= i < snap.len() && #[trigger] snap[i].file_id == f by {
        if f == id {
            assert(snap[at].file_id == f);
        } else {
            let i = choose|i: int| 0 <= i < before.len() && #[trigger] before[i].file_id == f;
            let k = if !fresh || i < at {
                i
            } else {
                i + 1
            };
            assert(placed[k] == before[i]);
            assert(snap[k].file_id == f);
        }
    }
}

/// What each call does to the queue: at the back, at the head, and at once for the whole of it. An
/// item put at the head is the next to go, and once it has gone the queue is as it was.
pub proof fn law_what_each_call_does(q: QueueView, item: WorkItemView)
    requires
        q.revision + 2 <= u64::MAX,
    ensures
        q.after(QueueCall::PushBack(item)).items == q.items + seq![item],
        q.after(QueueCall::PushFront(item)).items == seq![item] + q.items,
        q.after(QueueCall::PushFront(item)).after(QueueCall::PopFront).items == q.items,
        q.after(QueueCall::PushFront(item)).after(QueueCall::PopFront).revision == q.revision + 2,
        q.items.len() > 0 ==> q.items == seq![q.items[0]] + q.after(QueueCall::PopFront).items,
        q.items.len() > 0 ==> q.after(QueueCall::Clear).items.len() == 0 && q.after(
            QueueCall::Clear,
        ).revision == q.revision + 1,
        q.items.len() == 0 ==> q.after(QueueCall::Clear) == q && q.after(QueueCall::PopFront) == q,
        q.after(QueueCall::Look) == q,
{
    assert((seq![item] + q.items).skip(1) =~= q.items);
    if q.items.len() > 0 {
        assert(q.items =~= seq![q.items[0]] + q.items.skip(1));
    }
}

/// A manifest makes one packet and a range one per chunk. The packets of a list are those of its
/// parts.
pub proof fn law_packets_add_up(
    first: Seq<WorkItemView>,
    others: Seq<WorkItemView>,
    file_id: i64,
    file_name: Seq<char>,
    range: RequestedRange,
)
    ensures
        total_packets(first + others) == total_packets(first) + total_packets(others),
        total_packets(Seq::empty()) == 0,
        total_packets(seq![WorkItemView::Manifest { file_id, file_name }]) == 1,
        total_packets(seq![WorkItemView::Data { file_id, range }]) == range.count,
        total_packets(seq![WorkItemView::Retransmit { file_id, range }]) == range.count,
    decreases others.len(),
{
    reveal_with_fuel(total_packets, 2);
    assert(seq![WorkItemView::Manifest { file_id, file_name }].drop_last() =~= Seq::empty());
    assert(seq![WorkItemView::Data { file_id, range }].drop_last() =~= Seq::empty());
    assert(seq![WorkItemView::Retransmit { file_id, range }].drop_last() =~= Seq::empty());
    let all = first + others;
    if others.len() == 0 {
        assert(all =~= first);
    } else {
        assert(all.drop_last() =~= first + others.drop_last());
        law_packets_add_up(first, others.drop_last(), file_id, file_name, range);
    }
}

/// The ranges of a file come in the order of the list: those of its first part, then those of its
/// second. Only the file's own items count, and its manifest has none.
pub proof fn law_ranges_keep_their_order(
    first: Seq<WorkItemView>,
    others: Seq<WorkItemView>,
    file_id: i64,
    other: i64,
    file_name: Seq<char>,
    range: RequestedRange,
)
    ensures
        ranges_of(first + others, file_id) == ranges_of(first, file_id) + ranges_of(
            others,
            file_id,
        ),
        ranges_of(seq![WorkItemView::Data { file_id, range }], file_id) == seq![range],
        ranges_of(seq![WorkItemView::Retransmit { file_id, range }], file_id) == seq![range],
        ranges_of(seq![WorkItemView::Manifest { file_id, file_name }], file_id).len() == 0,
        other != file_id ==> {
            &&& ranges_of(seq![WorkItemView::Data { file_id, range }], other).len() == 0
            &&& ranges_of(seq![WorkItemView::Retransmit { file_id, range }], other).len() == 0
        },
        ranges_of(Seq::empty(), file_id).len() == 0,
    decreases others.len(),
{
    reveal_with_fuel(ranges_of, 2);
    let data = seq![WorkItemView::Data { file_id, range }];
    let resent = seq![WorkItemView::Retransmit { file_id, range }];
    let name = seq![WorkItemView::Manifest { file_id, file_name }];
    assert(data.drop_last() =~= Seq::empty());
    assert(resent.drop_last() =~= Seq::empty());
    assert(name.drop_last() =~= Seq::empty());
    assert(ranges_of(data, file_id) =~= seq![range]);
    assert(ranges_of(resent, file_id) =~= seq![range]);
    let all = first + others;
    if others.len() == 0 {
        assert(all =~= first);
        assert(ranges_of(all, file_id) =~= ranges_of(first, file_id) + ranges_of(others, file_id));
    } else {
        assert(all.drop_last() =~= first + others.drop_last());
        law_ranges_keep_their_order(first, others.drop_last(), file_id, other, file_name, range);
        assert(ranges_of(all, file_id) =~= ranges_of(first, file_id) + ranges_of(others, file_id));
    }
}

/// What a file's ranges in a list are.
proof fn lemma_ranges_listed(items: Seq<WorkItemView>, file_id: i64, range: RequestedRange)
    ensures
        ranges_of(items, file_id).contains(range) <==> items.contains(
            (WorkItemView::Data { file_id, range }),
        ) || items.contains((WorkItemView::Retransmit { file_id, range })),
    decreases items.len(),
{
    let data = WorkItemView::Data { file_id, range };
    let resent = WorkItemView::Retransmit { file_id, range };
    let all = ranges_of(items, file_id);
    if items.len() > 0 {
        let rest = items.drop_last();
        let last = items.last();
        lemma_ranges_listed(rest, file_id, range);
        let fewer = ranges_of(rest, file_id);
        if all.contains(range) {
            let k = choose|k: int| 0 <= k < all.len() && all[k] == range;
            if k < fewer.len() {
                assert(fewer[k] == range);
                if rest.contains(data) {
                    let i = choose|i: int| 0 <= i < rest.len() && rest[i] == data;
                    assert(items[i] == data);
                } else {
                    let i = choose|i: int| 0 <= i < rest.len() && rest[i] == resent;
                    assert(items[i] == resent);
                }
            } else {
                assert(items[items.len() - 1] == data || items[items.len() - 1] == resent);
            }
        }
        if items.contains(data) || items.contains(resent) {
            let i = choose|i: int|
                0 <= i < items.len() && (items[i] == data || items[i] == resent);
            if i < rest.len() {
                assert(rest[i] == items[i]);
                assert(rest.contains(items[i]));
                let k = choose|k: int| 0 <= k < fewer.len() && fewer[k] == range;
                assert(all[k] == range);
            } else {
                assert(all[all.len() - 1] == range);
            }
        }
    }
}

/// What a status report shows of the queue, file by file: there is one snapshot for each file that
/// an item is for, and for no other; it shows the manifest as pending exactly where the file's
/// manifest is queued; and it shows a range exactly where the range is queued, to be sent or to be
/// sent again. The snapshots are in the order of the ids.
pub proof fn law_snapshots_show_each_file(
    snap: Seq<SenderQueueSnapshot>,
    items: Seq<WorkItemView>,
    file_id: i64,
    range: RequestedRange,
)
    requires
        groups(snap, items),
    ensures
        (exists|i: int| 0 <= i < snap.len() && #[trigger] snap[i].file_id == file_id) <==> exists|
            k: int,
        |
            0 <= k < items.len() && match #[trigger] items[k] {
                WorkItemView::Manifest { file_id: id, .. } => id == file_id,
                WorkItemView::Data { file_id: id, .. } => id == file_id,
                WorkItemView::Retransmit { file_id: id, .. } => id == file_id,
            },
        forall|i: int|
            0 <= i < snap.len() && #[trigger] snap[i].file_id == file_id ==> {
                &&& snap[i].manifest_pending <==> exists|k: int|
                    0 <= k < items.len() && (#[trigger] items[k] matches WorkItemView::Manifest {
                        file_id: id,
                        ..
                    } && id == file_id)
                &&& snap[i].ranges@.contains(range) <==> items.contains(
                    (WorkItemView::Data { file_id, range }),
                ) || items.contains((WorkItemView::Retransmit { file_id, range }))
            },
        forall|i: int, j: int|
            0 <= i < j < snap.len() ==> #[trigger] snap[i].file_id < #[trigger] snap[j].file_id,
{
    lemma_ranges_listed(items, file_id, range);
    if exists|k: int| 0 <= k < items.len() && (#[trigger] items[k]).file() == file_id {
        assert(mentions(items, file_id));
    }
    if exists|i: int| 0 <= i < snap.len() && #[trigger] snap[i].file_id == file_id {
        let i = choose|i: int| 0 <= i < snap.len() && #[trigger] snap[i].file_id == file_id;
        assert(mentions(items, snap[i].file_id));
        let k = choose|k: int| 0 <= k < items.len() && (#[trigger] items[k]).file() == file_id;
        assert(match items[k] {
            WorkItemView::Manifest { file_id: id, .. } => id == file_id,
            WorkItemView::Data { file_id: id, .. } => id == file_id,
            WorkItemView::Retransmit { file_id: id, .. } => id == file_id,
        });
    }
    if exists|k: int|
        0 <= k < items.len() && match #[trigger] items[k] {
            WorkItemView::Manifest { file_id: id, .. } => id == file_id,
            WorkItemView::Data { file_id: id, .. } => id == file_id,
            WorkItemView::Retransmit { file_id: id, .. } => id == file_id,
        } {
        let k = choose|k: int|
            0 <= k < items.len() && match #[trigger] items[k] {
                WorkItemView::Manifest { file_id: id, .. } => id == file_id,
                WorkItemView::Data { file_id: id, .. } => id == file_id,
                WorkItemView::Retransmit { file_id: id, .. } => id == file_id,
            };
        assert(items[k].file() == file_id);
    }
    assert forall|i: int| 0 <= i < snap.len() && #[trigger] snap[i].file_id == file_id implies (
    snap[i].manifest_pending <==> exists|k: int|
        0 <= k < items.len() && (#[trigger] items[k] matches WorkItemView::Manifest {
            file_id: id,
            ..
        } && id == file_id)) by {
        if manifest_in_queue(items, file_id) {
            let k = choose|k: int|
                0 <= k < items.len() && (#[trigger] items[k]) is Manifest && items[k].file()
                    == file_id;
            assert(items[k] matches WorkItemView::Manifest { file_id: id, .. } && id == file_id);
        }
        if exists|k: int|
            0 <= k < items.len() && (#[trigger] items[k] matches WorkItemView::Manifest {
                file_id: id,
                ..
            } && id == file_id) {
            let k = choose|k: int|
                0 <= k < items.len() && (#[trigger] items[k] matches WorkItemView::Manifest {
                    file_id: id,
                    ..
                } && id == file_id);
            assert(items[k] is Manifest && items[k].file() == file_id);
        }
    }
}

/// A chunk counts as queued exactly where a range of its file with the chunk in it is, to be sent
/// or to be sent again.
pub proof fn law_queued_chunks(items: Seq<WorkItemView>, file_id: i64, chunk: int)
    ensures
        chunk_in_queue(items, file_id, chunk) <==> exists|k: int|
            0 <= k < items.len() && match #[trigger] items[k] {
                WorkItemView::Manifest { .. } => false,
                WorkItemView::Data { file_id: id, range } => id == file_id && range.start <= chunk
                    < range.start + range.count,
                WorkItemView::Retransmit { file_id: id, range } => id == file_id && range.start
                    <= chunk < range.start + range.count,
            },
{
    if chunk_in_queue(items, file_id, chunk) {
        let k = choose|k: int|
            0 <= k < items.len() && (#[trigger] items[k]).file() == file_id && (items[k].chunks()
                matches Some(range) && range.has(chunk));
        assert(match items[k] {
            WorkItemView::Manifest { .. } => false,
            WorkItemView::Data { file_id: id, range } => id == file_id && range.start <= chunk
                < range.start + range.count,
            WorkItemView::Retransmit { file_id: id, range } => id == file_id && range.start <= chunk
                < range.start + range.count,
        });
    }
    if exists|k: int|
        0 <= k < items.len() && match #[trigger] items[k] {
            WorkItemView::Manifest { .. } => false,
            WorkItemView::Data { file_id: id, range } => id == file_id && range.start <= chunk
                < range.start + range.count,
            WorkItemView::Retransmit { file_id: id, range } => id == file_id && range.start <= chunk
                < range.start + range.count,
        } {
        let k = choose|k: int|
            0 <= k < items.len() && match #[trigger] items[k] {
                WorkItemView::Manifest { .. } => false,
                WorkItemView::Data { file_id: id, range } => id == file_id && range.start <= chunk
                    < range.start + range.count,
                WorkItemView::Retransmit { file_id: id, range } => id == file_id && range.start
                    <= chunk < range.start + range.count,
            };
        assert(items[k].file() == file_id && (items[k].chunks() matches Some(range) && range.has(
            chunk,
        )));
    }
}

/// What is put at the head of a queue is the next to come out, and the queue is then as it was but
/// for its revision. What is put at the back comes out once nothing else is left.
pub proof fn law_head_and_back(
    q: &mut PacketQueue,
    item: WorkItem,
    popped: &mut PacketQueue,
    out: Option<WorkItem>,
    back: &mut PacketQueue,
    first: &mut PacketQueue,
    next: Option<WorkItem>,
)
    requires
        old(q)@.revision + 2 <= u64::MAX,
        call_ensures(PacketQueue::push_front, (q, item), ()),
        old(popped)@ == final(q)@,
        call_ensures(PacketQueue::pop_front, (popped,), out),
        old(back)@ == old(q)@,
        call_ensures(PacketQueue::push_back, (back, item), ()),
        old(first)@ == final(back)@,
        call_ensures(PacketQueue::pop_front, (first,), next),
    ensures
        out matches Some(i) && i@ == item@,
        final(popped)@.items == old(q)@.items,
        final(popped)@.revision == old(q)@.revision + 2,
        old(q)@.items.len() == 0 ==> (next matches Some(i) && i@ == item@),
        old(q)@.items.len() > 0 ==> {
            &&& next matches Some(i)
            &&& i@ == old(q)@.items[0]
            &&& final(first)@.items == old(q)@.items.skip(1) + seq![item@]
        },
{
    assert(final(popped)@.items =~= old(q)@.items);
    if old(q)@.items.len() > 0 {
        assert(final(first)@.items =~= old(q)@.items.skip(1) + seq![item@]);
    }
}

/// The depth of a queue is the number of packets in it, by whichever call it is asked for, and a
/// look at a queue finds the chunks that its items hold.
pub proof fn law_looks_at_a_queue(
    q: PacketQueue,
    depth: u32,
    checked: Option<u32>,
    file_id: i64,
    chunk: u32,
    yes: bool,
    snap: Vec<SenderQueueSnapshot>,
)
    requires
        total_packets(q@.items) <= u32::MAX,
        call_ensures(PacketQueue::depth, (&q,), depth),
        call_ensures(PacketQueue::checked_depth, (&q,), checked),
        call_ensures(PacketQueue::contains_chunk, (&q, file_id, chunk), yes),
        call_ensures(PacketQueue::snapshot, (&q,), snap),
    ensures
        depth == total_packets(q@.items),
        checked == Some(depth),
        groups(snap@, q@.items),
        yes <==> exists|k: int|
            0 <= k < q@.items.len() && match #[trigger] q@.items[k] {
                WorkItemView::Manifest { .. } => false,
                WorkItemView::Data { file_id: id, range } => id == file_id && range.start <= chunk
                    < range.start + range.count,
                WorkItemView::Retransmit { file_id: id, range } => id == file_id && range.start
                    <= chunk < range.start + range.count,
            },
{
    law_queued_chunks(q@.items, file_id, chunk as int);
}

} // verus!
