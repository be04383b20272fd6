//! What holds of the sender's queue as a whole.

use vstd::prelude::*;
use vstd::utf8::encode_utf8;

use crate::chunker::{law_chunk_count, Chunker, FileProbe};
use crate::config::{Config, SenderState};
use crate::control::messages::{
    LinkOverride, RequestedRange, SenderQueueSnapshot, SenderStatus, SubmitAck,
};
use crate::error::Error;
use crate::ledger::{FileRecord, Timestamp};
use crate::names::{has_name, law_lookup_finds_the_entry, value_at};
use crate::proto::{
    law_decode_reads_back_encode, packet_fault, packet_in, HEADER_LEN, MAX_CHUNK_SIZE,
    MIN_CHUNK_SIZE,
};
use crate::sender::queue::{
    chunk_in_queue, groups, mentions, ranges_of, total_packets, WorkItemView,
};
use crate::sender::scanner::Candidate;
use crate::sender::state::{
    absolute, absolute_path, chunks_at, clamped, dump_dir, is_unknown_file, link_known, overridden,
    override_fault, rest_of, size_accepted, status_dump_path, status_of, submission_of,
    whole_seconds, with_full_file, with_item, Opened, PathProbe, SendJob, SenderRuntime, SenderView,
    Submission, HEAD_START_NANOS,
};
use crate::text::{decimal_int, path_under};

verus! {

/// The queue after the packet of its first item has been sent.
pub open spec fn after_send(items: Seq<WorkItemView>) -> Seq<WorkItemView> {
    match rest_of(items[0]) {
        Some(rest) => seq![rest] + items.skip(1),
        None => items.skip(1),
    }
}

/// Items put in front add their packets.
proof fn lemma_total_in_front(item: WorkItemView, items: Seq<WorkItemView>)
    ensures
        total_packets(seq![item] + items) == item.packets() + total_packets(items),
    decreases items.len(),
{
    let all = seq![item] + items;
    if items.len() == 0 {
        assert(all =~= seq![item]);
        assert(all.drop_last() =~= Seq::empty());
        reveal_with_fuel(total_packets, 2);
    } else {
        assert(all.drop_last() =~= seq![item] + items.drop_last());
        lemma_total_in_front(item, items.drop_last());
    }
}

/// Sending a packet of the first item takes exactly one packet off the queue: the first chunk of
/// its range. Every other chunk stays pending.
pub proof fn law_send_takes_one_chunk(items: Seq<WorkItemView>, range: RequestedRange)
    requires
        items.len() > 0,
        items[0].chunks() == Some(range),
        range.count >= 1,
        range.start + range.count <= u32::MAX,
    ensures
        total_packets(after_send(items)) + 1 == total_packets(items),
        forall|file_id: i64, chunk: int|
            #[trigger] chunk_in_queue(items, file_id, chunk) == (chunk_in_queue(
                after_send(items),
                file_id,
                chunk,
            ) || (file_id == items[0].file() && chunk == range.start)),
{
    let first = items[0];
    let tail = items.skip(1);
    let after = after_send(items);
    assert(items =~= seq![first] + tail);
    lemma_total_in_front(first, tail);
    if range.count > 1 {
        lemma_total_in_front(rest_of(first)->0, tail);
    }
    assert forall|f: i64, c: int| #[trigger] chunk_in_queue(items, f, c) == (chunk_in_queue(
        after,
        f,
        c,
    ) || (f == first.file() && c == range.start)) by {
        let shift: int = if range.count > 1 {
            0
        } else {
            1
        };
        if chunk_in_queue(items, f, c) && !(f == first.file() && c == range.start) {
            let i = choose|i: int|
                0 <= i < items.len() && (#[trigger] items[i]).file() == f && (items[i].chunks()
                    matches Some(r) && r.has(c));
            assert(after[i - shift].file() == f && (after[i - shift].chunks() matches Some(r)
                && r.has(c)));
        }
        if chunk_in_queue(after, f, c) {
            let i = choose|i: int|
                0 <= i < after.len() && (#[trigger] after[i]).file() == f && (after[i].chunks()
                    matches Some(r) && r.has(c));
            assert(items[i + shift].file() == f && (items[i + shift].chunks() matches Some(r)
                && r.has(c)));
        }
        if f == first.file() && c == range.start {
            assert(items[0].file() == f);
        }
    }
}

/// Whether every queued range ends where a chunk index can still stand.
pub open spec fn ranges_fit(items: Seq<WorkItemView>) -> bool {
    forall|i: int|
        0 <= i < items.len() ==> ((#[trigger] items[i]).chunks() matches Some(range)
            ==> range.start + range.count <= u32::MAX)
}

/// Every queued range fits the chunk indices, from the empty queue on: queueing a whole file, some
/// of its chunks or its name keeps it so, at the head or at the back, and so do taking the first
/// item off and sending a packet of it.
pub proof fn law_queued_ranges_fit(
    items: Seq<WorkItemView>,
    file_id: i64,
    file_name: Seq<char>,
    total: u32,
    start: u32,
    count: u32,
    interrupt: bool,
)
    requires
        ranges_fit(items),
        start < total,
    ensures
        ranges_fit(Seq::empty()),
        ranges_fit(with_full_file(items, file_id, file_name, total, interrupt)),
        ranges_fit(
            with_item(
                items,
                (WorkItemView::Retransmit { file_id, range: clamped(start, count, total) }),
                interrupt,
            ),
        ),
        ranges_fit(with_item(items, (WorkItemView::Manifest { file_id, file_name }), interrupt)),
        items.len() > 0 ==> ranges_fit(items.skip(1)) && ranges_fit(after_send(items)),
{
    if items.len() > 0 {
        let first = items[0];
        assert(first.chunks() matches Some(range) ==> range.start + range.count <= u32::MAX);
    }
}

/// What is left of an item once `k` of its packets have been sent.
pub open spec fn rest_after(item: WorkItemView, k: nat) -> Option<WorkItemView>
    decreases k,
{
    if k == 0 {
        Some(item)
    } else {
        match rest_after(item, (k - 1) as nat) {
            Some(rest) => rest_of(rest),
            None => None,
        }
    }
}

/// The packets of a range are sent one by one in order, each chunk of it once: the packet after
/// `k` others is that of chunk `start + k`, and after the last nothing is left.
pub proof fn law_range_is_sent_in_order(item: WorkItemView, range: RequestedRange, k: nat)
    requires
        item.chunks() == Some(range),
        range.count >= 1,
        range.start + range.count <= u32::MAX,
        k <= range.count,
    ensures
        k < range.count ==> {
            &&& rest_after(item, k) matches Some(rest)
            &&& rest.file() == item.file()
            &&& rest is Data == item is Data
            &&& rest.chunks() == Some(
                RequestedRange { start: (range.start + k) as u32, count: (range.count - k) as u32 },
            )
        },
        k == range.count ==> rest_after(item, k) is None,
    decreases k,
{
    if k > 0 {
        law_range_is_sent_in_order(item, range, (k - 1) as nat);
    }
}

/// When a whole file is queued its manifest goes out before its data, at the head or at the back,
/// and what was queued before keeps its order.
pub proof fn law_name_goes_first(
    items: Seq<WorkItemView>,
    file_id: i64,
    file_name: Seq<char>,
    total: u32,
    interrupt: bool,
)
    ensures
        ({
            let now = with_full_file(items, file_id, file_name, total, interrupt);
            let at: int = if interrupt {
                0
            } else {
                items.len() as int
            };
            &&& now[at] == (WorkItemView::Manifest { file_id, file_name })
            &&& now[at + 1] == (WorkItemView::Data {
                file_id,
                range: RequestedRange { start: 0, count: total },
            })
            &&& now.take(at) + now.skip(at + 2) == items
        }),
{
    let now = with_full_file(items, file_id, file_name, total, interrupt);
    let at: int = if interrupt {
        0
    } else {
        items.len() as int
    };
    assert(now.take(at) + now.skip(at + 2) =~= items);
}

/// A chunk is in a list of items exactly where it is in one of the file's ranges.
proof fn lemma_ranges_cover(items: Seq<WorkItemView>, file_id: i64, chunk: int)
    ensures
        chunk_in_queue(items, file_id, chunk) == exists|k: int|
            0 <= k < ranges_of(items, file_id).len() && (#[trigger] ranges_of(items, file_id)[k]).has(
                chunk,
            ),
    decreases items.len(),
{
    let all = ranges_of(items, file_id);
    if items.len() > 0 {
        let rest = items.drop_last();
        let last = items.last();
        lemma_ranges_cover(rest, file_id, chunk);
        let fewer = ranges_of(rest, file_id);
        if chunk_in_queue(items, file_id, chunk) {
            let i = choose|i: int|
                0 <= i < items.len() && (#[trigger] items[i]).file() == file_id && (
                items[i].chunks() matches Some(r) && r.has(chunk));
            if i < rest.len() {
                assert(rest[i] == items[i]);
                assert(chunk_in_queue(rest, file_id, chunk));
                let k = choose|k: int| 0 <= k < fewer.len() && (#[trigger] fewer[k]).has(chunk);
                assert(all[k].has(chunk));
            } else {
                assert(all[all.len() - 1].has(chunk));
            }
        }
        if exists|k: int| 0 <= k < all.len() && (#[trigger] all[k]).has(chunk) {
            let k = choose|k: int| 0 <= k < all.len() && (#[trigger] all[k]).has(chunk);
            if k < fewer.len() {
                assert(fewer[k].has(chunk));
                let i = choose|i: int|
                    0 <= i < rest.len() && (#[trigger] rest[i]).file() == file_id && (
                    rest[i].chunks() matches Some(r) && r.has(chunk));
                assert(items[i] == rest[i]);
            } else {
                assert(items[items.len() - 1].file() == file_id);
            }
        }
    }
}

/// Whether a list of per-file snapshots shows a chunk of a file as pending.
pub open spec fn shown_pending(
    snap: Seq<SenderQueueSnapshot>,
    file_id: i64,
    chunk: int,
) -> bool {
    exists|i: int, k: int|
        0 <= i < snap.len() && snap[i].file_id == file_id && 0 <= k < snap[i].ranges@.len() && (
        #[trigger] snap[i].ranges@[k]).has(chunk)
}

/// A status report shows a chunk as pending exactly where it is in the queue.
pub proof fn law_snapshot_shows_the_queue(
    snap: Seq<SenderQueueSnapshot>,
    items: Seq<WorkItemView>,
    file_id: i64,
    chunk: int,
)
    requires
        groups(snap, items),
    ensures
        shown_pending(snap, file_id, chunk) == chunk_in_queue(items, file_id, chunk),
{
    lemma_ranges_cover(items, file_id, chunk);
    let ranges = ranges_of(items, file_id);
    if chunk_in_queue(items, file_id, chunk) {
        let j = choose|j: int|
            0 <= j < items.len() && (#[trigger] items[j]).file() == file_id && (items[j].chunks()
                matches Some(r) && r.has(chunk));
        assert(mentions(items, file_id));
        let i = choose|i: int| 0 <= i < snap.len() && #[trigger] snap[i].file_id == file_id;
        let k = choose|k: int| 0 <= k < ranges.len() && (#[trigger] ranges[k]).has(chunk);
        assert(snap[i].ranges@[k].has(chunk));
    }
    if shown_pending(snap, file_id, chunk) {
        let (i, k) = choose|i: int, k: int|
            0 <= i < snap.len() && snap[i].file_id == file_id && 0 <= k < snap[i].ranges@.len() && (
            #[trigger] snap[i].ranges@[k]).has(chunk);
        assert(ranges[k].has(chunk));
    }
}

/// Switching the active link switches the destination address, the port and the throughput cap
/// together, to those of the new link, unless an earlier message has overridden one of them by
/// itself.
pub proof fn law_link_switches_as_a_whole(
    v: SenderView,
    cfg: Config,
    o: LinkOverride,
    name: String,
)
    requires
        o.active_link == Some(name),
        o.chunk_size is None,
        o.max_kbps is None,
        o.link_ip is None,
        o.link_port is None,
        has_name(cfg.links@, name@),
        v.max_kbps is None,
        v.link_ip is None,
        v.link_port is None,
    ensures
        ({
            let link = value_at(cfg.links@, name@);
            let now = overridden(v, cfg, o);
            &&& now.effective_link(cfg) == name@
            &&& now.effective_ip(cfg) == link.ip@
            &&& now.effective_port(cfg) == link.port
            &&& now.effective_kbps(cfg) == link.max_kbps
        }),
{
}

/// An override takes precedence over the configuration, and what it does not set is left alone.
pub proof fn law_override_takes_precedence(v: SenderView, cfg: Config, o: LinkOverride)
    requires
        link_known(cfg, o),
        size_accepted(o),
    ensures
        ({
            let now = overridden(v, cfg, o);
            &&& now.effective_chunk_size(cfg) == (match o.chunk_size {
                Some(n) => n,
                None => v.effective_chunk_size(cfg),
            })
            &&& now.effective_link(cfg) == (match o.active_link {
                Some(name) => name@,
                None => v.effective_link(cfg),
            })
            &&& o.max_kbps matches Some(k) ==> now.effective_kbps(cfg) == k
            &&& o.link_ip matches Some(ip) ==> now.effective_ip(cfg) == ip@
            &&& o.link_port matches Some(p) ==> now.effective_port(cfg) == p
            &&& now.queue == v.queue && now.state == v.state
        }),
{
}

/// Without overrides everything in effect is what the configuration declares: the name is that of
/// the configured link, address, port and throughput cap are those that it is declared with, and
/// the chunk size is the configured one.
pub proof fn law_configured_link_is_in_effect(v: SenderView, cfg: Config)
    requires
        cfg.valid(),
        v.active_link is None,
        v.chunk_size is None,
        v.max_kbps is None,
        v.link_ip is None,
        v.link_port is None,
    ensures
        v.effective_link(cfg) == cfg.sender.active_link@,
        v.effective_ip(cfg) == value_at(cfg.links@, cfg.sender.active_link@).ip@,
        v.effective_port(cfg) == value_at(cfg.links@, cfg.sender.active_link@).port,
        v.effective_kbps(cfg) == value_at(cfg.links@, cfg.sender.active_link@).max_kbps,
        v.effective_chunk_size(cfg) == cfg.sender.chunk_size,
        exists|k: int|
            {
                &&& 0 <= k < cfg.links@.len()
                &&& (#[trigger] cfg.links@[k]).0 == cfg.sender.active_link@
                &&& v.effective_ip(cfg) == cfg.links@[k].1.ip@
                &&& v.effective_port(cfg) == cfg.links@[k].1.port
                &&& v.effective_kbps(cfg) == cfg.links@[k].1.max_kbps
            },
{
    law_lookup_finds_the_entry(cfg.links@, cfg.sender.active_link@, 0);
}

/// Each setting that has been overridden is in effect as it was set, whatever the configuration
/// says and whatever else has been overridden. What has not been comes from the link whose name is
/// in effect, or from the first link where none is declared under that name.
pub proof fn law_each_override_is_in_effect(v: SenderView, cfg: Config)
    ensures
        v.active_link matches Some(name) ==> v.effective_link(cfg) == name,
        v.chunk_size matches Some(n) ==> v.effective_chunk_size(cfg) == n,
        v.max_kbps matches Some(kbps) ==> v.effective_kbps(cfg) == kbps,
        v.link_ip matches Some(ip) ==> v.effective_ip(cfg) == ip,
        v.link_port matches Some(port) ==> v.effective_port(cfg) == port,
        v.active_link is None ==> v.effective_link(cfg) == cfg.sender.active_link@,
        v.chunk_size is None ==> v.effective_chunk_size(cfg) == cfg.sender.chunk_size,
        has_name(cfg.links@, v.effective_link(cfg)) ==> {
            let link = value_at(cfg.links@, v.effective_link(cfg));
            &&& v.max_kbps is None ==> v.effective_kbps(cfg) == link.max_kbps
            &&& v.link_ip is None ==> v.effective_ip(cfg) == link.ip@
            &&& v.link_port is None ==> v.effective_port(cfg) == link.port
        },
        !has_name(cfg.links@, v.effective_link(cfg)) ==> {
            let link = cfg.links@[0].1;
            &&& v.max_kbps is None ==> v.effective_kbps(cfg) == link.max_kbps
            &&& v.link_ip is None ==> v.effective_ip(cfg) == link.ip@
            &&& v.link_port is None ==> v.effective_port(cfg) == link.port
        },
{
}

/// An accepted override sets every setting that it holds to its value, and none that it does not
/// hold. Neither the queue nor the state nor the times of the last look and the last dump change.
pub proof fn law_override_sets_what_it_holds(v: SenderView, cfg: Config, o: LinkOverride)
    requires
        o.active_link matches Some(name) ==> has_name(cfg.links@, name@),
        o.chunk_size matches Some(n) ==> MIN_CHUNK_SIZE <= n <= MAX_CHUNK_SIZE,
    ensures
        ({
            let now = overridden(v, cfg, o);
            &&& o.active_link matches Some(name) ==> now.active_link == Some(name@)
            &&& o.active_link is None ==> now.active_link == v.active_link
            &&& o.chunk_size matches Some(n) ==> now.chunk_size == Some(n)
            &&& o.chunk_size is None ==> now.chunk_size == v.chunk_size
            &&& o.max_kbps matches Some(kbps) ==> now.max_kbps == Some(kbps)
            &&& o.max_kbps is None ==> now.max_kbps == v.max_kbps
            &&& o.link_ip matches Some(ip) ==> now.link_ip == Some(ip@)
            &&& o.link_ip is None ==> now.link_ip == v.link_ip
            &&& o.link_port matches Some(port) ==> now.link_port == Some(port)
            &&& o.link_port is None ==> now.link_port == v.link_port
            &&& now.queue == v.queue
            &&& now.state == v.state
            &&& now.rate_kbps == v.rate_kbps
            &&& now.last_recheck == v.last_recheck
            &&& now.last_status_dump == v.last_status_dump
        }),
{
}

/// An override is refused where the link that it names is not declared, and then nothing of it is
/// applied; and where its chunk size is out of bounds, and then only its link is applied. The error
/// names the link or the size.
pub proof fn law_faulty_override(v: SenderView, cfg: Config, o: LinkOverride, e: Error)
    ensures
        (o.active_link matches Some(name) && !has_name(cfg.links@, name@)) ==> {
            &&& overridden(v, cfg, o) == v
            &&& override_fault(cfg, o, e) ==> (e matches Error::BadConfig(why) && why@
                == "unknown link `"@ + o.active_link->0@ + "`"@)
        },
        (o.active_link matches Some(name) ==> has_name(cfg.links@, name@)) && (
        o.chunk_size matches Some(n) && !(MIN_CHUNK_SIZE <= n <= MAX_CHUNK_SIZE)) ==> {
            &&& overridden(v, cfg, o) == (SenderView {
                active_link: match o.active_link {
                    Some(name) => Some(name@),
                    None => v.active_link,
                },
                ..v
            })
            &&& override_fault(cfg, o, e) ==> e == Error::BadChunkSize(o.chunk_size->0)
        },
        (o.active_link matches Some(name) ==> has_name(cfg.links@, name@)) && (
        o.chunk_size matches Some(n) ==> MIN_CHUNK_SIZE <= n <= MAX_CHUNK_SIZE)
            ==> !override_fault(cfg, o, e) && link_known(cfg, o) && size_accepted(o),
{
}

/// What a status report says of the link, the chunk size and the queue is what is in effect and
/// queued: settings that were overridden as they were set, the others as configured, the file of
/// the first item (zero where nothing is queued), and the packets and changes of the queue.
pub proof fn law_status_is_what_is_in_effect(v: SenderView, cfg: Config, s: SenderStatus)
    requires
        cfg.valid(),
        status_of(v, cfg, s),
    ensures
        s.state == v.state,
        v.active_link matches Some(name) ==> s.active_link@ == name,
        v.active_link is None ==> s.active_link@ == cfg.sender.active_link@,
        v.link_ip matches Some(ip) ==> s.link_ip@ == ip,
        v.link_port matches Some(port) ==> s.link_port == port,
        v.max_kbps matches Some(kbps) ==> s.max_kbps == kbps,
        v.chunk_size matches Some(n) ==> s.chunk_size == n,
        v.chunk_size is None ==> s.chunk_size == cfg.sender.chunk_size,
        has_name(cfg.links@, s.active_link@) ==> {
            let link = value_at(cfg.links@, s.active_link@);
            &&& v.link_ip is None ==> s.link_ip@ == link.ip@
            &&& v.link_port is None ==> s.link_port == link.port
            &&& v.max_kbps is None ==> s.max_kbps == link.max_kbps
        },
        v.queue.items.len() == 0 ==> s.current_file_id == 0 && s.queue_depth == 0
            && s.pending@.len() == 0,
        v.queue.items.len() > 0 ==> s.current_file_id == (match v.queue.items[0] {
            WorkItemView::Manifest { file_id, .. } => file_id,
            WorkItemView::Data { file_id, .. } => file_id,
            WorkItemView::Retransmit { file_id, .. } => file_id,
        }),
        s.revision == v.queue.revision,
        s.queue_depth == total_packets(v.queue.items),
{
    if v.queue.items.len() == 0 && s.pending@.len() > 0 {
        assert(mentions(v.queue.items, s.pending@[0].file_id));
    }
}

/// Work put into the queue changes the queue alone.
pub proof fn law_queueing_changes_the_queue_alone(
    v: SenderView,
    items: Seq<WorkItemView>,
    n: int,
)
    requires
        0 <= n <= u64::MAX - v.queue.revision,
    ensures
        v.queued(items, n).queue.items == items,
        v.queued(items, n).queue.revision == v.queue.revision + n,
        v.queued(items, n) == (SenderView { queue: v.queued(items, n).queue, ..v }),
{
}

/// A single item goes to the head of the queue where it is to interrupt, and to its back where it
/// is not; what is queued already keeps its order.
pub proof fn law_item_goes_where_it_is_put(items: Seq<WorkItemView>, item: WorkItemView)
    ensures
        with_item(items, item, true).len() == items.len() + 1,
        with_item(items, item, true)[0] == item,
        with_item(items, item, true).skip(1) == items,
        with_item(items, item, false).len() == items.len() + 1,
        with_item(items, item, false).last() == item,
        with_item(items, item, false).drop_last() == items,
{
    assert(with_item(items, item, true).skip(1) =~= items);
    assert(with_item(items, item, false).drop_last() =~= items);
}

/// The chunks of a request start where it starts. It gets as many as it asks for, and one where it
/// asks for none, but never any past the file's last.
pub proof fn law_request_is_clamped(start: u32, count: u32, total: u32)
    requires
        start < total,
    ensures
        clamped(start, count, total).start == start,
        clamped(start, count, total).count >= 1,
        start + clamped(start, count, total).count <= total,
        count >= 1 && start + count <= total ==> clamped(start, count, total).count == count,
        count == 0 ==> clamped(start, count, total).count == 1,
        start + count > total ==> start + clamped(start, count, total).count == total,
{
}

/// Nothing is left of a manifest once it has been sent.
pub proof fn law_manifest_is_sent_at_once(file_id: i64, file_name: Seq<char>)
    ensures
        rest_of((WorkItemView::Manifest { file_id, file_name })) is None,
{
}

/// A file has the least number of chunks that hold it at the given chunk size, of which the header
/// takes its share; an empty file has one. The number is exact where it fits its field.
pub proof fn law_chunks_hold_the_file(chunk_size: usize, file_size: u64)
    requires
        MIN_CHUNK_SIZE <= chunk_size <= MAX_CHUNK_SIZE,
        file_size <= 0xFFFF_FFFF * (chunk_size - 32),
    ensures
        file_size == 0 ==> chunks_at(chunk_size, file_size) == 1,
        file_size > 0 ==> (chunks_at(chunk_size, file_size) - 1) * (chunk_size - 32) < file_size
            <= chunks_at(chunk_size, file_size) * (chunk_size - 32),
{
    let payload = (chunk_size - HEADER_LEN) as nat;
    law_chunk_count(file_size as nat, payload, 1);
    let n = crate::chunker::chunk_count(file_size as nat, payload);
    assert(n <= 0xFFFF_FFFF) by (nonlinear_arith)
        requires
            file_size > 0 ==> (n - 1) * payload < file_size,
            file_size == 0 ==> n == 1,
            file_size <= 0xFFFF_FFFF * payload,
            payload > 0,
    ;
}

/// What a file is registered with: its name, size and time as given, the calibration counters as
/// configured, and the chunk size in effect.
pub proof fn law_what_is_registered(
    s: Submission,
    v: SenderView,
    cfg: Config,
    name: Seq<char>,
    size: u64,
    created_at: Timestamp,
)
    requires
        submission_of(s, v, cfg, name, size, created_at),
    ensures
        s.name@ == name,
        s.size == size,
        s.created_at == created_at,
        s.images_per_dark == cfg.sender.images_per_dark,
        s.images_per_flat == cfg.sender.images_per_flat,
        s.images_per_bias == cfg.sender.images_per_bias,
        v.chunk_size matches Some(n) ==> s.chunk_size == n,
        v.chunk_size is None ==> s.chunk_size == cfg.sender.chunk_size,
{
}

/// A submitted path that is absolute is registered as it is. A relative one is registered with the
/// current directory in front, or as it is where that is not known.
pub proof fn law_submitted_path(path: Seq<char>, dir: Seq<char>)
    ensures
        path.len() > 0 && path[0] == '/' ==> absolute(path, Some(dir)) == path,
        absolute(path, None) == path,
        !(path.len() > 0 && path[0] == '/') && dir.len() > 0 && dir.last() != '/' ==> absolute(
            path,
            Some(dir),
        ) == dir + seq!['/'] + path,
{
    assert(dir.push('/') + path =~= dir + seq!['/'] + path);
}

/// Seconds count once they are over, and none count for a time that lies ahead. A sender that has
/// just been built has an hour behind it.
pub proof fn law_seconds_count_once_over(since: int, now: int)
    ensures
        now >= since ==> whole_seconds(since, now) * 1_000_000_000 <= now - since < (whole_seconds(
            since,
            now,
        ) + 1) * 1_000_000_000,
        now < since ==> whole_seconds(since, now) == 0,
        whole_seconds(now - HEAD_START_NANOS, now) == 3600,
{
}

/// Dumps of the ledger go below the first priority directory, or to a fixed place where there is
/// none.
pub proof fn law_where_dumps_go(cfg: Config)
    ensures
        cfg.sender.priority_dirs@.len() > 0 ==> dump_dir(cfg) == path_under(
            cfg.sender.priority_dirs@[0]@,
            "status_dumps"@,
        ),
        cfg.sender.priority_dirs@.len() == 0 ==> dump_dir(cfg) == "/tmp/parachuter"@,
{
}

/// A file that the ledger does not know is reported by its id.
pub proof fn law_unknown_file_is_reported(e: Error, file_id: i64)
    requires
        is_unknown_file(e, file_id),
    ensures
        e.text() == "invalid config: "@ + ("unknown file_id "@ + decimal_int(file_id as int)),
{
}

/// Without overrides the link that is used is the one that the configuration declares under the
/// configured name, with the address, the port and the throughput cap that it is declared with; and
/// the chunk size is the configured one. A packet goes out by just these.
pub proof fn law_configured_link_is_used(
    rt: SenderRuntime,
    cfg: Config,
    link: (String, String, u16, u64),
    chunk_size: usize,
    sending: &mut SenderRuntime,
    job: Option<SendJob>,
)
    requires
        cfg.valid(),
        rt@.active_link is None,
        rt@.chunk_size is None,
        rt@.max_kbps is None,
        rt@.link_ip is None,
        rt@.link_port is None,
        call_ensures(SenderRuntime::current_link, (&rt, &cfg), link),
        call_ensures(SenderRuntime::current_chunk_size, (&rt, &cfg), chunk_size),
        old(sending)@ == rt@,
        call_ensures(SenderRuntime::begin_send, (sending, &cfg), job),
    ensures
        ({
            let declared = value_at(cfg.links@, cfg.sender.active_link@);
            &&& link.0@ == cfg.sender.active_link@
            &&& link.1@ == declared.ip@
            &&& link.2 == declared.port
            &&& link.3 == declared.max_kbps
            &&& chunk_size == cfg.sender.chunk_size
            &&& job matches Some(j) ==> {
                &&& j.ip@ == declared.ip@
                &&& j.port == declared.port
                &&& j.chunk_size == cfg.sender.chunk_size
                &&& final(sending)@.rate_kbps == declared.max_kbps
            }
        }),
{
}

/// An override is in effect from the next look on: the link that is used, the chunk size and the
/// status show what it set, and the pace is that of the cap in effect.
pub proof fn law_override_is_used(
    rt: &mut SenderRuntime,
    cfg: Config,
    o: LinkOverride,
    r: Result<(), Error>,
    link: (String, String, u16, u64),
    chunk_size: usize,
    status: SenderStatus,
)
    requires
        cfg.valid(),
        call_ensures(SenderRuntime::apply_override, (rt, &cfg, o), r),
        call_ensures(SenderRuntime::current_link, (&*final(rt), &cfg), link),
        call_ensures(SenderRuntime::current_chunk_size, (&*final(rt), &cfg), chunk_size),
        call_ensures(SenderRuntime::status, (&*final(rt), &cfg), status),
    ensures
        r is Ok <==> {
            &&& o.active_link matches Some(name) ==> has_name(cfg.links@, name@)
            &&& o.chunk_size matches Some(n) ==> 64 <= n <= 65_000
        },
        r is Ok ==> {
            &&& o.active_link matches Some(name) ==> link.0@ == name@
            &&& o.link_ip matches Some(ip) ==> link.1@ == ip@
            &&& o.link_port matches Some(port) ==> link.2 == port
            &&& o.max_kbps matches Some(kbps) ==> link.3 == kbps
            &&& o.chunk_size matches Some(n) ==> chunk_size == n
            &&& final(rt)@.rate_kbps == link.3
        },
        status.active_link@ == link.0@,
        status.link_ip@ == link.1@,
        status.link_port == link.2,
        status.max_kbps == link.3,
        status.chunk_size == chunk_size,
        final(rt)@.queue == old(rt)@.queue,
        final(rt)@.state == old(rt)@.state,
{
}

/// Every state but the automatic one drops what is queued, and switching states changes nothing
/// else. A paused sender sends nothing, and the others send where something is queued.
pub proof fn law_states(
    rt: &mut SenderRuntime,
    state: SenderState,
    cfg: Config,
    sending: &mut SenderRuntime,
    job: Option<SendJob>,
)
    requires
        cfg.valid(),
        old(rt)@.queue.revision < u64::MAX,
        call_ensures(SenderRuntime::set_state, (rt, state), ()),
        old(sending)@ == final(rt)@,
        call_ensures(SenderRuntime::begin_send, (sending, &cfg), job),
    ensures
        final(rt)@.state == state,
        state is Auto ==> final(rt)@.queue == old(rt)@.queue,
        !(state is Auto) ==> final(rt)@.queue.items.len() == 0,
        final(rt)@ == (SenderView { state, queue: final(rt)@.queue, ..old(rt)@ }),
        state is Paused ==> job is None,
        job is None ==> final(sending)@ == final(rt)@,
        state is Auto ==> (job is Some <==> old(rt)@.queue.items.len() > 0),
{
}

/// Sending takes the first item off the queue and, once its packet has gone, puts back at the head
/// what is left of it: the same kind of item for the same file, without its first chunk. So chunks
/// go out one by one in order, and nothing behind the item moves.
pub proof fn law_sending_takes_the_first_chunk(
    rt: &mut SenderRuntime,
    cfg: Config,
    job: SendJob,
    done: &mut SenderRuntime,
    range: RequestedRange,
)
    requires
        call_ensures(SenderRuntime::begin_send, (rt, &cfg), Some(job)),
        old(done)@ == final(rt)@,
        call_ensures(SenderRuntime::sent, (done, &job), ()),
        old(rt)@.queue.items[0].chunks() == Some(range),
        range.start + range.count <= u32::MAX,
    ensures
        job.item@ == old(rt)@.queue.items[0],
        range.count <= 1 ==> final(done)@.queue.items == old(rt)@.queue.items.skip(1),
        range.count > 1 ==> {
            let first = final(done)@.queue.items[0];
            &&& final(done)@.queue.items.len() == old(rt)@.queue.items.len()
            &&& final(done)@.queue.items.skip(1) == old(rt)@.queue.items.skip(1)
            &&& first.file() == job.item@.file()
            &&& first is Data <==> job.item@ is Data
            &&& first is Retransmit <==> job.item@ is Retransmit
            &&& first.chunks() == Some(
                RequestedRange { start: (range.start + 1) as u32, count: (range.count - 1) as u32 },
            )
        },
        final(done)@.state == old(rt)@.state,
{
    if range.count > 1 {
        assert(final(done)@.queue.items.skip(1) =~= old(rt)@.queue.items.skip(1));
    }
}

/// What a manual request puts into the queue. A negative start asks for the whole file: its name and
/// then all its chunks. Any other asks for chunks to be sent again, and is refused where the file
/// has none there. What is asked for to interrupt goes to the head, the rest to the back; what is
/// queued already keeps its order, and a refused request changes nothing.
pub proof fn law_what_a_manual_request_queues(
    rt: &mut SenderRuntime,
    cfg: Config,
    file_id: i64,
    rec: FileRecord,
    start: i32,
    count: u32,
    interrupt: bool,
    r: Result<(), Error>,
)
    requires
        cfg.valid(),
        call_ensures(
            SenderRuntime::enqueue,
            (rt, &cfg, file_id, Some(rec), start, count, interrupt),
            r,
        ),
    ensures
        ({
            let total = chunks_at(old(rt)@.effective_chunk_size(cfg), rec.file_size);
            let before = old(rt)@.queue.items;
            let after = final(rt)@.queue.items;
            &&& start < 0 ==> {
                &&& r is Ok
                &&& after.len() == before.len() + 2
                &&& interrupt ==> after.skip(2) == before
                &&& !interrupt ==> after.take(before.len() as int) == before
                &&& ({
                    let at: int = if interrupt {
                        0
                    } else {
                        before.len() as int
                    };
                    &&& after[at] == (WorkItemView::Manifest {
                        file_id: rec.file_id,
                        file_name: rec.file_name@,
                    })
                    &&& after[at + 1] == (WorkItemView::Data {
                        file_id: rec.file_id,
                        range: RequestedRange { start: 0, count: total },
                    })
                })
            }
            &&& start >= total ==> {
                &&& r == Err::<(), Error>(Error::OutOfRange { index: start as u32, total })
                &&& final(rt)@ == old(rt)@
            }
            &&& 0 <= start < total ==> {
                let item = if interrupt {
                    after[0]
                } else {
                    after.last()
                };
                &&& r is Ok
                &&& after.len() == before.len() + 1
                &&& interrupt ==> after.skip(1) == before
                &&& !interrupt ==> after.drop_last() == before
                &&& item matches WorkItemView::Retransmit { file_id: id, range }
                &&& id == rec.file_id
                &&& range.start == start
                &&& range.count >= 1 && range.start + range.count <= total
                &&& count >= 1 && start + count <= total ==> range.count == count
                &&& count == 0 ==> range.count == 1
                &&& start + count > total ==> range.start + range.count == total
            }
            &&& final(rt)@ == (SenderView { queue: final(rt)@.queue, ..old(rt)@ })
        }),
{
    let total = chunks_at(old(rt)@.effective_chunk_size(cfg), rec.file_size);
    let before = old(rt)@.queue.items;
    let after = final(rt)@.queue.items;
    if start < 0 {
        law_name_goes_first(before, rec.file_id, rec.file_name@, total, interrupt);
        if interrupt {
            assert(after.skip(2) =~= before);
        } else {
            assert(after.take(before.len() as int) =~= before);
        }
    } else if start < total {
        let range = clamped(start as u32, count, total);
        law_request_is_clamped(start as u32, count, total);
        law_item_goes_where_it_is_put(
            before,
            (WorkItemView::Retransmit { file_id: rec.file_id, range }),
        );
    }
}

/// A file that the ledger does not know is refused, whatever is asked of it, and nothing is queued.
pub proof fn law_unknown_files_are_refused(
    rt: &mut SenderRuntime,
    cfg: Config,
    file_id: i64,
    start: i32,
    count: u32,
    interrupt: bool,
    r: Result<(), Error>,
    named: &mut SenderRuntime,
    s: Result<(), Error>,
)
    requires
        cfg.valid(),
        call_ensures(
            SenderRuntime::enqueue,
            (rt, &cfg, file_id, None::<FileRecord>, start, count, interrupt),
            r,
        ),
        call_ensures(SenderRuntime::resend_name, (named, file_id, None::<FileRecord>), s),
    ensures
        final(rt)@ == old(rt)@,
        final(named)@ == old(named)@,
        r matches Err(e) && e.text() == "invalid config: "@ + ("unknown file_id "@ + decimal_int(
            file_id as int,
        )),
        s matches Err(e) && e.text() == "invalid config: "@ + ("unknown file_id "@ + decimal_int(
            file_id as int,
        )),
{
}

/// A name that is asked for again goes out next: it is at the head of the queue, by the name and the
/// id of the record, and everything else is behind it as it was.
pub proof fn law_name_asked_for_goes_out_next(
    rt: &mut SenderRuntime,
    file_id: i64,
    rec: FileRecord,
    r: Result<(), Error>,
)
    requires
        call_ensures(SenderRuntime::resend_name, (rt, file_id, Some(rec)), r),
    ensures
        r is Ok,
        final(rt)@.queue.items.len() == old(rt)@.queue.items.len() + 1,
        final(rt)@.queue.items[0] == (WorkItemView::Manifest {
            file_id: rec.file_id,
            file_name: rec.file_name@,
        }),
        final(rt)@.queue.items.skip(1) == old(rt)@.queue.items,
        final(rt)@ == (SenderView { queue: final(rt)@.queue, ..old(rt)@ }),
{
    assert(final(rt)@.queue.items.skip(1) =~= old(rt)@.queue.items);
}

/// Flushing leaves nothing queued and changes nothing else.
pub proof fn law_flush_empties_the_queue(rt: &mut SenderRuntime)
    requires
        call_ensures(SenderRuntime::flush, (rt,), ()),
    ensures
        final(rt)@.queue.items.len() == 0,
        final(rt)@ == (SenderView { queue: final(rt)@.queue, ..old(rt)@ }),
{
}

/// A file that was registered is queued as a whole, by the id that it was given and by its name, and
/// the acknowledgement tells the id, the size and the number of chunks that were queued.
pub proof fn law_registered_file_is_queued(
    rt: &mut SenderRuntime,
    file_id: i64,
    s: Submission,
    interrupt: bool,
    ack: SubmitAck,
)
    requires
        call_ensures(SenderRuntime::registered, (rt, file_id, s, interrupt), ack),
    ensures
        ack.file_id == file_id,
        ack.file_size == s.size,
        ack.num_chunks == chunks_at(s.chunk_size as usize, s.size),
        ({
            let before = old(rt)@.queue.items;
            let after = final(rt)@.queue.items;
            let at: int = if interrupt {
                0
            } else {
                before.len() as int
            };
            &&& after.len() == before.len() + 2
            &&& after[at] == (WorkItemView::Manifest { file_id, file_name: s.name@ })
            &&& after[at + 1] == (WorkItemView::Data {
                file_id,
                range: RequestedRange { start: 0, count: ack.num_chunks },
            })
            &&& after.take(at) + after.skip(at + 2) == before
        }),
        final(rt)@ == (SenderView { queue: final(rt)@.queue, ..old(rt)@ }),
{
    law_name_goes_first(
        old(rt)@.queue.items,
        file_id,
        s.name@,
        chunks_at(s.chunk_size as usize, s.size),
        interrupt,
    );
}

/// What becomes of a path that is submitted: one that leads to nothing, to something else than a
/// regular file or to a file that cannot be read is refused by what was found; any other is
/// registered with its size, under its absolute path, with its birth time, or else the time of its
/// last modification, or else now.
pub proof fn law_what_becomes_of_a_submission(
    rt: SenderRuntime,
    cfg: Config,
    path: &str,
    cwd: Option<String>,
    probe: PathProbe,
    now: Timestamp,
    r: Result<Submission, Error>,
)
    requires
        cfg.valid(),
        call_ensures(SenderRuntime::submit, (&rt, &cfg, path, &cwd, probe, now), r),
    ensures
        r is Ok <==> probe is Regular,
        probe is NotFound ==> (r matches Err(Error::NotFound(p)) && p@ == path@),
        probe matches PathProbe::Failed(why) ==> (r matches Err(Error::Io(w)) && w@ == why@),
        probe matches PathProbe::Unreadable(why) ==> (r matches Err(Error::Io(w)) && w@ == why@),
        probe is NotRegular ==> (r matches Err(Error::BadConfig(w)) && w@ == path@
            + " is not a regular file"@),
        probe matches PathProbe::Regular { size, created, modified } ==> {
            &&& r matches Ok(s)
            &&& s.size == size
            &&& created matches Some(t) ==> s.created_at == t
            &&& created is None && modified is Some ==> s.created_at == modified->0
            &&& created is None && modified is None ==> s.created_at == now
            &&& path@.len() > 0 && path@[0] == '/' ==> s.name@ == path@
            &&& cwd is None ==> s.name@ == path@
            &&& s.images_per_dark == cfg.sender.images_per_dark
            &&& s.images_per_flat == cfg.sender.images_per_flat
            &&& s.images_per_bias == cfg.sender.images_per_bias
            &&& rt@.chunk_size is None ==> s.chunk_size == cfg.sender.chunk_size
            &&& rt@.chunk_size matches Some(n) ==> s.chunk_size == n
        },
{
}

/// A look for work is due once the period is over since the last one, in the automatic and the
/// debug state only, and a look that is due counts from then on: until the period is over again no
/// other is.
pub proof fn law_looks_are_a_period_apart(
    rt: &mut SenderRuntime,
    cfg: Config,
    now: u64,
    due: bool,
    again: &mut SenderRuntime,
    later: u64,
    due_again: bool,
)
    requires
        call_ensures(SenderRuntime::due_for_scan, (rt, &cfg, now), due),
        old(again)@ == final(rt)@,
        now <= later,
        call_ensures(SenderRuntime::due_for_scan, (again, &cfg, later), due_again),
    ensures
        due ==> old(rt)@.state is Auto || old(rt)@.state is Debug,
        old(rt)@.state is Auto || old(rt)@.state is Debug ==> (due <==> whole_seconds(
            old(rt)@.last_recheck,
            now as int,
        ) >= cfg.sender.recheck_period_secs),
        !due ==> final(rt)@ == old(rt)@,
        due && later - now < cfg.sender.recheck_period_secs * 1_000_000_000 ==> !due_again,
        due && later - now >= cfg.sender.recheck_period_secs * 1_000_000_000 ==> due_again,
        final(rt)@ == (SenderView { last_recheck: final(rt)@.last_recheck, ..old(rt)@ }),
{
}

/// Dumps of the ledger are a period apart, in whatever state the sender is.
pub proof fn law_dumps_are_a_period_apart(
    rt: &mut SenderRuntime,
    cfg: Config,
    now: u64,
    due: bool,
    again: &mut SenderRuntime,
    later: u64,
    due_again: bool,
)
    requires
        call_ensures(SenderRuntime::due_for_dump, (rt, &cfg, now), due),
        old(again)@ == final(rt)@,
        now <= later,
        call_ensures(SenderRuntime::due_for_dump, (again, &cfg, later), due_again),
    ensures
        due <==> whole_seconds(old(rt)@.last_status_dump, now as int)
            >= cfg.sender.status_dump_period_secs,
        !due ==> final(rt)@ == old(rt)@,
        due && later - now < cfg.sender.status_dump_period_secs * 1_000_000_000 ==> !due_again,
        due && later - now >= cfg.sender.status_dump_period_secs * 1_000_000_000 ==> due_again,
        final(rt)@ == (SenderView { last_status_dump: final(rt)@.last_status_dump, ..old(rt)@ }),
{
}

/// A sender that was just built has nothing queued and nothing overridden, is in the configured
/// state and paced at the cap of the configured link. It looks for work at once where the period is
/// no more than an hour, and dumps the ledger when the first period is over.
pub proof fn law_fresh_sender(
    cfg: Config,
    now: u64,
    rt: SenderRuntime,
    looking: &mut SenderRuntime,
    due: bool,
    dumping: &mut SenderRuntime,
    later: u64,
    dump: bool,
)
    requires
        cfg.valid(),
        call_ensures(SenderRuntime::new, (&cfg, now), rt),
        old(looking)@ == rt@,
        call_ensures(SenderRuntime::due_for_scan, (looking, &cfg, now), due),
        old(dumping)@ == rt@,
        now <= later,
        call_ensures(SenderRuntime::due_for_dump, (dumping, &cfg, later), dump),
    ensures
        rt@.queue.items.len() == 0 && rt@.queue.revision == 0,
        rt@.state == cfg.sender.initial_state,
        rt@.active_link is None && rt@.chunk_size is None && rt@.max_kbps is None && rt@.link_ip
            is None && rt@.link_port is None,
        rt@.rate_kbps == value_at(cfg.links@, cfg.sender.active_link@).max_kbps,
        cfg.sender.initial_state is Auto ==> (due <==> cfg.sender.recheck_period_secs <= 3600),
        dump <==> later - now >= cfg.sender.status_dump_period_secs * 1_000_000_000,
{
}

/// Work is looked for in the debug directories in the debug state, and in the others in any other.
pub proof fn law_where_work_is_looked_for(rt: SenderRuntime, cfg: Config, dirs: Vec<String>)
    requires
        call_ensures(SenderRuntime::scan_dirs, (&rt, &cfg), &dirs),
    ensures
        rt@.state is Debug ==> dirs == cfg.sender.priority_dirs_debug,
        !(rt@.state is Debug) ==> dirs == cfg.sender.priority_dirs,
{
}

/// What a job needs to be sent: for a manifest, the name that it carries; for chunks, the ledger's
/// record of the file, whose name it then goes by.
pub proof fn law_what_a_job_needs(
    job: SendJob,
    id: Option<i64>,
    record: Option<FileRecord>,
    path: Result<String, Error>,
)
    requires
        call_ensures(SendJob::needs_record, (&job,), id),
        call_ensures(SendJob::file_path, (&job, record), path),
    ensures
        job.item@ matches WorkItemView::Manifest { file_name, .. } ==> id is None && (
        path matches Ok(p) && p@ == file_name),
        job.item@ matches WorkItemView::Data { file_id, .. } ==> id == Some(file_id),
        job.item@ matches WorkItemView::Retransmit { file_id, .. } ==> id == Some(file_id),
        !(job.item@ is Manifest) && record is Some ==> (path matches Ok(p) && p@
            == record->0.file_name@),
        !(job.item@ is Manifest) && record is None ==> path is Err,
{
}

/// The datagram of a job is read back as the packet it was made for: for a manifest the file's
/// name, for chunks the first of them with the bytes that were read, as data the first time and as
/// a retransmit when it was asked for again.
pub proof fn law_datagram_of_a_job(
    job: SendJob,
    path: &str,
    c: Chunker,
    read: Vec<u8>,
    bytes: Vec<u8>,
)
    requires
        read@.len() <= u32::MAX,
        encode_utf8(path@).len() <= u32::MAX,
        call_ensures(SendJob::datagram, (&job, path, &c, read), Ok(bytes)),
    ensures
        packet_fault(bytes@) is None,
        ({
            let p = packet_in(bytes@);
            &&& p.file_id == c@.file_id
            &&& p.num_chunks == c@.num_chunks()
            &&& job.item@ is Manifest ==> p.ptype is Manifest && p.payload == encode_utf8(path@)
            &&& job.item@ matches WorkItemView::Data { range, .. } ==> p.ptype is Data && p.chunk_id
                == range.start && p.payload == read@
            &&& job.item@ matches WorkItemView::Retransmit { range, .. } ==> p.ptype is Retransmit
                && p.chunk_id == range.start && p.payload == read@
        }),
{
    match job.item@ {
        WorkItemView::Manifest { .. } => {
            law_decode_reads_back_encode(c@.name_packet(path@));
        },
        WorkItemView::Data { range, .. } => {
            law_decode_reads_back_encode(c@.data_packet(range.start, read@));
        },
        WorkItemView::Retransmit { range, .. } => {
            law_decode_reads_back_encode(c@.as_retransmit(c@.data_packet(range.start, read@)));
        },
    }
}

/// What opening the file of a job comes to. A file that is there is cut up at the job's chunk size
/// under its own id; one that has gone is an error for a manifest and news for the ledger for
/// chunks; a failure is reported by its reason.
pub proof fn law_opening_the_file_of_a_job(
    job: SendJob,
    path: &str,
    probe: FileProbe,
    r: Result<Opened, Error>,
)
    requires
        64 <= job.chunk_size <= 65_000,
        call_ensures(SendJob::open, (&job, path, probe), r),
    ensures
        probe matches FileProbe::Size(n) ==> {
            &&& r matches Ok(Opened::Ready(c))
            &&& c@.file_size == n
            &&& c@.file_id == job.item@.file()
            &&& c@.chunk_size == job.chunk_size
        },
        probe is NotFound && job.item@ is Manifest ==> (r matches Err(Error::NotFound(p)) && p@
            == path@),
        probe is NotFound && !(job.item@ is Manifest) ==> (r matches Ok(Opened::Gone)),
        probe matches FileProbe::Failed(why) ==> (r matches Err(Error::Io(w)) && w@ == why@),
{
}

/// The bytes that a job needs are those of the first of its chunks; a manifest needs none.
pub proof fn law_bytes_that_a_job_needs(job: SendJob, c: Chunker, r: Result<(u64, usize), Error>)
    requires
        call_ensures(SendJob::read_span, (&job, &c), r),
    ensures
        job.item@ is Manifest ==> r == Ok::<(u64, usize), Error>((0, 0)),
        job.item@.chunks() matches Some(range) ==> {
            &&& range.start >= c@.num_chunks() ==> r == Err::<(u64, usize), Error>(
                Error::OutOfRange { index: range.start, total: c@.num_chunks() },
            )
            &&& range.start < c@.num_chunks() ==> (r matches Ok(at) && at.0 == range.start * (
            c@.chunk_size - HEADER_LEN) as nat && at.1 == c@.span(range.start as int))
        },
{
}

/// A file that a scan found is registered under its path, with the size and the time that were
/// found; and dumps of the ledger carry their instant in their name.
pub proof fn law_found_files_and_dumps(
    rt: SenderRuntime,
    cfg: Config,
    found: Candidate,
    s: Submission,
    now_secs: i64,
    path: (String, String),
)
    requires
        cfg.valid(),
        call_ensures(SenderRuntime::scanned, (&rt, &cfg, &found), s),
        call_ensures(status_dump_path, (&cfg, now_secs), path),
    ensures
        s.name@ == found.path@,
        s.size == found.size,
        s.created_at == found.created_at,
        s.images_per_dark == cfg.sender.images_per_dark,
        s.images_per_flat == cfg.sender.images_per_flat,
        s.images_per_bias == cfg.sender.images_per_bias,
        rt@.chunk_size is None ==> s.chunk_size == cfg.sender.chunk_size,
        rt@.chunk_size matches Some(n) ==> s.chunk_size == n,
        cfg.sender.priority_dirs@.len() > 0 ==> path.0@ == path_under(
            cfg.sender.priority_dirs@[0]@,
            "status_dumps"@,
        ),
        cfg.sender.priority_dirs@.len() == 0 ==> path.0@ == "/tmp/parachuter"@,
        path.1@ == path_under(
            path.0@,
            "files_sent_list_"@ + decimal_int(now_secs as int) + ".csv"@,
        ),
{
}

/// A path that is made absolute stays what it is where it is so already or where the current
/// directory is not known, and else has the current directory in front.
pub proof fn law_making_a_path_absolute(path: &str, cwd: Option<String>, abs: String)
    requires
        call_ensures(absolute_path, (path, &cwd), abs),
    ensures
        path@.len() > 0 && path@[0] == '/' ==> abs@ == path@,
        cwd is None ==> abs@ == path@,
        !(path@.len() > 0 && path@[0] == '/') && cwd is Some && cwd->0@.len() > 0 && cwd->0@.last()
            != '/' ==> abs@ == cwd->0@ + seq!['/'] + path@,
{
    if let Some(dir) = cwd {
        law_submitted_path(path@, dir@);
    }
}

/// A packet goes out by what is in effect when it is taken off the queue, overridden or not: it is
/// cut at the chunk size, sent to the address and port, and paced at the cap that a look at the
/// settings tells. Nothing else about the sender changes.
pub proof fn law_packet_goes_by_what_is_in_effect(
    rt: &mut SenderRuntime,
    cfg: Config,
    job: SendJob,
    link: (String, String, u16, u64),
    chunk_size: usize,
)
    requires
        cfg.valid(),
        call_ensures(SenderRuntime::begin_send, (rt, &cfg), Some(job)),
        call_ensures(SenderRuntime::current_link, (&*old(rt), &cfg), link),
        call_ensures(SenderRuntime::current_chunk_size, (&*old(rt), &cfg), chunk_size),
    ensures
        job.chunk_size == chunk_size,
        job.ip@ == link.1@,
        job.port == link.2,
        final(rt)@.rate_kbps == link.3,
        job.item@ == old(rt)@.queue.items[0],
        final(rt)@.queue.items == old(rt)@.queue.items.skip(1),
        final(rt)@ == (SenderView {
            queue: final(rt)@.queue,
            rate_kbps: final(rt)@.rate_kbps,
            ..old(rt)@
        }),
{
}

} // verus!
