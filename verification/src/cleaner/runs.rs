//! What is left of a run of chunks once others are taken away.

use vstd::prelude::*;

use crate::control::messages::{RequestedRange, SenderQueueSnapshot, SenderStatus};
use crate::sender::laws::shown_pending;

verus! {

/// Whether a chunk lies in one of a list of ranges.
pub open spec fn covered(ranges: Seq<RequestedRange>, chunk: int) -> bool {
    exists|k: int| 0 <= k < ranges.len() && (#[trigger] ranges[k]).has(chunk)
}

/// The longest runs of chunks, from `lo` up to but not including `hi`, of which none is taken, in
/// order.
pub open spec fn runs_outside(taken: Seq<RequestedRange>, lo: int, hi: int) -> Seq<RequestedRange>
    decreases hi - lo,
{
    if hi <= lo {
        seq![]
    } else {
        let runs = runs_outside(taken, lo, hi - 1);
        if covered(taken, hi - 1) {
            runs
        } else if runs.len() > 0 && runs.last().start + runs.last().count == hi - 1 {
            runs.drop_last().push(
                RequestedRange {
                    start: runs.last().start,
                    count: (runs.last().count + 1) as u32,
                },
            )
        } else {
            runs.push(RequestedRange { start: (hi - 1) as u32, count: 1 })
        }
    }
}

/// The runs lie apart and in order between the bounds, none is empty, and together they cover
/// exactly the chunks that are not taken.
pub proof fn law_runs_outside(taken: Seq<RequestedRange>, lo: int, hi: int)
    requires
        0 <= lo,
        hi <= u32::MAX,
    ensures
        ({
            let runs = runs_outside(taken, lo, hi);
            &&& forall|k: int|
                0 <= k < runs.len() ==> (#[trigger] runs[k]).count >= 1 && lo <= runs[k].start
                    && runs[k].start + runs[k].count <= hi
            &&& forall|k: int, l: int|
                0 <= k < l < runs.len() ==> (#[trigger] runs[k]).start + runs[k].count < (
                #[trigger] runs[l]).start
            &&& forall|c: int| #[trigger] covered(runs, c) <==> lo <= c < hi && !covered(taken, c)
            &&& runs.len() > 0 && runs.last().start + runs.last().count == hi ==> !covered(
                taken,
                hi - 1,
            )
        }),
    decreases hi - lo,
{
    if lo < hi {
        law_runs_outside(taken, lo, hi - 1);
        let before = runs_outside(taken, lo, hi - 1);
        let runs = runs_outside(taken, lo, hi);
        let n = before.len() as int;
        assert forall|c: int| #[trigger] covered(runs, c) <==> lo <= c < hi && !covered(taken, c) by {
            assert(covered(before, c) <==> lo <= c < hi - 1 && !covered(taken, c));
            if covered(before, c) {
                let k = choose|k: int| 0 <= k < n && (#[trigger] before[k]).has(c);
                assert(runs[k].has(c));
            }
            if c == hi - 1 && !covered(taken, c) {
                assert(runs[runs.len() - 1].has(c));
            }
            if covered(runs, c) && c != hi - 1 {
                let k = choose|k: int| 0 <= k < runs.len() && (#[trigger] runs[k]).has(c);
                assert(k < n && before[k].has(c));
            }
            if covered(runs, c) && covered(taken, hi - 1) {
                assert(covered(before, c));
            }
        }
    }
}

/// Chunks that are taken end no run and start none.
proof fn lemma_taken_stretch(taken: Seq<RequestedRange>, lo: int, a: int, b: int)
    requires
        lo <= a <= b,
        forall|c: int| a <= c < b ==> #[trigger] covered(taken, c),
    ensures
        runs_outside(taken, lo, b) == runs_outside(taken, lo, a),
    decreases b - a,
{
    if a < b {
        lemma_taken_stretch(taken, lo, a, b - 1);
    }
}

/// Chunks that are not taken, after one that is or at the lower bound, make up a run.
proof fn lemma_free_stretch(taken: Seq<RequestedRange>, lo: int, a: int, b: int)
    requires
        0 <= lo <= a < b <= u32::MAX,
        a == lo || covered(taken, a - 1),
        forall|c: int| a <= c < b ==> !#[trigger] covered(taken, c),
    ensures
        runs_outside(taken, lo, b) == runs_outside(taken, lo, a).push(
            RequestedRange { start: a as u32, count: (b - a) as u32 },
        ),
    decreases b - a,
{
    law_runs_outside(taken, lo, a);
    assert(!covered(taken, b - 1));
    let runs = runs_outside(taken, lo, a);
    if a + 1 < b {
        lemma_free_stretch(taken, lo, a, b - 1);
        let before = runs.push(RequestedRange { start: a as u32, count: (b - 1 - a) as u32 });
        assert(before.drop_last() =~= runs);
    }
}

/// Where a range that covers a chunk ends.
fn end_of_cover(ranges: &Vec<RequestedRange>, chunk: u64) -> (end: Option<u64>)
    ensures
        match end {
            Some(e) => chunk < e && forall|c: int| chunk <= c < e ==> #[trigger] covered(ranges@, c),
            None => !covered(ranges@, chunk as int),
        },
{
    let mut k: usize = 0;
    while k < ranges.len()
        invariant
            k <= ranges@.len(),
            forall|j: int| 0 <= j < k ==> !(#[trigger] ranges@[j]).has(chunk as int),
        decreases ranges@.len() - k,
    {
        let r = ranges[k];
        let end: u64 = r.start as u64 + r.count as u64;
        if r.start as u64 <= chunk && chunk < end {
            assert forall|c: int| chunk <= c < end implies #[trigger] covered(ranges@, c) by {
                assert(ranges@[k as int].has(c));
            }
            return Some(end);
        }
        k += 1;
    }
    None
}

/// The first chunk after an uncovered one that is covered, or the limit if none is before it.
fn next_cover(ranges: &Vec<RequestedRange>, chunk: u64, limit: u64) -> (next: u64)
    requires
        chunk < limit,
        !covered(ranges@, chunk as int),
    ensures
        chunk < next <= limit,
        next < limit ==> covered(ranges@, next as int),
        forall|c: int| chunk <= c < next ==> !#[trigger] covered(ranges@, c),
{
    let mut next: u64 = limit;
    let mut k: usize = 0;
    while k < ranges.len()
        invariant
            k <= ranges@.len(),
            chunk < next <= limit,
            next < limit ==> covered(ranges@, next as int),
            forall|j: int|
                0 <= j < k && (#[trigger] ranges@[j]).count > 0 && ranges@[j].start > chunk ==> next
                    <= ranges@[j].start,
        decreases ranges@.len() - k,
    {
        let r = ranges[k];
        if r.count > 0 && r.start as u64 > chunk && (r.start as u64) < next {
            next = r.start as u64;
            assert(ranges@[k as int].has(next as int));
        }
        k += 1;
    }
    assert forall|c: int| chunk <= c < next implies !#[trigger] covered(ranges@, c) by {
        if covered(ranges@, c) {
            let j = choose|j: int| 0 <= j < ranges@.len() && (#[trigger] ranges@[j]).has(c);
            if ranges@[j].start <= chunk {
                assert(ranges@[j].has(chunk as int));
            }
        }
    }
    next
}

/// What is left of a range once others are taken away.
pub fn left_of(range: RequestedRange, taken: &Vec<RequestedRange>) -> (runs: Vec<RequestedRange>)
    requires
        range.start + range.count <= u32::MAX,
    ensures
        runs@ == runs_outside(taken@, range.start as int, range.start + range.count),
{
    let lo: u64 = range.start as u64;
    let hi: u64 = lo + range.count as u64;
    let mut runs: Vec<RequestedRange> = Vec::new();
    let mut at: u64 = lo;
    while at < hi
        invariant
            lo <= at <= hi <= u32::MAX,
            runs@ == runs_outside(taken@, lo as int, at as int),
            at == lo || at == hi || covered(taken@, at as int) || covered(taken@, at - 1),
        decreases hi - at,
    {
        match end_of_cover(taken, at) {
            Some(end) => {
                let to: u64 = if end < hi { end } else { hi };
                proof {
                    lemma_taken_stretch(taken@, lo as int, at as int, to as int);
                    assert(covered(taken@, to - 1));
                }
                at = to;
            },
            None => {
                let to: u64 = next_cover(taken, at, hi);
                proof {
                    lemma_free_stretch(taken@, lo as int, at as int, to as int);
                }
                runs.push(RequestedRange { start: at as u32, count: (to - at) as u32 });
                at = to;
            },
        }
    }
    runs
}

/// Two lists of ranges cover what each of them does.
pub proof fn lemma_covered_concat(a: Seq<RequestedRange>, b: Seq<RequestedRange>, chunk: int)
    ensures
        covered(a + b, chunk) == (covered(a, chunk) || covered(b, chunk)),
{
    let all = a + b;
    if covered(a, chunk) {
        let k = choose|k: int| 0 <= k < a.len() && (#[trigger] a[k]).has(chunk);
        assert(all[k].has(chunk));
    }
    if covered(b, chunk) {
        let k = choose|k: int| 0 <= k < b.len() && (#[trigger] b[k]).has(chunk);
        assert(all[a.len() + k].has(chunk));
    }
    if covered(all, chunk) {
        let k = choose|k: int| 0 <= k < all.len() && (#[trigger] all[k]).has(chunk);
        if k < a.len() {
            assert(a[k].has(chunk));
        } else {
            assert(b[k - a.len()].has(chunk));
        }
    }
}

/// What the sender has queued, as far as it has told.
pub open spec fn pending_of(status: Option<SenderStatus>) -> Seq<SenderQueueSnapshot> {
    match status {
        Some(s) => s.pending@,
        None => seq![],
    }
}

/// The ranges of a file that are shown as queued.
pub open spec fn queued_of(snap: Seq<SenderQueueSnapshot>, file_id: i64) -> Seq<RequestedRange>
    decreases snap.len(),
{
    if snap.len() == 0 {
        seq![]
    } else {
        queued_of(snap.drop_last(), file_id) + if snap.last().file_id == file_id {
            snap.last().ranges@
        } else {
            seq![]
        }
    }
}

/// The ranges of a file that the sender has queued, as far as it has told.
pub fn queued_ranges(status: &Option<SenderStatus>, file_id: i64) -> (ranges: Vec<RequestedRange>)
    ensures
        ranges@ == queued_of(pending_of(*status), file_id),
{
    let mut ranges: Vec<RequestedRange> = Vec::new();
    let s = match status {
        Some(s) => s,
        None => return ranges,
    };
    let mut i: usize = 0;
    assert(s.pending@.take(0) =~= Seq::empty());
    while i < s.pending.len()
        invariant
            i <= s.pending@.len(),
            ranges@ == queued_of(s.pending@.take(i as int), file_id),
        decreases s.pending@.len() - i,
    {
        let entry = &s.pending[i];
        let ghost before = ranges@;
        assert(s.pending@.take(i + 1).drop_last() =~= s.pending@.take(i as int));
        if entry.file_id == file_id {
            ranges.extend_from_slice(entry.ranges.as_slice());
            assert(ranges@ =~= before + entry.ranges@);
        } else {
            assert(ranges@ =~= before + Seq::<RequestedRange>::empty());
        }
        i += 1;
    }
    assert(s.pending@.take(s.pending@.len() as int) =~= s.pending@);
    ranges
}

/// The ranges that are shown as queued cover exactly the chunks that are shown as pending.
pub proof fn lemma_queued(snap: Seq<SenderQueueSnapshot>, file_id: i64, chunk: int)
    ensures
        covered(queued_of(snap, file_id), chunk) == shown_pending(snap, file_id, chunk),
    decreases snap.len(),
{
    if snap.len() > 0 {
        let rest = snap.drop_last();
        let n = snap.len() - 1;
        let added = if snap.last().file_id == file_id {
            snap.last().ranges@
        } else {
            seq![]
        };
        lemma_queued(rest, file_id, chunk);
        lemma_covered_concat(queued_of(rest, file_id), added, chunk);
        if shown_pending(rest, file_id, chunk) {
            let (i, k) = choose|i: int, k: int|
                0 <= i < rest.len() && rest[i].file_id == file_id && 0 <= k < rest[i].ranges@.len()
                    && (#[trigger] rest[i].ranges@[k]).has(chunk);
            assert(snap[i].ranges@[k].has(chunk));
        }
        if covered(added, chunk) {
            let k = choose|k: int| 0 <= k < added.len() && (#[trigger] added[k]).has(chunk);
            assert(snap[n].ranges@[k].has(chunk));
        }
        if shown_pending(snap, file_id, chunk) {
            let (i, k) = choose|i: int, k: int|
                0 <= i < snap.len() && snap[i].file_id == file_id && 0 <= k < snap[i].ranges@.len()
                    && (#[trigger] snap[i].ranges@[k]).has(chunk);
            if i < n {
                assert(rest[i].ranges@[k].has(chunk));
            } else {
                assert(added[k].has(chunk));
            }
        }
    }
}

/// What the sender has queued is what its status shows, and nothing where there is no status: a
/// chunk counts as queued exactly where a snapshot of its file has it in one of its ranges.
pub proof fn law_what_counts_as_queued(status: Option<SenderStatus>, file_id: i64, chunk: int)
    ensures
        covered(queued_of(pending_of(status), file_id), chunk) <==> (status matches Some(s)
            && exists|i: int, k: int|
            {
                &&& 0 <= i < s.pending@.len()
                &&& s.pending@[i].file_id == file_id
                &&& 0 <= k < s.pending@[i].ranges@.len()
                &&& (#[trigger] s.pending@[i].ranges@[k]).start <= chunk
                &&& chunk < s.pending@[i].ranges@[k].start + s.pending@[i].ranges@[k].count
            }),
        covered(queued_of(pending_of(status), file_id), chunk) == shown_pending(
            pending_of(status),
            file_id,
            chunk,
        ),
{
    lemma_queued(pending_of(status), file_id, chunk);
    if let Some(s) = status {
        if exists|i: int, k: int|
            {
                &&& 0 <= i < s.pending@.len()
                &&& s.pending@[i].file_id == file_id
                &&& 0 <= k < s.pending@[i].ranges@.len()
                &&& (#[trigger] s.pending@[i].ranges@[k]).start <= chunk
                &&& chunk < s.pending@[i].ranges@[k].start + s.pending@[i].ranges@[k].count
            } {
            let (i, k) = choose|i: int, k: int|
                {
                    &&& 0 <= i < s.pending@.len()
                    &&& s.pending@[i].file_id == file_id
                    &&& 0 <= k < s.pending@[i].ranges@.len()
                    &&& (#[trigger] s.pending@[i].ranges@[k]).start <= chunk
                    &&& chunk < s.pending@[i].ranges@[k].start + s.pending@[i].ranges@[k].count
                };
            assert(s.pending@[i].ranges@[k].has(chunk));
        }
    }
}

} // verus!
