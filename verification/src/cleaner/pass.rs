//! One pass of the cleaner: what is missing is asked for, less what the sender has queued and what
//! was asked for lately, within the budget of the active link.
//!
//! Times are nanoseconds on a steady clock.

use vstd::prelude::*;

use crate::cleaner::dedup::{
    asked_lately, asked_of, distinct, kind_of, law_request_is_outstanding_for_its_ttl,
    law_what_was_asked_lately, lemma_asked, live, nanos, with_entry, DedupTable, Entry, Key, Kind,
    RequestType,
};
use crate::cleaner::runs::{
    covered, law_runs_outside, law_what_counts_as_queued, left_of, lemma_queued, pending_of,
    queued_of, queued_ranges, runs_outside,
};
use crate::config::{Config, LinkBudget};
use crate::control::messages::{
    Request, RequestedRange, Response, SenderQueueSnapshot, SenderStatus,
};
use crate::ledger::FileRecord;
use crate::names::{has_name, value_at};
use crate::reassembler::laws::law_gaps_are_exact;
use crate::reassembler::manifest::{
    is_missing_run, manifest_fault, manifest_in, missing_runs, ManifestView, SidecarRead,
};
use crate::reassembler::{known, usable, Reassembler};
use crate::sender::handler::Findings;
use crate::sender::laws::shown_pending;
use crate::sender::queue::WorkItemView;
use crate::sender::state::{chunks_at, clamped, SenderRuntime};

verus! {

/// How long before a pass the last request counts as having been sent: a minute, in nanoseconds.
pub const PASS_HEAD_START_NANOS: u64 = 60_000_000_000;

/// Whether a range has a chunk in common with one of a list.
pub open spec fn meets_any(target: RequestedRange, existing: Seq<RequestedRange>) -> bool {
    exists|i: int| 0 <= i < existing.len() && meets(target, #[trigger] existing[i])
}

/// Whether two ranges meet.
pub open spec fn meets(a: RequestedRange, b: RequestedRange) -> bool {
    a.start < b.start + b.count && b.start < a.start + a.count
}

/// Whether a range has a chunk in common with one of a list.
pub fn range_intersects_any(target: RequestedRange, existing: &Vec<RequestedRange>) -> (yes: bool)
    ensures
        yes == meets_any(target, existing@),
{
    let t_end: u64 = target.start as u64 + target.count as u64;
    let mut i: usize = 0;
    while i < existing.len()
        invariant
            i <= existing@.len(),
            t_end == target.start + target.count,
            forall|j: int| 0 <= j < i ==> !meets(target, #[trigger] existing@[j]),
        decreases existing@.len() - i,
    {
        let e = existing[i];
        let e_end: u64 = e.start as u64 + e.count as u64;
        if (target.start as u64) < e_end && (e.start as u64) < t_end {
            assert(meets(target, existing@[i as int]));
            return true;
        }
        i += 1;
    }
    false
}

/// Whether the first snapshot of a file shows a request as pending.
pub open spec fn pending_in(
    snap: Seq<SenderQueueSnapshot>,
    file_id: i64,
    range: RequestedRange,
    kind: RequestType,
) -> bool
    decreases snap.len(),
{
    if snap.len() == 0 {
        false
    } else if snap[0].file_id == file_id {
        match kind {
            RequestType::ResendName => snap[0].manifest_pending,
            RequestType::Retransmit => meets_any(range, snap[0].ranges@),
        }
    } else {
        pending_in(snap.skip(1), file_id, range, kind)
    }
}

/// Whether the sender, as far as it has told, has a request queued already.
pub open spec fn already_pending(
    status: Option<SenderStatus>,
    file_id: i64,
    range: RequestedRange,
    kind: RequestType,
) -> bool {
    match status {
        None => false,
        Some(s) => pending_in(s.pending@, file_id, range, kind),
    }
}

/// Whether the sender, as far as it has told, has a request queued already.
pub fn is_already_pending(
    status: &Option<SenderStatus>,
    file_id: i64,
    range: RequestedRange,
    kind: RequestType,
) -> (yes: bool)
    ensures
        yes == already_pending(*status, file_id, range, kind),
{
    let s = match status {
        Some(s) => s,
        None => return false,
    };
    let mut i: usize = 0;
    assert(s.pending@.skip(0) =~= s.pending@);
    while i < s.pending.len()
        invariant
            i <= s.pending@.len(),
            *status == Some(*s),
            pending_in(s.pending@, file_id, range, kind) == pending_in(
                s.pending@.skip(i as int),
                file_id,
                range,
                kind,
            ),
        decreases s.pending@.len() - i,
    {
        let entry = &s.pending[i];
        if entry.file_id == file_id {
            return match kind {
                RequestType::ResendName => entry.manifest_pending,
                RequestType::Retransmit => range_intersects_any(range, &entry.ranges),
            };
        }
        assert(s.pending@.skip(i as int).skip(1) =~= s.pending@.skip(i + 1));
        i += 1;
    }
    false
}

/// A range that does not count as pending has no chunk in common with what the sender shows as
/// queued for its file.
pub proof fn law_range_not_pending_is_not_queued(
    snap: Seq<SenderQueueSnapshot>,
    file_id: i64,
    range: RequestedRange,
    chunk: int,
)
    requires
        forall|i: int, j: int|
            0 <= i < j < snap.len() ==> #[trigger] snap[i].file_id < #[trigger] snap[j].file_id,
        !pending_in(snap, file_id, range, RequestType::Retransmit),
        range.has(chunk),
    ensures
        !shown_pending(snap, file_id, chunk),
    decreases snap.len(),
{
    if shown_pending(snap, file_id, chunk) {
        let (i, k) = choose|i: int, k: int|
            0 <= i < snap.len() && snap[i].file_id == file_id && 0 <= k < snap[i].ranges@.len() && (
            #[trigger] snap[i].ranges@[k]).has(chunk);
        if i == 0 {
            assert(meets(range, snap[0].ranges@[k]));
        } else {
            let rest = snap.skip(1);
            assert(snap[0].file_id < snap[i].file_id);
            assert forall|a: int, b: int| 0 <= a < b < rest.len() implies #[trigger] rest[a].file_id
                < #[trigger] rest[b].file_id by {
                assert(rest[a] == snap[a + 1] && rest[b] == snap[b + 1]);
            }
            law_range_not_pending_is_not_queued(rest, file_id, range, chunk);
            assert(rest[i - 1].ranges@[k].has(chunk));
        }
    }
}

/// What is missing of one in-flight assembly.
#[derive(Debug, Clone)]
pub struct Gaps {
    /// Logical file id.
    pub file_id: i64,
    /// Whether the name is known.
    pub named: bool,
    /// The missing chunk ranges.
    pub missing: Vec<(u32, u32)>,
}

/// What is missing of an in-flight assembly, given what reading its sidecar gave. A sidecar that
/// cannot be used tells nothing of chunks, and its name counts as missing.
pub fn gaps_of(r: &Reassembler, file_id: i64, sidecar: &SidecarRead) -> (g: Gaps)
    ensures
        g.file_id == file_id,
        match known(r.holding_path(file_id, ".parmanifest"@), *sidecar) {
            Some(m) => if usable(*sidecar) {
                &&& g.named == (m.name.len() > 0)
                &&& missing_runs(m, g.missing@, m.num_chunks as int)
            } else {
                !g.named && g.missing@.len() == 0
            },
            None => !g.named && g.missing@.len() == 0,
        },
        gaps_fit(seq![g]),
{
    let named = match r.has_name(file_id, sidecar) {
        Ok(named) => named,
        Err(_) => false,
    };
    let missing = match r.missing_ranges(file_id, sidecar) {
        Ok(missing) => missing,
        Err(_) => Vec::new(),
    };
    proof {
        if let Some(m) = known(r.holding_path(file_id, ".parmanifest"@), *sidecar) {
            assert forall|k: int| 0 <= k < missing@.len() implies (#[trigger] missing@[k]).0
                + missing@[k].1 <= u32::MAX by {
                let n = m.num_chunks as int;
                assert(is_missing_run(m, missing@[k].0 as int, missing@[k].0 + missing@[k].1, n));
            }
        }
    }
    Gaps { file_id, named, missing }
}

/// One request that a pass may make.
#[derive(Debug, Clone, Copy, PartialEq, Eq, Structural)]
pub struct Planned {
    pub file_id: i64,
    pub range: RequestedRange,
    pub kind: RequestType,
}

impl Planned {
    /// What tells the request apart in the dedup table.
    pub open spec fn key(self) -> Key {
        Key { file_id: self.file_id, kind: kind_of(self.kind), range: self.range }
    }
}

/// The requests for runs of chunks.
pub open spec fn retransmits(file_id: i64, runs: Seq<RequestedRange>) -> Seq<Planned> {
    runs.map_values(
        |range: RequestedRange| Planned { file_id, range, kind: RequestType::Retransmit },
    )
}

/// The requests for missing ranges, in order: for what is not taken of each.
pub open spec fn range_requests(
    taken: Seq<RequestedRange>,
    file_id: i64,
    missing: Seq<(u32, u32)>,
) -> Seq<Planned>
    decreases missing.len(),
{
    if missing.len() == 0 {
        seq![]
    } else {
        let m = missing.last();
        range_requests(taken, file_id, missing.drop_last()) + retransmits(
            file_id,
            runs_outside(taken, m.0 as int, m.0 + m.1),
        )
    }
}

/// The request for a name.
pub open spec fn name_request(file_id: i64) -> Planned {
    Planned {
        file_id,
        range: RequestedRange { start: 0, count: 0 },
        kind: RequestType::ResendName,
    }
}

/// The requests for what is missing of an assembly: first the name, unless it is known or the
/// sender has it queued, then what it does not have queued of the ranges.
pub open spec fn requests_of(status: Option<SenderStatus>, g: Gaps) -> Seq<Planned> {
    let p = name_request(g.file_id);
    let name = if g.named || already_pending(status, p.file_id, p.range, p.kind) {
        seq![]
    } else {
        seq![p]
    };
    name + range_requests(queued_of(pending_of(status), g.file_id), g.file_id, g.missing@)
}

/// The requests for what is missing, assembly by assembly.
pub open spec fn plan_of(gaps: Seq<Gaps>, status: Option<SenderStatus>) -> Seq<Planned>
    decreases gaps.len(),
{
    if gaps.len() == 0 {
        seq![]
    } else {
        plan_of(gaps.drop_last(), status) + requests_of(status, gaps.last())
    }
}

/// Whether every missing range ends where a chunk index can still stand.
pub open spec fn gaps_fit(gaps: Seq<Gaps>) -> bool {
    forall|i: int, k: int|
        0 <= i < gaps.len() && 0 <= k < gaps[i].missing@.len() ==> (
        #[trigger] gaps[i].missing@[k]).0 + gaps[i].missing@[k].1 <= u32::MAX
}

/// The requests for what is missing and, as far as the sender has told, not queued already.
pub fn plan(gaps: &Vec<Gaps>, status: &Option<SenderStatus>) -> (planned: Vec<Planned>)
    requires
        gaps_fit(gaps@),
    ensures
        planned@ == plan_of(gaps@, *status),
        plan_fits(planned@, u32::MAX),
{
    let mut planned: Vec<Planned> = Vec::new();
    let mut i: usize = 0;
    assert(gaps@.take(0) =~= Seq::empty());
    while i < gaps.len()
        invariant
            i <= gaps@.len(),
            gaps_fit(gaps@),
            planned@ == plan_of(gaps@.take(i as int), *status),
        decreases gaps@.len() - i,
    {
        let g = &gaps[i];
        let ghost before = planned@;
        assert(gaps@.take(i + 1).drop_last() =~= gaps@.take(i as int));
        let none = RequestedRange { start: 0, count: 0 };
        if !g.named && !is_already_pending(status, g.file_id, none, RequestType::ResendName) {
            planned.push(
                Planned { file_id: g.file_id, range: none, kind: RequestType::ResendName },
            );
        }
        let ghost named = planned@;
        let queued = queued_ranges(status, g.file_id);
        let mut k: usize = 0;
        assert(g.missing@.take(0) =~= Seq::empty());
        assert(planned@ =~= named + range_requests(queued@, g.file_id, g.missing@.take(0)));
        while k < g.missing.len()
            invariant
                k <= g.missing@.len(),
                i < gaps@.len(),
                *g == gaps@[i as int],
                gaps_fit(gaps@),
                planned@ == named + range_requests(queued@, g.file_id, g.missing@.take(k as int)),
            decreases g.missing@.len() - k,
        {
            let (start, count) = g.missing[k];
            assert(gaps@[i as int].missing@[k as int] == (start, count));
            let runs = left_of(RequestedRange { start, count }, &queued);
            push_retransmits(&mut planned, g.file_id, &runs);
            proof {
                let upto = g.missing@.take(k + 1);
                assert(upto.drop_last() =~= g.missing@.take(k as int));
                assert(planned@ =~= named + range_requests(queued@, g.file_id, upto));
            }
            k += 1;
        }
        assert(g.missing@.take(g.missing@.len() as int) =~= g.missing@);
        assert(planned@ =~= before + requests_of(*status, *g));
        i += 1;
    }
    proof {
        assert(gaps@.take(gaps@.len() as int) =~= gaps@);
        lemma_plan_fits(gaps@, *status);
    }
    planned
}

/// Adds the requests for runs of chunks.
fn push_retransmits(planned: &mut Vec<Planned>, file_id: i64, runs: &Vec<RequestedRange>)
    ensures
        final(planned)@ == old(planned)@ + retransmits(file_id, runs@),
{
    let mut k: usize = 0;
    assert(planned@ =~= old(planned)@ + retransmits(file_id, runs@).take(0));
    while k < runs.len()
        invariant
            k <= runs@.len(),
            planned@ == old(planned)@ + retransmits(file_id, runs@).take(k as int),
        decreases runs@.len() - k,
    {
        planned.push(Planned { file_id, range: runs[k], kind: RequestType::Retransmit });
        k += 1;
        assert(planned@ =~= old(planned)@ + retransmits(file_id, runs@).take(k as int));
    }
    assert(retransmits(file_id, runs@).take(k as int) =~= retransmits(file_id, runs@));
}

/// Whether a list of requests asks for a chunk of a file.
pub open spec fn asks_for(planned: Seq<Planned>, file_id: i64, chunk: int) -> bool {
    exists|k: int|
        0 <= k < planned.len() && (#[trigger] planned[k]).kind is Retransmit && planned[k].file_id
            == file_id && planned[k].range.has(chunk)
}

/// Whether a chunk of a file is missing.
pub open spec fn lacks(gaps: Seq<Gaps>, file_id: i64, chunk: int) -> bool {
    exists|i: int, k: int|
        0 <= i < gaps.len() && gaps[i].file_id == file_id && 0 <= k < gaps[i].missing@.len() && (
        #[trigger] gaps[i].missing@[k]).0 <= chunk < gaps[i].missing@[k].0 + gaps[i].missing@[k].1
}

/// Two lists of requests ask for what each of them does.
proof fn lemma_asks_concat(a: Seq<Planned>, b: Seq<Planned>, file_id: i64, chunk: int)
    ensures
        asks_for(a + b, file_id, chunk) == (asks_for(a, file_id, chunk) || asks_for(
            b,
            file_id,
            chunk,
        )),
{
    let all = a + b;
    if asks_for(a, file_id, chunk) {
        let k = choose|k: int|
            0 <= k < a.len() && (#[trigger] a[k]).kind is Retransmit && a[k].file_id == file_id
                && a[k].range.has(chunk);
        assert(all[k] == a[k]);
    }
    if asks_for(b, file_id, chunk) {
        let k = choose|k: int|
            0 <= k < b.len() && (#[trigger] b[k]).kind is Retransmit && b[k].file_id == file_id
                && b[k].range.has(chunk);
        assert(all[a.len() + k] == b[k]);
    }
    if asks_for(all, file_id, chunk) {
        let k = choose|k: int|
            0 <= k < all.len() && (#[trigger] all[k]).kind is Retransmit && all[k].file_id
                == file_id && all[k].range.has(chunk);
        if k < a.len() {
            assert(a[k] == all[k]);
        } else {
            assert(b[k - a.len()] == all[k]);
        }
    }
}

/// The requests for runs of chunks ask for exactly those.
proof fn lemma_asks_runs(id: i64, runs: Seq<RequestedRange>, file_id: i64, chunk: int)
    ensures
        asks_for(retransmits(id, runs), file_id, chunk) == (id == file_id && covered(runs, chunk)),
{
    let all = retransmits(id, runs);
    if asks_for(all, file_id, chunk) {
        let k = choose|k: int|
            0 <= k < all.len() && (#[trigger] all[k]).kind is Retransmit && all[k].file_id
                == file_id && all[k].range.has(chunk);
        assert(runs[k].has(chunk));
    }
    if id == file_id && covered(runs, chunk) {
        let k = choose|k: int| 0 <= k < runs.len() && (#[trigger] runs[k]).has(chunk);
        assert(all[k].range.has(chunk));
    }
}

/// The requests for missing ranges of a file ask for each chunk of them that is not taken.
proof fn lemma_asks_ranges(
    taken: Seq<RequestedRange>,
    id: i64,
    missing: Seq<(u32, u32)>,
    file_id: i64,
    chunk: int,
)
    requires
        forall|k: int|
            0 <= k < missing.len() ==> (#[trigger] missing[k]).0 + missing[k].1 <= u32::MAX,
    ensures
        asks_for(range_requests(taken, id, missing), file_id, chunk) <==> id == file_id && !covered(
            taken,
            chunk,
        ) && exists|k: int|
            0 <= k < missing.len() && (#[trigger] missing[k]).0 <= chunk < missing[k].0
                + missing[k].1,
    decreases missing.len(),
{
    if missing.len() > 0 {
        let rest = missing.drop_last();
        let m = missing.last();
        assert(forall|k: int| 0 <= k < rest.len() ==> rest[k] == missing[k]);
        lemma_asks_ranges(taken, id, rest, file_id, chunk);
        let runs = runs_outside(taken, m.0 as int, m.0 + m.1);
        assert(missing[missing.len() - 1] == m);
        law_runs_outside(taken, m.0 as int, m.0 + m.1);
        lemma_asks_concat(range_requests(taken, id, rest), retransmits(id, runs), file_id, chunk);
        lemma_asks_runs(id, runs, file_id, chunk);
        assert(covered(runs, chunk) <==> m.0 <= chunk < m.0 + m.1 && !covered(taken, chunk));
        if exists|k: int|
            0 <= k < rest.len() && (#[trigger] rest[k]).0 <= chunk < rest[k].0 + rest[k].1 {
            let k = choose|k: int|
                0 <= k < rest.len() && (#[trigger] rest[k]).0 <= chunk < rest[k].0 + rest[k].1;
            assert(missing[k].0 <= chunk);
        }
        if exists|k: int|
            0 <= k < missing.len() && (#[trigger] missing[k]).0 <= chunk < missing[k].0
                + missing[k].1 {
            let k = choose|k: int|
                0 <= k < missing.len() && (#[trigger] missing[k]).0 <= chunk < missing[k].0
                    + missing[k].1;
            if k < rest.len() {
                assert(rest[k].0 <= chunk);
            }
        }
    }
}

/// A pass plans to ask for exactly what is missing and not pending: a chunk is in the plan if and
/// only if it is missing and the sender does not show it as queued.
pub proof fn law_plan_is_exact(
    gaps: Seq<Gaps>,
    status: Option<SenderStatus>,
    file_id: i64,
    chunk: int,
)
    requires
        gaps_fit(gaps),
    ensures
        asks_for(plan_of(gaps, status), file_id, chunk) <==> lacks(gaps, file_id, chunk)
            && !shown_pending(pending_of(status), file_id, chunk),
    decreases gaps.len(),
{
    if gaps.len() > 0 {
        let rest = gaps.drop_last();
        let g = gaps.last();
        let last = gaps.len() - 1;
        assert forall|i: int, k: int|
            0 <= i < rest.len() && 0 <= k < rest[i].missing@.len() implies (
        #[trigger] rest[i].missing@[k]).0 + rest[i].missing@[k].1 <= u32::MAX by {
            assert(gaps[i].missing@[k] == rest[i].missing@[k]);
        }
        law_plan_is_exact(rest, status, file_id, chunk);
        let p = name_request(g.file_id);
        let name = if g.named || already_pending(status, p.file_id, p.range, p.kind) {
            seq![]
        } else {
            seq![p]
        };
        let queued = queued_of(pending_of(status), g.file_id);
        let ranges = range_requests(queued, g.file_id, g.missing@);
        lemma_queued(pending_of(status), g.file_id, chunk);
        assert forall|k: int| 0 <= k < g.missing@.len() implies (#[trigger] g.missing@[k]).0
            + g.missing@[k].1 <= u32::MAX by {
            assert(gaps[last].missing@[k] == g.missing@[k]);
        }
        lemma_asks_ranges(queued, g.file_id, g.missing@, file_id, chunk);
        lemma_asks_concat(plan_of(rest, status), name + ranges, file_id, chunk);
        lemma_asks_concat(name, ranges, file_id, chunk);
        assert(!asks_for(name, file_id, chunk));
        if lacks(rest, file_id, chunk) {
            let (i, k) = choose|i: int, k: int|
                0 <= i < rest.len() && rest[i].file_id == file_id && 0 <= k
                    < rest[i].missing@.len() && (#[trigger] rest[i].missing@[k]).0 <= chunk
                    < rest[i].missing@[k].0 + rest[i].missing@[k].1;
            assert(gaps[i].missing@[k].0 <= chunk);
        }
        if g.file_id == file_id && exists|k: int|
            0 <= k < g.missing@.len() && (#[trigger] g.missing@[k]).0 <= chunk < g.missing@[k].0
                + g.missing@[k].1 {
            let k = choose|k: int|
                0 <= k < g.missing@.len() && (#[trigger] g.missing@[k]).0 <= chunk
                    < g.missing@[k].0 + g.missing@[k].1;
            assert(gaps[last].missing@[k].0 <= chunk);
        }
        if lacks(gaps, file_id, chunk) {
            let (i, k) = choose|i: int, k: int|
                0 <= i < gaps.len() && gaps[i].file_id == file_id && 0 <= k
                    < gaps[i].missing@.len() && (#[trigger] gaps[i].missing@[k]).0 <= chunk
                    < gaps[i].missing@[k].0 + gaps[i].missing@[k].1;
            if i < last {
                assert(rest[i].missing@[k].0 <= chunk);
            } else {
                assert(g.missing@[k].0 <= chunk);
            }
        }
    }
}

/// What is asked for of an assembly is what its manifest lacks, less what is pending: with gaps
/// taken from the manifest, a chunk is in the plan if and only if the file has it, it has not
/// arrived, and the sender does not show it as queued.
pub proof fn law_plan_asks_for_what_has_not_arrived(
    m: ManifestView,
    gaps: Seq<Gaps>,
    status: Option<SenderStatus>,
    file_id: i64,
    chunk: int,
)
    requires
        gaps_fit(gaps),
        exists|i: int| 0 <= i < gaps.len() && (#[trigger] gaps[i]).file_id == file_id,
        forall|i: int|
            0 <= i < gaps.len() && (#[trigger] gaps[i]).file_id == file_id ==> missing_runs(
                m,
                gaps[i].missing@,
                m.num_chunks as int,
            ),
    ensures
        asks_for(plan_of(gaps, status), file_id, chunk) <==> 0 <= chunk < m.num_chunks && !m.has(
            chunk,
        ) && !shown_pending(pending_of(status), file_id, chunk),
{
    law_plan_is_exact(gaps, status, file_id, chunk);
    let i = choose|i: int| 0 <= i < gaps.len() && (#[trigger] gaps[i]).file_id == file_id;
    law_gaps_are_exact(m, gaps[i].missing@, chunk);
    if 0 <= chunk < m.num_chunks && !m.has(chunk) {
        let k = choose|k: int|
            0 <= k < gaps[i].missing@.len() && (#[trigger] gaps[i].missing@[k]).0 <= chunk
                < gaps[i].missing@[k].0 + gaps[i].missing@[k].1;
        assert(gaps[i].missing@[k].0 <= chunk);
    }
    if lacks(gaps, file_id, chunk) {
        let (j, k) = choose|j: int, k: int|
            0 <= j < gaps.len() && gaps[j].file_id == file_id && 0 <= k < gaps[j].missing@.len()
                && (#[trigger] gaps[j].missing@[k]).0 <= chunk < gaps[j].missing@[k].0
                + gaps[j].missing@[k].1;
        law_gaps_are_exact(m, gaps[j].missing@, chunk);
        assert(gaps[j].missing@[k].0 <= chunk);
    }
}

/// The budget of the active link.
pub fn active_budget(cfg: &Config) -> (r: Result<LinkBudget, String>)
    ensures
        match r {
            Ok(b) => has_name(cfg.cleaner.links@, cfg.cleaner.active_link@) && b == value_at(
                cfg.cleaner.links@,
                cfg.cleaner.active_link@,
            ),
            Err(why) => !has_name(cfg.cleaner.links@, cfg.cleaner.active_link@) && why@
                == "no link budget for `"@ + cfg.cleaner.active_link@ + "`"@,
        },
{
    match cfg.cleaner.links.get(cfg.cleaner.active_link.as_str()) {
        Some(b) => Ok(*b),
        None => {
            let mut why = "no link budget for `".to_owned();
            why.append(cfg.cleaner.active_link.as_str());
            why.append("`");
            Err(why)
        },
    }
}

/// A chunk index as the control message carries it: the same bit pattern, signed.
pub open spec fn signed_start(start: u32) -> i32 {
    if start < 0x8000_0000 {
        start as i32
    } else {
        (start - 0x1_0000_0000) as i32
    }
}

/// The control message that makes a request. Retransmits go to the head of the sender's queue.
pub fn request_for(p: Planned) -> (req: Request)
    ensures
        req == match p.kind {
            RequestType::ResendName => Request::SenderResendName { file_id: p.file_id },
            RequestType::Retransmit => Request::SenderEnqueue {
                file_id: p.file_id,
                start: signed_start(p.range.start),
                count: p.range.count,
                interrupt: true,
            },
        },
{
    match p.kind {
        RequestType::ResendName => Request::SenderResendName { file_id: p.file_id },
        RequestType::Retransmit => {
            let start: i32 = if p.range.start < 0x8000_0000 {
                p.range.start as i32
            } else {
                -((u32::MAX - p.range.start) as i32) - 1
            };
            Request::SenderEnqueue {
                file_id: p.file_id,
                start,
                count: p.range.count,
                interrupt: true,
            }
        },
    }
}

/// Every request for missing ranges lies in one of them and is not empty.
proof fn lemma_planned_range(
    taken: Seq<RequestedRange>,
    file_id: i64,
    missing: Seq<(u32, u32)>,
    total: u32,
    k: int,
)
    requires
        forall|i: int| 0 <= i < missing.len() ==> (#[trigger] missing[i]).0 + missing[i].1 <= total,
        0 <= k < range_requests(taken, file_id, missing).len(),
    ensures
        ({
            let p = range_requests(taken, file_id, missing)[k];
            &&& p.file_id == file_id && p.kind is Retransmit
            &&& p.range.count >= 1
            &&& p.range.start + p.range.count <= total
        }),
    decreases missing.len(),
{
    let rest = missing.drop_last();
    let m = missing.last();
    let first = range_requests(taken, file_id, rest);
    assert(missing[missing.len() - 1] == m);
    assert(forall|i: int| 0 <= i < rest.len() ==> rest[i] == missing[i]);
    if k < first.len() {
        lemma_planned_range(taken, file_id, rest, total, k);
    } else {
        law_runs_outside(taken, m.0 as int, m.0 + m.1);
        let runs = runs_outside(taken, m.0 as int, m.0 + m.1);
        assert(runs[k - first.len()].count >= 1);
    }
}

/// Whether a request, if it is for chunks, asks for some, and all of them below a bound.
pub open spec fn fits_below(p: Planned, total: u32) -> bool {
    p.kind is Retransmit ==> p.range.count >= 1 && p.range.start + p.range.count <= total
}

/// Whether every request for chunks asks for some, and all of them below a bound.
pub open spec fn plan_fits(planned: Seq<Planned>, total: u32) -> bool {
    forall|k: int| 0 <= k < planned.len() ==> fits_below(#[trigger] planned[k], total)
}

/// What is planned for an assembly asks for chunks that the file has.
proof fn lemma_requests_fit(status: Option<SenderStatus>, g: Gaps, total: u32)
    requires
        forall|i: int|
            0 <= i < g.missing@.len() ==> (#[trigger] g.missing@[i]).0 + g.missing@[i].1 <= total,
    ensures
        plan_fits(requests_of(status, g), total),
{
    let all = requests_of(status, g);
    let queued = queued_of(pending_of(status), g.file_id);
    let ranges = range_requests(queued, g.file_id, g.missing@);
    let n = all.len() - ranges.len();
    assert forall|k: int| 0 <= k < all.len() implies fits_below(#[trigger] all[k], total) by {
        if k >= n {
            assert(all[k] == ranges[k - n]);
            lemma_planned_range(queued, g.file_id, g.missing@, total, k - n);
        }
    }
}

/// What is planned asks for chunks that an index can name.
proof fn lemma_plan_fits(gaps: Seq<Gaps>, status: Option<SenderStatus>)
    requires
        gaps_fit(gaps),
    ensures
        plan_fits(plan_of(gaps, status), u32::MAX),
    decreases gaps.len(),
{
    if gaps.len() > 0 {
        let rest = gaps.drop_last();
        let g = gaps.last();
        assert forall|i: int, k: int|
            0 <= i < rest.len() && 0 <= k < rest[i].missing@.len() implies (
        #[trigger] rest[i].missing@[k]).0 + rest[i].missing@[k].1 <= u32::MAX by {
            assert(gaps[i].missing@[k] == rest[i].missing@[k]);
        }
        lemma_plan_fits(rest, status);
        assert forall|i: int| 0 <= i < g.missing@.len() implies (#[trigger] g.missing@[i]).0
            + g.missing@[i].1 <= u32::MAX by {
            assert(gaps[gaps.len() - 1].missing@[i] == g.missing@[i]);
        }
        lemma_requests_fit(status, g, u32::MAX);
        let a = plan_of(rest, status);
        let b = requests_of(status, g);
        let all = a + b;
        assert forall|k: int| 0 <= k < all.len() implies fits_below(
            #[trigger] all[k],
            u32::MAX,
        ) by {
            if k < a.len() {
                assert(all[k] == a[k]);
            } else {
                assert(all[k] == b[k - a.len()]);
            }
        }
    }
}

/// What is left of a plan once the chunks that were asked for lately are taken away. A request for
/// a name stays.
pub open spec fn unasked_of(planned: Seq<Planned>, entries: Seq<Entry>, now: int) -> Seq<Planned>
    decreases planned.len(),
{
    if planned.len() == 0 {
        seq![]
    } else {
        let p = planned.last();
        unasked_of(planned.drop_last(), entries, now) + match p.kind {
            RequestType::ResendName => seq![p],
            RequestType::Retransmit => retransmits(
                p.file_id,
                runs_outside(
                    asked_of(entries, p.file_id, now),
                    p.range.start as int,
                    p.range.start + p.range.count,
                ),
            ),
        }
    }
}

/// What is left of a plan once the chunks that were asked for lately are taken away.
pub fn unasked(planned: &Vec<Planned>, table: &DedupTable, now: u64) -> (left: Vec<Planned>)
    requires
        plan_fits(planned@, u32::MAX),
    ensures
        left@ == unasked_of(planned@, table.list(), now as int),
{
    let mut left: Vec<Planned> = Vec::new();
    let mut i: usize = 0;
    assert(planned@.take(0) =~= Seq::empty());
    while i < planned.len()
        invariant
            i <= planned@.len(),
            plan_fits(planned@, u32::MAX),
            left@ == unasked_of(planned@.take(i as int), table.list(), now as int),
        decreases planned@.len() - i,
    {
        let p = planned[i];
        let ghost before = left@;
        assert(planned@.take(i + 1).drop_last() =~= planned@.take(i as int));
        match p.kind {
            RequestType::ResendName => {
                left.push(p);
                assert(left@ =~= before + seq![p]);
            },
            RequestType::Retransmit => {
                let asked = table.asked_ranges(p.file_id, now);
                let runs = left_of(p.range, &asked);
                push_retransmits(&mut left, p.file_id, &runs);
            },
        }
        i += 1;
    }
    assert(planned@.take(planned@.len() as int) =~= planned@);
    left
}

/// A chunk is asked for only where it has not been asked for lately: what is left of a plan asks
/// for a chunk if and only if the plan does and no request for it is outstanding.
pub proof fn law_unasked_is_exact(
    planned: Seq<Planned>,
    entries: Seq<Entry>,
    now: int,
    file_id: i64,
    chunk: int,
)
    requires
        plan_fits(planned, u32::MAX),
    ensures
        asks_for(unasked_of(planned, entries, now), file_id, chunk) <==> asks_for(
            planned,
            file_id,
            chunk,
        ) && !asked_lately(entries, file_id, chunk, now),
    decreases planned.len(),
{
    if planned.len() > 0 {
        let rest = planned.drop_last();
        let p = planned.last();
        assert(planned[planned.len() - 1] == p);
        assert forall|k: int| 0 <= k < rest.len() implies fits_below(
            #[trigger] rest[k],
            u32::MAX,
        ) by {
            assert(planned[k] == rest[k]);
        }
        law_unasked_is_exact(rest, entries, now, file_id, chunk);
        assert(planned =~= rest + seq![p]);
        lemma_asks_concat(rest, seq![p], file_id, chunk);
        let before = unasked_of(rest, entries, now);
        match p.kind {
            RequestType::ResendName => {
                lemma_asks_concat(before, seq![p], file_id, chunk);
                assert(!asks_for(seq![p], file_id, chunk));
            },
            RequestType::Retransmit => {
                let asked = asked_of(entries, p.file_id, now);
                let hi = p.range.start + p.range.count;
                let runs = runs_outside(asked, p.range.start as int, hi);
                law_runs_outside(asked, p.range.start as int, hi);
                lemma_asked(entries, p.file_id, chunk, now);
                lemma_asks_concat(before, retransmits(p.file_id, runs), file_id, chunk);
                lemma_asks_runs(p.file_id, runs, file_id, chunk);
                assert(covered(runs, chunk) <==> p.range.has(chunk) && !covered(asked, chunk));
                assert(asks_for(seq![p], file_id, chunk) <==> p.file_id == file_id && p.range.has(
                    chunk,
                )) by {
                    assert(seq![p][0] == p);
                }
            },
        }
    }
}

/// What a pass asks for: exactly the chunks that are missing, that the sender does not show as
/// queued, and that were not asked for lately.
pub proof fn law_pass_asks_for_the_rest(
    gaps: Seq<Gaps>,
    status: Option<SenderStatus>,
    entries: Seq<Entry>,
    now: int,
    file_id: i64,
    chunk: int,
)
    requires
        gaps_fit(gaps),
    ensures
        asks_for(unasked_of(plan_of(gaps, status), entries, now), file_id, chunk) <==> lacks(
            gaps,
            file_id,
            chunk,
        ) && !shown_pending(pending_of(status), file_id, chunk) && !asked_lately(
            entries,
            file_id,
            chunk,
            now,
        ),
{
    law_plan_is_exact(gaps, status, file_id, chunk);
    lemma_plan_fits(gaps, status);
    law_unasked_is_exact(plan_of(gaps, status), entries, now, file_id, chunk);
}

/// As long as a request is outstanding, none of its chunks is asked for again, in whatever ranges
/// they are missing by then and whether or not the sender can be reached.
pub proof fn law_outstanding_chunk_is_not_asked_again(
    planned: Seq<Planned>,
    entries: Seq<Entry>,
    key: Key,
    now: int,
    chunk: int,
)
    requires
        plan_fits(planned, u32::MAX),
        live(entries, key, now),
        key.kind is Retransmit,
        key.range.has(chunk),
    ensures
        !asks_for(unasked_of(planned, entries, now), key.file_id, chunk),
{
    let i = choose|i: int|
        0 <= i < entries.len() && #[trigger] entries[i].key() == key && entries[i].expiry > now;
    assert(entries[i].range.has(chunk));
    law_unasked_is_exact(planned, entries, now, key.file_id, chunk);
}

/// What is left of a plan still asks for chunks below the bound.
proof fn lemma_unasked_fits(planned: Seq<Planned>, entries: Seq<Entry>, now: int, total: u32)
    requires
        plan_fits(planned, total),
    ensures
        plan_fits(unasked_of(planned, entries, now), total),
    decreases planned.len(),
{
    if planned.len() > 0 {
        let rest = planned.drop_last();
        let p = planned.last();
        assert(planned[planned.len() - 1] == p);
        assert forall|k: int| 0 <= k < rest.len() implies fits_below(#[trigger] rest[k], total) by {
            assert(planned[k] == rest[k]);
        }
        lemma_unasked_fits(rest, entries, now, total);
        let before = unasked_of(rest, entries, now);
        let all = unasked_of(planned, entries, now);
        let asked = asked_of(entries, p.file_id, now);
        if p.kind is Retransmit {
            law_runs_outside(asked, p.range.start as int, p.range.start + p.range.count);
        }
        let runs = runs_outside(asked, p.range.start as int, p.range.start + p.range.count);
        assert forall|k: int| 0 <= k < all.len() implies fits_below(#[trigger] all[k], total) by {
            if k < before.len() {
                assert(all[k] == before[k]);
            } else if p.kind is Retransmit {
                assert(all[k].range == runs[k - before.len()]);
            }
        }
    }
}

/// A request for chunks is queued by the sender as it was made, chunk for chunk, provided that both
/// cut the file alike and that the index of the first chunk fits the message's signed field.
pub proof fn law_request_is_queued_as_asked(
    m: ManifestView,
    g: Gaps,
    status: Option<SenderStatus>,
    entries: Seq<Entry>,
    now: int,
    k: int,
)
    requires
        missing_runs(m, g.missing@, m.num_chunks as int),
        0 <= k < unasked_of(requests_of(status, g), entries, now).len(),
        unasked_of(requests_of(status, g), entries, now)[k].kind is Retransmit,
        unasked_of(requests_of(status, g), entries, now)[k].range.start < 0x8000_0000,
    ensures
        ({
            let range = unasked_of(requests_of(status, g), entries, now)[k].range;
            &&& 0 <= signed_start(range.start) < m.num_chunks
            &&& clamped(signed_start(range.start) as u32, range.count, m.num_chunks) == range
        }),
{
    assert forall|i: int| 0 <= i < g.missing@.len() implies (#[trigger] g.missing@[i]).0
        + g.missing@[i].1 <= m.num_chunks by {
        assert(is_missing_run(
            m,
            g.missing@[i].0 as int,
            g.missing@[i].0 + g.missing@[i].1,
            m.num_chunks as int,
        ));
    }
    lemma_requests_fit(status, g, m.num_chunks);
    lemma_unasked_fits(requests_of(status, g), entries, now, m.num_chunks);
}

/// A pass under way.
#[derive(Debug)]
pub struct Pass {
    planned: Vec<Planned>,
    next: usize,
    budget: LinkBudget,
    sent: u32,
    /// When the last request was sent, [`PASS_HEAD_START_NANOS`] later.
    last_send: u128,
}

/// A pass as a mathematical value.
#[verifier::ext_equal]
pub struct PassView {
    /// The requests that have not been considered yet.
    pub left: Seq<Planned>,
    pub budget: LinkBudget,
    /// How many requests have been sent.
    pub sent: u32,
    pub last_send: int,
}

impl View for Pass {
    type V = PassView;

    closed spec fn view(&self) -> PassView {
        PassView {
            left: self.planned@.skip(self.next as int),
            budget: self.budget,
            sent: self.sent,
            last_send: self.last_send - PASS_HEAD_START_NANOS,
        }
    }
}

/// Whether a request is held back: it was made lately.
pub open spec fn held_back(p: Planned, entries: Seq<Entry>, now: int) -> bool {
    live(entries, p.key(), now)
}

/// How long to wait until a request may be sent: until the budget's period has passed since the
/// last one.
pub open spec fn wait_until(last_send: int, min_period_ms: u64, now: int) -> int {
    let since = if now <= last_send {
        0
    } else {
        now - last_send
    };
    if since < min_period_ms * 1_000_000 {
        min_period_ms * 1_000_000 - since
    } else {
        0
    }
}

impl Pass {
    /// The position lies within the list.
    #[verifier::type_invariant]
    closed spec fn in_bounds(self) -> bool {
        self.next <= self.planned@.len()
    }

    /// Begin a pass at a time.
    pub fn new(planned: Vec<Planned>, budget: LinkBudget, now: u64) -> (pass: Pass)
        ensures
            pass@ == (PassView {
                left: planned@,
                budget,
                sent: 0,
                last_send: now - PASS_HEAD_START_NANOS,
            }),
    {
        let pass = Pass { planned, next: 0, budget, sent: 0, last_send: now as u128 };
        assert(pass@.left =~= planned@);
        pass
    }

    /// The next request to make, and how many nanoseconds to wait before it is sent; none once
    /// the budget is used up or nothing is left. Requests that are held back are passed over. The
    /// request is entered into the dedup table.
    pub fn next_request(&mut self, table: &mut DedupTable, now: u64) -> (r: Option<
        (Planned, u128),
    >)
        ensures
            final(self)@.budget == old(self)@.budget,
            final(self)@.sent == old(self)@.sent,
            final(self)@.last_send == old(self)@.last_send,
            final(table).ttl() == old(table).ttl(),
            distinct(old(table).list()) ==> distinct(final(table).list()),
            match r {
                None => {
                    &&& final(table).list() == old(table).list()
                    &&& if old(self)@.sent >= old(self)@.budget.max_in_flight {
                        final(self)@.left == old(self)@.left
                    } else {
                        &&& final(self)@.left.len() == 0
                        &&& forall|k: int|
                            #![trigger old(self)@.left[k]]
                            0 <= k < old(self)@.left.len() ==> held_back(
                                old(self)@.left[k],
                                old(table).list(),
                                now as int,
                            )
                    }
                },
                Some((p, wait)) => {
                    &&& old(self)@.sent < old(self)@.budget.max_in_flight
                    &&& !held_back(p, old(table).list(), now as int)
                    &&& exists|k: int|
                        #![trigger old(self)@.left[k]]
                        {
                            &&& 0 <= k < old(self)@.left.len()
                            &&& p == old(self)@.left[k]
                            &&& final(self)@.left == old(self)@.left.skip(k + 1)
                            &&& forall|j: int|
                                #![trigger old(self)@.left[j]]
                                0 <= j < k ==> held_back(
                                    old(self)@.left[j],
                                    old(table).list(),
                                    now as int,
                                )
                        }
                    &&& final(table).list() == with_entry(
                        old(table).list(),
                        Entry {
                            file_id: p.file_id,
                            kind: kind_of(p.kind),
                            range: p.range,
                            expiry: (now + nanos(old(table).ttl() as int)) as u128,
                        },
                    )
                    &&& wait == wait_until(
                        old(self)@.last_send,
                        old(self)@.budget.min_period_ms,
                        now as int,
                    )
                },
            },
    {
        proof {
            use_type_invariant(&*self);
        }
        if self.sent >= self.budget.max_in_flight {
            return None;
        }
        let ghost first = self.next as int;
        let ghost left = self@.left;
        while self.next < self.planned.len()
            invariant
                first <= self.next <= self.planned@.len(),
                self.planned@ == old(self).planned@,
                self.budget == old(self).budget,
                self.sent == old(self).sent,
                self.last_send == old(self).last_send,
                first == old(self).next,
                left == old(self)@.left,
                old(self)@.sent < old(self)@.budget.max_in_flight,
                table.list() == old(table).list(),
                table.ttl() == old(table).ttl(),
                forall|j: int|
                    0 <= j < self.next - first ==> held_back(
                        #[trigger] left[j],
                        old(table).list(),
                        now as int,
                    ),
            decreases self.planned@.len() - self.next,
        {
            let p = self.planned[self.next];
            let ghost k = self.next - first;
            assert(p == left[k]);
            self.next = self.next + 1;
            if !table.try_insert(p.file_id, p.range, p.kind, now) {
                continue;
            }
            let shifted: u128 = now as u128 + PASS_HEAD_START_NANOS as u128;
            let since: u128 = if shifted <= self.last_send {
                0
            } else {
                shifted - self.last_send
            };
            let min: u128 = self.budget.min_period_ms as u128 * 1_000_000;
            let wait: u128 = if since < min { min - since } else { 0 };
            assert(self@.left =~= left.skip(k + 1));
            assert(distinct(table.list()));
            return Some((p, wait));
        }
        None
    }

    /// Take note that a request is being sent now. It counts against the budget whatever becomes
    /// of it.
    pub fn sending(&mut self, now: u64)
        requires
            old(self)@.sent < old(self)@.budget.max_in_flight,
        ensures
            final(self)@ == (PassView {
                last_send: now as int,
                sent: (old(self)@.sent + 1) as u32,
                ..old(self)@
            }),
    {
        proof {
            use_type_invariant(&*self);
        }
        self.last_send = now as u128 + PASS_HEAD_START_NANOS as u128;
        self.sent = self.sent + 1;
    }
}

/// Whoever waits as long as a pass says keeps consecutive requests at least the budget's period
/// apart.
pub proof fn law_requests_are_spaced(last_send: int, min_period_ms: u64, now: int)
    requires
        last_send <= now,
    ensures
        now + wait_until(last_send, min_period_ms, now) - last_send >= min_period_ms * 1_000_000,
        wait_until(last_send, min_period_ms, now) >= 0,
{
}

/// A request that a pass sent: when it was decided on, and when it was sent.
pub struct Sending {
    pub decided: int,
    pub sent: int,
}

/// Whether a pass goes from one state to the next by deciding on a request: neither the budget nor
/// what has been sent changes.
pub open spec fn decides(a: PassView, b: PassView) -> bool {
    b.budget == a.budget && b.sent == a.sent && b.last_send == a.last_send
}

/// Whether a pass goes from one state to the next by sending a request within its budget, after
/// waiting as long as it was told to.
pub open spec fn sends(a: PassView, b: PassView, s: Sending) -> bool {
    &&& a.sent < a.budget.max_in_flight
    &&& a.last_send <= s.decided
    &&& s.sent >= s.decided + wait_until(a.last_send, a.budget.min_period_ms, s.decided)
    &&& b == (PassView { last_send: s.sent, sent: (a.sent + 1) as u32, ..a })
}

/// The states of a pass and what led from each to the next: a decision, or a request that was sent.
pub open spec fn is_run(states: Seq<PassView>, steps: Seq<Option<Sending>>) -> bool {
    &&& states.len() == steps.len() + 1
    &&& forall|k: int|
        0 <= k < steps.len() ==> match #[trigger] steps[k] {
            None => decides(states[k], states[k + 1]),
            Some(s) => sends(states[k], states[k + 1], s),
        }
}

/// How many requests were sent.
pub open spec fn sendings(steps: Seq<Option<Sending>>) -> nat
    decreases steps.len(),
{
    if steps.len() == 0 {
        0
    } else {
        sendings(steps.drop_last()) + if steps.last() is Some {
            1nat
        } else {
            0
        }
    }
}

/// The budget is a hard cap: whatever becomes of its requests, a pass sends no more of them than
/// the active link's budget allows, and none within the budget's period of the one before.
pub proof fn law_pass_is_capped(states: Seq<PassView>, steps: Seq<Option<Sending>>)
    requires
        is_run(states, steps),
        states[0].sent == 0,
    ensures
        sendings(steps) == states.last().sent,
        states.last().budget == states[0].budget,
        sendings(steps) <= states[0].budget.max_in_flight,
        forall|k: int|
            0 <= k < steps.len() ==> (#[trigger] steps[k] matches Some(s) ==> s.sent
                - states[k].last_send >= states[k].budget.min_period_ms * 1_000_000),
    decreases steps.len(),
{
    if steps.len() > 0 {
        let n = steps.len() - 1;
        let fewer = steps.drop_last();
        let first = states.drop_last();
        assert forall|k: int| 0 <= k < fewer.len() implies match #[trigger] fewer[k] {
            None => decides(first[k], first[k + 1]),
            Some(s) => sends(first[k], first[k + 1], s),
        } by {
            assert(fewer[k] == steps[k]);
        }
        law_pass_is_capped(first, fewer);
        assert(steps[n] == steps.last());
        assert forall|k: int| 0 <= k < steps.len() implies (#[trigger] steps[k] matches Some(s)
            ==> s.sent - states[k].last_send >= states[k].budget.min_period_ms * 1_000_000) by {
            if k < n {
                assert(fewer[k] == steps[k]);
            }
        }
    }
}

/// What counts as pending, told from the snapshots of the sender's queue: the name of a file where
/// the file's snapshot has its manifest pending, whatever ranges are asked for or queued; a range
/// of it where a queued range of the file reaches into it, whatever is said of the name.
pub proof fn law_what_is_pending(
    status: Option<SenderStatus>,
    file_id: i64,
    range: RequestedRange,
)
    requires
        status matches Some(s) ==> forall|i: int, j: int|
            0 <= i < j < s.pending@.len() ==> #[trigger] s.pending@[i].file_id
                != #[trigger] s.pending@[j].file_id,
    ensures
        already_pending(status, file_id, range, RequestType::ResendName) <==> (
        status matches Some(s) && exists|i: int|
            0 <= i < s.pending@.len() && (#[trigger] s.pending@[i]).file_id == file_id
                && s.pending@[i].manifest_pending),
        already_pending(status, file_id, range, RequestType::Retransmit) <==> (
        status matches Some(s) && exists|i: int, k: int|
            {
                &&& 0 <= i < s.pending@.len()
                &&& s.pending@[i].file_id == file_id
                &&& 0 <= k < s.pending@[i].ranges@.len()
                &&& (#[trigger] s.pending@[i].ranges@[k]).start < range.start + range.count
                &&& range.start < s.pending@[i].ranges@[k].start + s.pending@[i].ranges@[k].count
            }),
{
    if let Some(s) = status {
        lemma_pending_in(s.pending@, file_id, range);
    }
}

/// What a list of snapshots shows as pending.
proof fn lemma_pending_in(snap: Seq<SenderQueueSnapshot>, file_id: i64, range: RequestedRange)
    requires
        forall|i: int, j: int|
            0 <= i < j < snap.len() ==> #[trigger] snap[i].file_id != #[trigger] snap[j].file_id,
    ensures
        pending_in(snap, file_id, range, RequestType::ResendName) <==> exists|i: int|
            0 <= i < snap.len() && (#[trigger] snap[i]).file_id == file_id
                && snap[i].manifest_pending,
        pending_in(snap, file_id, range, RequestType::Retransmit) <==> exists|i: int, k: int|
            {
                &&& 0 <= i < snap.len()
                &&& snap[i].file_id == file_id
                &&& 0 <= k < snap[i].ranges@.len()
                &&& (#[trigger] snap[i].ranges@[k]).start < range.start + range.count
                &&& range.start < snap[i].ranges@[k].start + snap[i].ranges@[k].count
            },
    decreases snap.len(),
{
    if snap.len() > 0 {
        let rest = snap.skip(1);
        assert forall|i: int, j: int| 0 <= i < j < rest.len() implies #[trigger] rest[i].file_id
            != #[trigger] rest[j].file_id by {
            assert(rest[i] == snap[i + 1] && rest[j] == snap[j + 1]);
        }
        lemma_pending_in(rest, file_id, range);
        if snap[0].file_id == file_id {
            assert forall|i: int| 0 <= i < snap.len() && #[trigger] snap[i].file_id
                == file_id implies i == 0 by {
                if i > 0 {
                    assert(snap[0].file_id != snap[i].file_id);
                }
            }
            if meets_any(range, snap[0].ranges@) {
                let k = choose|k: int|
                    0 <= k < snap[0].ranges@.len() && meets(range, #[trigger] snap[0].ranges@[k]);
                assert(snap[0].ranges@[k].start < range.start + range.count);
            }
            if exists|i: int, k: int|
                {
                    &&& 0 <= i < snap.len()
                    &&& snap[i].file_id == file_id
                    &&& 0 <= k < snap[i].ranges@.len()
                    &&& (#[trigger] snap[i].ranges@[k]).start < range.start + range.count
                    &&& range.start < snap[i].ranges@[k].start + snap[i].ranges@[k].count
                } {
                let (i, k) = choose|i: int, k: int|
                    {
                        &&& 0 <= i < snap.len()
                        &&& snap[i].file_id == file_id
                        &&& 0 <= k < snap[i].ranges@.len()
                        &&& (#[trigger] snap[i].ranges@[k]).start < range.start + range.count
                        &&& range.start < snap[i].ranges@[k].start + snap[i].ranges@[k].count
                    };
                assert(i == 0);
                assert(meets(range, snap[0].ranges@[k]));
            }
        } else {
            if exists|i: int|
                0 <= i < rest.len() && (#[trigger] rest[i]).file_id == file_id
                    && rest[i].manifest_pending {
                let i = choose|i: int|
                    0 <= i < rest.len() && (#[trigger] rest[i]).file_id == file_id
                        && rest[i].manifest_pending;
                assert(snap[i + 1] == rest[i]);
            }
            if exists|i: int|
                0 <= i < snap.len() && (#[trigger] snap[i]).file_id == file_id
                    && snap[i].manifest_pending {
                let i = choose|i: int|
                    0 <= i < snap.len() && (#[trigger] snap[i]).file_id == file_id
                        && snap[i].manifest_pending;
                assert(rest[i - 1] == snap[i]);
            }
            if exists|i: int, k: int|
                {
                    &&& 0 <= i < rest.len()
                    &&& rest[i].file_id == file_id
                    &&& 0 <= k < rest[i].ranges@.len()
                    &&& (#[trigger] rest[i].ranges@[k]).start < range.start + range.count
                    &&& range.start < rest[i].ranges@[k].start + rest[i].ranges@[k].count
                } {
                let (i, k) = choose|i: int, k: int|
                    {
                        &&& 0 <= i < rest.len()
                        &&& rest[i].file_id == file_id
                        &&& 0 <= k < rest[i].ranges@.len()
                        &&& (#[trigger] rest[i].ranges@[k]).start < range.start + range.count
                        &&& range.start < rest[i].ranges@[k].start + rest[i].ranges@[k].count
                    };
                assert(snap[i + 1].ranges@[k] == rest[i].ranges@[k]);
            }
            if exists|i: int, k: int|
                {
                    &&& 0 <= i < snap.len()
                    &&& snap[i].file_id == file_id
                    &&& 0 <= k < snap[i].ranges@.len()
                    &&& (#[trigger] snap[i].ranges@[k]).start < range.start + range.count
                    &&& range.start < snap[i].ranges@[k].start + snap[i].ranges@[k].count
                } {
                let (i, k) = choose|i: int, k: int|
                    {
                        &&& 0 <= i < snap.len()
                        &&& snap[i].file_id == file_id
                        &&& 0 <= k < snap[i].ranges@.len()
                        &&& (#[trigger] snap[i].ranges@[k]).start < range.start + range.count
                        &&& range.start < snap[i].ranges@[k].start + snap[i].ranges@[k].count
                    };
                assert(rest[i - 1].ranges@[k] == snap[i].ranges@[k]);
            }
        }
    }
}

/// What is planned for some assemblies and then for others is planned for them all, in that order.
pub proof fn law_plan_goes_assembly_by_assembly(
    first: Seq<Gaps>,
    others: Seq<Gaps>,
    status: Option<SenderStatus>,
)
    ensures
        plan_of(first + others, status) == plan_of(first, status) + plan_of(others, status),
    decreases others.len(),
{
    let all = first + others;
    if others.len() == 0 {
        assert(all =~= first);
        assert(plan_of(first, status) + plan_of(others, status) =~= plan_of(first, status));
    } else {
        assert(all.drop_last() =~= first + others.drop_last());
        law_plan_goes_assembly_by_assembly(first, others.drop_last(), status);
        assert(plan_of(all, status) =~= plan_of(first, status) + plan_of(others, status));
    }
}

/// The plan for one assembly asks for its name once, before any of its chunks, or not at all;
/// everything else in it asks for chunks, and all of it is for that assembly. Where nothing is
/// missing nothing is asked for.
pub proof fn law_name_is_asked_for_first(g: Gaps, status: Option<SenderStatus>, k: int)
    requires
        gaps_fit(seq![g]),
        0 <= k < plan_of(seq![g], status).len(),
    ensures
        plan_of(seq![g], status)[k].file_id == g.file_id,
        plan_of(seq![g], status)[k].kind is ResendName ==> k == 0 && !g.named,
        plan_of(seq![g], status)[k].kind is Retransmit ==> plan_of(seq![g], status)[k].range.count
            >= 1,
{
    let one = seq![g];
    assert(one.drop_last() =~= Seq::empty());
    assert(plan_of(one, status) =~= requests_of(status, g)) by {
        assert(plan_of(Seq::empty(), status) =~= Seq::empty());
    }
    let queued = queued_of(pending_of(status), g.file_id);
    let ranges = range_requests(queued, g.file_id, g.missing@);
    let all = requests_of(status, g);
    let n = all.len() - ranges.len();
    assert forall|i: int| 0 <= i < g.missing@.len() implies (#[trigger] g.missing@[i]).0
        + g.missing@[i].1 <= u32::MAX by {
        assert(one[0].missing@[i] == g.missing@[i]);
    }
    if k >= n {
        assert(all[k] == ranges[k - n]);
        lemma_planned_range(queued, g.file_id, g.missing@, u32::MAX, k - n);
    }
}

/// The plan asks for a file's name if and only if one of the gaps for the file is unnamed and no
/// snapshot of the file has its manifest pending, whatever ranges the snapshots hold.
pub proof fn law_plan_asks_for_names_exactly(
    gaps: Seq<Gaps>,
    status: Option<SenderStatus>,
    file_id: i64,
)
    requires
        gaps_fit(gaps),
        status matches Some(s) ==> forall|i: int, j: int|
            0 <= i < j < s.pending@.len() ==> #[trigger] s.pending@[i].file_id
                != #[trigger] s.pending@[j].file_id,
    ensures
        (exists|k: int|
            0 <= k < plan_of(gaps, status).len() && (#[trigger] plan_of(gaps, status)[k]).kind
                is ResendName && plan_of(gaps, status)[k].file_id == file_id) <==> {
            &&& exists|i: int|
                0 <= i < gaps.len() && (#[trigger] gaps[i]).file_id == file_id && !gaps[i].named
            &&& !(status matches Some(s) && exists|i: int|
                0 <= i < s.pending@.len() && (#[trigger] s.pending@[i]).file_id == file_id
                    && s.pending@[i].manifest_pending)
        },
    decreases gaps.len(),
{
    let all = plan_of(gaps, status);
    if gaps.len() > 0 {
        let rest = gaps.drop_last();
        let g = gaps.last();
        let last = gaps.len() - 1;
        assert forall|i: int, k: int|
            0 <= i < rest.len() && 0 <= k < rest[i].missing@.len() implies (
        #[trigger] rest[i].missing@[k]).0 + rest[i].missing@[k].1 <= u32::MAX by {
            assert(gaps[i].missing@[k] == rest[i].missing@[k]);
        }
        law_plan_asks_for_names_exactly(rest, status, file_id);
        let p = name_request(g.file_id);
        law_what_is_pending(status, g.file_id, p.range);
        let before = plan_of(rest, status);
        let own = requests_of(status, g);
        let queued = queued_of(pending_of(status), g.file_id);
        let ranges = range_requests(queued, g.file_id, g.missing@);
        let n = own.len() - ranges.len();
        assert forall|i: int| 0 <= i < g.missing@.len() implies (#[trigger] g.missing@[i]).0
            + g.missing@[i].1 <= u32::MAX by {
            assert(gaps[last].missing@[i] == g.missing@[i]);
        }
        assert forall|k: int| 0 <= k < all.len() && (#[trigger] all[k]).kind is ResendName && k
            >= before.len() implies k == before.len() && n == 1 && all[k] == p by {
            if k - before.len() >= n {
                assert(all[k] == ranges[k - before.len() - n]);
                lemma_planned_range(
                    queued,
                    g.file_id,
                    g.missing@,
                    u32::MAX,
                    k - before.len() - n,
                );
            }
        }
        if exists|k: int|
            0 <= k < before.len() && (#[trigger] before[k]).kind is ResendName && before[k].file_id
                == file_id {
            let k = choose|k: int|
                0 <= k < before.len() && (#[trigger] before[k]).kind is ResendName
                    && before[k].file_id == file_id;
            assert(all[k] == before[k]);
        }
        if exists|i: int|
            0 <= i < rest.len() && (#[trigger] rest[i]).file_id == file_id && !rest[i].named {
            let i = choose|i: int|
                0 <= i < rest.len() && (#[trigger] rest[i]).file_id == file_id && !rest[i].named;
            assert(gaps[i] == rest[i]);
        }
        if g.file_id == file_id && n == 1 {
            assert(all[before.len() as int] == p);
            assert(gaps[last] == g);
        }
        if exists|k: int|
            0 <= k < all.len() && (#[trigger] all[k]).kind is ResendName && all[k].file_id
                == file_id {
            let k = choose|k: int|
                0 <= k < all.len() && (#[trigger] all[k]).kind is ResendName && all[k].file_id
                    == file_id;
            if k < before.len() {
                assert(before[k] == all[k]);
            }
        }
        if exists|i: int|
            0 <= i < gaps.len() && (#[trigger] gaps[i]).file_id == file_id && !gaps[i].named {
            let i = choose|i: int|
                0 <= i < gaps.len() && (#[trigger] gaps[i]).file_id == file_id && !gaps[i].named;
            if i < last {
                assert(rest[i] == gaps[i]);
            }
        }
    }
}

/// Requests are told apart by everything that they ask for: two of them count as the same in the
/// dedup table only where they are the same.
pub proof fn law_requests_are_told_apart(p: Planned, q: Planned)
    ensures
        p.key() == q.key() <==> p == q,
{
}

/// What was asked for lately is taken out of what is planned part by part, in order. A request for
/// a name stays as it is, whatever was asked for.
pub proof fn law_unasked_goes_request_by_request(
    first: Seq<Planned>,
    others: Seq<Planned>,
    entries: Seq<Entry>,
    now: int,
    file_id: i64,
    range: RequestedRange,
)
    ensures
        unasked_of(first + others, entries, now) == unasked_of(first, entries, now) + unasked_of(
            others,
            entries,
            now,
        ),
        unasked_of(seq![Planned { file_id, range, kind: RequestType::ResendName }], entries, now)
            == seq![Planned { file_id, range, kind: RequestType::ResendName }],
        unasked_of(Seq::empty(), entries, now).len() == 0,
    decreases others.len(),
{
    let p = Planned { file_id, range, kind: RequestType::ResendName };
    assert(seq![p].drop_last() =~= Seq::empty());
    reveal_with_fuel(unasked_of, 2);
    assert(unasked_of(seq![p], entries, now) =~= seq![p]);
    let all = first + others;
    let a = unasked_of(first, entries, now);
    let b = unasked_of(others, entries, now);
    if others.len() == 0 {
        assert(all =~= first);
        assert(unasked_of(all, entries, now) =~= a + b);
    } else {
        assert(all.drop_last() =~= first + others.drop_last());
        assert(all.last() == others.last());
        law_unasked_goes_request_by_request(
            first,
            others.drop_last(),
            entries,
            now,
            file_id,
            range,
        );
        assert(unasked_of(all, entries, now) =~= a + b);
    }
}

/// The signed index of a control message is the chunk's index for the lower half of the indices,
/// and negative for the upper half; no two chunks share one.
pub proof fn law_signed_start(a: u32, b: u32)
    ensures
        a < 0x8000_0000 ==> signed_start(a) == a,
        a >= 0x8000_0000 ==> signed_start(a) == a - 0x1_0000_0000,
        signed_start(a) == signed_start(b) ==> a == b,
{
}

/// A pass waits no longer than it has to: until the budget's period has passed since the last
/// request and not a moment more, and not at all where it has passed already. At its beginning the
/// last request counts as a minute old.
pub proof fn law_no_needless_wait(last_send: int, min_period_ms: u64, now: int)
    ensures
        now - last_send >= min_period_ms * 1_000_000 ==> wait_until(last_send, min_period_ms, now)
            == 0,
        0 <= now - last_send < min_period_ms * 1_000_000 ==> now + wait_until(
            last_send,
            min_period_ms,
            now,
        ) == last_send + min_period_ms * 1_000_000,
        now < last_send ==> wait_until(last_send, min_period_ms, now) == min_period_ms * 1_000_000,
        min_period_ms <= 60_000 ==> wait_until(now - PASS_HEAD_START_NANOS, min_period_ms, now)
            == 0,
        min_period_ms > 60_000 ==> wait_until(now - PASS_HEAD_START_NANOS, min_period_ms, now)
            == (min_period_ms - 60_000) * 1_000_000,
{
}

/// A request is held back exactly where one for the same file, of the same kind and for the same
/// range is in the table and has not expired.
pub proof fn law_what_is_held_back(p: Planned, entries: Seq<Entry>, now: int)
    ensures
        held_back(p, entries, now) <==> exists|i: int|
            {
                &&& 0 <= i < entries.len()
                &&& (#[trigger] entries[i]).file_id == p.file_id
                &&& entries[i].range == p.range
                &&& entries[i].kind is ResendName <==> p.kind is ResendName
                &&& entries[i].expiry > now
            },
{
    if held_back(p, entries, now) {
        let i = choose|i: int|
            0 <= i < entries.len() && #[trigger] entries[i].key() == p.key() && entries[i].expiry
                > now;
        assert(entries[i].file_id == p.file_id);
    }
    if exists|i: int|
        {
            &&& 0 <= i < entries.len()
            &&& (#[trigger] entries[i]).file_id == p.file_id
            &&& entries[i].range == p.range
            &&& entries[i].kind is ResendName <==> p.kind is ResendName
            &&& entries[i].expiry > now
        } {
        let i = choose|i: int|
            {
                &&& 0 <= i < entries.len()
                &&& (#[trigger] entries[i]).file_id == p.file_id
                &&& entries[i].range == p.range
                &&& entries[i].kind is ResendName <==> p.kind is ResendName
                &&& entries[i].expiry > now
            };
        assert(entries[i].key() == p.key());
    }
}

/// The chunks of the files that a plan is for: a chunk is missing exactly where a gap of its file
/// has it in one of its ranges, and is asked for exactly where a request for chunks has.
pub proof fn law_missing_and_asked(
    gaps: Seq<Gaps>,
    planned: Seq<Planned>,
    file_id: i64,
    chunk: int,
)
    ensures
        lacks(gaps, file_id, chunk) <==> exists|i: int, k: int|
            {
                &&& 0 <= i < gaps.len()
                &&& gaps[i].file_id == file_id
                &&& 0 <= k < gaps[i].missing@.len()
                &&& (#[trigger] gaps[i].missing@[k]).0 <= chunk
                &&& chunk < gaps[i].missing@[k].0 + gaps[i].missing@[k].1
            },
        asks_for(planned, file_id, chunk) <==> exists|k: int|
            {
                &&& 0 <= k < planned.len()
                &&& (#[trigger] planned[k]).kind is Retransmit
                &&& planned[k].file_id == file_id
                &&& planned[k].range.start <= chunk
                &&& chunk < planned[k].range.start + planned[k].range.count
            },
{
}

/// What is asked of the sender for what is planned: a name by the file's id; chunks by the file's
/// id, their first and their number, at the head of the queue.
pub proof fn law_what_is_asked_of_the_sender(p: Planned, req: Request)
    requires
        call_ensures(request_for, (p,), req),
    ensures
        p.kind is ResendName ==> (req matches Request::SenderResendName { file_id } && file_id
            == p.file_id),
        p.kind is Retransmit ==> (req matches Request::SenderEnqueue {
            file_id,
            start,
            count,
            interrupt,
        } && file_id == p.file_id && count == p.range.count && interrupt && (p.range.start
            < 0x8000_0000 ==> start == p.range.start) && (p.range.start >= 0x8000_0000 ==> start
            == p.range.start - 0x1_0000_0000)),
{
}

/// What the cleaner asks for is what the sender queues: a request for chunks whose first index fits
/// puts, at the head of the sender's queue, exactly the chunks that were asked for of that file, and
/// a request for a name puts that name there. What was queued before stays behind it.
pub proof fn law_sender_queues_what_the_cleaner_asks_for(
    p: Planned,
    req: Request,
    rt: &mut SenderRuntime,
    cfg: Config,
    rec: FileRecord,
    version: &str,
    reply: Response,
)
    requires
        cfg.valid(),
        call_ensures(request_for, (p,), req),
        rec.file_id == p.file_id,
        p.range.count >= 1,
        p.range.start < 0x8000_0000,
        p.range.start + p.range.count <= chunks_at(
            old(rt)@.effective_chunk_size(cfg),
            rec.file_size,
        ),
        call_ensures(
            SenderRuntime::handle,
            (rt, &cfg, req, Findings::Record(Ok(Some(rec))), version),
            reply,
        ),
    ensures
        reply is Okay,
        final(rt)@.queue.items.len() == old(rt)@.queue.items.len() + 1,
        final(rt)@.queue.items.skip(1) == old(rt)@.queue.items,
        p.kind is ResendName ==> final(rt)@.queue.items[0] == (WorkItemView::Manifest {
            file_id: p.file_id,
            file_name: rec.file_name@,
        }),
        p.kind is Retransmit ==> final(rt)@.queue.items[0] == (WorkItemView::Retransmit {
            file_id: p.file_id,
            range: p.range,
        }),
{
    assert(final(rt)@.queue.items.skip(1) =~= old(rt)@.queue.items);
}

/// What counts as pending for a call: nothing where the sender could not be asked; a name where the
/// file's snapshot has its manifest pending; a range where a queued range of the file reaches into
/// it.
pub proof fn law_pending_by_the_status(
    status: Option<SenderStatus>,
    file_id: i64,
    range: RequestedRange,
    other: RequestedRange,
    name: bool,
    same: bool,
    chunks: bool,
)
    requires
        status matches Some(s) ==> forall|i: int, j: int|
            0 <= i < j < s.pending@.len() ==> #[trigger] s.pending@[i].file_id
                != #[trigger] s.pending@[j].file_id,
        call_ensures(
            is_already_pending,
            (&status, file_id, range, RequestType::ResendName),
            name,
        ),
        call_ensures(
            is_already_pending,
            (&status, file_id, other, RequestType::ResendName),
            same,
        ),
        call_ensures(
            is_already_pending,
            (&status, file_id, range, RequestType::Retransmit),
            chunks,
        ),
    ensures
        status is None ==> !name && !chunks,
        name == same,
        name <==> (status matches Some(s) && exists|i: int|
            0 <= i < s.pending@.len() && (#[trigger] s.pending@[i]).file_id == file_id
                && s.pending@[i].manifest_pending),
        chunks <==> (status matches Some(s) && exists|i: int, k: int|
            {
                &&& 0 <= i < s.pending@.len()
                &&& s.pending@[i].file_id == file_id
                &&& 0 <= k < s.pending@[i].ranges@.len()
                &&& (#[trigger] s.pending@[i].ranges@[k]).start < range.start + range.count
                &&& range.start < s.pending@[i].ranges@[k].start + s.pending@[i].ranges@[k].count
            }),
{
    law_what_is_pending(status, file_id, range);
    law_what_is_pending(status, file_id, other);
}

/// Ranges with chunks in them intersect exactly where they have a chunk in common.
pub proof fn law_ranges_intersect_in_a_chunk(
    target: RequestedRange,
    existing: Vec<RequestedRange>,
    yes: bool,
)
    requires
        target.count >= 1,
        forall|i: int| 0 <= i < existing@.len() ==> (#[trigger] existing@[i]).count >= 1,
        call_ensures(range_intersects_any, (target, &existing), yes),
    ensures
        yes <==> exists|i: int, c: int|
            0 <= i < existing@.len() && #[trigger] existing@[i].has(c) && target.has(c),
{
    if yes {
        let i = choose|i: int| 0 <= i < existing@.len() && meets(target, #[trigger] existing@[i]);
        let c = if target.start < existing@[i].start {
            existing@[i].start as int
        } else {
            target.start as int
        };
        assert(existing@[i].has(c) && target.has(c));
    }
    if exists|i: int, c: int|
        0 <= i < existing@.len() && #[trigger] existing@[i].has(c) && target.has(c) {
        let (i, c) = choose|i: int, c: int|
            0 <= i < existing@.len() && #[trigger] existing@[i].has(c) && target.has(c);
        assert(meets(target, existing@[i]));
    }
}

/// What is missing of an assembly is told from its sidecar: a name where the record has none, and
/// the chunks that have not arrived. A sidecar that cannot be used tells that the name is missing
/// and nothing of chunks.
pub proof fn law_what_is_missing_of_an_assembly(
    r: Reassembler,
    file_id: i64,
    sidecar: SidecarRead,
    g: Gaps,
    chunk: int,
)
    requires
        call_ensures(gaps_of, (&r, file_id, &sidecar), g),
    ensures
        g.file_id == file_id,
        !(sidecar is Bytes) ==> !g.named && g.missing@.len() == 0,
        sidecar matches SidecarRead::Bytes(b) ==> {
            let m = manifest_in(r.holding_path(file_id, ".parmanifest"@), b@);
            &&& manifest_fault(b@) is Some ==> !g.named && g.missing@.len() == 0
            &&& manifest_fault(b@) is None ==> {
                &&& g.named <==> m.name.len() > 0
                &&& (exists|k: int|
                    0 <= k < g.missing@.len() && #[trigger] g.missing@[k].0 <= chunk
                        < g.missing@[k].0 + g.missing@[k].1) <==> 0 <= chunk < m.num_chunks
                    && !m.has(chunk)
            }
        },
{
    if let SidecarRead::Bytes(b) = sidecar {
        let m = manifest_in(r.holding_path(file_id, ".parmanifest"@), b@);
        if manifest_fault(b@) is None {
            law_gaps_are_exact(m, g.missing@, chunk);
        }
    }
}

/// The budget of a pass is the one that the configuration gives the cleaner's active link, and a
/// valid configuration has one.
pub proof fn law_budget_is_that_of_the_active_link(cfg: Config, r: Result<LinkBudget, String>)
    requires
        call_ensures(active_budget, (&cfg,), r),
    ensures
        r matches Ok(b) ==> b == value_at(cfg.cleaner.links@, cfg.cleaner.active_link@),
        r is Ok <==> has_name(cfg.cleaner.links@, cfg.cleaner.active_link@),
        cfg.valid() ==> r is Ok,
{
}

/// A pass asks for what it has left in order, and passes over exactly what is in the dedup table
/// and has not expired. What it decides on goes into the table, so that it is not asked for again
/// until its time to live is over. Once as many requests have gone out as the budget allows it
/// decides on nothing more.
pub proof fn law_pass_takes_the_first_that_is_not_held_back(
    pass: &mut Pass,
    table: &mut DedupTable,
    now: u64,
    r: Option<(Planned, u128)>,
    later: int,
)
    requires
        distinct(old(table).list()),
        call_ensures(Pass::next_request, (pass, table, now), r),
    ensures
        old(pass)@.sent >= old(pass)@.budget.max_in_flight ==> r is None && final(pass)@.left
            == old(pass)@.left,
        r is None ==> final(table).list() == old(table).list(),
        r is None && old(pass)@.sent < old(pass)@.budget.max_in_flight ==> forall|k: int|
            0 <= k < old(pass)@.left.len() ==> live(
                old(table).list(),
                (#[trigger] old(pass)@.left[k]).key(),
                now as int,
            ),
        r matches Some((p, wait)) ==> {
            &&& old(pass)@.left.contains(p)
            &&& !live(old(table).list(), p.key(), now as int)
            &&& live(final(table).list(), p.key(), later) <==> later < now + old(table).ttl()
                * 1_000_000_000
            &&& now - old(pass)@.last_send >= old(pass)@.budget.min_period_ms * 1_000_000 ==> wait
                == 0
            &&& old(pass)@.last_send <= now < old(pass)@.last_send
                + old(pass)@.budget.min_period_ms * 1_000_000 ==> now + wait
                == old(pass)@.last_send + old(pass)@.budget.min_period_ms * 1_000_000
        },
{
    if let Some((p, wait)) = r {
        law_request_is_outstanding_for_its_ttl(
            old(table).list(),
            p.file_id,
            p.kind,
            p.range,
            old(table).ttl(),
            now,
            p.key(),
            later,
        );
    } else if old(pass)@.sent < old(pass)@.budget.max_in_flight {
        assert forall|k: int| 0 <= k < old(pass)@.left.len() implies live(
            old(table).list(),
            (#[trigger] old(pass)@.left[k]).key(),
            now as int,
        ) by {
            assert(held_back(old(pass)@.left[k], old(table).list(), now as int));
        }
    }
}

/// A pass begins with all that is planned, nothing sent, and its last request a minute ago; each
/// request that goes out counts one and is the last from then on.
pub proof fn law_pass_counts_what_it_sends(
    planned: Vec<Planned>,
    budget: LinkBudget,
    now: u64,
    pass: Pass,
    sending: &mut Pass,
    at: u64,
)
    requires
        call_ensures(Pass::new, (planned, budget, now), pass),
        old(sending)@.sent < old(sending)@.budget.max_in_flight,
        call_ensures(Pass::sending, (sending, at), ()),
    ensures
        pass@.left == planned@,
        pass@.budget == budget,
        pass@.sent == 0,
        pass@.last_send == now - 60_000_000_000,
        final(sending)@.sent == old(sending)@.sent + 1,
        final(sending)@.last_send == at,
        final(sending)@.left == old(sending)@.left,
        final(sending)@.budget == old(sending)@.budget,
{
}

/// A pass over what is missing, with nothing queued and nothing asked for lately, asks for every
/// missing chunk and for every missing name.
pub proof fn law_without_dedup_everything_is_asked_for(
    gaps: Vec<Gaps>,
    planned: Vec<Planned>,
    table: DedupTable,
    left: Vec<Planned>,
    now: u64,
    file_id: i64,
    chunk: int,
)
    requires
        gaps_fit(gaps@),
        call_ensures(plan, (&gaps, &None::<SenderStatus>), planned),
        table.list().len() == 0,
        call_ensures(unasked, (&planned, &table, now), left),
    ensures
        asks_for(left@, file_id, chunk) <==> lacks(gaps@, file_id, chunk),
        (exists|k: int|
            0 <= k < planned@.len() && (#[trigger] planned@[k]).kind is ResendName
                && planned@[k].file_id == file_id) <==> exists|i: int|
            0 <= i < gaps@.len() && (#[trigger] gaps@[i]).file_id == file_id && !gaps@[i].named,
{
    law_pass_asks_for_the_rest(gaps@, None, table.list(), now as int, file_id, chunk);
    law_plan_asks_for_names_exactly(gaps@, None, file_id);
}

/// Missing ranges are asked for in the order in which they are given: those of a first part, then
/// those of a second.
pub proof fn law_ranges_are_asked_for_in_order(
    taken: Seq<RequestedRange>,
    file_id: i64,
    first: Seq<(u32, u32)>,
    others: Seq<(u32, u32)>,
)
    ensures
        range_requests(taken, file_id, first + others) == range_requests(taken, file_id, first)
            + range_requests(taken, file_id, others),
    decreases others.len(),
{
    let all = first + others;
    let a = range_requests(taken, file_id, first);
    let b = range_requests(taken, file_id, others);
    if others.len() == 0 {
        assert(all =~= first);
        assert(range_requests(taken, file_id, all) =~= a + b);
    } else {
        assert(all.drop_last() =~= first + others.drop_last());
        assert(all.last() == others.last());
        law_ranges_are_asked_for_in_order(taken, file_id, first, others.drop_last());
        assert(range_requests(taken, file_id, all) =~= a + b);
    }
}

/// The chunks of an assembly are asked for in ascending order, each at most once: with the missing
/// ranges in order and apart, so are the requests for them.
pub proof fn law_chunks_are_asked_for_in_ascending_order(
    g: Gaps,
    status: Option<SenderStatus>,
    i: int,
    j: int,
)
    requires
        gaps_fit(seq![g]),
        forall|k: int, l: int|
            0 <= k < l < g.missing@.len() ==> #[trigger] g.missing@[k].0 + g.missing@[k].1
                <= #[trigger] g.missing@[l].0,
        0 <= i < j < plan_of(seq![g], status).len(),
        plan_of(seq![g], status)[i].kind is Retransmit,
        plan_of(seq![g], status)[j].kind is Retransmit,
    ensures
        ({
            let a = plan_of(seq![g], status)[i].range;
            let b = plan_of(seq![g], status)[j].range;
            a.start + a.count <= b.start
        }),
{
    let one = seq![g];
    assert(one.drop_last() =~= Seq::empty());
    assert(plan_of(one, status) =~= requests_of(status, g)) by {
        assert(plan_of(Seq::empty(), status) =~= Seq::empty());
    }
    let queued = queued_of(pending_of(status), g.file_id);
    let ranges = range_requests(queued, g.file_id, g.missing@);
    let all = requests_of(status, g);
    let n = all.len() - ranges.len();
    assert forall|k: int| 0 <= k < g.missing@.len() implies (#[trigger] g.missing@[k]).0
        + g.missing@[k].1 <= u32::MAX by {
        assert(one[0].missing@[k] == g.missing@[k]);
    }
    assert(i >= n && all[i] == ranges[i - n] && all[j] == ranges[j - n]);
    lemma_requests_ascend(queued, g.file_id, g.missing@, i - n, j - n);
}

/// The requests for missing ranges in order are in order.
proof fn lemma_requests_ascend(
    taken: Seq<RequestedRange>,
    file_id: i64,
    missing: Seq<(u32, u32)>,
    i: int,
    j: int,
)
    requires
        forall|k: int| 0 <= k < missing.len() ==> (#[trigger] missing[k]).0 + missing[k].1
            <= u32::MAX,
        forall|k: int, l: int|
            0 <= k < l < missing.len() ==> #[trigger] missing[k].0 + missing[k].1
                <= #[trigger] missing[l].0,
        0 <= i < j < range_requests(taken, file_id, missing).len(),
    ensures
        ({
            let a = range_requests(taken, file_id, missing)[i].range;
            let b = range_requests(taken, file_id, missing)[j].range;
            a.start + a.count <= b.start
        }),
    decreases missing.len(),
{
    let all = range_requests(taken, file_id, missing);
    let rest = missing.drop_last();
    let m = missing.last();
    let before = range_requests(taken, file_id, rest);
    let runs = runs_outside(taken, m.0 as int, m.0 + m.1);
    assert(missing[missing.len() - 1] == m);
    law_runs_outside(taken, m.0 as int, m.0 + m.1);
    assert forall|k: int| 0 <= k < rest.len() implies (#[trigger] rest[k]).0 + rest[k].1
        <= m.0 by {
        assert(missing[k].0 + missing[k].1 <= missing[missing.len() - 1].0);
        assert(rest[k] == missing[k]);
    }
    if j < before.len() {
        assert forall|k: int, l: int| 0 <= k < l < rest.len() implies #[trigger] rest[k].0
            + rest[k].1 <= #[trigger] rest[l].0 by {
            assert(rest[k] == missing[k] && rest[l] == missing[l]);
        }
        lemma_requests_ascend(taken, file_id, rest, i, j);
        assert(all[i] == before[i] && all[j] == before[j]);
    } else if i < before.len() {
        lemma_planned_range(taken, file_id, rest, m.0, i);
        assert(all[i] == before[i]);
        assert(all[j].range == runs[j - before.len()]);
    } else {
        assert(all[i].range == runs[i - before.len()]);
        assert(all[j].range == runs[j - before.len()]);
    }
}

/// What a plan asks for, told from what it was made of. A chunk: exactly where a gap of its file has
/// it and no snapshot of the file has it in a range. A name: exactly where a gap of its file is
/// unnamed and no snapshot of the file has its manifest pending.
pub proof fn law_what_a_plan_asks_for(
    gaps: Vec<Gaps>,
    status: Option<SenderStatus>,
    planned: Vec<Planned>,
    file_id: i64,
    chunk: int,
)
    requires
        gaps_fit(gaps@),
        status matches Some(s) ==> forall|i: int, j: int|
            0 <= i < j < s.pending@.len() ==> #[trigger] s.pending@[i].file_id
                != #[trigger] s.pending@[j].file_id,
        call_ensures(plan, (&gaps, &status), planned),
    ensures
        asks_for(planned@, file_id, chunk) <==> lacks(gaps@, file_id, chunk) && !(
        status matches Some(s) && exists|i: int, k: int|
            {
                &&& 0 <= i < s.pending@.len()
                &&& s.pending@[i].file_id == file_id
                &&& 0 <= k < s.pending@[i].ranges@.len()
                &&& (#[trigger] s.pending@[i].ranges@[k]).start <= chunk
                &&& chunk < s.pending@[i].ranges@[k].start + s.pending@[i].ranges@[k].count
            }),
        (exists|k: int|
            0 <= k < planned@.len() && (#[trigger] planned@[k]).kind is ResendName
                && planned@[k].file_id == file_id) <==> {
            &&& exists|i: int|
                0 <= i < gaps@.len() && (#[trigger] gaps@[i]).file_id == file_id && !gaps@[i].named
            &&& !(status matches Some(s) && exists|i: int|
                0 <= i < s.pending@.len() && (#[trigger] s.pending@[i]).file_id == file_id
                    && s.pending@[i].manifest_pending)
        },
{
    law_plan_is_exact(gaps@, status, file_id, chunk);
    law_what_counts_as_queued(status, file_id, chunk);
    law_plan_asks_for_names_exactly(gaps@, status, file_id);
}

/// What is left of a plan: it asks for a chunk exactly where the plan does and no entry for chunks
/// of the file has the chunk in its range and is yet to expire; and it asks for a name exactly where
/// the plan does.
pub proof fn law_what_is_left_of_a_plan(
    planned: Vec<Planned>,
    table: DedupTable,
    now: u64,
    left: Vec<Planned>,
    file_id: i64,
    chunk: int,
)
    requires
        plan_fits(planned@, u32::MAX),
        call_ensures(unasked, (&planned, &table, now), left),
    ensures
        asks_for(left@, file_id, chunk) <==> asks_for(planned@, file_id, chunk) && !exists|i: int|
            {
                &&& 0 <= i < table.list().len()
                &&& (#[trigger] table.list()[i]).file_id == file_id
                &&& table.list()[i].kind == Kind::Retransmit
                &&& table.list()[i].range.start <= chunk < table.list()[i].range.start
                    + table.list()[i].range.count
                &&& table.list()[i].expiry > now
            },
        (exists|k: int|
            0 <= k < left@.len() && (#[trigger] left@[k]).kind is ResendName && left@[k].file_id
                == file_id) <==> exists|k: int|
            0 <= k < planned@.len() && (#[trigger] planned@[k]).kind is ResendName
                && planned@[k].file_id == file_id,
{
    law_unasked_is_exact(planned@, table.list(), now as int, file_id, chunk);
    law_what_was_asked_lately(table.list(), file_id, chunk, now as int);
    lemma_names_stay(planned@, table.list(), now as int, file_id);
}

/// Requests for names stay in a plan.
proof fn lemma_names_stay(planned: Seq<Planned>, entries: Seq<Entry>, now: int, file_id: i64)
    ensures
        (exists|k: int|
            0 <= k < unasked_of(planned, entries, now).len() && (#[trigger] unasked_of(
                planned,
                entries,
                now,
            )[k]).kind is ResendName && unasked_of(planned, entries, now)[k].file_id == file_id)
            <==> exists|k: int|
            0 <= k < planned.len() && (#[trigger] planned[k]).kind is ResendName
                && planned[k].file_id == file_id,
    decreases planned.len(),
{
    if planned.len() > 0 {
        let rest = planned.drop_last();
        let p = planned.last();
        let n = planned.len() - 1;
        lemma_names_stay(rest, entries, now, file_id);
        let before = unasked_of(rest, entries, now);
        let all = unasked_of(planned, entries, now);
        assert(planned[n] == p);
        if exists|k: int|
            0 <= k < all.len() && (#[trigger] all[k]).kind is ResendName && all[k].file_id
                == file_id {
            let k = choose|k: int|
                0 <= k < all.len() && (#[trigger] all[k]).kind is ResendName && all[k].file_id
                    == file_id;
            if k < before.len() {
                assert(before[k] == all[k]);
                let l = choose|l: int|
                    0 <= l < rest.len() && (#[trigger] rest[l]).kind is ResendName
                        && rest[l].file_id == file_id;
                assert(planned[l] == rest[l]);
            } else if p.kind is Retransmit {
                assert(all[k].kind is Retransmit);
            } else {
                assert(all[k] == p);
            }
        }
        if exists|k: int|
            0 <= k < planned.len() && (#[trigger] planned[k]).kind is ResendName
                && planned[k].file_id == file_id {
            let k = choose|k: int|
                0 <= k < planned.len() && (#[trigger] planned[k]).kind is ResendName
                    && planned[k].file_id == file_id;
            if k < n {
                assert(rest[k] == planned[k]);
                let l = choose|l: int|
                    0 <= l < before.len() && (#[trigger] before[l]).kind is ResendName
                        && before[l].file_id == file_id;
                assert(all[l] == before[l]);
            } else {
                assert(all[before.len() as int] == p);
            }
        }
    }
}

/// A pass can go on from whatever was found: what is missing of an assembly can be planned for,
/// whatever its sidecar gave, and what is planned can be held against the dedup table.
pub proof fn law_a_pass_can_go_on(
    r: Reassembler,
    file_id: i64,
    sidecar: SidecarRead,
    g: Gaps,
    gaps: Vec<Gaps>,
    status: Option<SenderStatus>,
    planned: Vec<Planned>,
    table: DedupTable,
    now: u64,
)
    requires
        call_ensures(gaps_of, (&r, file_id, &sidecar), g),
        gaps@ == seq![g],
        call_ensures(plan, (&gaps, &status), planned),
    ensures
        call_requires(gaps_of, (&r, file_id, &sidecar)),
        call_requires(plan, (&gaps, &status)),
        call_requires(unasked, (&planned, &table, now)),
{
}

} // verus!
