//! How the cleaner answers control requests.

use vstd::prelude::*;

use crate::cleaner::dedup::{as_work, DedupTable};
use crate::control::messages::{CleanerStatus, Request, Response};
use crate::sender::queue::groups;
use crate::text::same_text;

verus! {

/// A minute, in nanoseconds.
pub const MINUTE_NANOS: u64 = 60_000_000_000;

/// When requests were sent, and on which link. Times are nanoseconds on
/// a steady clock.
#[derive(Debug)]
pub struct SentLog {
    sent: Vec<(u64, String)>,
}

/// Whether something was sent within the minute before a time.
pub open spec fn within_minute(sent: u64, now: u64) -> bool {
    now - sent < MINUTE_NANOS
}

/// The notes that are less than a minute old.
pub open spec fn fresh(sent: Seq<(u64, Seq<char>)>, now: u64) -> Seq<(u64, Seq<char>)>
    decreases sent.len(),
{
    if sent.len() == 0 {
        seq![]
    } else if within_minute(sent.last().0, now) {
        fresh(sent.drop_last(), now).push(sent.last())
    } else {
        fresh(sent.drop_last(), now)
    }
}

/// How many requests were sent on a link within the minute before a time.
pub open spec fn sent_lately(sent: Seq<(u64, Seq<char>)>, link: Seq<char>, now: u64) -> nat
    decreases sent.len(),
{
    if sent.len() == 0 {
        0
    } else {
        sent_lately(sent.drop_last(), link, now) + if within_minute(sent.last().0, now)
            && sent.last().1 == link {
            1nat
        } else {
            0
        }
    }
}

impl View for SentLog {
    type V = Seq<(u64, Seq<char>)>;

    closed spec fn view(&self) -> Seq<(u64, Seq<char>)> {
        self.sent@.map_values(|s: (u64, String)| (s.0, s.1@))
    }
}

impl SentLog {
    /// Nothing has been sent.
    pub fn new() -> (log: SentLog)
        ensures
            log@ == Seq::<(u64, Seq<char>)>::empty(),
    {
        let log = SentLog { sent: Vec::new() };
        assert(log@ =~= Seq::empty());
        log
    }

    /// Take note of a request that was sent now. Notes that are too old to matter are dropped.
    pub fn note(&mut self, link: &str, now: u64)
        ensures
            final(self)@ == fresh(old(self)@, now).push((now, link@)),
    {
        let mut kept: Vec<(u64, String)> = Vec::new();
        let ghost all = self@;
        let mut i: usize = 0;
        assert(all.take(0) =~= Seq::empty());
        assert(kept@.map_values(|s: (u64, String)| (s.0, s.1@)) =~= seq![]);
        while i < self.sent.len()
            invariant
                i <= self.sent@.len(),
                all == self@,
                kept@.map_values(|s: (u64, String)| (s.0, s.1@)) == fresh(all.take(i as int), now),
            decreases self.sent@.len() - i,
        {
            let t: u64 = self.sent[i].0;
            let ghost before = kept@;
            assert(all.take(i + 1).drop_last() =~= all.take(i as int));
            if now < t || now - t < MINUTE_NANOS {
                kept.push((t, self.sent[i].1.clone()));
                assert(kept@.map_values(|s: (u64, String)| (s.0, s.1@)) =~= before.map_values(
                    |s: (u64, String)| (s.0, s.1@),
                ).push(all[i as int]));
            }
            i += 1;
        }
        assert(all.take(all.len() as int) =~= all);
        let ghost before = kept@;
        kept.push((now, link.to_owned()));
        assert(kept@.map_values(|s: (u64, String)| (s.0, s.1@)) =~= before.map_values(
            |s: (u64, String)| (s.0, s.1@),
        ).push((now, link@)));
        self.sent = kept;
    }

    /// Number of requests sent on a link in the last minute.
    pub fn recent(&self, link: &str, now: u64) -> (n: u32)
        ensures
            n == if sent_lately(self@, link@, now) > u32::MAX {
                u32::MAX as nat
            } else {
                sent_lately(self@, link@, now)
            },
    {
        let mut n: u64 = 0;
        let mut i: usize = 0;
        let ghost all = self@;
        assert(all.take(0) =~= Seq::empty());
        while i < self.sent.len()
            invariant
                i <= self.sent@.len(),
                all == self@,
                n == sent_lately(all.take(i as int), link@, now),
                n <= i,
            decreases self.sent@.len() - i,
        {
            let t: u64 = self.sent[i].0;
            assert(all.take(i + 1).drop_last() =~= all.take(i as int));
            if (now < t || now - t < MINUTE_NANOS) && same_text(self.sent[i].1.as_str(), link) {
                n += 1;
            }
            i += 1;
        }
        assert(all.take(all.len() as int) =~= all);
        if n > u32::MAX as u64 {
            u32::MAX
        } else {
            n as u32
        }
    }
}

/// Dropping old notes does not change what counts as sent lately, then or at any later time.
pub proof fn law_old_notes_do_not_matter(
    sent: Seq<(u64, Seq<char>)>,
    link: Seq<char>,
    dropped: u64,
    now: u64,
)
    requires
        dropped <= now,
    ensures
        sent_lately(fresh(sent, dropped), link, now) == sent_lately(sent, link, now),
    decreases sent.len(),
{
    if sent.len() > 0 {
        let rest = sent.drop_last();
        law_old_notes_do_not_matter(rest, link, dropped, now);
        if within_minute(sent.last().0, dropped) {
            let kept = fresh(rest, dropped).push(sent.last());
            assert(kept.drop_last() =~= fresh(rest, dropped));
        }
    }
}

/// Answer one request, and say whether a pass is to be made at once. Requests that are meant for
/// another daemon are not supported.
pub fn handle(
    table: &DedupTable,
    log: &SentLog,
    active_link: &str,
    req: &Request,
    now: u64,
    version: &str,
) -> (r: (Response, bool))
    ensures
        r.1 == (*req is CleanerRunNow),
        match *req {
            Request::Ping => {
                &&& r.0 matches Response::Pong { daemon, version: v }
                &&& daemon@ == "cleaner"@ && v@ == version@
            },
            Request::CleanerStatus => {
                &&& r.0 matches Response::CleanerStatus(s)
                &&& groups(s.in_flight@, as_work(table.list()))
                &&& s.recent_requests == if sent_lately(log@, active_link@, now) > u32::MAX {
                    u32::MAX as nat
                } else {
                    sent_lately(log@, active_link@, now)
                }
                &&& s.active_link@ == active_link@
            },
            Request::CleanerRunNow => r.0 is Okay,
            _ => r.0 is Unsupported,
        },
{
    match req {
        Request::Ping => (
            Response::Pong { daemon: "cleaner".to_owned(), version: version.to_owned() },
            false,
        ),
        Request::CleanerStatus => {
            let in_flight = table.snapshot();
            let recent_requests: u32 = log.recent(active_link, now);
            let status = CleanerStatus {
                in_flight,
                recent_requests,
                active_link: active_link.to_owned(),
            };
            (Response::CleanerStatus(status), false)
        },
        Request::CleanerRunNow => (Response::Okay, true),
        _ => (Response::Unsupported, false),
    }
}

/// A request counts as sent lately for a minute and on its own link only: each note adds one to the
/// count of its link until a minute after it was taken, and nothing otherwise.
pub proof fn law_each_note_counts_for_a_minute(
    sent: Seq<(u64, Seq<char>)>,
    at: u64,
    on: Seq<char>,
    link: Seq<char>,
    now: u64,
)
    ensures
        sent_lately(sent.push((at, on)), link, now) == sent_lately(sent, link, now) + if on == link
            && now - at < 60_000_000_000 {
            1int
        } else {
            0
        },
        sent_lately(Seq::empty(), link, now) == 0,
{
    assert(sent.push((at, on)).drop_last() =~= sent);
}

/// A note is kept exactly as long as it is less than a minute old, and it is kept as it is.
pub proof fn law_young_notes_are_kept(
    sent: Seq<(u64, Seq<char>)>,
    note: (u64, Seq<char>),
    now: u64,
)
    ensures
        fresh(sent, now).contains(note) <==> sent.contains(note) && now - note.0 < 60_000_000_000,
        fresh(sent.push(note), now) == if now - note.0 < 60_000_000_000 {
            fresh(sent, now).push(note)
        } else {
            fresh(sent, now)
        },
    decreases sent.len(),
{
    assert(sent.push(note).drop_last() =~= sent);
    if sent.len() > 0 {
        let rest = sent.drop_last();
        law_young_notes_are_kept(rest, note, now);
        let kept = fresh(sent, now);
        let fewer = fresh(rest, now);
        if kept.contains(note) {
            let k = choose|k: int| 0 <= k < kept.len() && kept[k] == note;
            if k < fewer.len() {
                assert(fewer[k] == note);
                let i = choose|i: int| 0 <= i < rest.len() && rest[i] == note;
                assert(sent[i] == note);
            } else {
                assert(sent[sent.len() - 1] == note);
            }
        }
        if sent.contains(note) && now - note.0 < 60_000_000_000 {
            let i = choose|i: int| 0 <= i < sent.len() && sent[i] == note;
            if i < rest.len() {
                assert(rest[i] == note);
                assert(fewer.contains(note));
                let k = choose|k: int| 0 <= k < fewer.len() && fewer[k] == note;
                assert(kept[k] == note);
            } else {
                assert(kept[kept.len() - 1] == note);
            }
        }
    }
}

/// The cleaner answers for itself: who it is, and what it has asked for. It makes a pass at once
/// exactly where it is told to, and whatever else it is asked it does not support.
pub proof fn law_cleaner_answers_for_itself(
    table: DedupTable,
    log: SentLog,
    active_link: &str,
    req: Request,
    now: u64,
    version: &str,
    r: (Response, bool),
    recent: u32,
)
    requires
        call_ensures(handle, (&table, &log, active_link, &req, now, version), r),
        call_ensures(SentLog::recent, (&log, active_link, now), recent),
    ensures
        req is Ping ==> (r.0 matches Response::Pong { daemon, version: v } && daemon@ == "cleaner"@
            && v@ == version@),
        req is CleanerStatus ==> (r.0 matches Response::CleanerStatus(s) && s.active_link@
            == active_link@ && s.recent_requests == recent && groups(
            s.in_flight@,
            as_work(table.list()),
        )),
        req is CleanerRunNow ==> r.0 is Okay,
        r.1 <==> req is CleanerRunNow,
        r.0 is Unsupported <==> !(req is Ping || req is CleanerStatus || req is CleanerRunNow),
{
}

/// A request that was just noted counts on its link, and on no other, for the minute that follows.
pub proof fn law_noted_request_counts(
    log: &mut SentLog,
    link: &str,
    other: &str,
    at: u64,
    now: u64,
    before: u32,
    after: u32,
)
    requires
        at <= now,
        call_ensures(SentLog::note, (log, link, at), ()),
        call_ensures(SentLog::recent, (&*final(log), other, now), after),
        call_ensures(SentLog::recent, (&*old(log), other, now), before),
        before < u32::MAX,
    ensures
        other@ == link@ && now - at < 60_000_000_000 ==> after == before + 1,
        other@ != link@ || now - at >= 60_000_000_000 ==> after == before,
{
    let kept = fresh(old(log)@, at);
    law_old_notes_do_not_matter(old(log)@, other@, at, now);
    law_each_note_counts_for_a_minute(kept, at, link@, other@, now);
}

} // verus!
