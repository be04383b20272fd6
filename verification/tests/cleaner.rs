use parachuter::cleaner::dedup::{kind_to, DedupTable, Kind, PersistedEntry, RequestType};
use parachuter::cleaner::handler::{handle, SentLog};
use parachuter::cleaner::pass::{
    active_budget, gaps_of, is_already_pending, plan, range_intersects_any, request_for, unasked,
    Gaps, Pass, Planned,
};
use parachuter::cleaner::runs::{left_of, queued_ranges};
use parachuter::config::{Config, LinkBudget, SenderState};
use parachuter::control::{
    Request, RequestedRange, Response, SenderQueueSnapshot, SenderStatus,
};
use parachuter::reassembler::manifest::{Manifest, SidecarRead};
use parachuter::ledger::{FileRecord, Timestamp};
use parachuter::reassembler::Reassembler;
use parachuter::sender::handler::Findings;
use parachuter::sender::state::SenderRuntime;

const SECOND: u64 = 1_000_000_000;

fn r(start: u32, count: u32) -> RequestedRange {
    RequestedRange { start, count }
}

fn status(pending: Vec<SenderQueueSnapshot>) -> SenderStatus {
    SenderStatus {
        state: SenderState::Auto,
        active_link: "pilot".into(),
        link_ip: "".into(),
        link_port: 0,
        chunk_size: 64,
        max_kbps: 1,
        current_file_id: 0,
        queue_depth: 0,
        pending,
        revision: 0,
    }
}

fn retransmit(file_id: i64, start: u32, count: u32) -> Planned {
    Planned { file_id, range: r(start, count), kind: RequestType::Retransmit }
}

#[test]
fn request_is_not_repeated_within_its_ttl() {
    let mut t = DedupTable::new(300);
    let now = 5 * SECOND;
    assert!(t.try_insert(1, r(0, 4), RequestType::Retransmit, now));
    assert!(!t.try_insert(1, r(0, 4), RequestType::Retransmit, now));
    assert!(!t.try_insert(1, r(0, 4), RequestType::Retransmit, now + 300 * SECOND - 1));
    // Another range, kind or file is another request.
    assert!(t.try_insert(1, r(0, 5), RequestType::Retransmit, now));
    assert!(t.try_insert(1, r(0, 4), RequestType::ResendName, now));
    assert!(t.try_insert(2, r(0, 4), RequestType::Retransmit, now));
    t.gc(now + 299 * SECOND);
    assert_eq!(t.recent_count(), 4);
    assert!(!t.try_insert(1, r(0, 4), RequestType::Retransmit, now + 299 * SECOND));
    assert!(t.try_insert(1, r(0, 4), RequestType::Retransmit, now + 300 * SECOND));
    assert_eq!(t.recent_count(), 4, "an expired entry is replaced");
    t.gc(now + 300 * SECOND);
    assert_eq!(t.recent_count(), 1);
}

#[test]
fn restart_keeps_outstanding_requests() {
    let mut t = DedupTable::new(300);
    t.try_insert(1, r(0, 4), RequestType::Retransmit, 0);
    t.try_insert(2, r(0, 0), RequestType::ResendName, 100 * SECOND);
    let saved = t.save(250 * SECOND + 1);
    assert_eq!(
        saved,
        vec![
            PersistedEntry {
                file_id: 1,
                kind: Kind::Retransmit,
                range: r(0, 4),
                ttl_secs_remaining: 49
            },
            PersistedEntry {
                file_id: 2,
                kind: Kind::ResendName,
                range: r(0, 0),
                ttl_secs_remaining: 149
            },
        ]
    );
    // After a restart the clock starts anew.
    let mut back = DedupTable::load(&saved, 300, 7);
    assert!(!back.try_insert(1, r(0, 4), RequestType::Retransmit, 7 + 49 * SECOND - 1));
    assert!(back.try_insert(1, r(0, 4), RequestType::Retransmit, 7 + 49 * SECOND));
    assert!(!back.try_insert(2, r(0, 0), RequestType::ResendName, 140 * SECOND));
    assert_eq!(t.save(400 * SECOND).len(), 1, "what has expired is not written");
    assert_eq!(DedupTable::load(&vec![], 300, 7).recent_count(), 0);
    let twice = vec![saved[0], PersistedEntry { ttl_secs_remaining: 1, ..saved[0] }];
    let t = DedupTable::load(&twice, 300, 0);
    assert_eq!(t.recent_count(), 1);
}

#[test]
fn entries_are_grouped_by_file() {
    let mut t = DedupTable::new(300);
    t.try_insert(5, r(9, 1), RequestType::Retransmit, 0);
    t.try_insert(2, r(0, 0), RequestType::ResendName, 0);
    t.try_insert(5, r(1, 2), RequestType::Retransmit, 0);
    assert_eq!(
        t.group_by_file(),
        vec![(2, vec![], true), (5, vec![r(9, 1), r(1, 2)], false)]
    );
    assert_eq!(kind_to(RequestType::ResendName), Kind::ResendName);
    assert_eq!(kind_to(RequestType::Retransmit), Kind::Retransmit);
}

#[test]
fn intersections_are_half_open() {
    assert!(range_intersects_any(r(0, 5), &vec![r(9, 1), r(4, 1)]));
    assert!(!range_intersects_any(r(0, 5), &vec![r(5, 1)]));
    assert!(!range_intersects_any(r(5, 5), &vec![r(0, 5)]));
    assert!(range_intersects_any(r(u32::MAX, 5), &vec![r(u32::MAX - 1, 2)]));
    assert!(!range_intersects_any(r(0, 5), &vec![]));
}

#[test]
fn what_the_sender_has_queued_is_pending() {
    let s = Some(status(vec![SenderQueueSnapshot {
        file_id: 3,
        ranges: vec![r(10, 5)],
        manifest_pending: true,
    }]));
    assert!(is_already_pending(&s, 3, r(14, 1), RequestType::Retransmit));
    assert!(!is_already_pending(&s, 3, r(15, 1), RequestType::Retransmit));
    assert!(is_already_pending(&s, 3, r(0, 0), RequestType::ResendName));
    assert!(!is_already_pending(&s, 4, r(14, 1), RequestType::Retransmit));
    assert!(!is_already_pending(&None, 3, r(14, 1), RequestType::Retransmit));
}

#[test]
fn gaps_become_requests_name_first() {
    let re = Reassembler::new("hold", "final");
    let mut m = Manifest::create("p", 4, 10, "");
    for i in [0u32, 1, 4, 5, 9] {
        m.set(i);
    }
    let g = gaps_of(&re, 7, &SidecarRead::Bytes(m.save()));
    assert!(!g.named);
    assert_eq!(g.missing, vec![(2, 2), (6, 3)]);
    let lost = gaps_of(&re, 8, &SidecarRead::Bytes(vec![1]));
    assert!(!lost.named && lost.missing.is_empty());
    let done = Gaps { file_id: 9, named: true, missing: vec![(0, 1)] };
    assert_eq!(
        plan(&vec![g, lost, done], &None),
        vec![
            Planned { file_id: 7, range: r(0, 0), kind: RequestType::ResendName },
            retransmit(7, 2, 2),
            retransmit(7, 6, 3),
            Planned { file_id: 8, range: r(0, 0), kind: RequestType::ResendName },
            retransmit(9, 0, 1),
        ]
    );
}

#[test]
fn requests_become_messages() {
    assert!(matches!(
        request_for(retransmit(7, 2, 3)),
        Request::SenderEnqueue { file_id: 7, start: 2, count: 3, interrupt: true }
    ));
    assert!(matches!(
        request_for(retransmit(7, u32::MAX, 1)),
        Request::SenderEnqueue { start: -1, .. }
    ));
    assert!(matches!(
        request_for(retransmit(7, 0x8000_0000, 1)),
        Request::SenderEnqueue { start: i32::MIN, .. }
    ));
    let name = Planned { file_id: 4, range: r(0, 0), kind: RequestType::ResendName };
    assert!(matches!(request_for(name), Request::SenderResendName { file_id: 4 }));
}

#[test]
fn queued_chunks_are_taken_out_of_the_plan() {
    let re = Reassembler::new("hold", "final");
    let mut m = Manifest::create("p", 4, 10, "n");
    m.set(0);
    m.set(1);
    let g = gaps_of(&re, 7, &SidecarRead::Bytes(m.save()));
    assert_eq!(g.missing, vec![(2, 8)]);
    let of = |file_id: i64, ranges: Vec<RequestedRange>| SenderQueueSnapshot {
        file_id,
        ranges,
        manifest_pending: false,
    };
    let asked = |pending: Vec<SenderQueueSnapshot>| plan(&vec![g.clone()], &Some(status(pending)));
    assert_eq!(asked(vec![of(7, vec![r(2, 3)])]), vec![retransmit(7, 5, 5)]);
    assert_eq!(
        asked(vec![of(7, vec![r(8, 1), r(4, 2), r(5, 2)])]),
        vec![retransmit(7, 2, 2), retransmit(7, 7, 1), retransmit(7, 9, 1)]
    );
    assert_eq!(
        asked(vec![of(7, vec![r(3, 1)]), of(7, vec![r(6, 9)])]),
        vec![retransmit(7, 2, 1), retransmit(7, 4, 2)]
    );
    assert_eq!(asked(vec![of(7, vec![r(0, 10)])]), vec![]);
    // What is queued for another file, elsewhere or not at all does not matter.
    let whole = vec![retransmit(7, 2, 8)];
    assert_eq!(asked(vec![of(8, vec![r(0, 10)])]), whole);
    assert_eq!(asked(vec![of(7, vec![r(0, 2), r(10, 5), r(5, 0)])]), whole);
    assert_eq!(plan(&vec![g.clone()], &None), whole);
}

#[test]
fn queued_name_is_not_asked_for() {
    let g = Gaps { file_id: 7, named: false, missing: vec![] };
    let pending = |manifest_pending: bool| {
        Some(status(vec![SenderQueueSnapshot { file_id: 7, ranges: vec![], manifest_pending }]))
    };
    assert_eq!(plan(&vec![g.clone()], &pending(true)), vec![]);
    assert_eq!(
        plan(&vec![g], &pending(false)),
        vec![Planned { file_id: 7, range: r(0, 0), kind: RequestType::ResendName }]
    );
}

#[test]
fn what_is_left_of_a_range_goes_up_to_the_last_chunk() {
    let queued = Some(status(vec![SenderQueueSnapshot {
        file_id: 7,
        ranges: vec![r(u32::MAX - 3, 2), r(u32::MAX, u32::MAX)],
        manifest_pending: false,
    }]));
    let taken = queued_ranges(&queued, 7);
    assert_eq!(
        left_of(r(u32::MAX - 5, 5), &taken),
        vec![r(u32::MAX - 5, 2), r(u32::MAX - 1, 1)]
    );
    assert_eq!(left_of(r(0, 0), &taken), vec![]);
    assert_eq!(queued_ranges(&queued, 8), vec![]);
    assert_eq!(queued_ranges(&None, 7), vec![]);
}

#[test]
fn chunks_asked_for_lately_are_taken_out_of_the_plan() {
    let mut table = DedupTable::new(300);
    table.try_insert(7, r(2, 3), RequestType::Retransmit, 0);
    table.try_insert(7, r(8, 1), RequestType::Retransmit, 100 * SECOND);
    table.try_insert(7, r(0, 0), RequestType::ResendName, 0);
    let name = Planned { file_id: 7, range: r(0, 0), kind: RequestType::ResendName };
    let planned = vec![name, retransmit(7, 0, 10), retransmit(8, 0, 10)];
    assert_eq!(
        unasked(&planned, &table, 299 * SECOND),
        vec![
            name,
            retransmit(7, 0, 2),
            retransmit(7, 5, 3),
            retransmit(7, 9, 1),
            retransmit(8, 0, 10),
        ]
    );
    assert_eq!(
        unasked(&planned, &table, 300 * SECOND),
        vec![name, retransmit(7, 0, 8), retransmit(7, 9, 1), retransmit(8, 0, 10)]
    );
    assert_eq!(unasked(&planned, &table, 400 * SECOND), planned);
    assert_eq!(table.asked_ranges(7, 299 * SECOND), vec![r(2, 3), r(8, 1)]);
    assert_eq!(table.asked_ranges(8, 0), vec![]);
}

#[test]
fn chunk_is_not_asked_for_twice_when_gaps_shift() {
    // The sender cannot be reached. Between two passes chunks 2 and 3 arrive.
    let re = Reassembler::new("hold", "final");
    let mut m = Manifest::create("p", 4, 10, "n");
    let budget = LinkBudget { max_in_flight: 8, min_period_ms: 0 };
    let mut table = DedupTable::new(300);
    let mut asked = Vec::new();
    for now in [0, 60 * SECOND, 301 * SECOND] {
        let gaps = vec![gaps_of(&re, 7, &SidecarRead::Bytes(m.save()))];
        let planned = unasked(&plan(&gaps, &None), &table, now);
        let mut pass = Pass::new(planned, budget, now);
        while let Some((p, _)) = pass.next_request(&mut table, now) {
            pass.sending(now);
            asked.push((now / SECOND, p.range));
        }
        m.set(2);
        m.set(3);
    }
    assert_eq!(asked, vec![(0, r(0, 10)), (301, r(0, 2)), (301, r(4, 6))]);
}

#[test]
fn pass_skips_caps_and_spaces() {
    let budget = LinkBudget { max_in_flight: 3, min_period_ms: 500 };
    let mut table = DedupTable::new(300);
    let now = 1_000 * SECOND;
    table.try_insert(1, r(0, 1), RequestType::Retransmit, now);
    let planned = vec![
        retransmit(1, 0, 1),
        retransmit(3, 0, 1),
        retransmit(4, 0, 1),
        retransmit(5, 0, 1),
        retransmit(6, 0, 1),
    ];
    let mut pass = Pass::new(planned, budget, now);
    // The first was made lately; nothing was sent for a minute.
    assert_eq!(pass.next_request(&mut table, now), Some((retransmit(3, 0, 1), 0)));
    pass.sending(now);
    // The next one waits for the rest of the period.
    let later = now + SECOND / 10;
    assert_eq!(
        pass.next_request(&mut table, later),
        Some((retransmit(4, 0, 1), 400_000_000))
    );
    pass.sending(now + SECOND / 2);
    let later = now + SECOND;
    assert_eq!(pass.next_request(&mut table, later), Some((retransmit(5, 0, 1), 0)));
    pass.sending(later);
    // The budget is used up, whatever the sender made of the requests.
    assert_eq!(pass.next_request(&mut table, later + SECOND), None);
    // What was asked for is in the table.
    assert!(!table.try_insert(4, r(0, 1), RequestType::Retransmit, later));
    assert!(table.try_insert(6, r(0, 1), RequestType::Retransmit, later));
}

#[test]
fn pass_sends_no_more_than_its_budget() {
    for max_in_flight in [0u32, 1, 4] {
        let budget = LinkBudget { max_in_flight, min_period_ms: 0 };
        let mut table = DedupTable::new(300);
        let planned: Vec<Planned> = (0..20).map(|id| retransmit(id, 0, 1)).collect();
        let mut pass = Pass::new(planned, budget, 0);
        let mut sent = 0;
        while let Some((p, wait)) = pass.next_request(&mut table, SECOND) {
            assert_eq!((p.file_id, wait), (sent as i64, 0));
            pass.sending(SECOND);
            sent += 1;
        }
        assert_eq!(sent, max_in_flight);
    }
}

#[test]
fn long_periods_wait_for_what_a_minute_leaves() {
    let budget = LinkBudget { max_in_flight: 1, min_period_ms: 90_000 };
    let mut table = DedupTable::new(1);
    let mut pass = Pass::new(vec![retransmit(1, 0, 1)], budget, 0);
    assert_eq!(
        pass.next_request(&mut table, 0),
        Some((retransmit(1, 0, 1), 30 * SECOND as u128))
    );
    assert_eq!(pass.next_request(&mut table, 0), None);
}

#[test]
fn budget_of_the_active_link() {
    let mut c = Config::default();
    assert_eq!(active_budget(&c), Ok(LinkBudget { max_in_flight: 8, min_period_ms: 500 }));
    c.cleaner.active_link = "x".into();
    assert_eq!(active_budget(&c), Err("no link budget for `x`".to_string()));
}

#[test]
fn status_counts_the_last_minute_on_the_active_link() {
    let mut table = DedupTable::new(300);
    table.try_insert(5, r(9, 1), RequestType::Retransmit, 0);
    let mut log = SentLog::new();
    log.note("pilot", 0);
    log.note("pilot", 30 * SECOND);
    log.note("los", 40 * SECOND);
    let ask = |now: u64| match handle(&table, &log, "pilot", &Request::CleanerStatus, now, "1") {
        (Response::CleanerStatus(s), false) => s,
        other => panic!("{other:?}"),
    };
    assert_eq!(ask(59 * SECOND).recent_requests, 2);
    assert_eq!(ask(60 * SECOND).recent_requests, 1);
    assert_eq!(ask(90 * SECOND).recent_requests, 0);
    let s = ask(0);
    assert_eq!(s.active_link, "pilot");
    assert_eq!(s.in_flight.len(), 1);
    assert_eq!(s.in_flight[0].ranges, vec![r(9, 1)]);
    log.note("pilot", 95 * SECOND);
    assert_eq!(log.recent("los", 99 * SECOND), 1);
    assert_eq!(log.recent("pilot", 99 * SECOND), 1);
}

#[test]
fn cleaner_answers_requests() {
    let table = DedupTable::new(1);
    let log = SentLog::new();
    let ask = |req: Request| handle(&table, &log, "pilot", &req, 0, "9");
    assert!(matches!(
        ask(Request::Ping),
        (Response::Pong { daemon, version }, false) if daemon == "cleaner" && version == "9"
    ));
    assert!(matches!(ask(Request::CleanerRunNow), (Response::Okay, true)));
    assert!(matches!(ask(Request::SenderStatus), (Response::Unsupported, false)));
    assert!(matches!(ask(Request::SenderFlush), (Response::Unsupported, false)));
}

#[test]
fn missing_ranges_are_queued_as_asked() {
    let mut m = Manifest::create("p", 32, 10, "n");
    for i in [0u32, 1, 4, 5, 9] {
        m.set(i);
    }
    let g = gaps_of(&Reassembler::new("h", "f"), 7, &SidecarRead::Bytes(m.save()));
    let mut cfg = Config::default();
    cfg.sender.chunk_size = 64;
    let mut rt = SenderRuntime::new(&cfg, 0);
    for p in unasked(&plan(&vec![g], &None), &DedupTable::new(1), 0) {
        let record = FileRecord {
            file_id: 7,
            file_name: "n".into(),
            file_size: 320,
            created_at: Timestamp { secs: 0, nanos: 0 },
            images_per_dark: 0,
            images_per_flat: 0,
            images_per_bias: 0,
            still_exists: true,
            chunk_size: 64,
            sha256: None,
        };
        let found = Findings::Record(Ok(Some(record)));
        assert!(matches!(rt.handle(&cfg, request_for(p), found, "1"), Response::Okay));
    }
    let pending = rt.status(&cfg).pending;
    assert_eq!(pending.len(), 1);
    assert_eq!(pending[0].ranges, vec![r(6, 3), r(2, 2)]);
}
