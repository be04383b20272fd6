use parachuter::chunker::FileProbe;
use parachuter::config::{Config, SenderState};
use parachuter::control::{LinkOverride, Request, RequestedRange, Response};
use parachuter::error::Error;
use parachuter::ledger::{FileRecord, Timestamp};
use parachuter::proto::{Packet, PacketType};
use parachuter::sender::handler::{needed, Findings, Needed};
use parachuter::sender::queue::WorkItem;
use parachuter::sender::scanner::Candidate;
use parachuter::sender::state::{
    absolute_path, status_dump_path, Opened, PathProbe, SenderRuntime, Submission,
};

const SECOND: u64 = 1_000_000_000;

fn record(file_id: i64, name: &str, file_size: u64) -> FileRecord {
    FileRecord {
        file_id,
        file_name: name.into(),
        file_size,
        created_at: Timestamp { secs: 0, nanos: 0 },
        images_per_dark: 0,
        images_per_flat: 0,
        images_per_bias: 0,
        still_exists: true,
        chunk_size: 64,
        sha256: None,
    }
}

fn setup() -> (Config, SenderRuntime) {
    let mut cfg = Config::default();
    cfg.sender.chunk_size = 64;
    let rt = SenderRuntime::new(&cfg, 10_000 * SECOND);
    (cfg, rt)
}

/// The packets that the sender sends until its queue is empty.
fn drain(rt: &mut SenderRuntime, cfg: &Config, contents: &[u8], name: &str) -> Vec<Packet> {
    let mut out = Vec::new();
    while let Some(job) = rt.begin_send(cfg) {
        let rec = job.needs_record().map(|id| record(id, name, contents.len() as u64));
        let path = job.file_path(rec).unwrap();
        let c = match job.open(&path, FileProbe::Size(contents.len() as u64)).unwrap() {
            Opened::Ready(c) => c,
            Opened::Gone => panic!("gone"),
        };
        let (at, len) = job.read_span(&c).unwrap();
        let read = contents[at as usize..at as usize + len].to_vec();
        let bytes = job.datagram(&path, &c, read).unwrap();
        out.push(Packet::decode(&bytes).unwrap());
        rt.sent(&job);
    }
    out
}

#[test]
fn fresh_sender_reports_its_configuration() {
    let (cfg, rt) = setup();
    let s = rt.status(&cfg);
    assert_eq!(s.state, SenderState::Auto);
    assert_eq!(s.active_link, "pilot");
    assert_eq!((s.link_ip.as_str(), s.link_port, s.max_kbps), ("192.168.98.24", 41410, 1000));
    assert_eq!(s.chunk_size, 64);
    assert_eq!((s.current_file_id, s.queue_depth, s.revision), (0, 0, 0));
    assert!(s.pending.is_empty());
    assert_eq!(rt.rate_kbps(), 1000);
}

#[test]
fn submitted_file_is_sent_name_first_then_in_order() {
    let (cfg, mut rt) = setup();
    let contents: Vec<u8> = (0..100u8).collect();
    let probe = PathProbe::Regular { size: 100, created: None, modified: None };
    let now = Timestamp { secs: 5, nanos: 0 };
    let s = rt.submit(&cfg, "/f", &Some("/cwd".into()), probe, now).unwrap();
    assert_eq!((s.name.as_str(), s.size, s.created_at, s.chunk_size), ("/f", 100, now, 64));
    let ack = rt.registered(3, s, false);
    assert_eq!((ack.file_id, ack.num_chunks, ack.file_size), (3, 4, 100));
    let st = rt.status(&cfg);
    assert_eq!((st.queue_depth, st.current_file_id, st.revision), (5, 3, 2));
    assert!(st.pending[0].manifest_pending);

    let sent = drain(&mut rt, &cfg, &contents, "/f");
    assert_eq!(sent.len(), 5);
    assert_eq!(sent[0].ptype, PacketType::Manifest);
    assert_eq!(sent[0].payload, b"/f");
    let mut all = Vec::new();
    for (i, p) in sent[1..].iter().enumerate() {
        assert_eq!(p.ptype, PacketType::Data);
        assert_eq!((p.file_id, p.chunk_id, p.num_chunks), (3, i as u32, 4));
        assert_eq!(p.flags.is_last(), i == 3);
        all.extend_from_slice(&p.payload);
    }
    assert_eq!(all, contents);
}

#[test]
fn interrupting_submission_goes_to_the_head_name_first() {
    let (cfg, mut rt) = setup();
    let sub = |n: &str| Submission {
        name: n.into(),
        size: 10,
        created_at: Timestamp { secs: 0, nanos: 0 },
        images_per_dark: 0,
        images_per_flat: 0,
        images_per_bias: 0,
        chunk_size: 64,
    };
    rt.registered(1, sub("a"), false);
    rt.registered(2, sub("b"), true);
    let sent = drain(&mut rt, &cfg, &[0; 10], "x");
    let kinds: Vec<(i64, PacketType)> = sent.iter().map(|p| (p.file_id, p.ptype)).collect();
    assert_eq!(
        kinds,
        vec![
            (2, PacketType::Manifest),
            (2, PacketType::Data),
            (1, PacketType::Manifest),
            (1, PacketType::Data),
        ]
    );
}

#[test]
fn submission_failures() {
    let (cfg, rt) = setup();
    let now = Timestamp { secs: 0, nanos: 0 };
    let cwd = None;
    assert!(matches!(
        rt.submit(&cfg, "/x", &cwd, PathProbe::NotFound, now),
        Err(Error::NotFound(p)) if p == "/x"
    ));
    assert!(matches!(
        rt.submit(&cfg, "/x", &cwd, PathProbe::Failed("no".into()), now),
        Err(Error::Io(e)) if e == "no"
    ));
    assert!(matches!(
        rt.submit(&cfg, "/x", &cwd, PathProbe::NotRegular, now),
        Err(Error::BadConfig(why)) if why == "/x is not a regular file"
    ));
    assert!(matches!(
        rt.submit(&cfg, "/x", &cwd, PathProbe::Unreadable("permission denied".into()), now),
        Err(Error::Io(e)) if e == "permission denied"
    ));
    assert_eq!(absolute_path("r/f", &Some("/cwd".into())), "/cwd/r/f");
    assert_eq!(absolute_path("/r/f", &Some("/cwd".into())), "/r/f");
    assert_eq!(absolute_path("r/f", &None), "r/f");
}

#[test]
fn scanned_file_is_registered_like_a_submitted_one() {
    let (mut cfg, rt) = setup();
    cfg.sender.images_per_dark = 4;
    let c = Candidate { path: "/q/a".into(), size: 9, created_at: Timestamp { secs: 1, nanos: 2 } };
    let s = rt.scanned(&cfg, &c);
    assert_eq!((s.name.as_str(), s.size, s.images_per_dark, s.chunk_size), ("/q/a", 9, 4, 64));
    assert_eq!(s.created_at, c.created_at);
}

#[test]
fn enqueue_whole_file_range_and_errors() {
    let (cfg, mut rt) = setup();
    // 100 bytes at 32 per chunk are 4 chunks.
    assert!(matches!(
        rt.enqueue(&cfg, 7, None, -1, 0, false),
        Err(Error::BadConfig(why)) if why == "unknown file_id 7"
    ));
    assert_eq!(
        rt.enqueue(&cfg, 7, Some(record(7, "f", 100)), 4, 1, false),
        Err(Error::OutOfRange { index: 4, total: 4 })
    );
    assert_eq!(rt.status(&cfg).revision, 0);
    rt.enqueue(&cfg, 7, Some(record(7, "f", 100)), 1, 0, false).unwrap();
    rt.enqueue(&cfg, 7, Some(record(7, "f", 100)), 2, 99, false).unwrap();
    rt.enqueue(&cfg, 8, Some(record(8, "g", 100)), 0, 2, true).unwrap();
    let s = rt.status(&cfg);
    assert_eq!(s.current_file_id, 8);
    assert_eq!(
        s.pending[0].ranges,
        vec![RequestedRange { start: 1, count: 1 }, RequestedRange { start: 2, count: 2 }]
    );
    let sent = drain(&mut rt, &cfg, &[1; 100], "f");
    let ids: Vec<(i64, u32, PacketType)> =
        sent.iter().map(|p| (p.file_id, p.chunk_id, p.ptype)).collect();
    let re = PacketType::Retransmit;
    assert_eq!(ids, vec![(8, 0, re), (8, 1, re), (7, 1, re), (7, 2, re), (7, 3, re)]);
    rt.enqueue(&cfg, 9, Some(record(9, "h", 0)), -1, 0, false).unwrap();
    assert_eq!(rt.status(&cfg).queue_depth, 2);
}

#[test]
fn resend_name_goes_to_the_head() {
    let (cfg, mut rt) = setup();
    rt.enqueue(&cfg, 7, Some(record(7, "f", 100)), 0, 1, false).unwrap();
    rt.resend_name(8, Some(record(8, "g", 1))).unwrap();
    assert_eq!(rt.status(&cfg).current_file_id, 8);
    assert!(matches!(rt.resend_name(9, None), Err(Error::BadConfig(_))));
}

#[test]
fn overrides_take_precedence_and_faults_stop_halfway() {
    let (cfg, mut rt) = setup();
    let mut o = LinkOverride::default();
    o.active_link = Some("tdrss".into());
    rt.apply_override(&cfg, o).unwrap();
    let s = rt.status(&cfg);
    assert_eq!(
        (s.active_link.as_str(), s.link_ip.as_str(), s.link_port, s.max_kbps),
        ("tdrss", "239.255.0.2", 41410, 30)
    );
    assert_eq!(rt.rate_kbps(), 30);

    let mut o = LinkOverride::default();
    o.active_link = Some("nope".into());
    o.max_kbps = Some(1);
    assert!(matches!(
        rt.apply_override(&cfg, o),
        Err(Error::BadConfig(why)) if why == "unknown link `nope`"
    ));
    assert_eq!(rt.status(&cfg).max_kbps, 30);

    let mut o = LinkOverride::default();
    o.active_link = Some("los".into());
    o.chunk_size = Some(3);
    o.link_port = Some(1);
    assert_eq!(rt.apply_override(&cfg, o), Err(Error::BadChunkSize(3)));
    let s = rt.status(&cfg);
    assert_eq!((s.active_link.as_str(), s.link_port, s.chunk_size), ("los", 41410, 64));

    let mut o = LinkOverride::default();
    o.chunk_size = Some(128);
    o.max_kbps = Some(9);
    o.link_ip = Some("10.0.0.5".into());
    o.link_port = Some(9000);
    rt.apply_override(&cfg, o).unwrap();
    let s = rt.status(&cfg);
    assert_eq!(
        (s.chunk_size, s.max_kbps, s.link_ip.as_str(), s.link_port),
        (128, 9, "10.0.0.5", 9000)
    );
    assert_eq!(rt.rate_kbps(), 9);
}

#[test]
fn link_that_has_gone_falls_back_to_the_first() {
    let (cfg, mut rt) = setup();
    let mut o = LinkOverride::default();
    o.active_link = Some("tdrss".into());
    rt.apply_override(&cfg, o).unwrap();
    let mut other = Config::default();
    other.links = parachuter::names::NameMap::new();
    other.links.insert("pilot".into(), cfg.links.get("pilot").unwrap().clone());
    other.sender.chunk_size = 64;
    let (key, ip, _, kbps) = rt.current_link(&other);
    assert_eq!((key.as_str(), ip.as_str(), kbps), ("tdrss", "192.168.98.24", 1000));
}

#[test]
fn states_decide_what_is_sent_and_kept() {
    let (cfg, mut rt) = setup();
    for s in [SenderState::Manual, SenderState::Paused, SenderState::Debug] {
        rt.set_state(SenderState::Auto);
        rt.enqueue(&cfg, 1, Some(record(1, "f", 1)), -1, 0, false).unwrap();
        rt.set_state(SenderState::Auto);
        assert_eq!(rt.status(&cfg).queue_depth, 2);
        rt.set_state(s);
        assert_eq!(rt.status(&cfg).queue_depth, 0);
        assert_eq!(rt.state(), s);
    }
    rt.set_state(SenderState::Paused);
    rt.enqueue(&cfg, 1, Some(record(1, "f", 1)), -1, 0, false).unwrap();
    assert!(rt.begin_send(&cfg).is_none());
    assert_eq!(rt.status(&cfg).queue_depth, 2);
    rt.flush();
    assert_eq!(rt.status(&cfg).queue_depth, 0);
    assert!(rt.depth_fits());
}

#[test]
fn gone_files_and_unknown_ones() {
    let (cfg, mut rt) = setup();
    rt.enqueue(&cfg, 1, Some(record(1, "f", 1)), 0, 1, false).unwrap();
    rt.resend_name(2, Some(record(2, "g", 1))).unwrap();
    let name = rt.begin_send(&cfg).unwrap();
    assert_eq!(name.needs_record(), None);
    assert!(matches!(name.open("g", FileProbe::NotFound), Err(Error::NotFound(p)) if p == "g"));
    let data = rt.begin_send(&cfg).unwrap();
    assert_eq!(data.needs_record(), Some(1));
    assert!(matches!(
        data.file_path(None),
        Err(Error::BadConfig(why)) if why == "unknown file_id 1"
    ));
    assert!(matches!(data.open("f", FileProbe::NotFound), Ok(Opened::Gone)));
    assert!(matches!(data.open("f", FileProbe::Failed("x".into())), Err(Error::Io(_))));
    assert_eq!(data.ip, "192.168.98.24");
    assert_eq!(data.port, 41410);
    assert!(matches!(data.item, WorkItem::Retransmit { .. }));
}

#[test]
fn work_is_looked_for_and_ledgers_dumped_on_time() {
    let mut cfg = Config::default();
    let start = 10_000 * SECOND;
    let mut rt = SenderRuntime::new(&cfg, start);
    // The first look is due at once.
    assert!(rt.due_for_scan(&cfg, start));
    assert!(!rt.due_for_scan(&cfg, start + 100 * SECOND - 1));
    assert!(rt.due_for_scan(&cfg, start + 100 * SECOND));
    assert!(!rt.due_for_dump(&cfg, start + 21_600 * SECOND - 1));
    assert!(rt.due_for_dump(&cfg, start + 21_600 * SECOND));
    assert!(!rt.due_for_dump(&cfg, start + 21_601 * SECOND));
    rt.set_state(SenderState::Manual);
    assert!(!rt.due_for_scan(&cfg, start + 9_000 * SECOND));
    rt.set_state(SenderState::Debug);
    assert!(rt.due_for_scan(&cfg, start + 9_000 * SECOND));
    cfg.sender.recheck_period_secs = 7_200;
    let mut late = SenderRuntime::new(&cfg, start);
    assert!(!late.due_for_scan(&cfg, start + 3_599 * SECOND));
    assert!(late.due_for_scan(&cfg, start + 3_600 * SECOND));
}

#[test]
fn debug_state_has_directories_of_its_own() {
    let (mut cfg, mut rt) = setup();
    cfg.sender.priority_dirs = vec!["/live".into()];
    cfg.sender.priority_dirs_debug = vec!["/debug".into()];
    assert_eq!(rt.scan_dirs(&cfg), &vec!["/live".to_string()]);
    rt.set_state(SenderState::Debug);
    assert_eq!(rt.scan_dirs(&cfg), &vec!["/debug".to_string()]);
    assert_eq!(
        status_dump_path(&cfg, 12),
        ("/live/status_dumps".to_string(), "/live/status_dumps/files_sent_list_12.csv".to_string())
    );
    cfg.sender.priority_dirs.clear();
    assert_eq!(
        status_dump_path(&cfg, -1).1,
        "/tmp/parachuter/files_sent_list_-1.csv"
    );
}

#[test]
fn requests_are_answered() {
    let (cfg, mut rt) = setup();
    let v = "1.2";
    assert!(matches!(
        rt.handle(&cfg, Request::Ping, Findings::Nothing, v),
        Response::Pong { daemon, version } if daemon == "sender" && version == "1.2"
    ));
    let enqueue = Request::SenderEnqueue { file_id: 5, start: 9, count: 1, interrupt: false };
    assert!(matches!(needed(&enqueue), Needed::Record(5)));
    assert!(matches!(
        rt.handle(&cfg, enqueue.clone(), Findings::Record(Ok(Some(record(5, "f", 1)))), v),
        Response::Error { message } if message == "chunk index 9 out of range (have 1)"
    ));
    assert!(matches!(
        rt.handle(&cfg, enqueue.clone(), Findings::Record(Ok(None)), v),
        Response::Error { message } if message == "invalid config: unknown file_id 5"
    ));
    assert!(matches!(
        rt.handle(&cfg, enqueue, Findings::Record(Err(Error::Sqlite("locked".into()))), v),
        Response::Error { message } if message == "sqlite error: locked"
    ));
    let whole = Request::SenderEnqueue { file_id: 5, start: -1, count: 0, interrupt: false };
    assert!(matches!(
        rt.handle(&cfg, whole, Findings::Record(Ok(Some(record(5, "f", 1)))), v),
        Response::Okay
    ));
    assert!(matches!(
        rt.handle(&cfg, Request::SenderStatus, Findings::Nothing, v),
        Response::SenderStatus(s) if s.queue_depth == 2
    ));
    let name = Request::SenderResendName { file_id: 6 };
    assert!(matches!(needed(&name), Needed::Record(6)));
    assert!(matches!(
        rt.handle(&cfg, name, Findings::Record(Ok(Some(record(6, "g", 1)))), v),
        Response::Okay
    ));
    let mut o = LinkOverride::default();
    o.chunk_size = Some(1);
    assert!(matches!(
        rt.handle(&cfg, Request::SenderConfigure(o), Findings::Nothing, v),
        Response::BadRequest { reason } if reason == "invalid chunk size: 1"
    ));
    let submit = Request::SenderSubmit { path: "/f".into(), interrupt: true };
    assert!(matches!(needed(&submit), Needed::Submission(p, true) if p == "/f"));
    assert!(matches!(
        rt.handle(&cfg, submit, Findings::Submission(Err(Error::NotFound("/f".into()))), v),
        Response::Error { message } if message == "path not found: /f"
    ));
    assert!(matches!(
        rt.handle(&cfg, Request::SenderFlush, Findings::Nothing, v),
        Response::Okay
    ));
    assert!(matches!(
        rt.handle(&cfg, Request::SenderSetState(SenderState::Paused), Findings::Nothing, v),
        Response::Okay
    ));
    assert_eq!(rt.state(), SenderState::Paused);
    for other in [Request::ReceiverStatus, Request::CleanerStatus, Request::CleanerRunNow] {
        assert!(matches!(
            rt.handle(&cfg, other, Findings::Nothing, v),
            Response::Unsupported
        ));
    }
}
