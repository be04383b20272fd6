use parachuter::config::SenderState;
use parachuter::control::frame::{announced_length, frame, malformed, request_length};
use parachuter::control::{
    AssemblyState, ControlClient, LinkOverride, ReceiverStatus, Request, Response,
};
use parachuter::ctl::{action_for, parse_state, status_request, CtlAction, CtlCmd};
use parachuter::error::Error;
use parachuter::monitor::render;
use parachuter::reassembler::manifest::{Manifest, SidecarRead};
use parachuter::reassembler::{IngestOutcome, Reassembler};
use parachuter::receiver::{groups_to_join, handle, is_finished, snapshot, Found};

#[test]
fn frames_carry_their_length_in_front() {
    let f = frame(b"{\"op\":\"ping\"}");
    assert_eq!(&f[..4], &[0, 0, 0, 13]);
    assert_eq!(&f[4..], b"{\"op\":\"ping\"}");
    assert_eq!(announced_length(&f[..4]), 13);
    assert_eq!(frame(b""), vec![0, 0, 0, 0]);
    assert_eq!(announced_length(&[1, 2, 3, 4]), 0x01020304);
}

#[test]
fn long_requests_are_not_read() {
    assert_eq!(request_length(&1_000_000u32.to_be_bytes()), Some(1_000_000));
    assert_eq!(request_length(&1_000_001u32.to_be_bytes()), None);
    assert!(matches!(
        malformed("eof"),
        Response::BadRequest { reason } if reason == "malformed json: eof"
    ));
}

#[test]
fn client_knows_its_path_and_a_pong() {
    let c = ControlClient::new("/run/x.sock");
    assert_eq!(c.path(), "/run/x.sock");
    let pong = Response::Pong { daemon: "sender".into(), version: "1".into() };
    assert!(ControlClient::alive(&Some(pong)));
    assert!(!ControlClient::alive(&Some(Response::Okay)));
    assert!(!ControlClient::alive(&None));
}

#[test]
fn commands_become_requests() {
    let send = |cmd: CtlCmd| match action_for(cmd, "/cwd") {
        Ok(CtlAction::Send(r)) => r,
        other => panic!("{other:?}"),
    };
    assert!(matches!(send(CtlCmd::Ping), Request::Ping));
    assert!(matches!(action_for(CtlCmd::Status, "/"), Ok(CtlAction::Status)));
    let set = CtlCmd::SetLink {
        link: Some("los".into()),
        chunk_size: None,
        kbps: Some(3),
        ip: None,
        port: Some(4),
    };
    assert!(matches!(
        send(set),
        Request::SenderConfigure(LinkOverride {
            active_link: Some(l),
            chunk_size: None,
            max_kbps: Some(3),
            link_ip: None,
            link_port: Some(4),
        }) if l == "los"
    ));
    assert!(matches!(
        send(CtlCmd::SetState { state: "debug".into() }),
        Request::SenderSetState(SenderState::Debug)
    ));
    assert!(matches!(
        action_for(CtlCmd::SetState { state: "asleep".into() }, "/"),
        Err(why) if why == "unknown state `asleep`"
    ));
    assert!(matches!(
        send(CtlCmd::Submit { path: "a/b".into(), interrupt: true }),
        Request::SenderSubmit { path, interrupt: true } if path == "/cwd/a/b"
    ));
    assert!(matches!(
        send(CtlCmd::Submit { path: "/a/b".into(), interrupt: false }),
        Request::SenderSubmit { path, interrupt: false } if path == "/a/b"
    ));
    assert!(matches!(
        send(CtlCmd::Enqueue { file_id: 1, start: -1, count: 2, interrupt: true }),
        Request::SenderEnqueue { file_id: 1, start: -1, count: 2, interrupt: true }
    ));
    assert!(matches!(
        send(CtlCmd::ResendName { file_id: 8 }),
        Request::SenderResendName { file_id: 8 }
    ));
    assert!(matches!(send(CtlCmd::Flush), Request::SenderFlush));
    assert!(matches!(send(CtlCmd::CleanerRun), Request::CleanerRunNow));
    assert_eq!(parse_state("auto"), Ok(SenderState::Auto));
    assert_eq!(parse_state("manual"), Ok(SenderState::Manual));
    assert_eq!(parse_state("paused"), Ok(SenderState::Paused));
}

#[test]
fn status_request_follows_the_daemon() {
    let pong = |d: &str| Response::Pong { daemon: d.into(), version: "1".into() };
    assert!(matches!(status_request(&pong("sender")), Some(Request::SenderStatus)));
    assert!(matches!(status_request(&pong("receiver")), Some(Request::ReceiverStatus)));
    assert!(matches!(status_request(&pong("cleaner")), Some(Request::CleanerStatus)));
    assert!(status_request(&pong("toaster")).is_none());
    assert!(status_request(&Response::Unsupported).is_none());
}

#[test]
fn receiver_reports_usable_assemblies() {
    let r = Reassembler::new("hold", "final");
    let mut m = Manifest::create("p", 4, 3, "n");
    m.set(1);
    let found = vec![
        Found { file_id: 1, sidecar: SidecarRead::Bytes(m.save()), age_secs: Some(12) },
        Found { file_id: 2, sidecar: SidecarRead::Missing, age_secs: Some(1) },
        Found { file_id: 3, sidecar: SidecarRead::Bytes(m.save()), age_secs: None },
    ];
    let s = snapshot(&r, "0.0.0.0:41410", &found);
    assert_eq!(s.bind, "0.0.0.0:41410");
    let state = |file_id: i64, age_secs: u64| AssemblyState {
        file_id,
        chunks_total: 3,
        chunks_received: 1,
        has_name: true,
        age_secs,
    };
    assert_eq!(s.assemblies, vec![state(1, 12), state(3, 0)]);
    assert!(is_finished(IngestOutcome::Complete));
    assert!(!is_finished(IngestOutcome::Accepted));
}

#[test]
fn receiver_answers_requests() {
    let status = || ReceiverStatus { bind: "b".into(), assemblies: vec![] };
    assert!(matches!(
        handle(&Request::Ping, Ok(status()), "3"),
        Response::Pong { daemon, version } if daemon == "receiver" && version == "3"
    ));
    assert!(matches!(
        handle(&Request::ReceiverStatus, Ok(status()), "3"),
        Response::ReceiverStatus(s) if s.bind == "b"
    ));
    assert!(matches!(
        handle(&Request::ReceiverStatus, Err(Error::Io("gone".into())), "3"),
        Response::Error { message } if message == "io error: gone"
    ));
    assert!(matches!(handle(&Request::SenderStatus, Ok(status()), "3"), Response::Unsupported));
}

#[test]
fn multicast_groups_are_joined_once() {
    let addrs = vec![
        Some((224, 0, 0, 0)),
        Some((192, 168, 98, 24)),
        None,
        Some((239, 255, 255, 255)),
        Some((224, 0, 0, 0)),
        Some((223, 255, 255, 255)),
        Some((240, 0, 0, 0)),
        Some((224, 0, 0, 1)),
    ];
    let mut groups = groups_to_join(&addrs);
    groups.sort_unstable();
    assert_eq!(groups, vec![(224, 0, 0, 0), (224, 0, 0, 1), (239, 255, 255, 255)]);
    assert_eq!(groups_to_join(&vec![Some((0, 0, 0, 0)), None]), vec![]);
}

#[test]
fn display_is_a_right_aligned_table() {
    let a = |file_id: i64, chunks_received: u32, has_name: bool| AssemblyState {
        file_id,
        chunks_total: 4_000_000_000,
        chunks_received,
        has_name,
        age_secs: 12_345_678_901,
    };
    let s = ReceiverStatus {
        bind: "0.0.0.0:1".into(),
        assemblies: vec![a(-7, 4_000_000_000, true), a(12, 300_000_000, false)],
    };
    assert_eq!(
        render(&s),
        "parachuter monitor — receiver 0.0.0.0:1\n\n   \
         file_id   received      total      age_s  has_name\n        \
         -7 4000000000 4000000000 12345678901  yes\n        \
         12  300000000 4000000000 12345678901  no\n\n\
         in-flight: 2  total chunks received: 4300000000\n"
    );
}

#[test]
fn errors_describe_themselves() {
    for (e, text) in [
        (Error::Io("a".into()), "io error: a"),
        (Error::Sqlite("b".into()), "sqlite error: b"),
        (Error::Json("c".into()), "json error: c"),
        (Error::Toml("d".into()), "toml error: d"),
        (Error::NotFound("/e".into()), "path not found: /e"),
        (Error::BadPacket("f"), "malformed packet: f"),
        (Error::BadManifest("g".into()), "manifest corrupt: g"),
        (Error::BadChunkSize(1000), "invalid chunk size: 1000"),
        (Error::BadConfig("h".into()), "invalid config: h"),
        (
            Error::OutOfRange { index: 4_294_967_295, total: 10 },
            "chunk index 4294967295 out of range (have 10)",
        ),
    ] {
        assert_eq!(e.message(), text);
    }
}
