//! The control CLI: which request a command stands for.

use vstd::prelude::*;

use crate::cleaner::dedup::DedupTable;
use crate::cleaner::handler::SentLog;
use crate::config::SenderState;
use crate::control::messages::{LinkOverride, ReceiverStatus, Request, Response};
use crate::error::Error;
use crate::text::{path_join, path_under, prefixed, same_text};

verus! {

/// A command line of the control CLI.
#[derive(Debug, Clone)]
pub struct CtlArgs {
    /// Path to the daemon's Unix domain socket.
    pub socket: String,
    /// What to do.
    pub cmd: CtlCmd,
}

/// A command of the control CLI.
#[derive(Debug, Clone)]
pub enum CtlCmd {
    /// Check whether a daemon answers and report its identity.
    Ping,
    /// Print the daemon's status.
    Status,
    /// Override link / chunk size / kbps. Anything not provided is left alone.
    SetLink {
        link: Option<String>,
        chunk_size: Option<usize>,
        kbps: Option<u64>,
        ip: Option<String>,
        port: Option<u16>,
    },
    /// Switch the sender's state. One of: auto, manual, paused, debug.
    SetState { state: String },
    /// Submit an arbitrary file to the sender.
    Submit {
        /// Path of the file to enqueue.
        path: String,
        /// Push to the head of the queue (preempt the current send).
        interrupt: bool,
    },
    /// Manually queue a file already in the ledger.
    Enqueue {
        file_id: i64,
        /// First chunk; -1 means whole file.
        start: i32,
        /// Number of chunks; ignored when start == -1.
        count: u32,
        /// Push to the head of the queue.
        interrupt: bool,
    },
    /// Resend just the manifest (filename) packet for a file.
    ResendName { file_id: i64 },
    /// Drop everything from the sender's queue.
    Flush,
    /// Tell the cleaner to scan immediately.
    CleanerRun,
}

/// What a command comes to.
#[derive(Debug, Clone)]
pub enum CtlAction {
    /// Ask the daemon who it is, and then for its status.
    Status,
    /// Send this request.
    Send(Request),
}

/// The state that a word stands for.
pub open spec fn state_named(word: Seq<char>) -> Option<SenderState> {
    if word == "auto"@ {
        Some(SenderState::Auto)
    } else if word == "manual"@ {
        Some(SenderState::Manual)
    } else if word == "paused"@ {
        Some(SenderState::Paused)
    } else if word == "debug"@ {
        Some(SenderState::Debug)
    } else {
        None
    }
}

/// The state that a word stands for.
pub fn parse_state(word: &str) -> (r: Result<SenderState, String>)
    ensures
        match r {
            Ok(s) => state_named(word@) == Some(s),
            Err(why) => state_named(word@) is None && why@ == "unknown state `"@ + word@ + "`"@,
        },
{
    if same_text(word, "auto") {
        return Ok(SenderState::Auto);
    }
    if same_text(word, "manual") {
        return Ok(SenderState::Manual);
    }
    if same_text(word, "paused") {
        return Ok(SenderState::Paused);
    }
    if same_text(word, "debug") {
        return Ok(SenderState::Debug);
    }
    let mut why = prefixed("unknown state `", word);
    why.append("`");
    Err(why)
}

/// What a command comes to. A relative path is taken from the current directory.
pub fn action_for(cmd: CtlCmd, cwd: &str) -> (r: Result<CtlAction, String>)
    ensures
        match cmd {
            CtlCmd::Ping => r == Ok::<CtlAction, String>(CtlAction::Send(Request::Ping)),
            CtlCmd::Status => r == Ok::<CtlAction, String>(CtlAction::Status),
            CtlCmd::SetLink { link, chunk_size, kbps, ip, port } => r == Ok::<CtlAction, String>(
                CtlAction::Send(
                    Request::SenderConfigure(
                        LinkOverride {
                            active_link: link,
                            chunk_size,
                            max_kbps: kbps,
                            link_ip: ip,
                            link_port: port,
                        },
                    ),
                ),
            ),
            CtlCmd::SetState { state } => match state_named(state@) {
                Some(s) => r == Ok::<CtlAction, String>(
                    CtlAction::Send(Request::SenderSetState(s)),
                ),
                None => r matches Err(why) && why@ == "unknown state `"@ + state@ + "`"@,
            },
            CtlCmd::Submit { path, interrupt } => {
                &&& r matches Ok(CtlAction::Send(Request::SenderSubmit { path: p, interrupt: i }))
                &&& p@ == path_under(cwd@, path@)
                &&& i == interrupt
            },
            CtlCmd::Enqueue { file_id, start, count, interrupt } => r == Ok::<CtlAction, String>(
                CtlAction::Send(Request::SenderEnqueue { file_id, start, count, interrupt }),
            ),
            CtlCmd::ResendName { file_id } => r == Ok::<CtlAction, String>(
                CtlAction::Send(Request::SenderResendName { file_id }),
            ),
            CtlCmd::Flush => r == Ok::<CtlAction, String>(CtlAction::Send(Request::SenderFlush)),
            CtlCmd::CleanerRun => r == Ok::<CtlAction, String>(
                CtlAction::Send(Request::CleanerRunNow),
            ),
        },
{
    let req = match cmd {
        CtlCmd::Ping => Request::Ping,
        CtlCmd::Status => return Ok(CtlAction::Status),
        CtlCmd::SetLink { link, chunk_size, kbps, ip, port } => Request::SenderConfigure(
            LinkOverride {
                active_link: link,
                chunk_size,
                max_kbps: kbps,
                link_ip: ip,
                link_port: port,
            },
        ),
        CtlCmd::SetState { state } => match parse_state(state.as_str()) {
            Ok(s) => Request::SenderSetState(s),
            Err(why) => return Err(why),
        },
        CtlCmd::Submit { path, interrupt } => Request::SenderSubmit {
            path: path_join(cwd, path.as_str()),
            interrupt,
        },
        CtlCmd::Enqueue { file_id, start, count, interrupt } => Request::SenderEnqueue {
            file_id,
            start,
            count,
            interrupt,
        },
        CtlCmd::ResendName { file_id } => Request::SenderResendName { file_id },
        CtlCmd::Flush => Request::SenderFlush,
        CtlCmd::CleanerRun => Request::CleanerRunNow,
    };
    Ok(CtlAction::Send(req))
}

/// The request for the status of the daemon that answered a ping so; `None` where the answer is to
/// be shown as it is.
pub fn status_request(pong: &Response) -> (req: Option<Request>)
    ensures
        req == match *pong {
            Response::Pong { daemon, .. } => if daemon@ == "sender"@ {
                Some(Request::SenderStatus)
            } else if daemon@ == "receiver"@ {
                Some(Request::ReceiverStatus)
            } else if daemon@ == "cleaner"@ {
                Some(Request::CleanerStatus)
            } else {
                None
            },
            _ => None,
        },
{
    match pong {
        Response::Pong { daemon, .. } => {
            let name: &str = daemon.as_str();
            if same_text(name, "sender") {
                Some(Request::SenderStatus)
            } else if same_text(name, "receiver") {
                Some(Request::ReceiverStatus)
            } else if same_text(name, "cleaner") {
                Some(Request::CleanerStatus)
            } else {
                None
            }
        },
        _ => None,
    }
}

/// There are four words for states, one for each state, and no other word stands for one.
pub proof fn law_words_for_states(word: Seq<char>)
    ensures
        state_named("auto"@) == Some(SenderState::Auto),
        state_named("manual"@) == Some(SenderState::Manual),
        state_named("paused"@) == Some(SenderState::Paused),
        state_named("debug"@) == Some(SenderState::Debug),
        state_named(word) is Some <==> word == "auto"@ || word == "manual"@ || word == "paused"@
            || word == "debug"@,
{
    reveal_strlit("auto");
    reveal_strlit("manual");
    reveal_strlit("paused");
    reveal_strlit("debug");
    assert("auto"@[0] == 'a' && "manual"@[0] == 'm' && "paused"@[0] == 'p' && "debug"@[0] == 'd');
}

/// A word that stands for a state is read as that state, and the command to switch to it asks for
/// exactly that; any other word is refused by both with the same words.
pub proof fn law_state_command_asks_for_the_state(
    word: &str,
    state: String,
    cwd: &str,
    read: Result<SenderState, String>,
    r: Result<CtlAction, String>,
)
    requires
        state@ == word@,
        call_ensures(parse_state, (word,), read),
        call_ensures(action_for, (CtlCmd::SetState { state }, cwd), r),
    ensures
        word@ == "auto"@ ==> read == Ok::<SenderState, String>(SenderState::Auto),
        word@ == "manual"@ ==> read == Ok::<SenderState, String>(SenderState::Manual),
        word@ == "paused"@ ==> read == Ok::<SenderState, String>(SenderState::Paused),
        word@ == "debug"@ ==> read == Ok::<SenderState, String>(SenderState::Debug),
        read matches Ok(s) ==> r == Ok::<CtlAction, String>(
            CtlAction::Send(Request::SenderSetState(s)),
        ),
        read is Err ==> word@ != "auto"@ && word@ != "manual"@ && word@ != "paused"@ && word@
            != "debug"@,
        read matches Err(why) ==> (r matches Err(also) && also@ == why@),
{
    law_words_for_states(word@);
}

/// Every command is sent on with all that it was given: what is set is asked for and what is not is
/// left alone, and file ids, chunks and the place in the queue go over as they are.
pub proof fn law_commands_are_sent_as_given(cmd: CtlCmd, cwd: &str, r: Result<CtlAction, String>)
    requires
        call_ensures(action_for, (cmd, cwd), r),
        !(cmd is SetState),
    ensures
        r is Ok,
        cmd is Status <==> r->Ok_0 is Status,
        cmd is Ping ==> (r->Ok_0 matches CtlAction::Send(q) && q is Ping),
        cmd is Flush ==> (r->Ok_0 matches CtlAction::Send(q) && q is SenderFlush),
        cmd is CleanerRun ==> (r->Ok_0 matches CtlAction::Send(q) && q is CleanerRunNow),
        cmd matches CtlCmd::ResendName { file_id } ==> (r->Ok_0 matches CtlAction::Send(q) && (
        q matches Request::SenderResendName { file_id: id } && id == file_id)),
        cmd matches CtlCmd::Enqueue { file_id, start, count, interrupt } ==> (
        r->Ok_0 matches CtlAction::Send(q) && (q matches Request::SenderEnqueue {
            file_id: id,
            start: s,
            count: n,
            interrupt: i,
        } && id == file_id && s == start && n == count && i == interrupt)),
        cmd matches CtlCmd::Submit { path, interrupt } ==> (r->Ok_0 matches CtlAction::Send(q) && (
        q matches Request::SenderSubmit { path: p, interrupt: i } && i == interrupt && (path@.len()
            > 0 && path@[0] == '/' ==> p@ == path@))),
        cmd matches CtlCmd::SetLink { link, chunk_size, kbps, ip, port } ==> (
        r->Ok_0 matches CtlAction::Send(q) && (q matches Request::SenderConfigure(o)
            && o.active_link == link && o.chunk_size == chunk_size && o.max_kbps == kbps
            && o.link_ip == ip && o.link_port == port)),
{
}

/// Asking a daemon for its status reaches the daemon that answered: what each of them says of itself
/// leads to the one status request that it answers, and the others do not support that request.
pub proof fn law_status_reaches_its_daemon(
    pong: Response,
    req: Option<Request>,
    version: &str,
    status: Result<ReceiverStatus, Error>,
    receiver: Response,
    table: DedupTable,
    log: SentLog,
    link: &str,
    now: u64,
    cleaner: (Response, bool),
)
    requires
        call_ensures(status_request, (&pong,), req),
        req is Some ==> call_ensures(
            crate::receiver::handle,
            (&req->0, status, version),
            receiver,
        ),
        req is Some ==> call_ensures(
            crate::cleaner::handler::handle,
            (&table, &log, link, &req->0, now, version),
            cleaner,
        ),
    ensures
        !(pong is Pong) ==> req is None,
        pong matches Response::Pong { daemon, .. } ==> {
            &&& daemon@ == "sender"@ ==> (req matches Some(q) && q is SenderStatus && receiver
                is Unsupported && cleaner.0 is Unsupported)
            &&& daemon@ == "receiver"@ ==> (req matches Some(q) && q is ReceiverStatus && !(receiver
                is Unsupported) && cleaner.0 is Unsupported)
            &&& daemon@ == "cleaner"@ ==> (req matches Some(q) && q is CleanerStatus && receiver
                is Unsupported && cleaner.0 is CleanerStatus)
            &&& req is Some ==> daemon@ == "sender"@ || daemon@ == "receiver"@ || daemon@
                == "cleaner"@
        },
{
    reveal_strlit("sender");
    reveal_strlit("receiver");
    reveal_strlit("cleaner");
    assert("sender"@[0] == 's' && "receiver"@[0] == 'r' && "cleaner"@[0] == 'c');
}

} // verus!
