//! How the sender answers control requests.

use vstd::prelude::*;

use crate::config::{Config, SenderState};
use crate::control::messages::{LinkOverride, Request, Response, SubmitAck};
use crate::error::Error;
use crate::ledger::FileRecord;
use crate::sender::queue::{total_packets, WorkItemView};
use crate::sender::state::{
    clamped, enqueue_fits, is_unknown_file, link_known, overridden, override_fault, size_accepted,
    status_of, with_full_file, with_item, SenderRuntime, SenderView,
};

verus! {

/// What has to be found out before a request can be answered.
#[derive(Debug, Clone)]
pub enum Needed {
    /// Nothing.
    Nothing,
    /// The ledger's record of this file.
    Record(i64),
    /// The outcome of submitting the file at this path, at the head of the queue or at its back.
    Submission(String, bool),
}

/// What has been found out.
#[derive(Debug)]
pub enum Findings {
    /// Nothing was needed.
    Nothing,
    /// The ledger's record, if it has one, or why the ledger could not be asked.
    Record(Result<Option<FileRecord>, Error>),
    /// The outcome of a submission.
    Submission(Result<SubmitAck, Error>),
}

/// What has to be found out before the sender can answer a request.
pub fn needed(req: &Request) -> (n: Needed)
    ensures
        match *req {
            Request::SenderEnqueue { file_id, .. } => n == Needed::Record(file_id),
            Request::SenderResendName { file_id } => n == Needed::Record(file_id),
            Request::SenderSubmit { path, interrupt } => n matches Needed::Submission(p, i) && p@
                == path@ && i == interrupt,
            _ => n is Nothing,
        },
{
    match req {
        Request::SenderEnqueue { file_id, .. } => Needed::Record(*file_id),
        Request::SenderResendName { file_id } => Needed::Record(*file_id),
        Request::SenderSubmit { path, interrupt } => Needed::Submission(path.clone(), *interrupt),
        _ => Needed::Nothing,
    }
}

/// Whether what was found out is what a request needs.
pub open spec fn fits(req: Request, f: Findings) -> bool {
    match req {
        Request::SenderEnqueue { .. } | Request::SenderResendName { .. } => f is Record,
        Request::SenderSubmit { .. } => f is Submission,
        _ => true,
    }
}

/// Whether the queue's change counter has room for what a request changes.
pub open spec fn has_room(v: SenderView, cfg: Config, req: Request, f: Findings) -> bool {
    match req {
        Request::SenderEnqueue { start, .. } => f matches Findings::Record(Ok(Some(rec)))
            ==> enqueue_fits(v, cfg, rec, start),
        Request::SenderResendName { .. } => f matches Findings::Record(Ok(Some(_)))
            ==> v.queue.revision < u64::MAX,
        Request::SenderSetState(s) => !(s is Auto) && v.queue.items.len() > 0 ==> v.queue.revision
            < u64::MAX,
        Request::SenderFlush => v.queue.items.len() > 0 ==> v.queue.revision < u64::MAX,
        _ => true,
    }
}

/// Whether a response reports a failure at runtime with the error's own words.
pub open spec fn reports_error(r: Response, e: Error) -> bool {
    r matches Response::Error { message } && message@ == e.text()
}

/// The response to an operation that either succeeded or failed at runtime.
fn done(r: Result<(), Error>) -> (reply: Response)
    ensures
        match r {
            Ok(()) => reply is Okay,
            Err(e) => reports_error(reply, e),
        },
{
    match r {
        Ok(()) => Response::Okay,
        Err(e) => Response::Error { message: e.message() },
    }
}

impl SenderRuntime {
    /// Answer one request, given what [`needed`] asked for and the build version. Requests that
    /// are meant for another daemon are not supported and change nothing.
    pub fn handle(&mut self, cfg: &Config, req: Request, found: Findings, version: &str) -> (reply:
        Response)
        requires
            cfg.valid(),
            fits(req, found),
            has_room(old(self)@, *cfg, req, found),
            req is SenderStatus ==> total_packets(old(self)@.queue.items) <= u32::MAX,
        ensures
            match req {
                Request::Ping => {
                    &&& reply matches Response::Pong { daemon, version: v }
                    &&& daemon@ == "sender"@ && v@ == version@
                    &&& final(self)@ == old(self)@
                },
                Request::SenderStatus => {
                    &&& reply matches Response::SenderStatus(s)
                    &&& status_of(old(self)@, *cfg, s)
                    &&& final(self)@ == old(self)@
                },
                Request::SenderConfigure(o) => {
                    let now = overridden(old(self)@, *cfg, o);
                    if link_known(*cfg, o) && size_accepted(o) {
                        &&& reply is Okay
                        &&& final(self)@ == (SenderView {
                            rate_kbps: now.effective_kbps(*cfg),
                            ..now
                        })
                    } else {
                        &&& reply matches Response::BadRequest { reason }
                        &&& exists|e: Error|
                            #![trigger override_fault(*cfg, o, e)]
                            override_fault(*cfg, o, e) && reason@ == e.text()
                        &&& final(self)@ == now
                    }
                },
                Request::SenderSetState(s) => {
                    &&& reply is Okay
                    &&& final(self)@ == (SenderView {
                        state: s,
                        ..if s is Auto || old(self)@.queue.items.len() == 0 {
                            old(self)@
                        } else {
                            old(self)@.queued(Seq::empty(), 1)
                        }
                    })
                },
                Request::SenderEnqueue { file_id, start, count, interrupt } => {
                    let items = old(self)@.queue.items;
                    match found->Record_0 {
                        Err(e) => reports_error(reply, e) && final(self)@ == old(self)@,
                        Ok(None) => {
                            &&& exists|e: Error|
                                #![trigger is_unknown_file(e, file_id)]
                                is_unknown_file(e, file_id) && reports_error(reply, e)
                            &&& final(self)@ == old(self)@
                        },
                        Ok(Some(rec)) => {
                            let total = old(self)@.chunks(*cfg, rec.file_size);
                            if start < 0 {
                                &&& reply is Okay
                                &&& final(self)@ == old(self)@.queued(
                                    with_full_file(
                                        items,
                                        rec.file_id,
                                        rec.file_name@,
                                        total,
                                        interrupt,
                                    ),
                                    2,
                                )
                            } else if start >= total {
                                &&& reports_error(
                                    reply,
                                    Error::OutOfRange { index: start as u32, total },
                                )
                                &&& final(self)@ == old(self)@
                            } else {
                                &&& reply is Okay
                                &&& final(self)@ == old(self)@.queued(
                                    with_item(
                                        items,
                                        (WorkItemView::Retransmit {
                                            file_id: rec.file_id,
                                            range: clamped(start as u32, count, total),
                                        }),
                                        interrupt,
                                    ),
                                    1,
                                )
                            }
                        },
                    }
                },
                Request::SenderResendName { file_id } => match found->Record_0 {
                    Err(e) => reports_error(reply, e) && final(self)@ == old(self)@,
                    Ok(None) => {
                        &&& exists|e: Error|
                            #![trigger is_unknown_file(e, file_id)]
                            is_unknown_file(e, file_id) && reports_error(reply, e)
                        &&& final(self)@ == old(self)@
                    },
                    Ok(Some(rec)) => {
                        &&& reply is Okay
                        &&& final(self)@ == old(self)@.queued(
                            with_item(
                                old(self)@.queue.items,
                                (WorkItemView::Manifest {
                                    file_id: rec.file_id,
                                    file_name: rec.file_name@,
                                }),
                                true,
                            ),
                            1,
                        )
                    },
                },
                Request::SenderSubmit { .. } => {
                    &&& match found->Submission_0 {
                        Ok(ack) => reply == Response::Submitted(ack),
                        Err(e) => reports_error(reply, e),
                    }
                    &&& final(self)@ == old(self)@
                },
                Request::SenderFlush => {
                    &&& reply is Okay
                    &&& final(self)@ == if old(self)@.queue.items.len() == 0 {
                        old(self)@
                    } else {
                        old(self)@.queued(Seq::empty(), 1)
                    }
                },
                Request::ReceiverStatus | Request::CleanerStatus | Request::CleanerRunNow => {
                    &&& reply is Unsupported
                    &&& final(self)@ == old(self)@
                },
            },
    {
        match req {
            Request::Ping => Response::Pong {
                daemon: "sender".to_owned(),
                version: version.to_owned(),
            },
            Request::SenderStatus => Response::SenderStatus(self.status(cfg)),
            Request::SenderConfigure(o) => match self.apply_override(cfg, o) {
                Ok(()) => Response::Okay,
                Err(e) => Response::BadRequest { reason: e.message() },
            },
            Request::SenderSetState(s) => {
                self.set_state(s);
                Response::Okay
            },
            Request::SenderEnqueue { file_id, start, count, interrupt } => match found {
                Findings::Record(Ok(record)) => done(
                    self.enqueue(cfg, file_id, record, start, count, interrupt),
                ),
                Findings::Record(Err(e)) => done(Err(e)),
                _ => Response::Unsupported,
            },
            Request::SenderResendName { file_id } => match found {
                Findings::Record(Ok(record)) => done(self.resend_name(file_id, record)),
                Findings::Record(Err(e)) => done(Err(e)),
                _ => Response::Unsupported,
            },
            Request::SenderSubmit { .. } => match found {
                Findings::Submission(Ok(ack)) => Response::Submitted(ack),
                Findings::Submission(Err(e)) => done(Err(e)),
                _ => Response::Unsupported,
            },
            Request::SenderFlush => {
                self.flush();
                Response::Okay
            },
            Request::ReceiverStatus | Request::CleanerStatus | Request::CleanerRunNow => {
                Response::Unsupported
            },
        }
    }
}

/// What has to be found out for a request is what its answer goes by: the record of the file that it
/// names, or what became of the path that it submits; for every other request nothing.
pub proof fn law_what_is_needed_fits(req: Request, n: Needed, found: Findings)
    requires
        call_ensures(needed, (&req,), n),
        n is Record ==> found is Record,
        n is Submission ==> found is Submission,
    ensures
        fits(req, found),
        req matches Request::SenderEnqueue { file_id, .. } ==> n == Needed::Record(file_id),
        req matches Request::SenderResendName { file_id } ==> n == Needed::Record(file_id),
        req matches Request::SenderSubmit { path, interrupt } ==> (n matches Needed::Submission(
            p,
            i,
        ) && p@ == path@ && i == interrupt),
        n is Nothing <==> !(req is SenderEnqueue || req is SenderResendName || req is SenderSubmit),
{
}

/// The sender answers for itself: who it is, and its status, neither of which changes anything. What
/// is meant for another daemon it does not support, and that changes nothing either.
pub proof fn law_sender_answers_for_itself(
    rt: &mut SenderRuntime,
    cfg: Config,
    req: Request,
    found: Findings,
    version: &str,
    reply: Response,
)
    requires
        cfg.valid(),
        fits(req, found),
        call_ensures(SenderRuntime::handle, (rt, &cfg, req, found, version), reply),
    ensures
        req is Ping ==> (reply matches Response::Pong { daemon, version: v } && daemon@ == "sender"@
            && v@ == version@),
        req is SenderStatus ==> (reply matches Response::SenderStatus(s) && status_of(
            old(rt)@,
            cfg,
            s,
        )),
        req is ReceiverStatus || req is CleanerStatus || req is CleanerRunNow
            ==> reply is Unsupported,
        reply is Unsupported ==> final(rt)@ == old(rt)@,
        req is Ping || req is SenderStatus || req is SenderSubmit ==> final(rt)@ == old(rt)@,
        reply is Error ==> final(rt)@ == old(rt)@,
        reply is BadRequest ==> req is SenderConfigure,
{
}

/// A request does what the operation that it asks for does: with the same sender before, the sender
/// is the same afterwards, and the reply is a plain one exactly where the operation succeeded, or
/// else tells the operation's own error.
pub proof fn law_requests_do_what_they_ask_for(
    rt: &mut SenderRuntime,
    cfg: Config,
    req: Request,
    found: Findings,
    version: &str,
    reply: Response,
    queued: &mut SenderRuntime,
    q: Result<(), Error>,
    named: &mut SenderRuntime,
    n: Result<(), Error>,
    switched: &mut SenderRuntime,
    flushed: &mut SenderRuntime,
    set: &mut SenderRuntime,
    o: Result<(), Error>,
)
    requires
        cfg.valid(),
        call_ensures(SenderRuntime::handle, (rt, &cfg, req, found, version), reply),
        old(queued)@ == old(rt)@,
        old(named)@ == old(rt)@,
        old(switched)@ == old(rt)@,
        old(flushed)@ == old(rt)@,
        old(set)@ == old(rt)@,
    ensures
        req matches Request::SenderEnqueue { file_id, start, count, interrupt } ==> (
        found matches Findings::Record(Ok(record)) ==> (call_ensures(
            SenderRuntime::enqueue,
            (queued, &cfg, file_id, record, start, count, interrupt),
            q,
        ) ==> final(rt)@ == final(queued)@ && (q is Ok <==> reply is Okay) && (q is Err ==> (
        reply matches Response::Error { message } && message@ == q->Err_0.text())))),
        req matches Request::SenderResendName { file_id } ==> (found matches Findings::Record(
            Ok(record),
        ) ==> (call_ensures(SenderRuntime::resend_name, (named, file_id, record), n)
            ==> final(rt)@ == final(named)@ && (n is Ok <==> reply is Okay) && (n is Err ==> (
        reply matches Response::Error { message } && message@ == n->Err_0.text())))),
        req matches Request::SenderSetState(s) ==> (call_ensures(
            SenderRuntime::set_state,
            (switched, s),
            (),
        ) ==> final(rt)@ == final(switched)@ && reply is Okay),
        req is SenderFlush ==> (call_ensures(SenderRuntime::flush, (flushed,), ()) ==> final(rt)@
            == final(flushed)@ && reply is Okay),
        req matches Request::SenderConfigure(c) ==> (call_ensures(
            SenderRuntime::apply_override,
            (set, &cfg, c),
            o,
        ) ==> final(rt)@ == final(set)@ && (o is Ok <==> reply is Okay) && (o is Err ==> (
        reply matches Response::BadRequest { reason } && reason@ == o->Err_0.text()))),
        req is SenderSubmit ==> (found matches Findings::Submission(Ok(ack)) ==> reply
            == Response::Submitted(ack)),
        req is SenderSubmit ==> (found matches Findings::Submission(Err(e)) ==> (
        reply matches Response::Error { message } && message@ == e.text())),
{
}

/// Every request can be handled, with what it needs found out, as long as the count of changes has
/// room for two more and the packets in the queue can be counted; and so can every operation that a
/// request asks for.
pub proof fn law_every_request_can_be_handled(
    rt: &mut SenderRuntime,
    cfg: Config,
    req: Request,
    n: Needed,
    found: Findings,
    version: &str,
    file_id: i64,
    record: Option<FileRecord>,
    start: i32,
    count: u32,
    interrupt: bool,
    state: SenderState,
    o: LinkOverride,
)
    requires
        cfg.valid(),
        call_ensures(needed, (&req,), n),
        n is Record ==> found is Record,
        n is Submission ==> found is Submission,
        old(rt)@.queue.revision + 2 <= u64::MAX,
        total_packets(old(rt)@.queue.items) <= u32::MAX,
    ensures
        call_requires(SenderRuntime::handle, (rt, &cfg, req, found, version)),
        call_requires(
            SenderRuntime::enqueue,
            (rt, &cfg, file_id, record, start, count, interrupt),
        ),
        call_requires(SenderRuntime::resend_name, (rt, file_id, record)),
        call_requires(SenderRuntime::set_state, (rt, state)),
        call_requires(SenderRuntime::flush, (rt,)),
        call_requires(SenderRuntime::apply_override, (rt, &cfg, o)),
        call_requires(SenderRuntime::begin_send, (rt, &cfg)),
{
}

} // verus!
