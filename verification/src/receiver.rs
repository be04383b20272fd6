//! The receiver: which multicast groups it joins, and what it reports of its in-flight assemblies.

use vstd::prelude::*;

use crate::control::messages::{AssemblyState, ReceiverStatus, Request, Response};
use crate::error::Error;
use crate::reassembler::manifest::{manifest_fault, manifest_in, missing_count, SidecarRead};
use crate::reassembler::{known, lemma_missing_at_most, usable, IngestOutcome, Reassembler};

verus! {

/// What was found of one in-flight assembly.
#[derive(Debug, Clone)]
pub struct Found {
    /// Logical file id.
    pub file_id: i64,
    /// What reading the sidecar gave.
    pub sidecar: SidecarRead,
    /// Seconds since the last write, where that could be told.
    pub age_secs: Option<u64>,
}

/// The state of an assembly whose sidecar can be used.
pub open spec fn state_of(r: Reassembler, f: Found) -> Option<AssemblyState> {
    match known(r.holding_path(f.file_id, ".parmanifest"@), f.sidecar) {
        Some(m) => if usable(f.sidecar) {
            Some(
                AssemblyState {
                    file_id: f.file_id,
                    chunks_total: m.num_chunks,
                    chunks_received: (m.num_chunks - missing_count(m, m.num_chunks as nat)) as u32,
                    has_name: m.name.len() > 0,
                    age_secs: match f.age_secs {
                        Some(age) => age,
                        None => 0,
                    },
                },
            )
        } else {
            None
        },
        None => None,
    }
}

/// The states of the assemblies whose sidecars can be used, in order.
pub open spec fn states_of(r: Reassembler, found: Seq<Found>) -> Seq<AssemblyState>
    decreases found.len(),
{
    if found.len() == 0 {
        seq![]
    } else {
        match state_of(r, found.last()) {
            Some(s) => states_of(r, found.drop_last()).push(s),
            None => states_of(r, found.drop_last()),
        }
    }
}

/// The status report on the in-flight assemblies that were found. One whose sidecar cannot be used
/// is left out.
pub fn snapshot(r: &Reassembler, bind: &str, found: &Vec<Found>) -> (status: ReceiverStatus)
    ensures
        status.bind@ == bind@,
        status.assemblies@ == states_of(*r, found@),
{
    let mut assemblies: Vec<AssemblyState> = Vec::new();
    let mut i: usize = 0;
    assert(found@.take(0) =~= Seq::empty());
    while i < found.len()
        invariant
            i <= found@.len(),
            assemblies@ == states_of(*r, found@.take(i as int)),
        decreases found@.len() - i,
    {
        let f = &found[i];
        assert(found@.take(i + 1).drop_last() =~= found@.take(i as int));
        if let Ok(stats) = r.stats(f.file_id, &f.sidecar) {
            let age_secs: u64 = match f.age_secs {
                Some(age) => age,
                None => 0,
            };
            assemblies.push(
                AssemblyState {
                    file_id: f.file_id,
                    chunks_total: stats.chunks_total,
                    chunks_received: stats.chunks_received,
                    has_name: stats.has_name,
                    age_secs,
                },
            );
        }
        i += 1;
    }
    assert(found@.take(found@.len() as int) =~= found@);
    ReceiverStatus { bind: bind.to_owned(), assemblies }
}

/// Whether an assembly is to be finalized after a packet.
pub fn is_finished(outcome: IngestOutcome) -> (yes: bool)
    ensures
        yes == (outcome is Complete),
{
    match outcome {
        IngestOutcome::Complete => true,
        _ => false,
    }
}

/// Answer one request, given the status report or why there is none. Requests that are meant for
/// another daemon are not supported.
pub fn handle(req: &Request, status: Result<ReceiverStatus, Error>, version: &str) -> (reply:
    Response)
    ensures
        match *req {
            Request::Ping => {
                &&& reply matches Response::Pong { daemon, version: v }
                &&& daemon@ == "receiver"@ && v@ == version@
            },
            Request::ReceiverStatus => match status {
                Ok(s) => reply == Response::ReceiverStatus(s),
                Err(e) => reply matches Response::Error { message } && message@ == e.text(),
            },
            _ => reply is Unsupported,
        },
{
    match req {
        Request::Ping => Response::Pong {
            daemon: "receiver".to_owned(),
            version: version.to_owned(),
        },
        Request::ReceiverStatus => match status {
            Ok(s) => Response::ReceiverStatus(s),
            Err(e) => Response::Error { message: e.message() },
        },
        _ => Response::Unsupported,
    }
}

/// The multicast groups (224.0.0.0/4) to join, each once: those among the addresses that packets
/// may be sent to. `None` stands for what is not an IPv4 address.
pub fn groups_to_join(addrs: &Vec<Option<(u8, u8, u8, u8)>>) -> (groups: Vec<(u8, u8, u8, u8)>)
    ensures
        groups@.no_duplicates(),
        forall|g: (u8, u8, u8, u8)| #[trigger]
            groups@.contains(g) <==> 224 <= g.0 <= 239 && addrs@.contains(Some(g)),
{
    let mut groups: Vec<(u8, u8, u8, u8)> = Vec::new();
    let mut i: usize = 0;
    while i < addrs.len()
        invariant
            i <= addrs@.len(),
            groups@.no_duplicates(),
            forall|g: (u8, u8, u8, u8)| #[trigger]
                groups@.contains(g) <==> 224 <= g.0 <= 239 && addrs@.take(i as int).contains(
                    Some(g),
                ),
        decreases addrs@.len() - i,
    {
        let ghost before = groups@;
        let ghost seen = addrs@.take(i as int);
        if let Some(a) = addrs[i] {
            if 224 <= a.0 && a.0 <= 239 && !is_among(&groups, a) {
                groups.push(a);
            }
        }
        proof {
            let upto = addrs@.take(i + 1);
            assert(upto =~= seen.push(addrs@[i as int]));
            assert forall|g: (u8, u8, u8, u8)| #[trigger] groups@.contains(g) <==> 224 <= g.0 <= 239
                && upto.contains(Some(g)) by {
                assert(before.contains(g) <==> 224 <= g.0 <= 239 && seen.contains(Some(g)));
                if seen.contains(Some(g)) {
                    let k = choose|k: int| 0 <= k < seen.len() && seen[k] == Some(g);
                    assert(upto[k] == Some(g));
                }
                if before.contains(g) {
                    let k = choose|k: int| 0 <= k < before.len() && before[k] == g;
                    assert(groups@[k] == g);
                }
                if addrs@[i as int] == Some(g) {
                    assert(upto[i as int] == Some(g));
                    if groups@.len() > before.len() {
                        assert(groups@[before.len() as int] == g);
                    }
                }
            }
        }
        i += 1;
    }
    assert(addrs@.take(addrs@.len() as int) =~= addrs@);
    groups
}

/// Whether an address is in a list.
fn is_among(list: &Vec<(u8, u8, u8, u8)>, a: (u8, u8, u8, u8)) -> (yes: bool)
    ensures
        yes == list@.contains(a),
{
    let mut i: usize = 0;
    while i < list.len()
        invariant
            i <= list@.len(),
            forall|k: int| 0 <= k < i ==> list@[k] != a,
        decreases list@.len() - i,
    {
        let b = list[i];
        if b.0 == a.0 && b.1 == a.1 && b.2 == a.2 && b.3 == a.3 {
            assert(list@[i as int] == a);
            return true;
        }
        i += 1;
    }
    false
}

/// What is reported of an assembly: nothing where its sidecar is missing or cannot be used; or else
/// its id, the chunks that the file has, how many of them have arrived, whether its name is known,
/// and its age, or zero where that could not be told.
pub proof fn law_what_is_reported_of_an_assembly(r: Reassembler, f: Found)
    ensures
        state_of(r, f) is Some <==> (f.sidecar matches SidecarRead::Bytes(b) && manifest_fault(b@)
            is None),
        state_of(r, f) matches Some(s) ==> {
            let m = manifest_in(
                r.holding_path(f.file_id, ".parmanifest"@),
                f.sidecar->Bytes_0@,
            );
            &&& s.file_id == f.file_id
            &&& s.chunks_total == m.num_chunks
            &&& s.chunks_received + missing_count(m, m.num_chunks as nat) == m.num_chunks
            &&& s.has_name <==> m.name.len() > 0
            &&& f.age_secs matches Some(age) ==> s.age_secs == age
            &&& f.age_secs is None ==> s.age_secs == 0
        },
{
    if let SidecarRead::Bytes(b) = f.sidecar {
        let m = manifest_in(r.holding_path(f.file_id, ".parmanifest"@), b@);
        lemma_missing_at_most(m, m.num_chunks as nat);
    }
}

/// Assemblies are reported in the order in which they were found, each at most once.
pub proof fn law_report_keeps_the_order(r: Reassembler, first: Seq<Found>, others: Seq<Found>)
    ensures
        states_of(r, first + others) == states_of(r, first) + states_of(r, others),
        forall|f: Found|
            states_of(r, #[trigger] seq![f]) == match state_of(r, f) {
                Some(s) => seq![s],
                None => seq![],
            },
    decreases others.len(),
{
    assert forall|f: Found| states_of(r, #[trigger] seq![f]) == match state_of(r, f) {
        Some(s) => seq![s],
        None => seq![],
    } by {
        assert(seq![f].drop_last() =~= Seq::empty());
        reveal_with_fuel(states_of, 2);
        assert(states_of(r, seq![f]) =~= match state_of(r, f) {
            Some(s) => seq![s],
            None => seq![],
        });
    }
    let all = first + others;
    if others.len() == 0 {
        assert(all =~= first);
        assert(states_of(r, all) =~= states_of(r, first) + states_of(r, others));
    } else {
        assert(all.drop_last() =~= first + others.drop_last());
        law_report_keeps_the_order(r, first, others.drop_last());
        assert(states_of(r, all) =~= states_of(r, first) + states_of(r, others));
    }
}

/// The receiver answers for itself: who it is, and its status or why there is none. Whatever else it
/// is asked it does not support.
pub proof fn law_receiver_answers_for_itself(
    req: Request,
    status: Result<ReceiverStatus, Error>,
    version: &str,
    reply: Response,
)
    requires
        call_ensures(handle, (&req, status, version), reply),
    ensures
        req is Ping ==> (reply matches Response::Pong { daemon, version: v } && daemon@
            == "receiver"@ && v@ == version@),
        req is ReceiverStatus && status is Ok ==> reply == Response::ReceiverStatus(status->Ok_0),
        req is ReceiverStatus && status is Err ==> (reply matches Response::Error { message }
            && message@ == status->Err_0.text()),
        reply is Unsupported <==> !(req is Ping || req is ReceiverStatus),
{
}

/// The groups to join are the multicast addresses among those given, each once, and no others; the
/// order and the number of times that they are given do not matter.
pub proof fn law_groups_are_the_multicast_addresses(
    a: Vec<Option<(u8, u8, u8, u8)>>,
    b: Vec<Option<(u8, u8, u8, u8)>>,
    of_a: Vec<(u8, u8, u8, u8)>,
    of_b: Vec<(u8, u8, u8, u8)>,
    g: (u8, u8, u8, u8),
)
    requires
        call_ensures(groups_to_join, (&a,), of_a),
        call_ensures(groups_to_join, (&b,), of_b),
        forall|x: Option<(u8, u8, u8, u8)>| #[trigger] a@.contains(x) == b@.contains(x),
    ensures
        of_a@.contains(g) <==> 224 <= g.0 <= 239 && a@.contains(Some(g)),
        of_a@.contains(g) == of_b@.contains(g),
        of_a@.no_duplicates(),
{
}

/// Only a packet that completes an assembly calls for finalizing it.
pub proof fn law_only_complete_is_finished(outcome: IngestOutcome, yes: bool)
    requires
        call_ensures(is_finished, (outcome,), yes),
    ensures
        yes <==> outcome == IngestOutcome::Complete,
{
}

/// What a list of states holds.
proof fn lemma_states(r: Reassembler, found: Seq<Found>, s: AssemblyState)
    ensures
        states_of(r, found).contains(s) <==> exists|k: int|
            0 <= k < found.len() && state_of(r, #[trigger] found[k]) == Some(s),
    decreases found.len(),
{
    if found.len() > 0 {
        let rest = found.drop_last();
        let n = found.len() - 1;
        let all = states_of(r, found);
        let fewer = states_of(r, rest);
        lemma_states(r, rest, s);
        assert(found[n] == found.last());
        if all.contains(s) {
            let l = choose|l: int| 0 <= l < all.len() && all[l] == s;
            if l < fewer.len() {
                assert(fewer[l] == s);
                let k = choose|k: int|
                    0 <= k < rest.len() && state_of(r, #[trigger] rest[k]) == Some(s);
                assert(found[k] == rest[k]);
            }
        }
        if exists|k: int| 0 <= k < found.len() && state_of(r, #[trigger] found[k]) == Some(s) {
            let k = choose|k: int|
                0 <= k < found.len() && state_of(r, #[trigger] found[k]) == Some(s);
            if k < n {
                assert(rest[k] == found[k]);
                let l = choose|l: int| 0 <= l < fewer.len() && fewer[l] == s;
                assert(all[l] == s);
            } else {
                assert(all[all.len() - 1] == s);
            }
        }
    }
}

/// A report names the address that it was given and tells of exactly the assemblies that were found
/// with a sidecar in order: of each the id, the chunks that the file has, those that have arrived,
/// whether its name is known, and its age.
pub proof fn law_report_tells_of_each_assembly(
    r: Reassembler,
    bind: &str,
    found: Vec<Found>,
    status: ReceiverStatus,
    s: AssemblyState,
)
    requires
        call_ensures(snapshot, (&r, bind, &found), status),
    ensures
        status.bind@ == bind@,
        status.assemblies@.contains(s) <==> exists|k: int|
            {
                &&& 0 <= k < found@.len()
                &&& (#[trigger] found@[k]).sidecar is Bytes
                &&& manifest_fault(found@[k].sidecar->Bytes_0@) is None
                &&& ({
                    let m = manifest_in(
                        r.holding_path(found@[k].file_id, ".parmanifest"@),
                        found@[k].sidecar->Bytes_0@,
                    );
                    &&& s.file_id == found@[k].file_id
                    &&& s.chunks_total == m.num_chunks
                    &&& s.chunks_received + missing_count(m, m.num_chunks as nat) == m.num_chunks
                    &&& s.has_name <==> m.name.len() > 0
                })
                &&& found@[k].age_secs == Some(s.age_secs) || (found@[k].age_secs is None
                    && s.age_secs == 0)
            },
{
    lemma_states(r, found@, s);
    if status.assemblies@.contains(s) {
        let k = choose|k: int|
            0 <= k < found@.len() && state_of(r, #[trigger] found@[k]) == Some(s);
        law_what_is_reported_of_an_assembly(r, found@[k]);
        assert(found@[k].sidecar is Bytes);
    }
    if exists|k: int|
        {
            &&& 0 <= k < found@.len()
            &&& (#[trigger] found@[k]).sidecar is Bytes
            &&& manifest_fault(found@[k].sidecar->Bytes_0@) is None
            &&& ({
                let m = manifest_in(
                    r.holding_path(found@[k].file_id, ".parmanifest"@),
                    found@[k].sidecar->Bytes_0@,
                );
                &&& s.file_id == found@[k].file_id
                &&& s.chunks_total == m.num_chunks
                &&& s.chunks_received + missing_count(m, m.num_chunks as nat) == m.num_chunks
                &&& s.has_name <==> m.name.len() > 0
            })
            &&& found@[k].age_secs == Some(s.age_secs) || (found@[k].age_secs is None && s.age_secs
                == 0)
        } {
        let k = choose|k: int|
            {
                &&& 0 <= k < found@.len()
                &&& (#[trigger] found@[k]).sidecar is Bytes
                &&& manifest_fault(found@[k].sidecar->Bytes_0@) is None
                &&& ({
                    let m = manifest_in(
                        r.holding_path(found@[k].file_id, ".parmanifest"@),
                        found@[k].sidecar->Bytes_0@,
                    );
                    &&& s.file_id == found@[k].file_id
                    &&& s.chunks_total == m.num_chunks
                    &&& s.chunks_received + missing_count(m, m.num_chunks as nat) == m.num_chunks
                    &&& s.has_name <==> m.name.len() > 0
                })
                &&& found@[k].age_secs == Some(s.age_secs) || (found@[k].age_secs is None
                    && s.age_secs == 0)
            };
        law_what_is_reported_of_an_assembly(r, found@[k]);
        assert(state_of(r, found@[k]) == Some(s));
    }
}

} // verus!
