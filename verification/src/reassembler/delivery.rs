//! What packets and the final move do to the files on disk, and the whole way of a file from its
//! packets to its final place. Files are told apart by where they are, however their paths are
//! spelled.

use vstd::prelude::*;

use crate::chunker::lemma_chunk_in_file;
use crate::paths::{is_name, lemma_place_under, lemma_walk_name, place, walk};
use crate::proto::{datagram, law_decode_reads_back_encode, packet_fault, packet_in, PacketView};
use crate::reassembler::laws::{
    after_all, after_packets, carries, content, delivered, delivers, known_on, law_any_order,
    law_chunker_sends_the_file, law_delivered_file_is_restored, law_finished_assembly_can_be_moved,
    law_rejected_packet_changes_nothing, lemma_transfer_bounds, plan_on, tells_size, Disk, Transfer,
};
use crate::reassembler::manifest::SidecarRead;
use crate::reassembler::{
    assembly_id, can_be_moved, can_be_placed, is_flying, known, law_final_place_is_inside,
    law_sidecar_name_tells_id, usable, FinalMove, PlanView, Reassembler,
};
use crate::text::{base_name, decimal_int, lemma_decimal_has_no_slash, relative_path};

verus! {

/// What is at a place among files on disk.
pub open spec fn file_at(files: Map<Seq<Seq<char>>, Seq<u8>>, at: Seq<Seq<char>>) -> Option<
    Seq<u8>,
> {
    if files.dom().contains(at) {
        Some(files[at])
    } else {
        None
    }
}

/// Files on disk with one put at a place, or with none there.
pub open spec fn with_file(
    files: Map<Seq<Seq<char>>, Seq<u8>>,
    at: Seq<Seq<char>>,
    file: Option<Seq<u8>>,
) -> Map<Seq<Seq<char>>, Seq<u8>> {
    match file {
        Some(b) => files.insert(at, b),
        None => files.remove(at),
    }
}

/// Where the data file of an assembly is.
pub open spec fn data_place(cwd: Seq<Seq<char>>, r: Reassembler, file_id: i64) -> Seq<Seq<char>> {
    place(cwd, r.holding_path(file_id, ".incoming"@))
}

/// Where the sidecar of an assembly is.
pub open spec fn sidecar_place(cwd: Seq<Seq<char>>, r: Reassembler, file_id: i64) -> Seq<
    Seq<char>,
> {
    place(cwd, r.holding_path(file_id, ".parmanifest"@))
}

/// The two files of an assembly among files on disk.
pub open spec fn assembly_in(
    files: Map<Seq<Seq<char>>, Seq<u8>>,
    cwd: Seq<Seq<char>>,
    r: Reassembler,
    file_id: i64,
) -> Disk {
    let data = file_at(files, data_place(cwd, r, file_id));
    Disk { data, durable: data, sidecar: file_at(files, sidecar_place(cwd, r, file_id)) }
}

/// Files on disk with the two of an assembly as given.
pub open spec fn with_assembly(
    files: Map<Seq<Seq<char>>, Seq<u8>>,
    cwd: Seq<Seq<char>>,
    r: Reassembler,
    file_id: i64,
    d: Disk,
) -> Map<Seq<Seq<char>>, Seq<u8>> {
    with_file(
        with_file(files, data_place(cwd, r, file_id), d.data),
        sidecar_place(cwd, r, file_id),
        d.sidecar,
    )
}

/// What is planned for a packet in the light of the files on disk.
pub open spec fn plan_among(
    files: Map<Seq<Seq<char>>, Seq<u8>>,
    cwd: Seq<Seq<char>>,
    r: Reassembler,
    pkt: PacketView,
) -> PlanView {
    plan_on(
        r.holding_path(pkt.file_id, ".parmanifest"@),
        assembly_in(files, cwd, r, pkt.file_id),
        pkt,
    )
}

/// Files on disk after a packet has been applied.
pub open spec fn after_packet(
    files: Map<Seq<Seq<char>>, Seq<u8>>,
    cwd: Seq<Seq<char>>,
    r: Reassembler,
    pkt: PacketView,
) -> Map<Seq<Seq<char>>, Seq<u8>> {
    let d = assembly_in(files, cwd, r, pkt.file_id);
    let steps = plan_among(files, cwd, r, pkt).steps;
    with_assembly(files, cwd, r, pkt.file_id, after_all(d, steps))
}

/// A heartbeat is ignored, and no other packet is. A packet whose chunk count is not that of its
/// assembly does not match. Neither kind of packet changes anything on disk: no assembly comes or
/// goes, and each has the chunks, the name and the data that it had.
pub proof fn law_refused_packet_changes_no_file(
    files: Map<Seq<Seq<char>>, Seq<u8>>,
    cwd: Seq<Seq<char>>,
    r: Reassembler,
    pkt: PacketView,
)
    ensures
        ({
            let outcome = plan_among(files, cwd, r, pkt).outcome;
            let path = r.holding_path(pkt.file_id, ".parmanifest"@);
            let known = known_on(path, assembly_in(files, cwd, r, pkt.file_id));
            &&& outcome is Ignored <==> pkt.ptype is Heartbeat
            &&& (known matches Some(m) && m.num_chunks != pkt.num_chunks) && !(pkt.ptype
                is Heartbeat) ==> outcome is Mismatched
            &&& outcome is Ignored || outcome is Mismatched ==> after_packet(files, cwd, r, pkt)
                == files
        }),
{
    let path = r.holding_path(pkt.file_id, ".parmanifest"@);
    let d = assembly_in(files, cwd, r, pkt.file_id);
    let known = known_on(path, d);
    let outcome = plan_among(files, cwd, r, pkt).outcome;
    if outcome is Ignored || outcome is Mismatched {
        law_rejected_packet_changes_nothing(path, known, content(d.data).len() as int, pkt);
        assert(after_all(d, plan_among(files, cwd, r, pkt).steps) == d);
        assert(after_packet(files, cwd, r, pkt) =~= files);
    }
}

/// A retransmit packet does what a data packet does, and a name-only packet what a manifest packet
/// does: the outcome and the files afterwards are the same.
pub proof fn law_resent_packet_counts_as_the_first(
    files: Map<Seq<Seq<char>>, Seq<u8>>,
    cwd: Seq<Seq<char>>,
    r: Reassembler,
    first: PacketView,
    resent: PacketView,
)
    requires
        (first.ptype is Data && resent.ptype is Retransmit) || (first.ptype is Manifest
            && resent.ptype is NameOnly),
        resent == (PacketView { ptype: resent.ptype, ..first }),
    ensures
        plan_among(files, cwd, r, resent) == plan_among(files, cwd, r, first),
        after_packet(files, cwd, r, resent) == after_packet(files, cwd, r, first),
{
}

/// Files on disk after a move: the data file is renamed, and then the sidecar is removed.
pub open spec fn moved(
    files: Map<Seq<Seq<char>>, Seq<u8>>,
    cwd: Seq<Seq<char>>,
    to: FinalMove,
) -> Map<Seq<Seq<char>>, Seq<u8>> {
    let from = place(cwd, to.incoming@);
    let renamed = with_file(files.remove(from), place(cwd, to.dest@), file_at(files, from));
    renamed.remove(place(cwd, to.sidecar@))
}

/// Whether a list holds the names of the files in a directory.
pub open spec fn lists(
    files: Map<Seq<Seq<char>>, Seq<u8>>,
    dir: Seq<Seq<char>>,
    names: Seq<String>,
) -> bool {
    forall|name: Seq<char>|
        (exists|i: int| 0 <= i < names.len() && (#[trigger] names[i])@ == name)
            <==> #[trigger] is_in(files, dir, name)
}

/// Whether a file of the given name is in a directory.
pub open spec fn is_in(
    files: Map<Seq<Seq<char>>, Seq<u8>>,
    dir: Seq<Seq<char>>,
    name: Seq<char>,
) -> bool {
    is_name(name) && files.dom().contains(dir.push(name))
}

/// Whether a place is free for a finished file: it is not where the data file is, nor one in the
/// holding directory that reads as the sidecar of the same assembly.
pub open spec fn is_free_for(
    at: Seq<Seq<char>>,
    cwd: Seq<Seq<char>>,
    r: Reassembler,
    file_id: i64,
) -> bool {
    &&& at != data_place(cwd, r, file_id)
    &&& forall|n: Seq<char>|
        is_name(n) && at == #[trigger] place(cwd, r.holding@).push(n) ==> assembly_id(n) != Some(
            file_id,
        )
}

/// The files of an assembly are in the holding directory, under different names, of which only the
/// sidecar's reads as that of a sidecar.
proof fn lemma_holding_places(cwd: Seq<Seq<char>>, r: Reassembler, file_id: i64)
    ensures
        ({
            let dir = place(cwd, r.holding@);
            let data = decimal_int(file_id as int) + ".incoming"@;
            let sidecar = decimal_int(file_id as int) + ".parmanifest"@;
            &&& is_name(data) && is_name(sidecar) && data != sidecar
            &&& data_place(cwd, r, file_id) == dir.push(data)
            &&& sidecar_place(cwd, r, file_id) == dir.push(sidecar)
            &&& dir.push(data) != dir.push(sidecar)
            &&& assembly_id(data) is None
            &&& assembly_id(sidecar) == Some(file_id)
        }),
{
    let dir = place(cwd, r.holding@);
    let n = decimal_int(file_id as int);
    lemma_decimal_has_no_slash(file_id as int);
    law_sidecar_name_tells_id(file_id);
    reveal_strlit(".incoming");
    reveal_strlit(".parmanifest");
    let data = n + ".incoming"@;
    let sidecar = n + ".parmanifest"@;
    assert forall|k: int| 0 <= k < data.len() implies data[k] != '/' by {
        if k < n.len() {
            assert(data[k] == n[k]);
        } else {
            assert(data[k] == ".incoming"@[k - n.len()]);
        }
    }
    assert forall|k: int| 0 <= k < sidecar.len() implies sidecar[k] != '/' by {
        if k < n.len() {
            assert(sidecar[k] == n[k]);
        } else {
            assert(sidecar[k] == ".parmanifest"@[k - n.len()]);
        }
    }
    assert(data.len() > 2 && sidecar.len() > 2 && data.len() != sidecar.len());
    assert(is_name(data) && is_name(sidecar));
    lemma_walk_name(dir, data);
    lemma_walk_name(dir, sidecar);
    lemma_place_under(cwd, r.holding@, data);
    lemma_place_under(cwd, r.holding@, sidecar);
    assert(dir.push(data).last() != dir.push(sidecar).last());
}

/// Moving a finished file leaves the file in its final place and neither of the two files in the
/// holding directory, touches no other file, and the assembly is in flight no more. The final
/// place must be free for the file, and no second sidecar may spell the same id in another way.
pub proof fn law_final_move_clears_the_holding_directory(
    files: Map<Seq<Seq<char>>, Seq<u8>>,
    cwd: Seq<Seq<char>>,
    r: Reassembler,
    file_id: i64,
    name: Seq<char>,
    to: FinalMove,
    names: Seq<String>,
)
    requires
        r.moves(file_id, name, to),
        files.dom().contains(data_place(cwd, r, file_id)),
        is_free_for(place(cwd, to.dest@), cwd, r, file_id),
        forall|n: Seq<char>| #[trigger]
            is_in(files, place(cwd, r.holding@), n) && assembly_id(n) == Some(file_id) ==> n
                == decimal_int(file_id as int) + ".parmanifest"@,
        lists(moved(files, cwd, to), place(cwd, r.holding@), names),
    ensures
        file_at(moved(files, cwd, to), place(cwd, to.dest@)) == Some(
            files[data_place(cwd, r, file_id)],
        ),
        file_at(moved(files, cwd, to), data_place(cwd, r, file_id)) is None,
        file_at(moved(files, cwd, to), sidecar_place(cwd, r, file_id)) is None,
        forall|at: Seq<Seq<char>>|
            at != place(cwd, to.dest@) && at != data_place(cwd, r, file_id) && at != sidecar_place(
                cwd,
                r,
                file_id,
            ) ==> #[trigger] file_at(moved(files, cwd, to), at) == file_at(files, at),
        !is_flying(names, file_id),
{
    lemma_holding_places(cwd, r, file_id);
    let after = moved(files, cwd, to);
    let dir = place(cwd, r.holding@);
    let own = decimal_int(file_id as int) + ".parmanifest"@;
    assert(dir.push(own) != place(cwd, to.dest@));
    if is_flying(names, file_id) {
        let i = choose|i: int|
            0 <= i < names.len() && assembly_id((#[trigger] names[i])@) == Some(file_id);
        let n = names[i]@;
        assert(is_in(after, dir, n));
        assert(dir.push(n) != place(cwd, to.dest@));
        assert(is_in(files, dir, n));
        assert(n == own);
    }
}

/// Whether a packet is one that a chunker makes of a file.
pub open spec fn is_made_of(t: Transfer, p: PacketView) -> bool {
    p == t.cut.name_packet(t.name) || exists|i: u32| #[trigger] is_chunk_of(t, p, i)
}

/// Whether a packet is one that a chunker makes of a chunk of a file: first pass or retransmit.
pub open spec fn is_chunk_of(t: Transfer, p: PacketView, i: u32) -> bool {
    let data = t.cut.data_packet(i, t.cut.chunk_of(t.contents, i as int));
    i < t.total() && (p == data || p == t.cut.as_retransmit(data))
}

/// Whether enough packets of a file have come: its name, every chunk, and the last of several
/// chunks at least once after another one.
pub open spec fn enough(t: Transfer, pkts: Seq<PacketView>) -> bool {
    &&& exists|p: int| 0 <= p < pkts.len() && #[trigger] pkts[p] == t.cut.name_packet(t.name)
    &&& forall|i: int| 0 <= i < t.total() ==> #[trigger] has_come(pkts, i)
    &&& t.total() > 1 ==> exists|q: int, p: int|
        0 <= q < p < pkts.len() && #[trigger] carries(pkts[p], t.total() - 1)
            && #[trigger] tells_size(pkts[q])
}

/// Whether a packet with the given chunk has come.
pub open spec fn has_come(pkts: Seq<PacketView>, i: int) -> bool {
    exists|p: int| 0 <= p < pkts.len() && carries(#[trigger] pkts[p], i)
}

/// What receiving the datagrams of packets gives.
pub open spec fn received(pkts: Seq<PacketView>) -> Seq<PacketView> {
    pkts.map_values(|p: PacketView| packet_in(datagram(p)))
}

/// A packet that a chunker makes is sent, and its datagram is read back.
proof fn lemma_made_packet(t: Transfer, p: PacketView)
    requires
        t.valid(),
        is_made_of(t, p),
    ensures
        t.sends(p),
        p.file_id == t.cut.file_id,
        packet_fault(datagram(p)) is None,
        packet_in(datagram(p)) == p,
{
    lemma_transfer_bounds(t);
    if p == t.cut.name_packet(t.name) {
        law_chunker_sends_the_file(t, 0);
    } else {
        let i = choose|i: u32| #[trigger] is_chunk_of(t, p, i);
        law_chunker_sends_the_file(t, i);
        lemma_chunk_in_file(t.cut, i as int);
    }
    law_decode_reads_back_encode(p);
}

/// Where enough packets have come, every chunk is delivered.
proof fn lemma_enough_delivers(t: Transfer, pkts: Seq<PacketView>, i: int)
    requires
        t.valid(),
        forall|p: int| 0 <= p < pkts.len() ==> t.sends(#[trigger] pkts[p]),
        enough(t, pkts),
        0 <= i < t.total(),
    ensures
        delivered(pkts, i),
{
    if t.total() > 1 && i == t.total() - 1 {
        let (q, p) = choose|q: int, p: int|
            0 <= q < p < pkts.len() && #[trigger] carries(pkts[p], t.total() - 1)
                && #[trigger] tells_size(pkts[q]);
        assert(delivers(pkts, p, i));
    } else {
        assert(has_come(pkts, i));
        let p = choose|p: int| 0 <= p < pkts.len() && carries(#[trigger] pkts[p], i);
        assert(t.sends(pkts[p]));
        assert(tells_size(pkts[p]));
        assert(delivers(pkts, p, i));
    }
}

/// The whole way of a file. Its packets go out as datagrams; those that come, in whatever order
/// and however often, are read back as they were and put into a fresh assembly. Once enough of
/// them have come the assembly can be moved; the move puts the file as it was sent under the final
/// directory by the name that was sent, leaves neither of its files in the holding directory,
/// touches no other file, and the assembly is in flight no more. The final place must be free for
/// the file, and no other sidecar may spell the same id in another way.
pub proof fn law_file_is_delivered(
    t: Transfer,
    cwd: Seq<Seq<char>>,
    r: Reassembler,
    files: Map<Seq<Seq<char>>, Seq<u8>>,
    pkts: Seq<PacketView>,
    sidecar: SidecarRead,
    to: FinalMove,
    names: Seq<String>,
)
    requires
        t.valid(),
        can_be_placed(t.name),
        forall|p: int| 0 <= p < pkts.len() ==> is_made_of(t, #[trigger] pkts[p]),
        enough(t, pkts),
        file_at(files, data_place(cwd, r, t.cut.file_id)) is None,
        file_at(files, sidecar_place(cwd, r, t.cut.file_id)) is None,
        r.moves(t.cut.file_id, t.name, to),
        is_free_for(place(cwd, to.dest@), cwd, r, t.cut.file_id),
        forall|n: Seq<char>| #[trigger]
            is_in(files, place(cwd, r.holding@), n) ==> assembly_id(n) != Some(t.cut.file_id),
        ({
            let d = after_packets(
                r.holding_path(t.cut.file_id, ".parmanifest"@),
                Disk { data: None, durable: None, sidecar: None },
                received(pkts),
            );
            &&& sidecar matches SidecarRead::Bytes(b) && d.sidecar == Some(b@)
            &&& lists(
                moved(with_assembly(files, cwd, r, t.cut.file_id, d), cwd, to),
                place(cwd, r.holding@),
                names,
            )
        }),
    ensures
        forall|p: int|
            0 <= p < pkts.len() ==> packet_fault(datagram(#[trigger] pkts[p])) is None && packet_in(
                datagram(pkts[p]),
            ) == pkts[p],
        can_be_moved(r.holding_path(t.cut.file_id, ".parmanifest"@), sidecar),
        known(r.holding_path(t.cut.file_id, ".parmanifest"@), sidecar) matches Some(m) && m.name
            == t.name,
        place(cwd, to.dest@) == place(cwd, r.finals@) + walk(Seq::empty(), relative_path(t.name)),
        place(cwd, to.dest@).last() == base_name(relative_path(t.name)),
        ({
            let d = after_packets(
                r.holding_path(t.cut.file_id, ".parmanifest"@),
                Disk { data: None, durable: None, sidecar: None },
                received(pkts),
            );
            let after = moved(with_assembly(files, cwd, r, t.cut.file_id, d), cwd, to);
            &&& file_at(after, place(cwd, to.dest@)) == Some(t.contents)
            &&& file_at(after, data_place(cwd, r, t.cut.file_id)) is None
            &&& file_at(after, sidecar_place(cwd, r, t.cut.file_id)) is None
            &&& forall|at: Seq<Seq<char>>|
                at != place(cwd, to.dest@) ==> #[trigger] file_at(after, at) == file_at(files, at)
        }),
        !is_flying(names, t.cut.file_id),
{
    let id = t.cut.file_id;
    let path = r.holding_path(id, ".parmanifest"@);
    let start = Disk { data: None, durable: None, sidecar: None };
    assert forall|p: int| 0 <= p < pkts.len() implies t.sends(#[trigger] pkts[p]) && packet_fault(
        datagram(pkts[p]),
    ) is None && packet_in(datagram(pkts[p])) == pkts[p] by {
        lemma_made_packet(t, pkts[p]);
    }
    assert(received(pkts) =~= pkts);
    law_final_place_is_inside(cwd, r.finals@, t.name);
    let d = after_packets(path, start, pkts);
    lemma_transfer_bounds(t);
    if t.name.len() == 0 {
        assert(relative_path(t.name) =~= Seq::empty());
        assert(base_name(Seq::<char>::empty()) =~= Seq::empty());
    }
    assert forall|i: int| 0 <= i < t.total() implies #[trigger] delivered(pkts, i) by {
        lemma_enough_delivers(t, pkts, i);
    }
    let named = choose|p: int|
        0 <= p < pkts.len() && #[trigger] pkts[p] == t.cut.name_packet(t.name);
    assert(pkts[named].ptype is Manifest);
    law_delivered_file_is_restored(t, path, start, pkts);
    law_any_order(t, path, start, pkts);
    law_finished_assembly_can_be_moved(t, path, d);
    assert(usable(sidecar));
    lemma_holding_places(cwd, r, id);
    let dir = place(cwd, r.holding@);
    let own = decimal_int(id as int) + ".parmanifest"@;
    let before = with_assembly(files, cwd, r, id, d);
    assert(file_at(before, data_place(cwd, r, id)) == Some(t.contents));
    assert forall|n: Seq<char>| #[trigger]
        is_in(before, dir, n) && assembly_id(n) == Some(id) implies n == own by {
        assert(dir.push(n).last() == n);
        assert(dir.push(own).last() == own);
        assert(!is_in(files, dir, n));
    }
    law_final_move_clears_the_holding_directory(before, cwd, r, id, t.name, to, names);
    let after = moved(before, cwd, to);
    assert forall|at: Seq<Seq<char>>| at != place(cwd, to.dest@) implies #[trigger] file_at(
        after,
        at,
    ) == file_at(files, at) by {
        if at != data_place(cwd, r, id) && at != sidecar_place(cwd, r, id) {
            assert(file_at(after, at) == file_at(before, at));
        }
    }
}

} // verus!
