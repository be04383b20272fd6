//! What reassembly guarantees as a whole: whatever the order in which the packets of a file
//! arrive, and wherever a crash interrupts the work, every chunk that is marked as received is in
//! the data file, and a complete assembly is the file that was sent.

use vstd::arithmetic::div_mod::{lemma_fundamental_div_mod, lemma_mod_bound};
use vstd::arithmetic::mul::{lemma_mul_inequality, lemma_mul_is_distributive_add_other_way};
use vstd::prelude::*;
use vstd::utf8::{encode_utf8, encode_utf8_decode_utf8, encode_utf8_valid_utf8};

use crate::chunker::{
    chunk_count, chunk_size_ok, law_chunk_count, law_last_chunk_is_marked, lemma_chunk_in_file,
    ChunkerView,
};
use crate::proto::{law_lowest_bit_marks_last, PacketType, PacketView};
use crate::reassembler::manifest::{
    bit_set, is_missing_run, law_marking_marks_one_chunk, law_open_reads_back_save,
    lemma_fresh_is_empty, lemma_with_bit, manifest_fault, manifest_in, missing_count, missing_runs,
    with_bit, ManifestView,
};
use crate::reassembler::{
    chunk_end, chunk_start, ingest_plan, is_tail, with_chunk, write_steps, wrong_size,
    DiskStepView, IngestOutcome, PlanView,
};
use crate::text::text_in;

verus! {

/// The two files of an assembly. `durable` is what a crash leaves at least of the data file: its
/// contents at the last sync.
pub struct Disk {
    pub data: Option<Seq<u8>>,
    pub durable: Option<Seq<u8>>,
    pub sidecar: Option<Seq<u8>>,
}

/// The bytes of a file; a missing file has none.
pub open spec fn content(file: Option<Seq<u8>>) -> Seq<u8> {
    match file {
        Some(s) => s,
        None => seq![],
    }
}

/// A run of bytes cut to a length, or extended to it with zeros.
pub open spec fn resized(s: Seq<u8>, n: int) -> Seq<u8> {
    Seq::new(
        n as nat,
        |i: int|
            if i < s.len() {
                s[i]
            } else {
                0
            },
    )
}

/// A run of bytes with others written over it at an offset.
pub open spec fn overwritten(s: Seq<u8>, at: int, b: Seq<u8>) -> Seq<u8> {
    let n = if s.len() < at + b.len() {
        at + b.len()
    } else {
        s.len() as int
    };
    Seq::new(
        n as nat,
        |i: int|
            if at <= i < at + b.len() {
                b[i - at]
            } else if i < s.len() {
                s[i]
            } else {
                0
            },
    )
}

/// The files after one step.
pub open spec fn after(d: Disk, step: DiskStepView) -> Disk {
    match step {
        DiskStepView::SaveSidecar(b) => Disk { sidecar: Some(b), ..d },
        DiskStepView::OpenData => Disk { data: Some(content(d.data)), ..d },
        DiskStepView::SetDataLen(n) => Disk { data: Some(resized(content(d.data), n)), ..d },
        DiskStepView::WriteData(at, b) => Disk {
            data: Some(overwritten(content(d.data), at, b)),
            ..d
        },
        DiskStepView::SyncData | DiskStepView::SyncAll => Disk { durable: d.data, ..d },
    }
}

/// The files after several steps.
pub open spec fn after_all(d: Disk, steps: Seq<DiskStepView>) -> Disk
    decreases steps.len(),
{
    if steps.len() == 0 {
        d
    } else {
        after_all(after(d, steps[0]), steps.drop_first())
    }
}

/// What is planned for a packet in the light of what is on disk.
pub open spec fn plan_on(path: Seq<char>, d: Disk, pkt: PacketView) -> PlanView {
    ingest_plan(path, known_on(path, d), content(d.data).len() as int, pkt)
}

/// The manifest on disk.
pub open spec fn known_on(path: Seq<char>, d: Disk) -> Option<ManifestView> {
    match d.sidecar {
        Some(b) => Some(manifest_in(path, b)),
        None => None,
    }
}

/// One file on its way: how it is cut up, its contents and its name.
pub struct Transfer {
    pub cut: ChunkerView,
    pub contents: Seq<u8>,
    pub name: Seq<char>,
}

impl Transfer {
    /// The file can be numbered in 32-bit chunks, and its name fits a sidecar.
    pub open spec fn valid(self) -> bool {
        &&& chunk_size_ok(self.cut.chunk_size)
        &&& self.contents.len() == self.cut.file_size
        &&& chunk_count(self.cut.file_size, self.cut.payload_size()) <= u32::MAX
        &&& encode_utf8(self.name).len() <= u32::MAX
    }

    /// How many chunks the file has.
    pub open spec fn total(self) -> int {
        self.cut.num_chunks() as int
    }

    /// Whether a packet is one that the sender makes of the file (first pass or retransmit), or a
    /// heartbeat.
    pub open spec fn sends(self, pkt: PacketView) -> bool {
        match pkt.ptype {
            PacketType::Data | PacketType::Retransmit => {
                &&& pkt.num_chunks == self.total()
                &&& pkt.chunk_id < self.total()
                &&& pkt.payload == self.cut.chunk_of(self.contents, pkt.chunk_id as int)
                &&& pkt.flags.marks_last() == (pkt.chunk_id == self.total() - 1)
            },
            PacketType::Manifest | PacketType::NameOnly => {
                &&& pkt.num_chunks == self.total()
                &&& pkt.payload == encode_utf8(self.name)
            },
            PacketType::Heartbeat => true,
        }
    }

    /// Whether a chunk stands at its place among the given bytes.
    pub open spec fn holds(self, data: Seq<u8>, i: int) -> bool {
        &&& self.cut.offset(i) + self.cut.span(i) <= data.len()
        &&& data.subrange(self.cut.offset(i), self.cut.offset(i) + self.cut.span(i))
            == self.cut.chunk_of(self.contents, i)
    }

    /// Whether a manifest tells the truth about a data file of this transfer.
    pub open spec fn truthful(self, m: ManifestView, file: Option<Seq<u8>>) -> bool {
        &&& m.wf()
        &&& m.num_chunks == self.total()
        &&& m.name.len() == 0 || m.name == self.name
        &&& m.chunk_payload_size == self.cut.span(0) || (m.chunk_payload_size == 0 && forall|i: int|
            0 <= i < self.total() ==> !#[trigger] m.has(i))
        &&& forall|i: int|
            0 <= i < self.total() && #[trigger] m.has(i) ==> self.holds(content(file), i)
        &&& m.has(self.total() - 1) ==> file is Some && content(file).len() == self.contents.len()
            && m.file_size_hint == self.contents.len()
    }

    /// Whether what is on disk is a sound assembly of this transfer: nothing has been recorded
    /// yet, or the sidecar is in order and tells the truth about the data file, also as a crash
    /// would leave it.
    pub open spec fn sound(self, path: Seq<char>, d: Disk) -> bool {
        match d.sidecar {
            None => true,
            Some(b) => {
                &&& manifest_fault(b) is None
                &&& self.truthful(manifest_in(path, b), d.data)
                &&& self.truthful(manifest_in(path, b), d.durable)
            },
        }
    }

    /// Whether each step of a list leaves a sound assembly.
    pub open spec fn sound_throughout(
        self,
        path: Seq<char>,
        d: Disk,
        steps: Seq<DiskStepView>,
    ) -> bool
        decreases steps.len(),
    {
        &&& self.sound(path, d)
        &&& steps.len() == 0 || self.sound_throughout(path, after(d, steps[0]), steps.drop_first())
    }
}

/// Doing two lists of steps one after the other.
proof fn lemma_steps_concat(
    t: Transfer,
    path: Seq<char>,
    d: Disk,
    a: Seq<DiskStepView>,
    b: Seq<DiskStepView>,
)
    ensures
        after_all(d, a + b) == after_all(after_all(d, a), b),
        t.sound_throughout(path, d, a) && t.sound_throughout(path, after_all(d, a), b)
            ==> t.sound_throughout(path, d, a + b),
    decreases a.len(),
{
    if a.len() == 0 {
        assert(a + b =~= b);
    } else {
        assert((a + b).drop_first() =~= a.drop_first() + b);
        lemma_steps_concat(t, path, after(d, a[0]), a.drop_first(), b);
    }
}

/// Doing one step.
proof fn lemma_one_step(t: Transfer, path: Seq<char>, d: Disk, step: DiskStepView)
    ensures
        after_all(d, seq![step]) == after(d, step),
        t.sound(path, d) && t.sound(path, after(d, step)) ==> t.sound_throughout(
            path,
            d,
            seq![step],
        ),
{
    let s = seq![step];
    assert(s.drop_first() =~= Seq::empty());
    reveal_with_fuel(after_all, 2);
    reveal_with_fuel(Transfer::sound_throughout, 2);
}

/// A list of steps that is sound throughout is sound after any number of them.
proof fn lemma_sound_prefix(
    t: Transfer,
    path: Seq<char>,
    d: Disk,
    steps: Seq<DiskStepView>,
    k: int,
)
    requires
        t.sound_throughout(path, d, steps),
        0 <= k <= steps.len(),
    ensures
        t.sound(path, after_all(d, steps.take(k))),
    decreases k,
{
    if k > 0 {
        assert(steps.take(k).drop_first() =~= steps.drop_first().take(k - 1));
        lemma_sound_prefix(t, path, after(d, steps[0]), steps.drop_first(), k - 1);
    }
}

/// The numbers of a valid transfer.
pub proof fn lemma_transfer_bounds(t: Transfer)
    requires
        t.valid(),
    ensures
        32 <= t.cut.payload_size() <= 65_000,
        t.total() == chunk_count(t.cut.file_size, t.cut.payload_size()),
        t.total() > 0,
        t.contents.len() <= u64::MAX,
{
    let p = t.cut.payload_size();
    law_chunk_count(t.cut.file_size, p, 1);
    let n = chunk_count(t.cut.file_size, p);
    assert(n * p <= 0xFFFF_FFFF * 65_000) by (nonlinear_arith)
        requires
            0 <= n <= 0xFFFF_FFFF,
            0 <= p <= 65_000,
    ;
}

/// Two different chunks stand apart.
proof fn lemma_chunks_apart(t: Transfer, i: int, j: int)
    requires
        t.valid(),
        0 <= i < t.total(),
        0 <= j < t.total(),
        i != j,
    ensures
        t.cut.offset(i) + t.cut.span(i) <= t.cut.offset(j) || t.cut.offset(j) + t.cut.span(j)
            <= t.cut.offset(i),
{
    lemma_transfer_bounds(t);
    lemma_chunk_in_file(t.cut, i);
    lemma_chunk_in_file(t.cut, j);
    let p = t.cut.payload_size() as int;
    if i < j {
        lemma_mul_inequality(i + 1, j, p);
        lemma_mul_is_distributive_add_other_way(p, i, 1);
    } else {
        lemma_mul_inequality(j + 1, i, p);
        lemma_mul_is_distributive_add_other_way(p, j, 1);
    }
}

/// Saving a truthful manifest leaves a sound assembly that holds it.
proof fn lemma_save(t: Transfer, path: Seq<char>, d: Disk, m: ManifestView)
    requires
        t.valid(),
        m.path == path,
        t.truthful(m, d.data),
        t.truthful(m, d.durable),
    ensures
        ({
            let e = after(d, DiskStepView::SaveSidecar(m.bytes()));
            &&& t.sound(path, e)
            &&& known_on(path, e) == Some(m)
            &&& e.data == d.data
            &&& e.durable == d.durable
        }),
{
    assert(encode_utf8(Seq::<char>::empty()).len() == 0);
    if m.name.len() == 0 {
        assert(m.name =~= Seq::empty());
    }
    law_open_reads_back_save(m);
}

/// A chunk that stands at its place stays there when the file grows, is cut no shorter than the
/// whole file, or has another chunk written.
proof fn lemma_chunk_stays(t: Transfer, data: Seq<u8>, i: int, n: int, j: int)
    requires
        t.valid(),
        0 <= i < t.total(),
        t.holds(data, i),
    ensures
        n >= data.len() ==> t.holds(resized(data, n), i),
        n == t.contents.len() ==> t.holds(resized(data, n), i),
        0 <= j < t.total() && j != i ==> t.holds(
            overwritten(data, t.cut.offset(j), t.cut.chunk_of(t.contents, j)),
            i,
        ),
{
    lemma_transfer_bounds(t);
    lemma_chunk_in_file(t.cut, i);
    let a = t.cut.offset(i);
    let b = a + t.cut.span(i);
    let chunk = t.cut.chunk_of(t.contents, i);
    if n >= data.len() || n == t.contents.len() {
        let r = resized(data, n);
        assert forall|k: int| a <= k < b implies r[k] == data[k] by {
            assert(n > k);
        }
        assert(r.subrange(a, b) =~= data.subrange(a, b));
    }
    if 0 <= j < t.total() && j != i {
        lemma_chunk_in_file(t.cut, j);
        lemma_chunks_apart(t, i, j);
        let r = overwritten(data, t.cut.offset(j), t.cut.chunk_of(t.contents, j));
        assert(t.cut.chunk_of(t.contents, j).len() == t.cut.span(j));
        assert(r.subrange(a, b) =~= data.subrange(a, b));
    }
}

/// A chunk that has been written stands at its place.
proof fn lemma_written_chunk(t: Transfer, data: Seq<u8>, j: int)
    requires
        t.valid(),
        0 <= j < t.total(),
    ensures
        t.holds(overwritten(data, t.cut.offset(j), t.cut.chunk_of(t.contents, j)), j),
{
    lemma_transfer_bounds(t);
    lemma_chunk_in_file(t.cut, j);
    let a = t.cut.offset(j);
    let chunk = t.cut.chunk_of(t.contents, j);
    assert(overwritten(data, a, chunk).subrange(a, a + t.cut.span(j)) =~= chunk);
}

/// What the sender's own packet says of where a chunk goes.
proof fn lemma_placement(t: Transfer, m: ManifestView, pkt: PacketView)
    requires
        t.valid(),
        t.sends(pkt),
        pkt.ptype is Data || pkt.ptype is Retransmit,
        m.chunk_payload_size == t.cut.span(0),
    ensures
        chunk_start(m, pkt) == t.cut.offset(pkt.chunk_id as int),
        pkt.payload.len() == t.cut.span(pkt.chunk_id as int),
        chunk_end(m, pkt) <= t.contents.len(),
        pkt.flags.marks_last() ==> chunk_end(m, pkt) == t.contents.len(),
        is_tail(pkt) == (t.total() > 1 && pkt.chunk_id == t.total() - 1),
{
    lemma_transfer_bounds(t);
    lemma_chunk_in_file(t.cut, 0);
    lemma_chunk_in_file(t.cut, pkt.chunk_id as int);
    if t.total() == 1 {
        assert(pkt.chunk_id * m.chunk_payload_size == 0 && pkt.chunk_id * t.cut.payload_size() == 0)
            by (nonlinear_arith)
            requires
                pkt.chunk_id == 0,
        ;
    }
}

/// A chunk that is not there yet is written, synced and then marked, and the assembly is sound
/// throughout.
proof fn lemma_write_steps(t: Transfer, path: Seq<char>, d: Disk, m: ManifestView, pkt: PacketView)
    requires
        t.valid(),
        t.sends(pkt),
        pkt.ptype is Data || pkt.ptype is Retransmit,
        t.sound(path, d),
        known_on(path, d) == Some(m),
        m.path == path,
        !m.has(pkt.chunk_id as int),
        m.chunk_payload_size == t.cut.span(0),
    ensures
        t.sound_throughout(path, d, write_steps(m, content(d.data).len() as int, pkt)),
        known_on(path, after_all(d, write_steps(m, content(d.data).len() as int, pkt))) == Some(
            with_chunk(m, pkt),
        ),
{
    lemma_transfer_bounds(t);
    lemma_placement(t, m, pkt);
    let id = pkt.chunk_id as int;
    let x = content(d.data);
    let end = chunk_end(m, pkt);
    let open = DiskStepView::OpenData;
    let grow = DiskStepView::SetDataLen(end);
    let write = DiskStepView::WriteData(chunk_start(m, pkt), pkt.payload);
    let sync = DiskStepView::SyncData;
    let save = DiskStepView::SaveSidecar(with_chunk(m, pkt).bytes());

    let d1 = after(d, open);
    lemma_one_step(t, path, d, open);

    let grows = if x.len() < end {
        seq![grow]
    } else {
        seq![]
    };
    let d2 = after_all(d1, grows);
    assert(t.sound_throughout(path, d1, grows)) by {
        if x.len() < end {
            lemma_one_step(t, path, d1, grow);
            assert forall|i: int| 0 <= i < t.total() && m.has(i) implies t.holds(
                resized(x, end),
                i,
            ) by {
                lemma_chunk_stays(t, x, i, end, -1);
            }
        }
    }
    assert(content(d2.data).len() >= end && d2.data is Some && d2.sidecar == d.sidecar && (x.len()
        == t.contents.len() ==> content(d2.data).len() == t.contents.len())) by {
        if x.len() < end {
            lemma_one_step(t, path, d1, grow);
        }
    }
    assert(t.sound(path, d2)) by {
        lemma_sound_prefix(t, path, d1, grows, grows.len() as int);
        assert(grows.take(grows.len() as int) =~= grows);
    }

    let y = content(d2.data);
    let d3 = after(d2, write);
    let z = overwritten(y, t.cut.offset(id), t.cut.chunk_of(t.contents, id));
    assert(d3.data == Some(z));
    assert forall|i: int| 0 <= i < t.total() && m.has(i) implies t.holds(z, i) by {
        lemma_chunk_stays(t, y, i, -1, id);
    }
    assert(z.len() == y.len());
    lemma_written_chunk(t, y, id);
    lemma_one_step(t, path, d2, write);

    let d4 = after(d3, sync);
    lemma_one_step(t, path, d3, sync);

    let cut = DiskStepView::SetDataLen(end);
    let sync_all = DiskStepView::SyncAll;
    let lock = if pkt.flags.marks_last() {
        seq![cut, sync_all]
    } else {
        seq![]
    };
    let d6 = after_all(d4, lock);
    let w = if pkt.flags.marks_last() {
        resized(z, end)
    } else {
        z
    };
    assert forall|i: int| 0 <= i < t.total() && (m.has(i) || i == id) implies t.holds(w, i) by {
        lemma_chunk_stays(t, z, i, end, -1);
    }
    assert(t.sound_throughout(path, d4, lock) && d6.data == Some(w) && d6.durable == Some(w)
        && d6.sidecar == d.sidecar) by {
        if pkt.flags.marks_last() {
            let d5 = after(d4, cut);
            assert(t.sound(path, d5));
            lemma_one_step(t, path, d4, cut);
            lemma_one_step(t, path, d5, sync_all);
            lemma_steps_concat(t, path, d4, seq![cut], seq![sync_all]);
            assert(seq![cut] + seq![sync_all] =~= seq![cut, sync_all]);
        }
    }

    let m3 = with_chunk(m, pkt);
    assert forall|i: int| 0 <= i implies #[trigger] m3.has(i) == (m.has(i) || i == id) by {
        lemma_with_bit(m.bitmap, id, i);
        lemma_with_bit(m.bitmap, id, id);
    }
    lemma_with_bit(m.bitmap, id, id);
    assert(t.truthful(m3, Some(w))) by {
        if m3.has(t.total() - 1) && id != t.total() - 1 {
            assert(m.has(t.total() - 1));
        }
    }
    lemma_save(t, path, d6, m3);
    lemma_one_step(t, path, d6, save);

    lemma_steps_concat(t, path, d, seq![open], grows);
    lemma_steps_concat(t, path, d2, seq![write], seq![sync]);
    assert(seq![write] + seq![sync] =~= seq![write, sync]);
    lemma_steps_concat(t, path, d, seq![open] + grows, seq![write, sync]);
    lemma_steps_concat(t, path, d, seq![open] + grows + seq![write, sync], lock);
    lemma_steps_concat(t, path, d, seq![open] + grows + seq![write, sync] + lock, seq![save]);
}

/// Whether the assembly on disk has a chunk.
pub open spec fn marked(path: Seq<char>, d: Disk, i: int) -> bool {
    known_on(path, d) matches Some(m) && m.has(i)
}

/// Whether the assembly on disk knows the file's name.
pub open spec fn named(path: Seq<char>, d: Disk) -> bool {
    known_on(path, d) matches Some(m) && m.name.len() > 0
}

/// Whether the assembly on disk knows how large a chunk is.
pub open spec fn sized(path: Seq<char>, d: Disk) -> bool {
    known_on(path, d) matches Some(m) && m.chunk_payload_size != 0
}

/// Whether the assembly on disk has every chunk and the name.
pub open spec fn finished(t: Transfer, path: Seq<char>, d: Disk) -> bool {
    named(path, d) && forall|i: int| 0 <= i < t.total() ==> #[trigger] marked(path, d, i)
}

/// What a data packet of the transfer does.
proof fn lemma_chunk_packet(t: Transfer, path: Seq<char>, d: Disk, pkt: PacketView)
    requires
        t.valid(),
        t.sends(pkt),
        pkt.ptype is Data || pkt.ptype is Retransmit,
        t.sound(path, d),
    ensures
        ({
            let plan = plan_on(path, d, pkt);
            let e = after_all(d, plan.steps);
            &&& t.sound_throughout(path, d, plan.steps)
            &&& plan.outcome is Mismatched <==> is_tail(pkt) && !sized(path, d)
            &&& plan.outcome is Mismatched ==> e == d
            &&& !(plan.outcome is Mismatched) ==> {
                &&& plan.outcome is Duplicate <==> marked(path, d, pkt.chunk_id as int)
                &&& plan.outcome is Complete <==> !marked(path, d, pkt.chunk_id as int) && finished(
                    t,
                    path,
                    e,
                )
                &&& forall|i: int|
                    0 <= i < t.total() ==> #[trigger] marked(path, e, i) == (marked(path, d, i) || i
                        == pkt.chunk_id)
                &&& named(path, e) == named(path, d)
                &&& t.total() > 1 ==> sized(path, e)
                &&& plan.outcome is Duplicate ==> e.data == d.data && e.durable == d.durable
            }
        }),
{
    lemma_transfer_bounds(t);
    lemma_chunk_in_file(t.cut, 0);
    lemma_chunk_in_file(t.cut, pkt.chunk_id as int);
    let id = pkt.chunk_id as int;
    let plan = plan_on(path, d, pkt);
    let size = (pkt.payload.len() % 0x1_0000_0000) as u32;
    let fresh = ManifestView::fresh(path, size, pkt.num_chunks, Seq::empty());
    let created = if d.sidecar is None {
        seq![DiskStepView::SaveSidecar(fresh.bytes())]
    } else {
        seq![]
    };
    let m1 = match known_on(path, d) {
        Some(m) => m,
        None => fresh,
    };
    lemma_fresh_is_empty(path, size, pkt.num_chunks, Seq::empty());
    assert(pkt.payload.len() == t.cut.span(id));
    assert(!(d.sidecar is Some && wrong_size(m1, pkt)));
    if is_tail(pkt) && !sized(path, d) {
        assert(after_all(d, plan.steps) == d);
    } else {
        // The sidecar is there.
        let d1 = after_all(d, created);
        assert(t.sound_throughout(path, d, created) && t.sound(path, d1) && known_on(path, d1)
            == Some(m1) && d1.data == d.data && d1.durable == d.durable) by {
            if d.sidecar is None {
                lemma_save(t, path, d, fresh);
                lemma_one_step(t, path, d, DiskStepView::SaveSidecar(fresh.bytes()));
            }
        }
        // The chunk size is known.
        let m2 = if m1.chunk_payload_size == 0 {
            ManifestView { chunk_payload_size: size, ..m1 }
        } else {
            m1
        };
        let save = DiskStepView::SaveSidecar(m2.bytes());
        let sized_steps = if m1.chunk_payload_size == 0 {
            created + seq![save]
        } else {
            created
        };
        let d2 = after_all(d, sized_steps);
        assert(forall|i: int| m2.has(i) == m1.has(i));
        assert(t.sound_throughout(path, d, sized_steps) && t.sound(path, d2) && known_on(path, d2)
            == Some(m2) && d2.data == d.data && d2.durable == d.durable) by {
            if m1.chunk_payload_size == 0 {
                assert(t.truthful(m2, d1.data));
                assert(t.truthful(m2, d1.durable));
                lemma_save(t, path, d1, m2);
                lemma_one_step(t, path, d1, save);
                lemma_steps_concat(t, path, d, created, seq![save]);
            }
        }
        assert(m2.chunk_payload_size == t.cut.span(0));
        assert(m2.has(id) == marked(path, d, id));
        if !m2.has(id) {
            let writes = write_steps(m2, content(d.data).len() as int, pkt);
            lemma_write_steps(t, path, d2, m2, pkt);
            lemma_steps_concat(t, path, d, sized_steps, writes);
            let e = after_all(d, plan.steps);
            let m3 = with_chunk(m2, pkt);
            assert(known_on(path, e) == Some(m3));
            assert forall|i: int| 0 <= i < t.total() implies #[trigger] marked(path, e, i) == (
            marked(path, d, i) || i == id) by {
                lemma_with_bit(m2.bitmap, id, i);
                assert(m3.has(i) == (m2.has(i) || i == id));
                assert(m2.has(i) == m1.has(i));
                if d.sidecar is None {
                    assert(!fresh.has(i));
                }
            }
            assert(m3.complete() == (forall|i: int|
                0 <= i < t.total() ==> #[trigger] marked(path, e, i))) by {
                if m3.complete() {
                    assert forall|i: int| 0 <= i < t.total() implies #[trigger] marked(
                        path,
                        e,
                        i,
                    ) by {
                        assert(m3.has(i));
                    }
                } else {
                    let i = choose|i: int| 0 <= i < m3.num_chunks && !#[trigger] m3.has(i);
                    assert(!marked(path, e, i));
                }
            }
        }
    }
}

/// What a name packet of the transfer does.
proof fn lemma_name_packet(t: Transfer, path: Seq<char>, d: Disk, pkt: PacketView)
    requires
        t.valid(),
        t.sends(pkt),
        pkt.ptype is Manifest || pkt.ptype is NameOnly,
        t.sound(path, d),
    ensures
        ({
            let plan = plan_on(path, d, pkt);
            let e = after_all(d, plan.steps);
            &&& t.sound_throughout(path, d, plan.steps)
            &&& plan.outcome is Accepted || plan.outcome is Complete
            &&& plan.outcome is Complete <==> finished(t, path, e)
            &&& forall|i: int|
                0 <= i < t.total() ==> #[trigger] marked(path, e, i) == marked(path, d, i)
            &&& named(path, e) == (t.name.len() > 0)
            &&& sized(path, e) == sized(path, d)
            &&& e.data == d.data && e.durable == d.durable
        }),
{
    lemma_transfer_bounds(t);
    encode_utf8_valid_utf8(t.name);
    encode_utf8_decode_utf8(t.name);
    let plan = plan_on(path, d, pkt);
    let name = text_in(pkt.payload);
    assert(name == t.name);
    let fresh = ManifestView::fresh(path, 0, pkt.num_chunks, name);
    let created = if d.sidecar is None {
        seq![DiskStepView::SaveSidecar(fresh.bytes())]
    } else {
        seq![]
    };
    let m1 = match known_on(path, d) {
        Some(m) => m,
        None => fresh,
    };
    lemma_fresh_is_empty(path, 0, pkt.num_chunks, name);
    let d1 = after_all(d, created);
    assert(t.sound_throughout(path, d, created) && t.sound(path, d1) && known_on(path, d1) == Some(
        m1,
    ) && d1.data == d.data && d1.durable == d.durable) by {
        if d.sidecar is None {
            lemma_save(t, path, d, fresh);
            lemma_one_step(t, path, d, DiskStepView::SaveSidecar(fresh.bytes()));
        }
    }
    let m2 = if m1.name.len() == 0 {
        ManifestView { name, ..m1 }
    } else {
        m1
    };
    assert(forall|i: int| m2.has(i) == m1.has(i));
    let e = after_all(d, plan.steps);
    if m1.name.len() == 0 {
        let save = DiskStepView::SaveSidecar(m2.bytes());
        assert(t.truthful(m2, d1.data));
        assert(t.truthful(m2, d1.durable));
        lemma_save(t, path, d1, m2);
        lemma_one_step(t, path, d1, save);
        lemma_steps_concat(t, path, d, created, seq![save]);
    }
    assert(known_on(path, e) == Some(m2));
    assert forall|i: int| 0 <= i < t.total() implies #[trigger] marked(path, e, i) == marked(
        path,
        d,
        i,
    ) by {
        assert(m2.has(i) == m1.has(i));
        if d.sidecar is None {
            assert(!fresh.has(i));
        }
    }
    assert(m2.complete() == (forall|i: int| 0 <= i < t.total() ==> #[trigger] marked(path, e, i)))
        by {
        if m2.complete() {
            assert forall|i: int| 0 <= i < t.total() implies #[trigger] marked(path, e, i) by {
                assert(m2.has(i));
            }
        } else {
            let i = choose|i: int| 0 <= i < m2.num_chunks && !#[trigger] m2.has(i);
            assert(!marked(path, e, i));
        }
    }
}

/// Crash safety: after any number of the steps that a packet of a file calls for, the sidecar
/// says of no chunk that it is there unless it is, in the data file as it stands and in what a
/// crash leaves of it; and it never names a wrong final size.
pub proof fn law_sound_after_every_step(
    t: Transfer,
    path: Seq<char>,
    d: Disk,
    pkt: PacketView,
    k: int,
)
    requires
        t.valid(),
        t.sends(pkt),
        t.sound(path, d),
        0 <= k <= plan_on(path, d, pkt).steps.len(),
    ensures
        t.sound(path, after_all(d, plan_on(path, d, pkt).steps.take(k))),
{
    let steps = plan_on(path, d, pkt).steps;
    match pkt.ptype {
        PacketType::Data | PacketType::Retransmit => lemma_chunk_packet(t, path, d, pkt),
        PacketType::Manifest | PacketType::NameOnly => lemma_name_packet(t, path, d, pkt),
        PacketType::Heartbeat => {},
    }
    lemma_sound_prefix(t, path, d, steps, k);
}

/// What each packet of a file does: a data packet marks its chunk and no other, unless it is the
/// tail of several chunks whose size is not known yet, which is dropped; a chunk that was there
/// is reported as a duplicate and the data file is left alone; a name packet gives the name.
/// `Complete` is reported exactly when all chunks and the name are there.
pub proof fn law_packet_effect(t: Transfer, path: Seq<char>, d: Disk, pkt: PacketView)
    requires
        t.valid(),
        t.sends(pkt),
        t.sound(path, d),
    ensures
        ({
            let outcome = plan_on(path, d, pkt).outcome;
            let e = after_all(d, plan_on(path, d, pkt).steps);
            &&& t.sound(path, e)
            &&& match pkt.ptype {
                PacketType::Data | PacketType::Retransmit => {
                    let id = pkt.chunk_id as int;
                    let dropped = is_tail(pkt) && !sized(path, d);
                    &&& outcome == if dropped {
                        IngestOutcome::Mismatched
                    } else if marked(path, d, id) {
                        IngestOutcome::Duplicate
                    } else if finished(t, path, e) {
                        IngestOutcome::Complete
                    } else {
                        IngestOutcome::Accepted
                    }
                    &&& forall|i: int|
                        0 <= i < t.total() ==> #[trigger] marked(path, e, i) == (marked(path, d, i)
                            || (i == id && !dropped))
                    &&& named(path, e) == named(path, d)
                    &&& outcome is Duplicate || outcome is Mismatched ==> e.data == d.data
                        && e.durable == d.durable
                },
                PacketType::Manifest | PacketType::NameOnly => {
                    &&& outcome == if finished(t, path, e) {
                        IngestOutcome::Complete
                    } else {
                        IngestOutcome::Accepted
                    }
                    &&& forall|i: int|
                        0 <= i < t.total() ==> #[trigger] marked(path, e, i) == marked(path, d, i)
                    &&& named(path, e) == (t.name.len() > 0)
                    &&& e.data == d.data && e.durable == d.durable
                },
                PacketType::Heartbeat => outcome is Ignored && e == d,
            }
        }),
{
    let steps = plan_on(path, d, pkt).steps;
    law_sound_after_every_step(t, path, d, pkt, steps.len() as int);
    assert(steps.take(steps.len() as int) =~= steps);
    match pkt.ptype {
        PacketType::Data | PacketType::Retransmit => lemma_chunk_packet(t, path, d, pkt),
        PacketType::Manifest | PacketType::NameOnly => lemma_name_packet(t, path, d, pkt),
        PacketType::Heartbeat => {},
    }
}

/// A sound assembly that has every chunk holds the file that was sent.
pub proof fn law_finished_assembly_is_the_file(t: Transfer, path: Seq<char>, d: Disk)
    requires
        t.valid(),
        t.sound(path, d),
        forall|i: int| 0 <= i < t.total() ==> #[trigger] marked(path, d, i),
    ensures
        d.data == Some(t.contents),
        d.durable == Some(t.contents),
{
    lemma_transfer_bounds(t);
    assert(marked(path, d, t.total() - 1));
    let m = known_on(path, d)->0;
    lemma_all_chunks_make_file(t, path, d, d.data);
    lemma_all_chunks_make_file(t, path, d, d.durable);
}

/// A sound assembly that is finished has everything that moving it to its final place asks for: its
/// sidecar is in order, says that every chunk is there, and has the name that was sent.
pub proof fn law_finished_assembly_can_be_moved(t: Transfer, path: Seq<char>, d: Disk)
    requires
        t.valid(),
        t.sound(path, d),
        finished(t, path, d),
    ensures
        d.sidecar matches Some(b) && manifest_fault(b) is None,
        known_on(path, d) matches Some(m) && m.complete() && m.name == t.name && m.name.len() > 0,
{
    let m = known_on(path, d)->0;
    assert forall|i: int| 0 <= i < m.num_chunks implies #[trigger] m.has(i) by {
        assert(marked(path, d, i));
    }
}

/// A file that holds every chunk is the file that was sent.
proof fn lemma_all_chunks_make_file(t: Transfer, path: Seq<char>, d: Disk, file: Option<Seq<u8>>)
    requires
        t.valid(),
        known_on(path, d) matches Some(m) && t.truthful(m, file),
        forall|i: int| 0 <= i < t.total() ==> #[trigger] marked(path, d, i),
    ensures
        file == Some(t.contents),
{
    lemma_transfer_bounds(t);
    let m = known_on(path, d)->0;
    assert(marked(path, d, t.total() - 1));
    let data = content(file);
    let p = t.cut.payload_size() as int;
    assert forall|j: int| 0 <= j < t.contents.len() implies data[j] == t.contents[j] by {
        let i = j / p;
        lemma_fundamental_div_mod(j, p);
        lemma_mod_bound(j, p);
        law_chunk_count(t.cut.file_size, t.cut.payload_size(), 1);
        assert(p * i == i * p) by (nonlinear_arith);
        assert(0 <= i < t.total()) by (nonlinear_arith)
            requires
                j == i * p + j % p,
                0 <= j % p < p,
                0 <= j < t.total() * p,
                p > 0,
        ;
        assert(marked(path, d, i));
        lemma_chunk_in_file(t.cut, i);
        let a = t.cut.offset(i);
        let b = a + t.cut.span(i);
        assert(t.holds(data, i));
        assert(data.subrange(a, b)[j - a] == data[j]);
        assert(t.contents.subrange(a, b)[j - a] == t.contents[j]);
    }
    assert(data =~= t.contents);
}

/// A duplicate chunk is not written: no step for it touches the data file.
pub proof fn law_duplicate_is_not_written(
    path: Seq<char>,
    known: Option<ManifestView>,
    data_len: int,
    pkt: PacketView,
)
    requires
        ingest_plan(path, known, data_len, pkt).outcome is Duplicate,
    ensures
        forall|k: int|
            0 <= k < ingest_plan(path, known, data_len, pkt).steps.len()
                ==> #[trigger] ingest_plan(path, known, data_len, pkt).steps[k] is SaveSidecar,
{
}

/// What is on disk after a sequence of packets.
pub open spec fn after_packets(path: Seq<char>, d: Disk, pkts: Seq<PacketView>) -> Disk
    decreases pkts.len(),
{
    if pkts.len() == 0 {
        d
    } else {
        let before = after_packets(path, d, pkts.drop_last());
        after_all(before, plan_on(path, before, pkts.last()).steps)
    }
}

/// Whether a packet carries the given chunk.
pub open spec fn carries(pkt: PacketView, i: int) -> bool {
    (pkt.ptype is Data || pkt.ptype is Retransmit) && pkt.chunk_id == i
}

/// Whether a packet carries a chunk from which the chunk size can be told.
pub open spec fn tells_size(pkt: PacketView) -> bool {
    (pkt.ptype is Data || pkt.ptype is Retransmit) && !is_tail(pkt)
}

/// Whether packet `p` of a sequence delivers chunk `i`: it carries the chunk, and the chunk is
/// not a tail that comes before every other one.
pub open spec fn delivers(pkts: Seq<PacketView>, p: int, i: int) -> bool {
    &&& carries(pkts[p], i)
    &&& tells_size(pkts[p]) || exists|q: int| 0 <= q < p && #[trigger] tells_size(pkts[q])
}

/// Whether a sequence of packets delivers chunk `i`.
pub open spec fn delivered(pkts: Seq<PacketView>, i: int) -> bool {
    exists|p: int| 0 <= p < pkts.len() && #[trigger] delivers(pkts, p, i)
}

/// Packets may come in any order, and more than once: starting from nothing, the assembly has
/// exactly the chunks that the packets deliver, and the name once a packet has named it.
pub proof fn law_any_order(t: Transfer, path: Seq<char>, d: Disk, pkts: Seq<PacketView>)
    requires
        t.valid(),
        d.sidecar is None,
        forall|p: int| 0 <= p < pkts.len() ==> t.sends(#[trigger] pkts[p]),
    ensures
        t.sound(path, after_packets(path, d, pkts)),
        forall|i: int|
            0 <= i < t.total() ==> #[trigger] marked(path, after_packets(path, d, pkts), i)
                == delivered(pkts, i),
        named(path, after_packets(path, d, pkts)) == (t.name.len() > 0 && exists|p: int|
            0 <= p < pkts.len() && ((#[trigger] pkts[p]).ptype is Manifest || pkts[p].ptype
                is NameOnly)),
        t.total() > 1 ==> sized(path, after_packets(path, d, pkts)) == exists|q: int|
            0 <= q < pkts.len() && #[trigger] tells_size(pkts[q]),
    decreases pkts.len(),
{
    lemma_transfer_bounds(t);
    if pkts.len() > 0 {
        let first = pkts.drop_last();
        let n = first.len() as int;
        let last = pkts.last();
        let b = after_packets(path, d, first);
        let e = after_packets(path, d, pkts);
        assert forall|p: int| 0 <= p < first.len() implies t.sends(#[trigger] first[p]) by {
            assert(first[p] == pkts[p]);
        }
        law_any_order(t, path, d, first);
        law_packet_effect(t, path, b, last);
        assert(pkts[n] == last);
        assert(t.sends(last));
        // What the earlier packets deliver, they deliver still.
        assert forall|p: int, i: int| 0 <= p < n implies #[trigger] delivers(pkts, p, i)
            == delivers(first, p, i) by {
            assert(first[p] == pkts[p]);
            if exists|q: int| 0 <= q < p && #[trigger] tells_size(pkts[q]) {
                let q = choose|q: int| 0 <= q < p && #[trigger] tells_size(pkts[q]);
                assert(first[q] == pkts[q]);
            }
            if exists|q: int| 0 <= q < p && #[trigger] tells_size(first[q]) {
                let q = choose|q: int| 0 <= q < p && #[trigger] tells_size(first[q]);
                assert(first[q] == pkts[q]);
            }
        }
        let size_before = exists|q: int| 0 <= q < n && #[trigger] tells_size(first[q]);
        assert(size_before == exists|q: int| 0 <= q < n && #[trigger] tells_size(pkts[q])) by {
            if size_before {
                let q = choose|q: int| 0 <= q < n && #[trigger] tells_size(first[q]);
                assert(tells_size(pkts[q]));
            }
            if exists|q: int| 0 <= q < n && #[trigger] tells_size(pkts[q]) {
                let q = choose|q: int| 0 <= q < n && #[trigger] tells_size(pkts[q]);
                assert(tells_size(first[q]));
            }
        }
        assert forall|i: int| 0 <= i < t.total() implies #[trigger] marked(path, e, i) == delivered(
            pkts,
            i,
        ) by {
            assert(marked(path, e, i) == (marked(path, b, i) || delivers(pkts, n, i)));
            if marked(path, b, i) {
                let p = choose|p: int| 0 <= p < n && #[trigger] delivers(first, p, i);
                assert(delivers(pkts, p, i));
            }
            if delivered(pkts, i) {
                let p = choose|p: int| 0 <= p < pkts.len() && #[trigger] delivers(pkts, p, i);
                if p < n {
                    assert(delivers(first, p, i));
                }
            }
        }
        lemma_names_and_sizes(t, path, d, pkts);
    }
}

/// The last packet's part in whether the name and the chunk size are known.
proof fn lemma_names_and_sizes(t: Transfer, path: Seq<char>, d: Disk, pkts: Seq<PacketView>)
    requires
        t.valid(),
        pkts.len() > 0,
        t.sends(pkts.last()),
        t.sound(path, after_packets(path, d, pkts.drop_last())),
        ({
            let first = pkts.drop_last();
            let b = after_packets(path, d, first);
            &&& named(path, b) == (t.name.len() > 0 && exists|p: int|
                0 <= p < first.len() && ((#[trigger] first[p]).ptype is Manifest || first[p].ptype
                    is NameOnly))
            &&& t.total() > 1 ==> sized(path, b) == exists|q: int|
                0 <= q < first.len() && #[trigger] tells_size(first[q])
        }),
    ensures
        named(path, after_packets(path, d, pkts)) == (t.name.len() > 0 && exists|p: int|
            0 <= p < pkts.len() && ((#[trigger] pkts[p]).ptype is Manifest || pkts[p].ptype
                is NameOnly)),
        t.total() > 1 ==> sized(path, after_packets(path, d, pkts)) == exists|q: int|
            0 <= q < pkts.len() && #[trigger] tells_size(pkts[q]),
{
    let first = pkts.drop_last();
    let n = first.len() as int;
    let last = pkts.last();
    let b = after_packets(path, d, first);
    assert(pkts[n] == last);
    match last.ptype {
        PacketType::Data | PacketType::Retransmit => lemma_chunk_packet(t, path, b, last),
        PacketType::Manifest | PacketType::NameOnly => lemma_name_packet(t, path, b, last),
        PacketType::Heartbeat => {},
    }
    assert(tells_size(pkts[n]) == tells_size(last));
    if exists|p: int|
        0 <= p < first.len() && ((#[trigger] first[p]).ptype is Manifest || first[p].ptype
            is NameOnly) {
        let p = choose|p: int|
            0 <= p < first.len() && ((#[trigger] first[p]).ptype is Manifest || first[p].ptype
                is NameOnly);
        assert(pkts[p] == first[p]);
    }
    if exists|p: int|
        0 <= p < pkts.len() && ((#[trigger] pkts[p]).ptype is Manifest || pkts[p].ptype
            is NameOnly) {
        let p = choose|p: int|
            0 <= p < pkts.len() && ((#[trigger] pkts[p]).ptype is Manifest || pkts[p].ptype
                is NameOnly);
        if p < n {
            assert(pkts[p] == first[p]);
        }
    }
    if exists|q: int| 0 <= q < first.len() && #[trigger] tells_size(first[q]) {
        let q = choose|q: int| 0 <= q < first.len() && #[trigger] tells_size(first[q]);
        assert(tells_size(pkts[q]));
    }
    if exists|q: int| 0 <= q < pkts.len() && #[trigger] tells_size(pkts[q]) {
        let q = choose|q: int| 0 <= q < pkts.len() && #[trigger] tells_size(pkts[q]);
        if q < n {
            assert(tells_size(first[q]));
        }
    }
}

/// Once the packets that arrived, in whatever order, deliver every chunk and the name, the
/// assembly is finished and its data file is the file that was sent.
pub proof fn law_delivered_file_is_restored(
    t: Transfer,
    path: Seq<char>,
    d: Disk,
    pkts: Seq<PacketView>,
)
    requires
        t.valid(),
        t.name.len() > 0,
        d.sidecar is None,
        forall|p: int| 0 <= p < pkts.len() ==> t.sends(#[trigger] pkts[p]),
        forall|i: int| 0 <= i < t.total() ==> #[trigger] delivered(pkts, i),
        exists|p: int|
            0 <= p < pkts.len() && ((#[trigger] pkts[p]).ptype is Manifest || pkts[p].ptype
                is NameOnly),
    ensures
        finished(t, path, after_packets(path, d, pkts)),
        after_packets(path, d, pkts).data == Some(t.contents),
{
    law_any_order(t, path, d, pkts);
    law_finished_assembly_is_the_file(t, path, after_packets(path, d, pkts));
}

/// The packets that a chunker makes of a file, first pass and retransmit, are packets of the
/// file, and so is its manifest packet.
pub proof fn law_chunker_sends_the_file(t: Transfer, chunk_id: u32)
    requires
        t.valid(),
        chunk_id < t.total(),
    ensures
        ({
            let data = t.cut.data_packet(
                chunk_id,
                t.cut.chunk_of(t.contents, chunk_id as int),
            );
            &&& t.sends(data)
            &&& t.sends(t.cut.as_retransmit(data))
            &&& t.sends(t.cut.name_packet(t.name))
        }),
{
    law_last_chunk_is_marked(t.cut, chunk_id);
}

/// A packet that does not apply to an assembly, because its chunk count or its size differs or
/// because it is a tail of unknown chunk size, changes nothing on disk; nor does a heartbeat.
pub proof fn law_rejected_packet_changes_nothing(
    path: Seq<char>,
    known: Option<ManifestView>,
    data_len: int,
    pkt: PacketView,
)
    requires
        ({
            let outcome = ingest_plan(path, known, data_len, pkt).outcome;
            outcome is Mismatched || outcome is Ignored
        }),
    ensures
        ingest_plan(path, known, data_len, pkt).steps.len() == 0,
{
}

/// A packet whose chunk count is not the assembly's is rejected, whatever else it holds.
pub proof fn law_chunk_count_guards(
    path: Seq<char>,
    m: ManifestView,
    data_len: int,
    pkt: PacketView,
)
    requires
        m.num_chunks != pkt.num_chunks,
        !(pkt.ptype is Heartbeat),
    ensures
        ingest_plan(path, Some(m), data_len, pkt).outcome is Mismatched,
{
}

/// A chunk that is not of the assembly's chunk size is rejected, unless it is the last chunk and
/// shorter.
pub proof fn law_chunk_size_guards(
    path: Seq<char>,
    m: ManifestView,
    data_len: int,
    pkt: PacketView,
)
    requires
        pkt.ptype is Data || pkt.ptype is Retransmit,
        m.chunk_payload_size != 0,
        pkt.payload.len() != m.chunk_payload_size,
        !(pkt.flags.marks_last() && pkt.payload.len() < m.chunk_payload_size),
    ensures
        ingest_plan(path, Some(m), data_len, pkt).outcome is Mismatched,
{
}

/// The missing ranges cover exactly the chunks that are missing; there are none exactly where the
/// assembly is complete, and exactly then nothing counts as missing.
pub proof fn law_gaps_are_exact(m: ManifestView, ranges: Seq<(u32, u32)>, i: int)
    requires
        missing_runs(m, ranges, m.num_chunks as int),
    ensures
        (exists|k: int|
            0 <= k < ranges.len() && #[trigger] ranges[k].0 <= i < ranges[k].0 + ranges[k].1) <==> (0
            <= i < m.num_chunks && !m.has(i)),
        ranges.len() == 0 <==> m.complete(),
        missing_count(m, m.num_chunks as nat) == 0 <==> m.complete(),
{
    let n = m.num_chunks as int;
    if exists|k: int|
        0 <= k < ranges.len() && #[trigger] ranges[k].0 <= i < ranges[k].0 + ranges[k].1 {
        let k = choose|k: int|
            0 <= k < ranges.len() && #[trigger] ranges[k].0 <= i < ranges[k].0 + ranges[k].1;
        assert(is_missing_run(m, ranges[k].0 as int, ranges[k].0 + ranges[k].1, n));
        assert(!m.has(i));
    }
    if ranges.len() > 0 {
        assert(is_missing_run(m, ranges[0].0 as int, ranges[0].0 + ranges[0].1, n));
        assert(!m.has(ranges[0].0 as int));
    }
    lemma_nothing_missing(m, m.num_chunks as nat);
}

/// Nothing counts as missing exactly where every chunk is there.
proof fn lemma_nothing_missing(m: ManifestView, n: nat)
    ensures
        missing_count(m, n) == 0 <==> forall|i: int| 0 <= i < n ==> #[trigger] m.has(i),
    decreases n,
{
    if n > 0 {
        lemma_nothing_missing(m, (n - 1) as nat);
    }
}

/// Which packets do not apply to an assembly. A chunk does not where it is the last of several and
/// no chunk size is known yet; where its chunk count is not the assembly's; and where it is not of
/// the assembly's chunk size, unless it is the last and shorter. A name does not where its chunk
/// count is not the assembly's. Every other packet applies.
pub proof fn law_which_packets_do_not_apply(
    path: Seq<char>,
    known: Option<ManifestView>,
    data_len: int,
    pkt: PacketView,
)
    ensures
        pkt.ptype is Data || pkt.ptype is Retransmit ==> {
            let last = pkt.flags.0 % 2 == 1;
            (ingest_plan(path, known, data_len, pkt).outcome is Mismatched) <==> match known {
                None => last && pkt.num_chunks > 1,
                Some(m) => {
                    ||| m.num_chunks != pkt.num_chunks
                    ||| m.chunk_payload_size == 0 && last && pkt.num_chunks > 1
                    ||| m.chunk_payload_size != 0 && last && pkt.payload.len()
                        > m.chunk_payload_size
                    ||| m.chunk_payload_size != 0 && !last && pkt.payload.len()
                        != m.chunk_payload_size
                },
            }
        },
        pkt.ptype is Manifest || pkt.ptype is NameOnly ==> ((ingest_plan(
            path,
            known,
            data_len,
            pkt,
        ).outcome is Mismatched) <==> (known matches Some(m) && m.num_chunks != pkt.num_chunks)),
        pkt.ptype is Heartbeat ==> ingest_plan(path, known, data_len, pkt).outcome is Ignored,
{
    law_lowest_bit_marks_last(pkt.flags);
}

/// A chunk that applies is reported as a duplicate exactly where it is there already. Otherwise the
/// packet completes the assembly exactly where, with it, every chunk and the name are there.
pub proof fn law_what_is_reported_of_a_chunk(
    path: Seq<char>,
    m: ManifestView,
    data_len: int,
    pkt: PacketView,
)
    requires
        m.wf(),
        pkt.ptype is Data || pkt.ptype is Retransmit,
        pkt.chunk_id < pkt.num_chunks,
        !(ingest_plan(path, Some(m), data_len, pkt).outcome is Mismatched),
    ensures
        ({
            let outcome = ingest_plan(path, Some(m), data_len, pkt).outcome;
            &&& (outcome is Duplicate) <==> m.has(pkt.chunk_id as int)
            &&& (outcome is Complete) <==> !m.has(pkt.chunk_id as int) && m.name.len() > 0
                && forall|i: int|
                0 <= i < m.num_chunks && i != pkt.chunk_id ==> #[trigger] m.has(i)
        }),
{
    let id = pkt.chunk_id as int;
    let marked = with_bit(m.bitmap, id);
    assert forall|i: int| 0 <= i < m.num_chunks implies #[trigger] bit_set(marked, i) == (m.has(i)
        || i == id) by {
        law_marking_marks_one_chunk(m.bitmap, id, i);
    }
    let size = (pkt.payload.len() % 0x1_0000_0000) as u32;
    let m2 = if m.chunk_payload_size == 0 {
        ManifestView { chunk_payload_size: size, ..m }
    } else {
        m
    };
    let after = with_chunk(m2, pkt);
    assert(after.bitmap == marked);
    assert forall|i: int| 0 <= i < m.num_chunks implies #[trigger] after.has(i) == (m.has(i) || i
        == id) by {
        assert(after.has(i) == bit_set(marked, i));
    }
    if after.complete() {
        assert forall|i: int| 0 <= i < m.num_chunks && i != id implies #[trigger] m.has(i) by {
            assert(after.has(i));
        }
    }
}

/// The first chunk of a file that was never seen starts its record: a manifest with the size of
/// that chunk, the chunk count of the packet and no name is saved, and what follows is what happens
/// to a chunk of an assembly with that record.
pub proof fn law_first_chunk_starts_the_record(path: Seq<char>, data_len: int, pkt: PacketView)
    requires
        pkt.ptype is Data || pkt.ptype is Retransmit,
        pkt.payload.len() <= u32::MAX,
        !(pkt.flags.0 % 2 == 1 && pkt.num_chunks > 1),
    ensures
        ({
            let m = ManifestView::fresh(
                path,
                pkt.payload.len() as u32,
                pkt.num_chunks,
                Seq::empty(),
            );
            let first = ingest_plan(path, None, data_len, pkt);
            let rest = ingest_plan(path, Some(m), data_len, pkt);
            &&& first.outcome == rest.outcome
            &&& first.steps == seq![DiskStepView::SaveSidecar(m.bytes())] + rest.steps
        }),
{
    law_lowest_bit_marks_last(pkt.flags);
    let m = ManifestView::fresh(path, pkt.payload.len() as u32, pkt.num_chunks, Seq::empty());
    let first = ingest_plan(path, None, data_len, pkt);
    let rest = ingest_plan(path, Some(m), data_len, pkt);
    assert(first.steps =~= seq![DiskStepView::SaveSidecar(m.bytes())] + rest.steps);
}

/// The first chunk of a file whose name came before tells the chunk size: the record with that size
/// is saved, and what follows is what happens to a chunk of an assembly with that record.
pub proof fn law_first_chunk_tells_the_size(
    path: Seq<char>,
    m: ManifestView,
    data_len: int,
    pkt: PacketView,
)
    requires
        pkt.ptype is Data || pkt.ptype is Retransmit,
        m.chunk_payload_size == 0,
        m.num_chunks == pkt.num_chunks,
        0 < pkt.payload.len() <= u32::MAX,
        !(pkt.flags.0 % 2 == 1 && pkt.num_chunks > 1),
    ensures
        ({
            let sized = ManifestView { chunk_payload_size: pkt.payload.len() as u32, ..m };
            let first = ingest_plan(path, Some(m), data_len, pkt);
            let rest = ingest_plan(path, Some(sized), data_len, pkt);
            &&& first.outcome == rest.outcome
            &&& first.steps == seq![DiskStepView::SaveSidecar(sized.bytes())] + rest.steps
        }),
{
    law_lowest_bit_marks_last(pkt.flags);
    let sized = ManifestView { chunk_payload_size: pkt.payload.len() as u32, ..m };
    let first = ingest_plan(path, Some(m), data_len, pkt);
    let rest = ingest_plan(path, Some(sized), data_len, pkt);
    assert(first.steps =~= seq![DiskStepView::SaveSidecar(sized.bytes())] + rest.steps);
}

/// What is done for a chunk that is new to an assembly whose chunk size is known: its bytes are
/// written once, at its index times that size; they are synced before the record is saved, which is
/// the last thing done; the saved record has the chunk marked and nothing else changed, but that
/// the last chunk tells the size of the file, to which the data file is cut. Where the data file is
/// too short it is made long enough first.
pub proof fn law_new_chunk_is_written_and_recorded(
    path: Seq<char>,
    m: ManifestView,
    data_len: int,
    pkt: PacketView,
)
    requires
        pkt.ptype is Data || pkt.ptype is Retransmit,
        m.chunk_payload_size != 0,
        !(ingest_plan(path, Some(m), data_len, pkt).outcome is Mismatched),
        !m.has(pkt.chunk_id as int),
    ensures
        ({
            let steps = ingest_plan(path, Some(m), data_len, pkt).steps;
            let start = pkt.chunk_id * m.chunk_payload_size;
            let end = start + pkt.payload.len();
            let w: int = if data_len < end {
                2
            } else {
                1
            };
            let last = pkt.flags.0 % 2 == 1;
            &&& steps.len() == w + if last {
                5int
            } else {
                3
            }
            &&& steps[0] is OpenData
            &&& data_len < end ==> steps[1] == DiskStepView::SetDataLen(end)
            &&& steps[w] == DiskStepView::WriteData(start, pkt.payload)
            &&& steps[w + 1] is SyncData
            &&& last ==> steps[w + 2] == DiskStepView::SetDataLen(end) && steps[w + 3] is SyncAll
            &&& steps.last() == DiskStepView::SaveSidecar(
                (ManifestView {
                    bitmap: with_bit(m.bitmap, pkt.chunk_id as int),
                    file_size_hint: if last {
                        end as u64
                    } else {
                        m.file_size_hint
                    },
                    ..m
                }).bytes(),
            )
        }),
{
    law_lowest_bit_marks_last(pkt.flags);
}

/// A name is taken once. Where the record has one it stays, whatever the packet says, and nothing
/// is written; where it has none the name of the packet is recorded and nothing else changes. The
/// assembly is then complete exactly where every chunk is there and the name is not empty.
pub proof fn law_name_is_taken_once(
    path: Seq<char>,
    m: ManifestView,
    data_len: int,
    pkt: PacketView,
)
    requires
        pkt.ptype is Manifest || pkt.ptype is NameOnly,
        m.num_chunks == pkt.num_chunks,
    ensures
        ({
            let plan = ingest_plan(path, Some(m), data_len, pkt);
            let name = text_in(pkt.payload);
            &&& m.name.len() > 0 ==> plan.steps.len() == 0
            &&& m.name.len() == 0 ==> plan.steps == seq![
                DiskStepView::SaveSidecar((ManifestView { name, ..m }).bytes()),
            ]
            &&& (plan.outcome is Complete) <==> m.complete() && (m.name.len() > 0 || name.len() > 0)
            &&& plan.outcome is Complete || plan.outcome is Accepted
        }),
{
    let name = text_in(pkt.payload);
    let named = ManifestView { name, ..m };
    assert(named.complete() == m.complete()) by {
        assert forall|i: int| #[trigger] named.has(i) == m.has(i) by {}
        if m.complete() {
            assert forall|i: int| 0 <= i < named.num_chunks implies #[trigger] named.has(i) by {
                assert(m.has(i));
            }
        }
        if named.complete() {
            assert forall|i: int| 0 <= i < m.num_chunks implies #[trigger] m.has(i) by {
                assert(named.has(i));
            }
        }
    }
    assert(ingest_plan(path, Some(m), data_len, pkt).steps =~= if m.name.len() == 0 {
        seq![DiskStepView::SaveSidecar(named.bytes())]
    } else {
        seq![]
    });
}

/// A name that comes before any chunk starts the record, with no chunk size yet; nothing but the
/// record is written.
pub proof fn law_name_starts_the_record(path: Seq<char>, data_len: int, pkt: PacketView)
    requires
        pkt.ptype is Manifest || pkt.ptype is NameOnly,
    ensures
        ({
            let plan = ingest_plan(path, None, data_len, pkt);
            let m = ManifestView::fresh(path, 0, pkt.num_chunks, text_in(pkt.payload));
            &&& plan.steps.len() >= 1
            &&& forall|k: int|
                0 <= k < plan.steps.len() ==> #[trigger] plan.steps[k]
                    == DiskStepView::SaveSidecar(m.bytes())
        }),
{
    let m = ManifestView::fresh(path, 0, pkt.num_chunks, text_in(pkt.payload));
    if m.name.len() == 0 {
        assert((ManifestView { name: text_in(pkt.payload), ..m }) == m);
    }
}

/// The name of a packet is the text of its payload, character for character where that is
/// well-formed.
pub proof fn law_name_is_the_text_of_the_payload(name: Seq<char>)
    ensures
        text_in(encode_utf8(name)) == name,
{
    encode_utf8_valid_utf8(name);
    encode_utf8_decode_utf8(name);
}

/// The one chunk of an empty file is recorded like any other: with no chunk size known the record is
/// saved as it is, nothing is written at the beginning of the data file and synced, the data file is
/// cut to nothing, and the record with the chunk marked is saved last.
pub proof fn law_empty_chunk_is_recorded(
    path: Seq<char>,
    m: ManifestView,
    data_len: int,
    pkt: PacketView,
)
    requires
        pkt.ptype is Data || pkt.ptype is Retransmit,
        m.chunk_payload_size == 0,
        m.num_chunks == 1,
        pkt.num_chunks == 1,
        pkt.chunk_id == 0,
        pkt.payload.len() == 0,
        pkt.flags.0 % 2 == 1,
        data_len >= 0,
        !m.has(0),
    ensures
        ingest_plan(path, Some(m), data_len, pkt).steps == seq![
            DiskStepView::SaveSidecar(m.bytes()),
            DiskStepView::OpenData,
            DiskStepView::WriteData(0, Seq::empty()),
            DiskStepView::SyncData,
            DiskStepView::SetDataLen(0),
            DiskStepView::SyncAll,
            DiskStepView::SaveSidecar(
                (ManifestView { bitmap: with_bit(m.bitmap, 0), file_size_hint: 0, ..m }).bytes(),
            ),
        ],
{
    law_lowest_bit_marks_last(pkt.flags);
    let steps = ingest_plan(path, Some(m), data_len, pkt).steps;
    assert(pkt.payload =~= Seq::empty());
    let m2 = ManifestView { chunk_payload_size: 0, ..m };
    assert(m2 == m);
    let done = ManifestView { bitmap: with_bit(m.bitmap, 0), file_size_hint: 0, ..m };
    assert(with_chunk(m, pkt) == done);
    assert(steps =~= seq![
        DiskStepView::SaveSidecar(m.bytes()),
        DiskStepView::OpenData,
        DiskStepView::WriteData(0, Seq::empty()),
        DiskStepView::SyncData,
        DiskStepView::SetDataLen(0),
        DiskStepView::SyncAll,
        DiskStepView::SaveSidecar(done.bytes()),
    ]);
}

} // verus!
