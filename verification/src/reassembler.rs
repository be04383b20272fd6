//! Durable, bitmap-based packet reassembly.
//!
//! A [`Reassembler`] turns one packet, what the assembly's sidecar holds and the length of its
//! data file into a plan: the steps to perform on the two files, in order, and what happened. The
//! steps write a chunk's bytes and sync them before the sidecar says that the chunk is there, so
//! a crash between any two of them never leaves a chunk marked that is not in the data file.

use vstd::prelude::*;

use crate::error::Error;
use crate::paths::{
    is_name, leads_out, leaves, lemma_place_under, lemma_walk_below, lemma_walk_name,
    lemma_walk_to_file, place, walk,
};
use crate::proto::{Packet, PacketType, PacketView};
use crate::reassembler::manifest::{
    manifest_fault, manifest_in, missing_count, missing_runs, range_total, with_bit, Manifest,
    ManifestView, SidecarRead,
};
use crate::text::{
    base_name, decimal_i64, decimal_int, ends_with, file_name, from_utf8_lossy,
    law_decimal_reads_back, lemma_decimal_has_no_slash, lemma_relative_path, parse_i64, path_join,
    path_under, relative_path, spelled_i64, strip_suffix, text_in, trim_leading_slashes,
};

pub mod delivery;
pub mod laws;
pub mod manifest;

verus! {

/// Stats returned by [`Reassembler::stats`].
#[derive(Debug, Clone, Copy, PartialEq, Eq, Structural)]
pub struct AssemblyStats {
    /// Total chunks the file is divided into.
    pub chunks_total: u32,
    /// Chunks already received and durably written.
    pub chunks_received: u32,
    /// Whether the manifest packet has been seen.
    pub has_name: bool,
}

/// Outcome of feeding a packet to [`Reassembler::ingest`].
#[derive(Debug, Clone, Copy, Eq, PartialEq, Structural)]
pub enum IngestOutcome {
    /// Packet was new and applied.
    Accepted,
    /// Packet was a duplicate of one already received.
    Duplicate,
    /// File now has every chunk - call [`Reassembler::finalize`] to move it into the final
    /// directory and drop the manifest.
    Complete,
    /// Packet was ignored because it didn't apply to this assembly (wrong num_chunks, wrong
    /// chunk_size, or the tail of a file whose chunk size is not known yet).
    Mismatched,
    /// Packet was a heartbeat or other meta packet that the reassembler doesn't act on.
    Ignored,
}

/// One thing to do to the files of an assembly.
#[derive(Debug, Clone)]
pub enum DiskStep {
    /// Replace the sidecar by these bytes, atomically and durably.
    SaveSidecar(Vec<u8>),
    /// Open the data file, creating it empty where it is missing.
    OpenData,
    /// Cut the data file to this length, or extend it with zeros.
    SetDataLen(u64),
    /// Write these bytes at this offset of the data file.
    WriteData(u64, Vec<u8>),
    /// Make the data file's contents durable.
    SyncData,
    /// Make the data file's contents and length durable.
    SyncAll,
}

/// A step as a mathematical value.
#[verifier::ext_equal]
pub enum DiskStepView {
    SaveSidecar(Seq<u8>),
    OpenData,
    SetDataLen(int),
    WriteData(int, Seq<u8>),
    SyncData,
    SyncAll,
}

impl View for DiskStep {
    type V = DiskStepView;

    open spec fn view(&self) -> DiskStepView {
        match self {
            DiskStep::SaveSidecar(b) => DiskStepView::SaveSidecar(b@),
            DiskStep::OpenData => DiskStepView::OpenData,
            DiskStep::SetDataLen(n) => DiskStepView::SetDataLen(*n as int),
            DiskStep::WriteData(at, b) => DiskStepView::WriteData(*at as int, b@),
            DiskStep::SyncData => DiskStepView::SyncData,
            DiskStep::SyncAll => DiskStepView::SyncAll,
        }
    }
}

/// The views of a list of steps.
pub open spec fn step_views(steps: Seq<DiskStep>) -> Seq<DiskStepView> {
    steps.map_values(|s: DiskStep| s@)
}

/// What to do for a packet, and what happened.
#[derive(Debug, Clone)]
pub struct IngestPlan {
    /// The steps to perform, in order.
    pub steps: Vec<DiskStep>,
    /// What happened, once they are performed.
    pub outcome: IngestOutcome,
}

/// A plan as a mathematical value.
#[verifier::ext_equal]
pub struct PlanView {
    pub steps: Seq<DiskStepView>,
    pub outcome: IngestOutcome,
}

impl View for IngestPlan {
    type V = PlanView;

    open spec fn view(&self) -> PlanView {
        PlanView { steps: step_views(self.steps@), outcome: self.outcome }
    }
}

/// Where to move a finished file.
#[derive(Debug, Clone)]
pub struct FinalMove {
    /// The data file.
    pub incoming: String,
    /// Its final place.
    pub dest: String,
    /// The sidecar, to be removed after the move.
    pub sidecar: String,
}

/// Whether a file of the given name has a place under the final directory: without its leading
/// slashes the name leads to a file, and not out of the final directory on the way.
pub open spec fn can_be_placed(name: Seq<char>) -> bool {
    !leaves(relative_path(name)) && base_name(relative_path(name)).len() > 0
}

/// Whether a sidecar that was read can be worked with: there is none, or it is in order.
pub open spec fn usable(read: SidecarRead) -> bool {
    match read {
        SidecarRead::Missing => true,
        SidecarRead::Bytes(b) => manifest_fault(b@) is None,
        SidecarRead::Failed(_) => false,
    }
}

/// The manifest that a sidecar in order holds.
pub open spec fn known(path: Seq<char>, read: SidecarRead) -> Option<ManifestView> {
    match read {
        SidecarRead::Bytes(b) => Some(manifest_in(path, b@)),
        _ => None,
    }
}

/// Whether the assembly of a sidecar can be moved to its final place: it has every chunk, and its
/// name has a place under the final directory.
pub open spec fn can_be_moved(path: Seq<char>, read: SidecarRead) -> bool {
    usable(read) && (known(path, read) matches Some(m) && m.complete() && can_be_placed(m.name))
}

/// Whether a failure to use a sidecar is reported as what is wrong with it: a missing sidecar by
/// its path.
pub open spec fn reports(path: Seq<char>, read: SidecarRead, e: Error) -> bool {
    match e {
        Error::NotFound(p) => read is Missing && p@ == path,
        Error::Io(e) => read matches SidecarRead::Failed(why) && e@ == why@,
        Error::BadManifest(why) => read matches SidecarRead::Bytes(b) && manifest_fault(b@) == Some(
            why@,
        ),
        _ => false,
    }
}

/// What an assembly with the given manifest is after a packet that left it so.
pub open spec fn settled(m: ManifestView) -> IngestOutcome {
    if m.complete() && m.name.len() > 0 {
        IngestOutcome::Complete
    } else {
        IngestOutcome::Accepted
    }
}

/// Whether a chunk is the tail of a file of several chunks, from which their size cannot be told.
pub open spec fn is_tail(pkt: PacketView) -> bool {
    pkt.flags.marks_last() && pkt.num_chunks > 1
}

/// Whether a chunk cannot be one of an assembly whose chunk size is known: every chunk has that
/// size but the last, which may be shorter.
pub open spec fn wrong_size(m: ManifestView, pkt: PacketView) -> bool {
    m.chunk_payload_size != 0 && if pkt.flags.marks_last() {
        pkt.payload.len() > m.chunk_payload_size
    } else {
        pkt.payload.len() != m.chunk_payload_size
    }
}

/// The manifest after a chunk has been written.
pub open spec fn with_chunk(m: ManifestView, pkt: PacketView) -> ManifestView {
    ManifestView {
        file_size_hint: if pkt.flags.marks_last() {
            chunk_end(m, pkt) as u64
        } else {
            m.file_size_hint
        },
        bitmap: with_bit(m.bitmap, pkt.chunk_id as int),
        ..m
    }
}

/// Where a chunk starts in the data file.
pub open spec fn chunk_start(m: ManifestView, pkt: PacketView) -> int {
    pkt.chunk_id * m.chunk_payload_size
}

/// Where a chunk ends in the data file.
pub open spec fn chunk_end(m: ManifestView, pkt: PacketView) -> int {
    chunk_start(m, pkt) + pkt.payload.len()
}

/// The steps that put a chunk into the data file and then mark it, given the manifest before and
/// the length of the data file.
pub open spec fn write_steps(m: ManifestView, data_len: int, pkt: PacketView) -> Seq<DiskStepView> {
    let grow = if data_len < chunk_end(m, pkt) {
        seq![DiskStepView::SetDataLen(chunk_end(m, pkt))]
    } else {
        seq![]
    };
    let lock_size = if pkt.flags.marks_last() {
        seq![DiskStepView::SetDataLen(chunk_end(m, pkt)), DiskStepView::SyncAll]
    } else {
        seq![]
    };
    seq![DiskStepView::OpenData] + grow + seq![
        DiskStepView::WriteData(chunk_start(m, pkt), pkt.payload),
        DiskStepView::SyncData,
    ] + lock_size + seq![DiskStepView::SaveSidecar(with_chunk(m, pkt).bytes())]
}

/// What a data or retransmit packet does to an assembly whose manifest is `known` (`None` for one
/// that has no sidecar yet).
///
/// A never-seen file gets a sidecar first, with the chunk's own payload size, unless the chunk is
/// the tail of several. A chunk of another size than the assembly's is not applied, and one that is
/// there already is not written again.
pub open spec fn chunk_plan(
    path: Seq<char>,
    known: Option<ManifestView>,
    data_len: int,
    pkt: PacketView,
) -> PlanView {
    let size = (pkt.payload.len() % 0x1_0000_0000) as u32;
    let fresh = ManifestView::fresh(path, size, pkt.num_chunks, Seq::empty());
    let created = if known is None {
        seq![DiskStepView::SaveSidecar(fresh.bytes())]
    } else {
        seq![]
    };
    let m1 = match known {
        Some(m) => m,
        None => fresh,
    };
    if m1.num_chunks != pkt.num_chunks || (is_tail(pkt) && (known is None || m1.chunk_payload_size
        == 0)) || (known is Some && wrong_size(m1, pkt)) {
        PlanView { steps: seq![], outcome: IngestOutcome::Mismatched }
    } else {
        let m2 = if m1.chunk_payload_size == 0 {
            ManifestView { chunk_payload_size: size, ..m1 }
        } else {
            m1
        };
        let sized = if m1.chunk_payload_size == 0 {
            created + seq![DiskStepView::SaveSidecar(m2.bytes())]
        } else {
            created
        };
        if m2.has(pkt.chunk_id as int) {
            PlanView { steps: sized, outcome: IngestOutcome::Duplicate }
        } else {
            PlanView {
                steps: sized + write_steps(m2, data_len, pkt),
                outcome: settled(with_chunk(m2, pkt)),
            }
        }
    }
}

/// What a manifest or name-only packet does to an assembly. A name that is known already stays.
pub open spec fn name_plan(
    path: Seq<char>,
    known: Option<ManifestView>,
    pkt: PacketView,
) -> PlanView {
    let name = text_in(pkt.payload);
    let fresh = ManifestView::fresh(path, 0, pkt.num_chunks, name);
    let created = if known is None {
        seq![DiskStepView::SaveSidecar(fresh.bytes())]
    } else {
        seq![]
    };
    let m1 = match known {
        Some(m) => m,
        None => fresh,
    };
    if m1.num_chunks != pkt.num_chunks {
        PlanView { steps: seq![], outcome: IngestOutcome::Mismatched }
    } else if m1.name.len() == 0 {
        let m2 = ManifestView { name, ..m1 };
        PlanView {
            steps: created + seq![DiskStepView::SaveSidecar(m2.bytes())],
            outcome: settled(m2),
        }
    } else {
        PlanView { steps: created, outcome: settled(m1) }
    }
}

/// What a packet does to an assembly.
pub open spec fn ingest_plan(
    path: Seq<char>,
    known: Option<ManifestView>,
    data_len: int,
    pkt: PacketView,
) -> PlanView {
    match pkt.ptype {
        PacketType::Data | PacketType::Retransmit => chunk_plan(path, known, data_len, pkt),
        PacketType::Manifest | PacketType::NameOnly => name_plan(path, known, pkt),
        PacketType::Heartbeat => PlanView { steps: seq![], outcome: IngestOutcome::Ignored },
    }
}

/// The longest payload whose end in the data file fits a 64-bit number, wherever the chunk stands.
pub const MAX_INGEST_PAYLOAD: u64 = 0x1_FFFF_FFFE;

/// Reassembler that owns one *holding directory* and one *final directory*.
///
/// Holding holds in-flight `<id>.incoming` data files plus `<id>.parmanifest` sidecars. On
/// completion files are renamed under the final directory using the path that arrived inside the
/// manifest packet.
#[derive(Debug)]
pub struct Reassembler {
    /// Where in-flight assemblies are kept.
    pub holding: String,
    /// Where finished files go.
    pub finals: String,
}

/// Appends a step.
fn push_step(steps: &mut Vec<DiskStep>, step: DiskStep)
    ensures
        step_views(final(steps)@) == step_views(old(steps)@).push(step@),
{
    steps.push(step);
    assert(step_views(steps@) =~= step_views(old(steps)@).push(step@));
}

/// What an assembly with the given manifest is after a packet that left it so.
fn settle(m: &Manifest) -> (outcome: IngestOutcome)
    requires
        m@.wf(),
    ensures
        outcome == settled(m@),
{
    if m.is_complete() && !m.name.as_str().is_empty() {
        IngestOutcome::Complete
    } else {
        IngestOutcome::Accepted
    }
}

/// Whether a chunk cannot be one of an assembly whose chunk size is known.
fn has_wrong_size(m: &Manifest, pkt: &Packet) -> (wrong: bool)
    ensures
        wrong == wrong_size(m@, pkt@),
{
    let len: usize = pkt.payload.len();
    let unit: u32 = m.chunk_payload_size;
    if unit == 0 {
        false
    } else if pkt.flags.is_last() {
        len as u64 > unit as u64
    } else {
        len as u64 != unit as u64
    }
}

impl Reassembler {
    /// Construct a reassembler over two directories.
    pub fn new(holding: &str, finals: &str) -> (r: Reassembler)
        ensures
            r.holding@ == holding@,
            r.finals@ == finals@,
    {
        Reassembler { holding: holding.to_owned(), finals: finals.to_owned() }
    }

    /// Where a file of an assembly lives, by the file's extension.
    pub open spec fn holding_path(self, file_id: i64, extension: Seq<char>) -> Seq<char> {
        path_under(self.holding@, decimal_int(file_id as int) + extension)
    }

    /// Path of the data file for an in-flight assembly.
    pub fn incoming_path(&self, file_id: i64) -> (path: String)
        ensures
            path@ == self.holding_path(file_id, ".incoming"@),
    {
        let mut name = decimal_i64(file_id);
        name.append(".incoming");
        path_join(self.holding.as_str(), name.as_str())
    }

    /// Path of the manifest sidecar for an in-flight assembly.
    pub fn manifest_path(&self, file_id: i64) -> (path: String)
        ensures
            path@ == self.holding_path(file_id, ".parmanifest"@),
    {
        let mut name = decimal_i64(file_id);
        name.append(".parmanifest");
        path_join(self.holding.as_str(), name.as_str())
    }

    /// Path of the file that is renamed over the sidecar when it is saved.
    pub fn manifest_tmp_path(&self, file_id: i64) -> (path: String)
        ensures
            path@ == self.holding_path(file_id, ".parmanifest.tmp"@),
    {
        let mut name = decimal_i64(file_id);
        name.append(".parmanifest.tmp");
        path_join(self.holding.as_str(), name.as_str())
    }

    /// Plans what one packet does to its assembly, given what reading the sidecar gave and the
    /// length of the data file (zero where there is none).
    pub fn ingest(&self, sidecar: &SidecarRead, data_len: u64, pkt: &Packet) -> (r: Result<
        IngestPlan,
        Error,
    >)
        requires
            pkt@.payload.len() <= MAX_INGEST_PAYLOAD,
        ensures
            match r {
                Ok(plan) => {
                    let path = self.holding_path(pkt.file_id, ".parmanifest"@);
                    &&& usable(*sidecar) || pkt.ptype is Heartbeat
                    &&& plan@ == ingest_plan(path, known(path, *sidecar), data_len as int, pkt@)
                },
                Err(e) => {
                    &&& !usable(*sidecar) && !(pkt.ptype is Heartbeat)
                    &&& reports(self.holding_path(pkt.file_id, ".parmanifest"@), *sidecar, e)
                },
            },
    {
        match pkt.ptype {
            PacketType::Data | PacketType::Retransmit => self.ingest_chunk(sidecar, data_len, pkt),
            PacketType::Manifest | PacketType::NameOnly => self.ingest_manifest(sidecar, pkt),
            PacketType::Heartbeat => {
                let plan = IngestPlan { steps: Vec::new(), outcome: IngestOutcome::Ignored };
                assert(plan@.steps =~= seq![]);
                Ok(plan)
            },
        }
    }

    fn ingest_chunk(&self, sidecar: &SidecarRead, data_len: u64, pkt: &Packet) -> (r: Result<
        IngestPlan,
        Error,
    >)
        requires
            pkt@.payload.len() <= MAX_INGEST_PAYLOAD,
        ensures
            match r {
                Ok(plan) => {
                    let path = self.holding_path(pkt.file_id, ".parmanifest"@);
                    &&& usable(*sidecar)
                    &&& plan@ == chunk_plan(path, known(path, *sidecar), data_len as int, pkt@)
                },
                Err(e) => {
                    &&& !usable(*sidecar)
                    &&& reports(self.holding_path(pkt.file_id, ".parmanifest"@), *sidecar, e)
                },
            },
    {
        let path = self.manifest_path(pkt.file_id);
        let tail: bool = pkt.flags.is_last() && pkt.num_chunks > 1;
        let size: u32 = (pkt.payload.len() as u64 % 0x1_0000_0000) as u32;
        let mut steps: Vec<DiskStep> = Vec::new();
        assert(step_views(steps@) =~= seq![]);
        // First chunk for a never-seen file: start the manifest using the chunk's own payload
        // size. A partial last chunk does not tell the size, so wait for an earlier one.
        let mut manifest = match Manifest::open(path.as_str(), sidecar) {
            Ok(m) => {
                if has_wrong_size(&m, pkt) {
                    return Ok(IngestPlan { steps, outcome: IngestOutcome::Mismatched });
                }
                m
            },
            Err(Error::NotFound(_)) => {
                if tail {
                    return Ok(IngestPlan { steps, outcome: IngestOutcome::Mismatched });
                }
                let m = Manifest::create(path.as_str(), size, pkt.num_chunks, "");
                assert(""@ =~= Seq::empty()) by {
                    reveal_strlit("");
                }
                push_step(&mut steps, DiskStep::SaveSidecar(m.save()));
                assert(step_views(steps@) =~= seq![DiskStepView::SaveSidecar(m@.bytes())]);
                m
            },
            Err(e) => return Err(e),
        };
        let ghost created = step_views(steps@);
        // Must agree on the file's chunk count; otherwise the sender changed chunk size
        // mid-flight and the packet is discarded.
        if manifest.num_chunks != pkt.num_chunks {
            return Ok(IngestPlan { steps, outcome: IngestOutcome::Mismatched });
        }
        // A manifest that was created by a name packet does not know the chunk size yet.
        if manifest.chunk_payload_size == 0 {
            if tail {
                return Ok(IngestPlan { steps, outcome: IngestOutcome::Mismatched });
            }
            manifest.chunk_payload_size = size;
            push_step(&mut steps, DiskStep::SaveSidecar(manifest.save()));
            assert(step_views(steps@) =~= created + seq![
                DiskStepView::SaveSidecar(manifest@.bytes()),
            ]);
        }
        let ghost sized = step_views(steps@);
        let ghost m2 = manifest@;
        if manifest.is_set(pkt.chunk_id) {
            return Ok(IngestPlan { steps, outcome: IngestOutcome::Duplicate });
        }
        proof {
            assert(0 <= pkt.chunk_id * manifest.chunk_payload_size <= 0xFFFF_FFFF * 0xFFFF_FFFF)
                by (nonlinear_arith)
                requires
                    0 <= pkt.chunk_id <= 0xFFFF_FFFF,
                    0 <= manifest.chunk_payload_size <= 0xFFFF_FFFF,
            ;
        }
        let start: u64 = pkt.chunk_id as u64 * manifest.chunk_payload_size as u64;
        let end: u64 = start + pkt.payload.len() as u64;
        push_step(&mut steps, DiskStep::OpenData);
        if data_len < end {
            push_step(&mut steps, DiskStep::SetDataLen(end));
        }
        let mut bytes: Vec<u8> = Vec::new();
        bytes.extend_from_slice(pkt.payload.as_slice());
        assert(bytes@ =~= pkt.payload@);
        push_step(&mut steps, DiskStep::WriteData(start, bytes));
        push_step(&mut steps, DiskStep::SyncData);
        // If this is the last chunk, lock in the file size.
        if pkt.flags.is_last() {
            push_step(&mut steps, DiskStep::SetDataLen(end));
            push_step(&mut steps, DiskStep::SyncAll);
            manifest.file_size_hint = end;
        }
        manifest.set(pkt.chunk_id);
        push_step(&mut steps, DiskStep::SaveSidecar(manifest.save()));
        proof {
            assert(manifest@ =~= with_chunk(m2, pkt@));
            assert(step_views(steps@) =~= sized + write_steps(m2, data_len as int, pkt@));
        }
        let outcome = settle(&manifest);
        Ok(IngestPlan { steps, outcome })
    }

    fn ingest_manifest(&self, sidecar: &SidecarRead, pkt: &Packet) -> (r: Result<IngestPlan, Error>)
        ensures
            match r {
                Ok(plan) => {
                    let path = self.holding_path(pkt.file_id, ".parmanifest"@);
                    &&& usable(*sidecar)
                    &&& plan@ == name_plan(path, known(path, *sidecar), pkt@)
                },
                Err(e) => {
                    &&& !usable(*sidecar)
                    &&& reports(self.holding_path(pkt.file_id, ".parmanifest"@), *sidecar, e)
                },
            },
    {
        let name = from_utf8_lossy(pkt.payload.as_slice());
        let path = self.manifest_path(pkt.file_id);
        let mut steps: Vec<DiskStep> = Vec::new();
        assert(step_views(steps@) =~= seq![]);
        let mut manifest = match Manifest::open(path.as_str(), sidecar) {
            Ok(m) => m,
            Err(Error::NotFound(_)) => {
                // The name came before any data; the first data packet fills the size in.
                let m = Manifest::create(path.as_str(), 0, pkt.num_chunks, name.as_str());
                push_step(&mut steps, DiskStep::SaveSidecar(m.save()));
                assert(step_views(steps@) =~= seq![DiskStepView::SaveSidecar(m@.bytes())]);
                m
            },
            Err(e) => return Err(e),
        };
        let ghost created = step_views(steps@);
        if manifest.num_chunks != pkt.num_chunks {
            return Ok(IngestPlan { steps, outcome: IngestOutcome::Mismatched });
        }
        if manifest.name.as_str().is_empty() {
            manifest.name = name;
            push_step(&mut steps, DiskStep::SaveSidecar(manifest.save()));
            assert(step_views(steps@) =~= created + seq![
                DiskStepView::SaveSidecar(manifest@.bytes()),
            ]);
        }
        let outcome = settle(&manifest);
        Ok(IngestPlan { steps, outcome })
    }

    /// The missing chunk ranges of an in-flight assembly, as `(start_chunk, count)` pairs sorted
    /// by start.
    pub fn missing_ranges(&self, file_id: i64, sidecar: &SidecarRead) -> (r: Result<
        Vec<(u32, u32)>,
        Error,
    >)
        ensures
            match r {
                Ok(ranges) => {
                    &&& known(self.holding_path(file_id, ".parmanifest"@), *sidecar) matches Some(m)
                    &&& usable(*sidecar)
                    &&& missing_runs(m, ranges@, m.num_chunks as int)
                },
                Err(e) => {
                    &&& !(usable(*sidecar) && sidecar is Bytes)
                    &&& reports(self.holding_path(file_id, ".parmanifest"@), *sidecar, e)
                },
            },
    {
        match Manifest::open(self.manifest_path(file_id).as_str(), sidecar) {
            Ok(m) => Ok(m.missing_ranges()),
            Err(e) => Err(e),
        }
    }

    /// Whether an in-flight assembly has its filename packet (i.e. only chunks remain).
    pub fn has_name(&self, file_id: i64, sidecar: &SidecarRead) -> (r: Result<bool, Error>)
        ensures
            match r {
                Ok(named) => {
                    &&& known(self.holding_path(file_id, ".parmanifest"@), *sidecar) matches Some(m)
                    &&& usable(*sidecar)
                    &&& named == (m.name.len() > 0)
                },
                Err(e) => {
                    &&& !(usable(*sidecar) && sidecar is Bytes)
                    &&& reports(self.holding_path(file_id, ".parmanifest"@), *sidecar, e)
                },
            },
    {
        match Manifest::open(self.manifest_path(file_id).as_str(), sidecar) {
            Ok(m) => Ok(!m.name.as_str().is_empty()),
            Err(e) => Err(e),
        }
    }

    /// The ids of all files currently being reassembled, in order, given the names of the files in
    /// the holding directory.
    pub fn in_flight(names: &Vec<String>) -> (ids: Vec<i64>)
        ensures
            sorted(ids@),
            ids@.to_multiset() == assembly_ids(names@).to_multiset(),
            forall|id: i64| #[trigger] ids@.contains(id) <==> is_flying(names@, id),
    {
        let mut ids: Vec<i64> = Vec::new();
        let mut i: usize = 0;
        assert(names@.take(0) =~= Seq::empty());
        while i < names.len()
            invariant
                i <= names@.len(),
                sorted(ids@),
                ids@.to_multiset() == assembly_ids(names@.take(i as int)).to_multiset(),
            decreases names@.len() - i,
        {
            let name: &str = names[i].as_str();
            proof {
                let upto = names@.take(i + 1);
                assert(upto.drop_last() =~= names@.take(i as int));
                assert(upto.last()@ == name@);
                reveal_strlit(".parmanifest");
            }
            if let Some(stem) = strip_suffix(name, ".parmanifest") {
                if let Some(id) = parse_i64(stem.as_str()) {
                    proof {
                        vstd::seq_lib::to_multiset_build(assembly_ids(names@.take(i as int)), id);
                    }
                    insert_sorted(&mut ids, id);
                }
            }
            i += 1;
        }
        proof {
            assert(names@.take(names@.len() as int) =~= names@);
            assert forall|id: i64| #[trigger] ids@.contains(id) <==> is_flying(names@, id) by {
                vstd::seq_lib::to_multiset_contains(ids@, id);
                vstd::seq_lib::to_multiset_contains(assembly_ids(names@), id);
                lemma_flying(names@, id);
            }
        }
        ids
    }

    /// Whether a move is that of a finished file of the given name.
    pub open spec fn moves(self, file_id: i64, name: Seq<char>, to: FinalMove) -> bool {
        &&& to.incoming@ == self.holding_path(file_id, ".incoming"@)
        &&& to.sidecar@ == self.holding_path(file_id, ".parmanifest"@)
        &&& to.dest@ == path_under(self.finals@, relative_path(name))
    }

    /// Where a complete assembly is to be moved. The move creates missing directories, renames
    /// the data file (or copies it, across file systems) and drops the sidecar. A name that leads
    /// out of the final directory, or to no file in it, is refused.
    pub fn finalize(&self, file_id: i64, sidecar: &SidecarRead) -> (r: Result<FinalMove, Error>)
        ensures
            r is Ok <==> can_be_moved(self.holding_path(file_id, ".parmanifest"@), *sidecar),
            match r {
                Ok(to) => {
                    &&& known(self.holding_path(file_id, ".parmanifest"@), *sidecar) matches Some(m)
                    &&& usable(*sidecar)
                    &&& m.complete()
                    &&& can_be_placed(m.name)
                    &&& self.moves(file_id, m.name, to)
                    &&& !leaves(relative_path(m.name))
                    &&& base_name(relative_path(m.name)).len() > 0
                    &&& to.incoming@ == path_under(
                        self.holding@,
                        decimal_int(file_id as int) + ".incoming"@,
                    )
                    &&& to.sidecar@ == path_under(
                        self.holding@,
                        decimal_int(file_id as int) + ".parmanifest"@,
                    )
                    &&& forall|cwd: Seq<Seq<char>>|
                        #![trigger place(cwd, to.dest@)]
                        {
                            &&& place(cwd, to.dest@) == place(cwd, self.finals@) + walk(
                                Seq::empty(),
                                relative_path(m.name),
                            )
                            &&& place(cwd, to.dest@).last() == base_name(relative_path(m.name))
                        }
                },
                Err(e) => {
                    ||| !(usable(*sidecar) && sidecar is Bytes) && reports(
                        self.holding_path(file_id, ".parmanifest"@),
                        *sidecar,
                        e,
                    )
                    ||| {
                        &&& known(self.holding_path(file_id, ".parmanifest"@), *sidecar)
                            matches Some(m)
                        &&& usable(*sidecar)
                        &&& e matches Error::BadManifest(why)
                        &&& why@ == if !m.complete() {
                            "finalize before complete"@
                        } else if m.name.len() == 0 {
                            "missing filename"@
                        } else if leaves(relative_path(m.name)) {
                            "filename leaves the final directory"@
                        } else {
                            "filename names no file"@
                        }
                        &&& !m.complete() || !can_be_placed(m.name)
                    }
                },
            },
    {
        let path = self.manifest_path(file_id);
        let m = match Manifest::open(path.as_str(), sidecar) {
            Ok(m) => m,
            Err(e) => return Err(e),
        };
        if !m.is_complete() {
            return Err(Error::BadManifest("finalize before complete".to_owned()));
        }
        if m.name.as_str().is_empty() {
            return Err(Error::BadManifest("missing filename".to_owned()));
        }
        // Strip leading slashes off the embedded name so it sits inside the final directory.
        let cleaned = trim_leading_slashes(m.name.as_str());
        if leads_out(cleaned.as_str()) {
            return Err(Error::BadManifest("filename leaves the final directory".to_owned()));
        }
        if file_name(cleaned.as_str()).as_str().is_empty() {
            return Err(Error::BadManifest("filename names no file".to_owned()));
        }
        let dest = path_join(self.finals.as_str(), cleaned.as_str());
        proof {
            assert forall|cwd: Seq<Seq<char>>|
                {
                    &&& #[trigger] place(cwd, dest@) == place(cwd, self.finals@) + walk(
                        Seq::empty(),
                        relative_path(m.name@),
                    )
                    &&& place(cwd, dest@).last() == base_name(relative_path(m.name@))
                } by {
                law_final_place_is_inside(cwd, self.finals@, m.name@);
            }
        }
        Ok(FinalMove { incoming: self.incoming_path(file_id), dest, sidecar: path })
    }

    /// Quick stats about an in-flight assembly.
    pub fn stats(&self, file_id: i64, sidecar: &SidecarRead) -> (r: Result<AssemblyStats, Error>)
        ensures
            match r {
                Ok(stats) => {
                    &&& known(self.holding_path(file_id, ".parmanifest"@), *sidecar) matches Some(m)
                    &&& usable(*sidecar)
                    &&& stats.chunks_total == m.num_chunks
                    &&& stats.chunks_received == m.num_chunks - missing_count(
                        m,
                        m.num_chunks as nat,
                    )
                    &&& stats.has_name == (m.name.len() > 0)
                },
                Err(e) => {
                    &&& !(usable(*sidecar) && sidecar is Bytes)
                    &&& reports(self.holding_path(file_id, ".parmanifest"@), *sidecar, e)
                },
            },
    {
        let m = match Manifest::open(self.manifest_path(file_id).as_str(), sidecar) {
            Ok(m) => m,
            Err(e) => return Err(e),
        };
        let total: u32 = m.num_chunks;
        let ranges = m.missing_ranges();
        let mut missing: u32 = 0;
        let mut i: usize = 0;
        proof {
            lemma_missing_at_most(m@, total as nat);
        }
        assert(ranges@.take(0) =~= Seq::empty());
        while i < ranges.len()
            invariant
                i <= ranges@.len(),
                missing == range_total(ranges@.take(i as int)),
                range_total(ranges@) <= total,
            decreases ranges@.len() - i,
        {
            proof {
                assert(ranges@.take(i + 1).drop_last() =~= ranges@.take(i as int));
                lemma_partial_total(ranges@, i + 1);
            }
            missing = missing + ranges[i].1;
            i += 1;
        }
        assert(ranges@.take(ranges@.len() as int) =~= ranges@);
        Ok(
            AssemblyStats {
                chunks_total: total,
                chunks_received: total - missing,
                has_name: !m.name.as_str().is_empty(),
            },
        )
    }

    /// How old an assembly's last write is, in whole seconds; zero where the clock has gone
    /// backwards since. Both times are seconds and nanoseconds since the epoch.
    pub fn age_secs(modified_secs: u64, modified_nanos: u32, now_secs: u64, now_nanos: u32) -> (age:
        u64)
        requires
            modified_nanos < 1_000_000_000,
            now_nanos < 1_000_000_000,
        ensures
            ({
                let elapsed = (now_secs - modified_secs) * 1_000_000_000 + (now_nanos
                    - modified_nanos);
                age == if elapsed < 0 {
                    0
                } else {
                    elapsed / 1_000_000_000
                }
            }),
    {
        if now_secs < modified_secs {
            return 0;
        }
        let secs: u64 = now_secs - modified_secs;
        if now_nanos >= modified_nanos {
            secs
        } else if secs == 0 {
            0
        } else {
            secs - 1
        }
    }
}

/// Whether a list of ids is in ascending order.
pub open spec fn sorted(ids: Seq<i64>) -> bool {
    forall|i: int, j: int| 0 <= i <= j < ids.len() ==> ids[i] <= ids[j]
}

/// The id of the assembly whose sidecar has the given file name.
pub open spec fn assembly_id(name: Seq<char>) -> Option<i64> {
    if ends_with(name, ".parmanifest"@) {
        spelled_i64(name.take(name.len() - ".parmanifest"@.len()))
    } else {
        None
    }
}

/// The ids of the assemblies whose sidecars are among the given files.
pub open spec fn assembly_ids(names: Seq<String>) -> Seq<i64>
    decreases names.len(),
{
    if names.len() == 0 {
        seq![]
    } else {
        match assembly_id(names.last()@) {
            Some(id) => assembly_ids(names.drop_last()).push(id),
            None => assembly_ids(names.drop_last()),
        }
    }
}

/// Whether the sidecar of an assembly is among the given files.
pub open spec fn is_flying(names: Seq<String>, id: i64) -> bool {
    exists|i: int| 0 <= i < names.len() && assembly_id((#[trigger] names[i])@) == Some(id)
}

/// The ids of the assemblies are those whose sidecars are there.
proof fn lemma_flying(names: Seq<String>, id: i64)
    ensures
        assembly_ids(names).contains(id) <==> is_flying(names, id),
    decreases names.len(),
{
    if names.len() > 0 {
        let rest = names.drop_last();
        let ids = assembly_ids(rest);
        let all = assembly_ids(names);
        lemma_flying(rest, id);
        if all.contains(id) {
            let k = choose|k: int| 0 <= k < all.len() && all[k] == id;
            if k < ids.len() {
                assert(ids[k] == id);
                let i = choose|i: int|
                    0 <= i < rest.len() && assembly_id((#[trigger] rest[i])@) == Some(id);
                assert(names[i] == rest[i]);
            } else {
                assert(names[names.len() - 1] == names.last());
            }
        }
        if is_flying(names, id) {
            let i = choose|i: int|
                0 <= i < names.len() && assembly_id((#[trigger] names[i])@) == Some(id);
            if i < rest.len() {
                assert(rest[i] == names[i]);
                let k = choose|k: int| 0 <= k < ids.len() && ids[k] == id;
                assert(all[k] == id);
            } else {
                assert(all[all.len() - 1] == id);
            }
        }
    }
}

/// Inserts an id into a sorted list where it belongs.
fn insert_sorted(ids: &mut Vec<i64>, id: i64)
    requires
        sorted(old(ids)@),
    ensures
        sorted(final(ids)@),
        final(ids)@.to_multiset() == old(ids)@.to_multiset().insert(id),
{
    let mut at: usize = 0;
    while at < ids.len() && ids[at] <= id
        invariant
            at <= ids@.len(),
            forall|k: int| 0 <= k < at ==> ids@[k] <= id,
        decreases ids@.len() - at,
    {
        at += 1;
    }
    proof {
        vstd::seq_lib::to_multiset_insert(ids@, at as int, id);
    }
    ids.insert(at, id);
}

/// No more chunks are missing than there are.
pub proof fn lemma_missing_at_most(m: ManifestView, n: nat)
    ensures
        missing_count(m, n) <= n,
    decreases n,
{
    if n > 0 {
        lemma_missing_at_most(m, (n - 1) as nat);
    }
}

/// The first ranges cover no more chunks than all do.
proof fn lemma_partial_total(ranges: Seq<(u32, u32)>, k: int)
    requires
        0 <= k <= ranges.len(),
    ensures
        range_total(ranges.take(k)) <= range_total(ranges),
    decreases ranges.len() - k,
{
    if k < ranges.len() {
        lemma_partial_total(ranges, k + 1);
        assert(ranges.take(k + 1).drop_last() =~= ranges.take(k));
    } else {
        assert(ranges.take(k) =~= ranges);
    }
}

/// The final place of a file lies inside the final directory, wherever that is: once dots and
/// double dots are resolved, it is one or more names further down, the last of which is the file's.
pub proof fn law_final_place_is_inside(cwd: Seq<Seq<char>>, finals: Seq<char>, name: Seq<char>)
    requires
        can_be_placed(name),
    ensures
        ({
            let dest = place(cwd, path_under(finals, relative_path(name)));
            let below = walk(Seq::empty(), relative_path(name));
            &&& dest == place(cwd, finals) + below
            &&& below.len() > 0
            &&& dest.last() == base_name(relative_path(name))
        }),
{
    let rel = relative_path(name);
    lemma_relative_path(name);
    lemma_place_under(cwd, finals, rel);
    lemma_walk_below(place(cwd, finals), rel);
    lemma_walk_to_file(Seq::empty(), rel);
    lemma_walk_to_file(place(cwd, finals), rel);
}

/// The name of an assembly's sidecar tells its id, and neither its data file nor the file that is
/// renamed over the sidecar is taken for a sidecar.
pub proof fn law_sidecar_name_tells_id(id: i64)
    ensures
        assembly_id(decimal_int(id as int) + ".parmanifest"@) == Some(id),
        assembly_id(decimal_int(id as int) + ".incoming"@) is None,
        assembly_id(decimal_int(id as int) + ".parmanifest.tmp"@) is None,
{
    law_decimal_reads_back(id);
    let n = decimal_int(id as int);
    reveal_strlit(".parmanifest");
    reveal_strlit(".incoming");
    reveal_strlit(".parmanifest.tmp");
    let tail = ".parmanifest"@;
    let sidecar = n + tail;
    assert(sidecar.skip(sidecar.len() - tail.len()) =~= tail);
    assert(sidecar.take(sidecar.len() - tail.len()) =~= n);
    let data = n + ".incoming"@;
    if ends_with(data, tail) {
        assert(data.skip(data.len() - tail.len()).last() == data.last());
    }
    let tmp = n + ".parmanifest.tmp"@;
    if ends_with(tmp, tail) {
        assert(tmp.skip(tmp.len() - tail.len()).last() == tmp.last());
    }
}

/// What an assembly needs to be moved: a sidecar in order, every chunk, and a name that, without
/// its leading slashes, leads to a file without leading out of the final directory on the way.
pub proof fn law_what_can_be_moved(path: Seq<char>, read: SidecarRead)
    ensures
        can_be_moved(path, read) <==> (read matches SidecarRead::Bytes(b) && manifest_fault(b@)
            is None && {
            let m = manifest_in(path, b@);
            &&& forall|i: int| 0 <= i < m.num_chunks ==> #[trigger] m.has(i)
            &&& !leaves(relative_path(m.name))
            &&& base_name(relative_path(m.name)).len() > 0
        }),
        usable(read) <==> read is Missing || (read matches SidecarRead::Bytes(b) && manifest_fault(
            b@,
        ) is None),
        known(path, read) is Some <==> read is Bytes,
        read matches SidecarRead::Bytes(b) ==> known(path, read) == Some(manifest_in(path, b@)),
{
}

/// How a sidecar that cannot be used is reported: one that is missing by its path, one that could
/// not be read by the reason, one that is at fault by the fault.
pub proof fn law_how_a_sidecar_is_reported(path: Seq<char>, read: SidecarRead, e: Error)
    requires
        reports(path, read, e),
    ensures
        read is Missing ==> (e matches Error::NotFound(p) && p@ == path),
        read matches SidecarRead::Failed(why) ==> (e matches Error::Io(w) && w@ == why@),
        read matches SidecarRead::Bytes(b) ==> (e matches Error::BadManifest(why) && Some(why@)
            == manifest_fault(b@)),
{
}

/// The files of an assembly are named by its id in decimal, each with its own extension, and are in
/// the holding directory. A move takes the data file from there and drops the sidecar there.
pub proof fn law_files_of_an_assembly(
    r: Reassembler,
    file_id: i64,
    name: Seq<char>,
    to: FinalMove,
    cwd: Seq<Seq<char>>,
)
    ensures
        place(cwd, r.holding_path(file_id, ".incoming"@)) == place(cwd, r.holding@).push(
            decimal_int(file_id as int) + ".incoming"@,
        ),
        place(cwd, r.holding_path(file_id, ".parmanifest"@)) == place(cwd, r.holding@).push(
            decimal_int(file_id as int) + ".parmanifest"@,
        ),
        r.moves(file_id, name, to) ==> {
            &&& to.incoming@ == r.holding_path(file_id, ".incoming"@)
            &&& to.sidecar@ == r.holding_path(file_id, ".parmanifest"@)
            &&& to.dest@ == path_under(r.finals@, relative_path(name))
        },
        r.moves(file_id, name, to) && can_be_placed(name) ==> {
            &&& place(cwd, to.dest@) == place(cwd, r.finals@) + walk(
                Seq::empty(),
                relative_path(name),
            )
            &&& place(cwd, to.dest@).last() == base_name(relative_path(name))
        },
{
    reveal_strlit(".incoming");
    reveal_strlit(".parmanifest");
    lemma_file_in(cwd, r.holding@, file_id, ".incoming"@);
    lemma_file_in(cwd, r.holding@, file_id, ".parmanifest"@);
    if can_be_placed(name) {
        law_final_place_is_inside(cwd, r.finals@, name);
    }
}

/// Where a file named by an id is.
proof fn lemma_file_in(
    cwd: Seq<Seq<char>>,
    dir: Seq<char>,
    file_id: i64,
    extension: Seq<char>,
)
    requires
        extension.len() > 2,
        !extension.contains('/'),
    ensures
        place(cwd, path_under(dir, decimal_int(file_id as int) + extension)) == place(
            cwd,
            dir,
        ).push(decimal_int(file_id as int) + extension),
{
    let n = decimal_int(file_id as int);
    let name = n + extension;
    lemma_decimal_has_no_slash(file_id as int);
    if name.contains('/') {
        let k = choose|k: int| 0 <= k < name.len() && name[k] == '/';
        if k < n.len() {
            assert(n[k] == '/');
        } else {
            assert(extension[k - n.len()] == '/');
        }
    }
    assert(name.len() > 2);
    assert(name != seq!['.'] && name != seq!['.', '.']) by {
        assert(seq!['.'].len() == 1 && seq!['.', '.'].len() == 2);
    }
    lemma_walk_name(place(cwd, dir), name);
    lemma_place_under(cwd, dir, name);
}

/// A file is taken for the sidecar of an assembly exactly where its name is a spelling of the
/// assembly's id followed by `.parmanifest`.
pub proof fn law_what_is_taken_for_a_sidecar(stem: Seq<char>, name: Seq<char>)
    ensures
        assembly_id(stem + ".parmanifest"@) == spelled_i64(stem),
        assembly_id(name) matches Some(id) ==> exists|s: Seq<char>|
            name == #[trigger] (s + ".parmanifest"@) && spelled_i64(s) == Some(id),
{
    let tail = ".parmanifest"@;
    let whole = stem + tail;
    assert(whole.skip(stem.len() as int) =~= tail);
    assert(whole.take(stem.len() as int) =~= stem);
    if assembly_id(name) is Some {
        let s = name.take(name.len() - tail.len());
        assert(name =~= s + tail);
    }
}

/// Each sidecar among the files of the holding directory counts once, in whatever place it is
/// listed, and no other file counts.
pub proof fn law_each_sidecar_counts_once(names: Seq<String>, name: String)
    ensures
        match assembly_id(name@) {
            Some(id) => assembly_ids(names.push(name)) == assembly_ids(names).push(id),
            None => assembly_ids(names.push(name)) == assembly_ids(names),
        },
        assembly_ids(Seq::empty()).len() == 0,
{
    assert(names.push(name).drop_last() =~= names);
}

/// Where a finished file goes, for a call: exactly an assembly with a sidecar in order, all its
/// chunks and a name that has a place is moved; its data file is taken from the holding directory
/// and its sidecar dropped there; and its place is below the final directory, along the components
/// of its name, the last of which it keeps character for character.
pub proof fn law_where_a_finished_file_goes(
    r: Reassembler,
    file_id: i64,
    sidecar: SidecarRead,
    moved: Result<FinalMove, Error>,
    cwd: Seq<Seq<char>>,
)
    requires
        call_ensures(Reassembler::finalize, (&r, file_id, &sidecar), moved),
    ensures
        moved is Ok <==> (sidecar matches SidecarRead::Bytes(b) && manifest_fault(b@) is None && {
            let m = manifest_in(r.holding_path(file_id, ".parmanifest"@), b@);
            &&& forall|i: int| 0 <= i < m.num_chunks ==> #[trigger] m.has(i)
            &&& !leaves(relative_path(m.name))
            &&& base_name(relative_path(m.name)).len() > 0
        }),
        moved matches Ok(to) ==> {
            let name = manifest_in(
                r.holding_path(file_id, ".parmanifest"@),
                sidecar->Bytes_0@,
            ).name;
            &&& place(cwd, to.dest@) == place(cwd, r.finals@) + walk(
                Seq::empty(),
                relative_path(name),
            )
            &&& place(cwd, to.dest@).last() == base_name(relative_path(name))
            &&& place(cwd, to.incoming@) == place(cwd, r.holding@).push(
                decimal_int(file_id as int) + ".incoming"@,
            )
            &&& place(cwd, to.sidecar@) == place(cwd, r.holding@).push(
                decimal_int(file_id as int) + ".parmanifest"@,
            )
        },
{
    law_what_can_be_moved(r.holding_path(file_id, ".parmanifest"@), sidecar);
    if let Ok(to) = moved {
        law_files_of_an_assembly(r, file_id, Seq::empty(), to, cwd);
    }
}

/// What is told of an assembly by different calls agrees: the chunks that have arrived and those in
/// the missing ranges are all that there are, and the name is known to both or to neither.
pub proof fn law_what_is_told_of_an_assembly_agrees(
    r: Reassembler,
    file_id: i64,
    sidecar: SidecarRead,
    stats: AssemblyStats,
    named: bool,
    ranges: Vec<(u32, u32)>,
    chunk: int,
)
    requires
        call_ensures(Reassembler::stats, (&r, file_id, &sidecar), Ok(stats)),
        call_ensures(Reassembler::has_name, (&r, file_id, &sidecar), Ok(named)),
        call_ensures(Reassembler::missing_ranges, (&r, file_id, &sidecar), Ok(ranges)),
    ensures
        stats.has_name == named,
        stats.chunks_received <= stats.chunks_total,
        ({
            let m = manifest_in(r.holding_path(file_id, ".parmanifest"@), sidecar->Bytes_0@);
            &&& stats.chunks_total == m.num_chunks
            &&& stats.chunks_received + missing_count(m, m.num_chunks as nat) == m.num_chunks
            &&& named <==> m.name.len() > 0
            &&& (exists|k: int|
                0 <= k < ranges@.len() && #[trigger] ranges@[k].0 <= chunk < ranges@[k].0
                    + ranges@[k].1) <==> 0 <= chunk < m.num_chunks && !m.has(chunk)
        }),
{
    let m = manifest_in(r.holding_path(file_id, ".parmanifest"@), sidecar->Bytes_0@);
    lemma_missing_at_most(m, m.num_chunks as nat);
    laws::law_gaps_are_exact(m, ranges@, chunk);
}

/// A sidecar that cannot be used is reported alike by every call that needs one; only a packet may
/// come without any.
pub proof fn law_unusable_sidecars_are_reported_alike(
    r: Reassembler,
    file_id: i64,
    sidecar: SidecarRead,
    stats: Result<AssemblyStats, Error>,
    named: Result<bool, Error>,
    ranges: Result<Vec<(u32, u32)>, Error>,
    moved: Result<FinalMove, Error>,
    data_len: u64,
    pkt: Packet,
    plan: Result<IngestPlan, Error>,
)
    requires
        call_ensures(Reassembler::stats, (&r, file_id, &sidecar), stats),
        call_ensures(Reassembler::has_name, (&r, file_id, &sidecar), named),
        call_ensures(Reassembler::missing_ranges, (&r, file_id, &sidecar), ranges),
        call_ensures(Reassembler::finalize, (&r, file_id, &sidecar), moved),
        pkt.file_id == file_id,
        !(pkt.ptype is Heartbeat),
        call_ensures(Reassembler::ingest, (&r, &sidecar, data_len, &pkt), plan),
    ensures
        sidecar is Missing ==> {
            &&& stats matches Err(Error::NotFound(p)) && p@ == r.holding_path(
                file_id,
                ".parmanifest"@,
            )
            &&& named is Err && ranges is Err && moved is Err
            &&& plan is Ok
        },
        sidecar matches SidecarRead::Failed(why) ==> {
            &&& stats matches Err(Error::Io(w)) && w@ == why@
            &&& named is Err && ranges is Err && moved is Err
            &&& plan matches Err(Error::Io(w)) && w@ == why@
        },
        sidecar matches SidecarRead::Bytes(b) ==> {
            &&& stats is Ok <==> manifest_fault(b@) is None
            &&& named is Ok <==> manifest_fault(b@) is None
            &&& ranges is Ok <==> manifest_fault(b@) is None
            &&& plan is Ok <==> manifest_fault(b@) is None
            &&& manifest_fault(b@) is Some ==> moved is Err && (plan matches Err(
                Error::BadManifest(why),
            ) && Some(why@) == manifest_fault(b@))
        },
{
}

/// The assemblies in flight are those whose sidecars are among the files, in ascending order.
pub proof fn law_assemblies_in_flight(names: Vec<String>, ids: Vec<i64>, i: int, j: int)
    requires
        call_ensures(Reassembler::in_flight, (&names,), ids),
        0 <= i <= j < ids@.len(),
    ensures
        ids@[i] <= ids@[j],
        exists|k: int|
            {
                &&& 0 <= k < names@.len()
                &&& ends_with((#[trigger] names@[k])@, ".parmanifest"@)
                &&& spelled_i64(names@[k]@.take(names@[k]@.len() - ".parmanifest"@.len())) == Some(
                    ids@[i],
                )
            },
{
    assert(ids@.contains(ids@[i]));
    assert(is_flying(names@, ids@[i]));
    let k = choose|k: int|
        0 <= k < names@.len() && assembly_id((#[trigger] names@[k])@) == Some(ids@[i]);
    assert(ends_with(names@[k]@, ".parmanifest"@));
}

/// An assembly's age is the whole seconds since its last write, and none where that lies ahead.
pub proof fn law_age_in_whole_seconds(
    modified_secs: u64,
    modified_nanos: u32,
    now_secs: u64,
    now_nanos: u32,
    age: u64,
)
    requires
        modified_nanos < 1_000_000_000,
        now_nanos < 1_000_000_000,
        call_ensures(
            Reassembler::age_secs,
            (modified_secs, modified_nanos, now_secs, now_nanos),
            age,
        ),
    ensures
        ({
            let since = (now_secs - modified_secs) * 1_000_000_000 + (now_nanos - modified_nanos);
            &&& since < 0 ==> age == 0
            &&& since >= 0 ==> age * 1_000_000_000 <= since < (age + 1) * 1_000_000_000
        }),
{
}

/// What a packet does to its assembly goes by the assembly's own sidecar: the one named by the
/// packet's file id.
pub proof fn law_packets_go_by_their_file(
    r: Reassembler,
    sidecar: SidecarRead,
    data_len: u64,
    pkt: Packet,
    plan: IngestPlan,
)
    requires
        call_ensures(Reassembler::ingest, (&r, &sidecar, data_len, &pkt), Ok(plan)),
    ensures
        ({
            let path = path_under(r.holding@, decimal_int(pkt.file_id as int) + ".parmanifest"@);
            plan@ == ingest_plan(
                path,
                match sidecar {
                    SidecarRead::Bytes(b) => Some(manifest_in(path, b@)),
                    _ => None,
                },
                data_len as int,
                pkt@,
            )
        }),
        pkt.ptype is Heartbeat ==> plan.steps@.len() == 0 && plan.outcome is Ignored,
{
    if pkt.ptype is Heartbeat {
        assert(plan@.steps.len() == plan.steps@.len());
    }
}

/// Why a file with a sidecar in order is not moved: because a chunk is missing, whatever its name;
/// or else because it has no name, because its name leads out of the final directory, or because it
/// leads to no file there.
pub proof fn law_why_a_file_is_not_moved(
    r: Reassembler,
    file_id: i64,
    sidecar: SidecarRead,
    e: Error,
)
    requires
        sidecar matches SidecarRead::Bytes(b) && manifest_fault(b@) is None,
        call_ensures(Reassembler::finalize, (&r, file_id, &sidecar), Err(e)),
    ensures
        ({
            let m = manifest_in(r.holding_path(file_id, ".parmanifest"@), sidecar->Bytes_0@);
            &&& e matches Error::BadManifest(why)
            &&& !m.complete() ==> why@ == "finalize before complete"@
            &&& m.complete() && m.name.len() == 0 ==> why@ == "missing filename"@
            &&& m.complete() && m.name.len() > 0 && leaves(relative_path(m.name)) ==> why@
                == "filename leaves the final directory"@
            &&& m.complete() && m.name.len() > 0 && !leaves(relative_path(m.name)) ==> base_name(
                relative_path(m.name),
            ).len() == 0 && why@ == "filename names no file"@
        }),
{
}

/// Every packet that a datagram can carry can be taken in, whatever there is of its assembly, and
/// every assembly can be asked after and finalized.
pub proof fn law_every_packet_can_be_taken_in(
    r: Reassembler,
    sidecar: SidecarRead,
    data_len: u64,
    pkt: Packet,
    file_id: i64,
)
    requires
        pkt@.payload.len() <= u32::MAX,
    ensures
        call_requires(Reassembler::ingest, (&r, &sidecar, data_len, &pkt)),
        call_requires(Reassembler::finalize, (&r, file_id, &sidecar)),
        call_requires(Reassembler::stats, (&r, file_id, &sidecar)),
        call_requires(Reassembler::missing_ranges, (&r, file_id, &sidecar)),
{
}

} // verus!
