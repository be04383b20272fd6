//! The running sender: its queue, its state and the overrides in force.
//!
//! Overrides from the control plane take precedence over the configuration. Whatever the sender
//! needs from its surroundings (the ledger's records, the files to send, the time) is handed in,
//! and what it wants done (datagrams, ledger changes) is handed back.

use vstd::prelude::*;

use crate::chunker::{
    chunk_count, chunk_size_accepted, chunk_size_ok, chunks_for_size, count_field, Chunker,
    ChunkerView, FileProbe,
};
use crate::config::{Config, Link, SenderState};
use crate::control::messages::{LinkOverride, RequestedRange, SenderStatus, SubmitAck};
use crate::error::Error;
use crate::ledger::{FileRecord, Timestamp};
use crate::names::{has_name, value_at};
use crate::proto::{datagram, HEADER_LEN};
use crate::sender::queue::{
    groups, total_packets, PacketQueue, QueueView, WorkItem, WorkItemView,
};
use crate::sender::scanner::{best_created, Candidate};
use crate::text::{decimal_i64, decimal_int, path_join, path_under, prefixed};

verus! {

/// How long before the start the last look for work counts as having been: an hour, in
/// nanoseconds.
pub const HEAD_START_NANOS: u64 = 3_600_000_000_000;

/// Settings that the control plane has overridden; `None` means that the configuration decides.
#[derive(Debug)]
struct Overrides {
    active_link: Option<String>,
    chunk_size: Option<usize>,
    max_kbps: Option<u64>,
    link_ip: Option<String>,
    link_port: Option<u16>,
}

impl Overrides {
    /// Only an accepted chunk size is in force.
    #[verifier::type_invariant]
    spec fn accepted(self) -> bool {
        self.chunk_size matches Some(n) ==> chunk_size_ok(n)
    }
}

/// Live state of the running sender.
#[derive(Debug)]
pub struct SenderRuntime {
    queue: PacketQueue,
    state: SenderState,
    overrides: Overrides,
    rate_kbps: u64,
    /// When work was last looked for, [`HEAD_START_NANOS`] later.
    last_recheck: u128,
    last_status_dump: u64,
}

/// The sender as a mathematical value. Times are nanoseconds on a steady clock.
#[verifier::ext_equal]
pub struct SenderView {
    pub queue: QueueView,
    pub state: SenderState,
    pub active_link: Option<Seq<char>>,
    pub chunk_size: Option<usize>,
    pub max_kbps: Option<u64>,
    pub link_ip: Option<Seq<char>>,
    pub link_port: Option<u16>,
    pub rate_kbps: u64,
    pub last_recheck: int,
    pub last_status_dump: int,
}

/// The text in an option.
pub open spec fn text_in_option(o: Option<String>) -> Option<Seq<char>> {
    match o {
        Some(s) => Some(s@),
        None => None,
    }
}

impl View for SenderRuntime {
    type V = SenderView;

    closed spec fn view(&self) -> SenderView {
        SenderView {
            queue: self.queue@,
            state: self.state,
            active_link: text_in_option(self.overrides.active_link),
            chunk_size: self.overrides.chunk_size,
            max_kbps: self.overrides.max_kbps,
            link_ip: text_in_option(self.overrides.link_ip),
            link_port: self.overrides.link_port,
            rate_kbps: self.rate_kbps,
            last_recheck: self.last_recheck - HEAD_START_NANOS,
            last_status_dump: self.last_status_dump as int,
        }
    }
}

/// The link under a name, or the first one where there is none under it.
pub open spec fn link_for(cfg: Config, name: Seq<char>) -> Link {
    if has_name(cfg.links@, name) {
        value_at(cfg.links@, name)
    } else {
        cfg.links@[0].1
    }
}

impl SenderView {
    /// The chunk size in effect.
    pub open spec fn effective_chunk_size(self, cfg: Config) -> usize {
        match self.chunk_size {
            Some(n) => n,
            None => cfg.sender.chunk_size,
        }
    }

    /// The name of the link in effect.
    pub open spec fn effective_link(self, cfg: Config) -> Seq<char> {
        match self.active_link {
            Some(name) => name,
            None => cfg.sender.active_link@,
        }
    }

    /// The destination address in effect.
    pub open spec fn effective_ip(self, cfg: Config) -> Seq<char> {
        match self.link_ip {
            Some(ip) => ip,
            None => link_for(cfg, self.effective_link(cfg)).ip@,
        }
    }

    /// The destination port in effect.
    pub open spec fn effective_port(self, cfg: Config) -> u16 {
        match self.link_port {
            Some(port) => port,
            None => link_for(cfg, self.effective_link(cfg)).port,
        }
    }

    /// The throughput cap in effect.
    pub open spec fn effective_kbps(self, cfg: Config) -> u64 {
        match self.max_kbps {
            Some(kbps) => kbps,
            None => link_for(cfg, self.effective_link(cfg)).max_kbps,
        }
    }

    /// How many chunks a file of a given size has at the chunk size in effect.
    pub open spec fn chunks(self, cfg: Config, file_size: u64) -> u32 {
        chunks_at(self.effective_chunk_size(cfg), file_size)
    }

    /// The sender with other work in its queue, after `n` changes to it.
    pub open spec fn queued(self, items: Seq<WorkItemView>, n: int) -> SenderView {
        SenderView {
            queue: QueueView { items, revision: (self.queue.revision + n) as u64 },
            ..self
        }
    }
}

/// How many chunks a file of a given size has at a chunk size.
pub open spec fn chunks_at(chunk_size: usize, file_size: u64) -> u32 {
    count_field(chunk_count(file_size as nat, (chunk_size - HEADER_LEN) as nat))
}

/// Whether the queue's change counter has room for what a manual request adds: two items for a
/// whole file, one for a range, none for a range that starts past the end.
pub open spec fn enqueue_fits(v: SenderView, cfg: Config, rec: FileRecord, start: i32) -> bool {
    if start < 0 {
        v.queue.revision + 2 <= u64::MAX
    } else {
        start < v.chunks(cfg, rec.file_size) ==> v.queue.revision < u64::MAX
    }
}

/// A queue with one more item, at its head or at its back.
pub open spec fn with_item(items: Seq<WorkItemView>, item: WorkItemView, interrupt: bool) -> Seq<
    WorkItemView,
> {
    if interrupt {
        seq![item] + items
    } else {
        items.push(item)
    }
}

/// A queue with a whole file, at its head or at its back: the manifest, then all the data.
pub open spec fn with_full_file(
    items: Seq<WorkItemView>,
    file_id: i64,
    file_name: Seq<char>,
    total: u32,
    interrupt: bool,
) -> Seq<WorkItemView> {
    let manifest = WorkItemView::Manifest { file_id, file_name };
    let data = WorkItemView::Data { file_id, range: RequestedRange { start: 0, count: total } };
    if interrupt {
        seq![manifest, data] + items
    } else {
        items + seq![manifest, data]
    }
}

/// Whether a status report tells what the sender is like.
pub open spec fn status_of(v: SenderView, cfg: Config, s: SenderStatus) -> bool {
    &&& s.state == v.state
    &&& s.active_link@ == v.effective_link(cfg)
    &&& s.link_ip@ == v.effective_ip(cfg)
    &&& s.link_port == v.effective_port(cfg)
    &&& s.chunk_size == v.effective_chunk_size(cfg)
    &&& s.max_kbps == v.effective_kbps(cfg)
    &&& s.current_file_id == if v.queue.items.len() > 0 {
        v.queue.items[0].file()
    } else {
        0
    }
    &&& s.queue_depth == total_packets(v.queue.items)
    &&& groups(s.pending@, v.queue.items)
    &&& s.revision == v.queue.revision
}

/// The names in an override are known and its chunk size is accepted, in the order of the checks.
pub open spec fn override_fault(cfg: Config, o: LinkOverride, e: Error) -> bool {
    match e {
        Error::BadConfig(why) => !link_known(cfg, o) && why@ == "unknown link `"@
            + o.active_link->0@ + "`"@,
        Error::BadChunkSize(n) => link_known(cfg, o) && !size_accepted(o) && n == o.chunk_size->0,
        _ => false,
    }
}

/// Whether the link that an override names, if it names one, is declared.
pub open spec fn link_known(cfg: Config, o: LinkOverride) -> bool {
    o.active_link matches Some(name) ==> has_name(cfg.links@, name@)
}

/// Whether the chunk size that an override sets, if it sets one, is accepted.
pub open spec fn size_accepted(o: LinkOverride) -> bool {
    o.chunk_size matches Some(n) ==> chunk_size_ok(n)
}

/// The first of two settings that is there.
pub open spec fn either<T>(new: Option<T>, old: Option<T>) -> Option<T> {
    match new {
        Some(v) => Some(v),
        None => old,
    }
}

/// The sender after an override, before its rate is adjusted: what comes before a fault has
/// been applied.
pub open spec fn overridden(v: SenderView, cfg: Config, o: LinkOverride) -> SenderView {
    let link = if link_known(cfg, o) {
        either(text_in_option(o.active_link), v.active_link)
    } else {
        v.active_link
    };
    if link_known(cfg, o) && size_accepted(o) {
        SenderView {
            active_link: link,
            chunk_size: either(o.chunk_size, v.chunk_size),
            max_kbps: either(o.max_kbps, v.max_kbps),
            link_ip: either(text_in_option(o.link_ip), v.link_ip),
            link_port: either(o.link_port, v.link_port),
            ..v
        }
    } else {
        SenderView { active_link: link, ..v }
    }
}

/// What a look at a submitted path found.
#[derive(Debug, Clone)]
pub enum PathProbe {
    /// There is nothing there.
    NotFound,
    /// The path could not be looked at, for the reason given.
    Failed(String),
    /// There is something else than a regular file.
    NotRegular,
    /// A regular file that could not be opened for reading, for the reason given.
    Unreadable(String),
    /// A regular file of this size that could be opened for reading, with its times as far as they
    /// are known.
    Regular { size: u64, created: Option<Timestamp>, modified: Option<Timestamp> },
}

/// What to register a file in the ledger with.
#[derive(Debug, Clone)]
pub struct Submission {
    pub name: String,
    pub size: u64,
    pub created_at: Timestamp,
    pub images_per_dark: u32,
    pub images_per_flat: u32,
    pub images_per_bias: u32,
    pub chunk_size: u32,
}

/// Whether a file is to be registered as found, under the settings in effect.
pub open spec fn submission_of(
    s: Submission,
    v: SenderView,
    cfg: Config,
    name: Seq<char>,
    size: u64,
    created_at: Timestamp,
) -> bool {
    &&& s.name@ == name
    &&& s.size == size
    &&& s.created_at == created_at
    &&& s.images_per_dark == cfg.sender.images_per_dark
    &&& s.images_per_flat == cfg.sender.images_per_flat
    &&& s.images_per_bias == cfg.sender.images_per_bias
    &&& s.chunk_size == v.effective_chunk_size(cfg)
}

/// A path made absolute: a relative one is taken from the current directory, as far as that is
/// known.
pub open spec fn absolute(path: Seq<char>, cwd: Option<Seq<char>>) -> Seq<char> {
    match cwd {
        Some(dir) => path_under(dir, path),
        None => path,
    }
}

/// A path made absolute.
pub fn absolute_path(path: &str, cwd: &Option<String>) -> (abs: String)
    ensures
        abs@ == absolute(path@, text_in_option(*cwd)),
{
    match cwd {
        Some(dir) => path_join(dir.as_str(), path),
        None => path.to_owned(),
    }
}

/// How many whole seconds lie between two times of the steady clock; none where the second comes
/// first.
pub open spec fn whole_seconds(since: int, now: int) -> int {
    if now <= since {
        0
    } else {
        (now - since) / 1_000_000_000
    }
}

/// The error for a file that the ledger does not know.
pub open spec fn is_unknown_file(e: Error, file_id: i64) -> bool {
    e matches Error::BadConfig(why) && why@ == "unknown file_id "@ + decimal_int(file_id as int)
}

/// The error for a file that the ledger does not know.
fn unknown_file(file_id: i64) -> (e: Error)
    ensures
        is_unknown_file(e, file_id),
{
    Error::BadConfig(prefixed("unknown file_id ", decimal_i64(file_id).as_str()))
}

/// A text that was overridden, or else the configured one.
fn text_or_else(o: &Option<String>, default: &str) -> (text: String)
    ensures
        text@ == match text_in_option(*o) {
            Some(s) => s,
            None => default@,
        },
{
    match o {
        Some(s) => s.clone(),
        None => default.to_owned(),
    }
}

impl SenderRuntime {
    /// Build a fresh runtime at the given time.
    pub fn new(cfg: &Config, now: u64) -> (rt: SenderRuntime)
        requires
            cfg.valid(),
        ensures
            rt@ == (SenderView {
                queue: QueueView { items: Seq::empty(), revision: 0 },
                state: cfg.sender.initial_state,
                active_link: None,
                chunk_size: None,
                max_kbps: None,
                link_ip: None,
                link_port: None,
                rate_kbps: value_at(cfg.links@, cfg.sender.active_link@).max_kbps,
                last_recheck: now - HEAD_START_NANOS,
                last_status_dump: now as int,
            }),
    {
        let rate_kbps: u64 = match cfg.links.get(cfg.sender.active_link.as_str()) {
            Some(link) => link.max_kbps,
            None => 0,
        };
        SenderRuntime {
            queue: PacketQueue::new(),
            state: cfg.sender.initial_state,
            overrides: Overrides {
                active_link: None,
                chunk_size: None,
                max_kbps: None,
                link_ip: None,
                link_port: None,
            },
            rate_kbps,
            last_recheck: now as u128,
            last_status_dump: now,
        }
    }

    /// The chunk size in effect.
    pub fn current_chunk_size(&self, cfg: &Config) -> (n: usize)
        requires
            cfg.valid(),
        ensures
            n == self@.effective_chunk_size(*cfg),
            chunk_size_ok(n),
    {
        proof {
            use_type_invariant(&self.overrides);
        }
        match self.overrides.chunk_size {
            Some(n) => n,
            None => cfg.sender.chunk_size,
        }
    }

    /// The link in effect: its name, and the address, port and throughput cap to use. Where the
    /// link has meanwhile gone from the configuration, the first link is used.
    pub fn current_link(&self, cfg: &Config) -> (link: (String, String, u16, u64))
        requires
            cfg.valid(),
        ensures
            link.0@ == self@.effective_link(*cfg),
            link.1@ == self@.effective_ip(*cfg),
            link.2 == self@.effective_port(*cfg),
            link.3 == self@.effective_kbps(*cfg),
    {
        let key = text_or_else(&self.overrides.active_link, cfg.sender.active_link.as_str());
        let found = match cfg.links.get(key.as_str()) {
            Some(link) => Some(link),
            None => cfg.links.first(),
        };
        match found {
            Some(link) => {
                let ip = text_or_else(&self.overrides.link_ip, link.ip.as_str());
                let port: u16 = match self.overrides.link_port {
                    Some(port) => port,
                    None => link.port,
                };
                let kbps: u64 = match self.overrides.max_kbps {
                    Some(kbps) => kbps,
                    None => link.max_kbps,
                };
                (key, ip, port, kbps)
            },
            None => {
                // A valid configuration has a link.
                assert(cfg.links@.len() > 0);
                (key, String::new(), 0, 0)
            },
        }
    }

    /// The throughput that the sender is paced at.
    pub fn rate_kbps(&self) -> (kbps: u64)
        ensures
            kbps == self@.rate_kbps,
    {
        self.rate_kbps
    }

    /// The sender's state.
    pub fn state(&self) -> (state: SenderState)
        ensures
            state == self@.state,
    {
        self.state
    }

    /// How often the queue has changed.
    pub fn revision(&self) -> (n: u64)
        ensures
            n == self@.queue.revision,
    {
        self.queue.revision()
    }

    /// Whether the number of packets in the queue fits the 32 bits of a status report.
    pub fn depth_fits(&self) -> (fits: bool)
        ensures
            fits == (total_packets(self@.queue.items) <= u32::MAX),
    {
        self.queue.checked_depth().is_some()
    }

    /// Status snapshot for the control plane.
    pub fn status(&self, cfg: &Config) -> (s: SenderStatus)
        requires
            cfg.valid(),
            total_packets(self@.queue.items) <= u32::MAX,
        ensures
            status_of(self@, *cfg, s),
    {
        let (active_link, link_ip, link_port, max_kbps) = self.current_link(cfg);
        let pending = self.queue.snapshot();
        let current_file_id: i64 = match self.queue.front() {
            Some(item) => item.file_id(),
            None => 0,
        };
        SenderStatus {
            state: self.state,
            active_link,
            link_ip,
            link_port,
            chunk_size: self.current_chunk_size(cfg),
            max_kbps,
            current_file_id,
            queue_depth: self.queue.depth(),
            pending,
            revision: self.queue.revision(),
        }
    }

    /// Apply runtime overrides from a control message. Settings that come before a faulty one
    /// stay applied.
    pub fn apply_override(&mut self, cfg: &Config, o: LinkOverride) -> (r: Result<(), Error>)
        requires
            cfg.valid(),
        ensures
            match r {
                Ok(()) => {
                    let now = overridden(old(self)@, *cfg, o);
                    &&& link_known(*cfg, o) && size_accepted(o)
                    &&& final(self)@ == (SenderView { rate_kbps: now.effective_kbps(*cfg), ..now })
                },
                Err(e) => {
                    &&& !(link_known(*cfg, o) && size_accepted(o))
                    &&& override_fault(*cfg, o, e)
                    &&& final(self)@ == overridden(old(self)@, *cfg, o)
                },
            },
    {
        proof {
            use_type_invariant(&self.overrides);
        }
        if let Some(link) = &o.active_link {
            if !cfg.links.contains_key(link.as_str()) {
                let mut why = prefixed("unknown link `", link.as_str());
                why.append("`");
                return Err(Error::BadConfig(why));
            }
            self.overrides.active_link = Some(link.clone());
        }
        if let Some(c) = o.chunk_size {
            if !chunk_size_accepted(c) {
                return Err(Error::BadChunkSize(c));
            }
            self.overrides.chunk_size = Some(c);
        }
        if let Some(k) = o.max_kbps {
            self.overrides.max_kbps = Some(k);
        }
        if let Some(ip) = o.link_ip {
            self.overrides.link_ip = Some(ip);
        }
        if let Some(p) = o.link_port {
            self.overrides.link_port = Some(p);
        }
        let (_key, _ip, _port, kbps) = self.current_link(cfg);
        self.rate_kbps = kbps;
        Ok(())
    }

    /// Switch sender state. Every state but the automatic one drops what is queued.
    pub fn set_state(&mut self, new: SenderState)
        requires
            !(new is Auto) && old(self)@.queue.items.len() > 0 ==> old(self)@.queue.revision
                < u64::MAX,
        ensures
            final(self)@ == (SenderView {
                state: new,
                ..if new is Auto || old(self)@.queue.items.len() == 0 {
                    old(self)@
                } else {
                    old(self)@.queued(Seq::empty(), 1)
                }
            }),
    {
        match new {
            SenderState::Auto => {},
            SenderState::Manual | SenderState::Paused | SenderState::Debug => {
                self.queue.clear();
            },
        }
        self.state = new;
        assert(old(self)@.queue.items.len() == 0 ==> old(self)@.queue.items =~= Seq::empty());
    }

    /// Drop everything from the queue.
    pub fn flush(&mut self)
        requires
            old(self)@.queue.items.len() > 0 ==> old(self)@.queue.revision < u64::MAX,
        ensures
            final(self)@ == if old(self)@.queue.items.len() == 0 {
                old(self)@
            } else {
                old(self)@.queued(Seq::empty(), 1)
            },
    {
        self.queue.clear();
        assert(old(self)@.queue.items.len() == 0 ==> old(self)@.queue.items =~= Seq::empty());
    }

    /// Puts an item at the head or at the back of the queue.
    fn push_item(&mut self, item: WorkItem, interrupt: bool)
        requires
            old(self)@.queue.revision < u64::MAX,
        ensures
            final(self)@ == old(self)@.queued(
                with_item(old(self)@.queue.items, item@, interrupt),
                1,
            ),
    {
        if interrupt {
            self.queue.push_front(item);
        } else {
            self.queue.push_back(item);
        }
    }

    /// Puts a whole file at the head or at the back of the queue. The manifest packet is
    /// transmitted before any data chunk, so that the receiver learns the filename immediately.
    fn push_full_file(&mut self, file_id: i64, file_name: String, total: u32, interrupt: bool)
        requires
            old(self)@.queue.revision + 2 <= u64::MAX,
        ensures
            final(self)@ == old(self)@.queued(
                with_full_file(old(self)@.queue.items, file_id, file_name@, total, interrupt),
                2,
            ),
    {
        let data = WorkItem::Data { file_id, range: RequestedRange { start: 0, count: total } };
        let manifest = WorkItem::Manifest { file_id, file_name };
        let ghost items = self@.queue.items;
        let ghost (m, d) = (manifest@, data@);
        if interrupt {
            self.queue.push_front(data);
            self.queue.push_front(manifest);
            assert(self@.queue.items =~= seq![m, d] + items);
        } else {
            self.queue.push_back(manifest);
            self.queue.push_back(data);
            assert(self@.queue.items =~= items + seq![m, d]);
        }
    }

    /// Enqueue a manual request, given the ledger's record of the file: the whole file for a
    /// negative `start`, or else `count` chunks (at least one, and no more than there are) from
    /// `start` on.
    pub fn enqueue(
        &mut self,
        cfg: &Config,
        file_id: i64,
        record: Option<FileRecord>,
        start: i32,
        count: u32,
        interrupt: bool,
    ) -> (r: Result<(), Error>)
        requires
            cfg.valid(),
            record matches Some(rec) ==> enqueue_fits(old(self)@, *cfg, rec, start),
        ensures
            match record {
                None => r matches Err(e) && is_unknown_file(e, file_id) && final(self)@ == old(
                    self,
                )@,
                Some(rec) => {
                    let total = old(self)@.chunks(*cfg, rec.file_size);
                    let items = old(self)@.queue.items;
                    if start < 0 {
                        &&& r is Ok
                        &&& final(self)@ == old(self)@.queued(
                            with_full_file(items, rec.file_id, rec.file_name@, total, interrupt),
                            2,
                        )
                    } else if start >= total {
                        &&& r == Err::<(), Error>(Error::OutOfRange { index: start as u32, total })
                        &&& final(self)@ == old(self)@
                    } else {
                        &&& r is Ok
                        &&& final(self)@ == old(self)@.queued(
                            with_item(
                                items,
                                (WorkItemView::Retransmit {
                                    file_id: rec.file_id,
                                    range: clamped(start as u32, count, total),
                                }),
                                interrupt,
                            ),
                            1,
                        )
                    }
                },
            },
    {
        let rec = match record {
            Some(rec) => rec,
            None => return Err(unknown_file(file_id)),
        };
        let payload_size: usize = self.current_chunk_size(cfg) - HEADER_LEN;
        let total: u32 = chunks_for_size(rec.file_size, payload_size);
        if start < 0 {
            self.push_full_file(rec.file_id, rec.file_name, total, interrupt);
            return Ok(());
        }
        let s: u32 = start as u32;
        if s >= total {
            return Err(Error::OutOfRange { index: s, total });
        }
        let wanted: u32 = if count < 1 { 1 } else { count };
        let left: u32 = total - s;
        let range = RequestedRange { start: s, count: if wanted < left { wanted } else { left } };
        self.push_item(WorkItem::Retransmit { file_id: rec.file_id, range }, interrupt);
        Ok(())
    }

    /// Submit an arbitrary file by path: what to register it in the ledger with, given what a look
    /// at the path found. The path must lead to a regular file that can be read; it need not live
    /// under a watched directory.
    pub fn submit(
        &self,
        cfg: &Config,
        path: &str,
        cwd: &Option<String>,
        probe: PathProbe,
        now: Timestamp,
    ) -> (r: Result<Submission, Error>)
        requires
            cfg.valid(),
        ensures
            match probe {
                PathProbe::NotFound => r matches Err(Error::NotFound(p)) && p@ == path@,
                PathProbe::Failed(why) => r matches Err(Error::Io(e)) && e@ == why@,
                PathProbe::NotRegular => r matches Err(Error::BadConfig(why)) && why@ == path@
                    + " is not a regular file"@,
                PathProbe::Unreadable(why) => r matches Err(Error::Io(e)) && e@ == why@,
                PathProbe::Regular { size, created, modified } => {
                    &&& r matches Ok(s)
                    &&& submission_of(
                        s,
                        self@,
                        *cfg,
                        absolute(path@, text_in_option(*cwd)),
                        size,
                        match (created, modified) {
                            (Some(t), _) => t,
                            (None, Some(t)) => t,
                            (None, None) => now,
                        },
                    )
                    &&& chunk_size_ok(s.chunk_size as usize)
                },
            },
    {
        match probe {
            PathProbe::NotFound => Err(Error::NotFound(path.to_owned())),
            PathProbe::Failed(why) => Err(Error::Io(why)),
            PathProbe::NotRegular => Err(
                Error::BadConfig(prefixed(path, " is not a regular file")),
            ),
            PathProbe::Unreadable(why) => Err(Error::Io(why)),
            PathProbe::Regular { size, created, modified } => {
                let created_at = best_created(created, modified, now);
                Ok(self.submission(cfg, absolute_path(path, cwd), size, created_at))
            },
        }
    }

    /// What to register a file in the ledger with, under the settings in effect.
    fn submission(&self, cfg: &Config, name: String, size: u64, created_at: Timestamp) -> (s:
        Submission)
        requires
            cfg.valid(),
        ensures
            submission_of(s, self@, *cfg, name@, size, created_at),
            chunk_size_ok(s.chunk_size as usize),
    {
        Submission {
            name,
            size,
            created_at,
            images_per_dark: cfg.sender.images_per_dark,
            images_per_flat: cfg.sender.images_per_flat,
            images_per_bias: cfg.sender.images_per_bias,
            chunk_size: self.current_chunk_size(cfg) as u32,
        }
    }

    /// What to register a file that a scan found with.
    pub fn scanned(&self, cfg: &Config, found: &Candidate) -> (s: Submission)
        requires
            cfg.valid(),
        ensures
            submission_of(s, self@, *cfg, found.path@, found.size, found.created_at),
            chunk_size_ok(s.chunk_size as usize),
    {
        self.submission(cfg, found.path.clone(), found.size, found.created_at)
    }

    /// Queue a file that has been registered under `file_id`.
    pub fn registered(&mut self, file_id: i64, s: Submission, interrupt: bool) -> (ack: SubmitAck)
        requires
            chunk_size_ok(s.chunk_size as usize),
            old(self)@.queue.revision + 2 <= u64::MAX,
        ensures
            ({
                let total = chunks_at(s.chunk_size as usize, s.size);
                &&& ack == (SubmitAck { file_id, num_chunks: total, file_size: s.size })
                &&& final(self)@ == old(self)@.queued(
                    with_full_file(old(self)@.queue.items, file_id, s.name@, total, interrupt),
                    2,
                )
            }),
    {
        let total: u32 = chunks_for_size(s.size, s.chunk_size as usize - HEADER_LEN);
        self.push_full_file(file_id, s.name, total, interrupt);
        SubmitAck { file_id, num_chunks: total, file_size: s.size }
    }

    /// Resend just the manifest packet, given the ledger's record of the file.
    pub fn resend_name(&mut self, file_id: i64, record: Option<FileRecord>) -> (r: Result<(), Error>)
        requires
            record is Some ==> old(self)@.queue.revision < u64::MAX,
        ensures
            match record {
                None => r matches Err(e) && is_unknown_file(e, file_id) && final(self)@ == old(
                    self,
                )@,
                Some(rec) => {
                    &&& r is Ok
                    &&& final(self)@ == old(self)@.queued(
                        with_item(
                            old(self)@.queue.items,
                            (WorkItemView::Manifest {
                                file_id: rec.file_id,
                                file_name: rec.file_name@,
                            }),
                            true,
                        ),
                        1,
                    )
                },
            },
    {
        let rec = match record {
            Some(rec) => rec,
            None => return Err(unknown_file(file_id)),
        };
        self.push_item(
            WorkItem::Manifest { file_id: rec.file_id, file_name: rec.file_name },
            true,
        );
        Ok(())
    }
}

/// The chunks of a request from `start` on: at least one, and no more than there are.
pub open spec fn clamped(start: u32, count: u32, total: u32) -> RequestedRange {
    let wanted = if count < 1 {
        1
    } else {
        count as int
    };
    RequestedRange {
        start,
        count: (if wanted < total - start {
            wanted
        } else {
            total - start
        }) as u32,
    }
}

/// One packet to be sent: the item it is of, and how and where to send it.
#[derive(Debug)]
pub struct SendJob {
    /// The item whose next packet is due.
    pub item: WorkItem,
    /// The chunk size to cut the file at.
    pub chunk_size: usize,
    /// The destination address.
    pub ip: String,
    /// The destination port.
    pub port: u16,
}

/// What opening a job's file came to.
#[derive(Debug)]
pub enum Opened {
    /// The file can be sent.
    Ready(Chunker),
    /// The file has gone since it was registered; the ledger is to be told.
    Gone,
}

impl SendJob {
    /// The file whose record the ledger is to be asked for; none for a manifest, which carries the
    /// name itself.
    pub fn needs_record(&self) -> (id: Option<i64>)
        ensures
            id == if self.item@ is Manifest {
                None::<i64>
            } else {
                Some(self.item@.file())
            },
    {
        match &self.item {
            WorkItem::Manifest { .. } => None,
            WorkItem::Data { file_id, .. } => Some(*file_id),
            WorkItem::Retransmit { file_id, .. } => Some(*file_id),
        }
    }

    /// The path of the job's file, given the ledger's record where one is needed.
    pub fn file_path(&self, record: Option<FileRecord>) -> (r: Result<String, Error>)
        ensures
            match self.item@ {
                WorkItemView::Manifest { file_name, .. } => r matches Ok(p) && p@ == file_name,
                WorkItemView::Data { file_id, .. } | WorkItemView::Retransmit { file_id, .. } => {
                    match record {
                        Some(rec) => r matches Ok(p) && p@ == rec.file_name@,
                        None => r matches Err(e) && is_unknown_file(e, file_id),
                    }
                },
            },
    {
        match &self.item {
            WorkItem::Manifest { file_name, .. } => Ok(file_name.clone()),
            WorkItem::Data { file_id, .. } | WorkItem::Retransmit { file_id, .. } => match record {
                Some(rec) => Ok(rec.file_name),
                None => Err(unknown_file(*file_id)),
            },
        }
    }

    /// Opens the job's file, given what a look at it found. A file that has gone is an error for a
    /// manifest; for data the ledger is told.
    pub fn open(&self, path: &str, probe: FileProbe) -> (r: Result<Opened, Error>)
        ensures
            match r {
                Ok(Opened::Ready(c)) => {
                    &&& chunk_size_ok(self.chunk_size)
                    &&& probe matches FileProbe::Size(n)
                    &&& c@ == (ChunkerView {
                        file_size: n as nat,
                        file_id: self.item@.file(),
                        chunk_size: self.chunk_size,
                    })
                },
                Ok(Opened::Gone) => {
                    &&& chunk_size_ok(self.chunk_size)
                    &&& probe is NotFound
                    &&& !(self.item@ is Manifest)
                },
                Err(Error::NotFound(p)) => {
                    &&& chunk_size_ok(self.chunk_size)
                    &&& probe is NotFound
                    &&& self.item@ is Manifest
                    &&& p@ == path@
                },
                Err(Error::BadChunkSize(n)) => n == self.chunk_size && !chunk_size_ok(n),
                Err(Error::Io(e)) => {
                    &&& chunk_size_ok(self.chunk_size)
                    &&& probe matches FileProbe::Failed(why)
                    &&& e@ == why@
                },
                Err(_) => false,
            },
    {
        match Chunker::open(path, probe, self.item.file_id(), self.chunk_size) {
            Ok(c) => Ok(Opened::Ready(c)),
            Err(Error::NotFound(p)) => match &self.item {
                WorkItem::Manifest { .. } => Err(Error::NotFound(p)),
                WorkItem::Data { .. } | WorkItem::Retransmit { .. } => Ok(Opened::Gone),
            },
            Err(e) => Err(e),
        }
    }

    /// Which bytes of the file the packet needs: an offset and a length; nothing for a manifest.
    pub fn read_span(&self, c: &Chunker) -> (r: Result<(u64, usize), Error>)
        ensures
            match self.item@.chunks() {
                None => r == Ok::<(u64, usize), Error>((0, 0)),
                Some(range) => match r {
                    Ok(at) => {
                        &&& range.start < c@.num_chunks()
                        &&& at.0 == c@.offset(range.start as int)
                        &&& at.1 == c@.span(range.start as int)
                    },
                    Err(e) => range.start >= c@.num_chunks() && e == (Error::OutOfRange {
                        index: range.start,
                        total: c@.num_chunks(),
                    }),
                },
            },
    {
        match self.item.range() {
            None => Ok((0, 0)),
            Some(range) => c.chunk_span(range.start),
        }
    }

    /// The datagram to send, made of the bytes that were read where [`Self::read_span`] says.
    pub fn datagram(&self, path: &str, c: &Chunker, read: Vec<u8>) -> (r: Result<Vec<u8>, Error>)
        ensures
            match r {
                Ok(bytes) => match self.item@ {
                    WorkItemView::Manifest { .. } => bytes@ == datagram(c@.name_packet(path@)),
                    WorkItemView::Data { range, .. } => {
                        &&& range.start < c@.num_chunks()
                        &&& read@.len() == c@.span(range.start as int)
                        &&& bytes@ == datagram(c@.data_packet(range.start, read@))
                    },
                    WorkItemView::Retransmit { range, .. } => {
                        &&& range.start < c@.num_chunks()
                        &&& read@.len() == c@.span(range.start as int)
                        &&& bytes@ == datagram(
                            c@.as_retransmit(c@.data_packet(range.start, read@)),
                        )
                    },
                },
                Err(e) => {
                    &&& self.item@.chunks() matches Some(range)
                    &&& if range.start >= c@.num_chunks() {
                        e == (Error::OutOfRange { index: range.start, total: c@.num_chunks() })
                    } else {
                        &&& read@.len() != c@.span(range.start as int)
                        &&& e matches Error::Io(why)
                        &&& why@ == "failed to fill whole buffer"@
                    }
                },
            },
    {
        let packet = match &self.item {
            WorkItem::Manifest { .. } => Ok(c.manifest_packet(path)),
            WorkItem::Data { range, .. } => c.data_packet(range.start, read),
            WorkItem::Retransmit { range, .. } => c.retransmit_packet(range.start, read),
        };
        match packet {
            Ok(p) => Ok(p.encode()),
            Err(e) => Err(e),
        }
    }
}

/// What is left of an item once its next packet has been sent.
pub open spec fn rest_of(item: WorkItemView) -> Option<WorkItemView> {
    match item {
        WorkItemView::Manifest { .. } => None,
        WorkItemView::Data { file_id, range } => if range.count > 1 {
            Some(WorkItemView::Data { file_id, range: rest_of_range(range) })
        } else {
            None
        },
        WorkItemView::Retransmit { file_id, range } => if range.count > 1 {
            Some(WorkItemView::Retransmit { file_id, range: rest_of_range(range) })
        } else {
            None
        },
    }
}

/// A range without its first chunk.
pub open spec fn rest_of_range(range: RequestedRange) -> RequestedRange {
    RequestedRange { start: (range.start + 1) as u32, count: (range.count - 1) as u32 }
}

impl SenderRuntime {
    /// Take the next packet to send off the queue; none while paused or with nothing queued.
    pub fn begin_send(&mut self, cfg: &Config) -> (job: Option<SendJob>)
        requires
            cfg.valid(),
            !(old(self)@.state is Paused) && old(self)@.queue.items.len() > 0
                ==> old(self)@.queue.revision < u64::MAX,
        ensures
            match job {
                None => {
                    &&& old(self)@.state is Paused || old(self)@.queue.items.len() == 0
                    &&& final(self)@ == old(self)@
                },
                Some(job) => {
                    &&& !(old(self)@.state is Paused) && old(self)@.queue.items.len() > 0
                    &&& job.item@ == old(self)@.queue.items[0]
                    &&& job.chunk_size == old(self)@.effective_chunk_size(*cfg)
                    &&& chunk_size_ok(job.chunk_size)
                    &&& job.ip@ == old(self)@.effective_ip(*cfg)
                    &&& job.port == old(self)@.effective_port(*cfg)
                    &&& final(self)@ == (SenderView {
                        rate_kbps: old(self)@.effective_kbps(*cfg),
                        ..old(self)@.queued(old(self)@.queue.items.skip(1), 1)
                    })
                },
            },
    {
        match self.state {
            SenderState::Paused => return None,
            SenderState::Auto | SenderState::Manual | SenderState::Debug => {},
        }
        let item = match self.queue.pop_front() {
            Some(item) => item,
            None => return None,
        };
        let chunk_size: usize = self.current_chunk_size(cfg);
        let (_key, ip, port, kbps) = self.current_link(cfg);
        self.rate_kbps = kbps;
        Some(SendJob { item, chunk_size, ip, port })
    }

    /// Put what is left of a job's item back at the head of the queue, once its packet has been
    /// sent.
    pub fn sent(&mut self, job: &SendJob)
        requires
            rest_of(job.item@) is Some ==> old(self)@.queue.revision < u64::MAX,
            job.item@.chunks() matches Some(range) ==> range.start < u32::MAX || range.count <= 1,
        ensures
            final(self)@ == match rest_of(job.item@) {
                Some(rest) => old(self)@.queued(seq![rest] + old(self)@.queue.items, 1),
                None => old(self)@,
            },
    {
        match &job.item {
            WorkItem::Manifest { .. } => {},
            WorkItem::Data { file_id, range } => {
                if range.count > 1 {
                    let range = RequestedRange { start: range.start + 1, count: range.count - 1 };
                    self.push_item(WorkItem::Data { file_id: *file_id, range }, true);
                }
            },
            WorkItem::Retransmit { file_id, range } => {
                if range.count > 1 {
                    let range = RequestedRange { start: range.start + 1, count: range.count - 1 };
                    self.push_item(WorkItem::Retransmit { file_id: *file_id, range }, true);
                }
            },
        }
    }

    /// Whether it is time to look for work: in the automatic and debug states, when the last look
    /// is far enough back. A look is then taken to begin now.
    pub fn due_for_scan(&mut self, cfg: &Config, now: u64) -> (due: bool)
        ensures
            due == ((old(self)@.state is Auto || old(self)@.state is Debug) && whole_seconds(
                old(self)@.last_recheck,
                now as int,
            ) >= cfg.sender.recheck_period_secs),
            final(self)@ == if due {
                SenderView { last_recheck: now as int, ..old(self)@ }
            } else {
                old(self)@
            },
    {
        match self.state {
            SenderState::Auto | SenderState::Debug => {},
            SenderState::Manual | SenderState::Paused => return false,
        }
        let shifted: u128 = now as u128 + HEAD_START_NANOS as u128;
        let elapsed: u128 = if shifted <= self.last_recheck {
            0
        } else {
            (shifted - self.last_recheck) / 1_000_000_000
        };
        if elapsed >= cfg.sender.recheck_period_secs as u128 {
            self.last_recheck = shifted;
            true
        } else {
            false
        }
    }

    /// Whether it is time to dump the ledger: when the last dump is far enough back. A dump is
    /// then taken to begin now.
    pub fn due_for_dump(&mut self, cfg: &Config, now: u64) -> (due: bool)
        ensures
            due == (whole_seconds(old(self)@.last_status_dump, now as int)
                >= cfg.sender.status_dump_period_secs),
            final(self)@ == if due {
                SenderView { last_status_dump: now as int, ..old(self)@ }
            } else {
                old(self)@
            },
    {
        let elapsed: u64 = if now <= self.last_status_dump {
            0
        } else {
            (now - self.last_status_dump) / 1_000_000_000
        };
        if elapsed >= cfg.sender.status_dump_period_secs {
            self.last_status_dump = now;
            true
        } else {
            false
        }
    }

    /// The directories to look for work in: in the debug state a list of their own, so that tests
    /// do not drain the live queue.
    pub fn scan_dirs<'a>(&self, cfg: &'a Config) -> (dirs: &'a Vec<String>)
        ensures
            *dirs == if self@.state is Debug {
                cfg.sender.priority_dirs_debug
            } else {
                cfg.sender.priority_dirs
            },
    {
        match self.state {
            SenderState::Debug => &cfg.sender.priority_dirs_debug,
            SenderState::Auto | SenderState::Manual | SenderState::Paused => {
                &cfg.sender.priority_dirs
            },
        }
    }
}

/// The directory that ledger dumps go to: one under the first priority directory.
pub open spec fn dump_dir(cfg: Config) -> Seq<char> {
    if cfg.sender.priority_dirs@.len() > 0 {
        path_under(cfg.sender.priority_dirs@[0]@, "status_dumps"@)
    } else {
        "/tmp/parachuter"@
    }
}

/// Where the ledger is dumped to at an instant (in seconds since the epoch): the directory and the
/// file.
pub fn status_dump_path(cfg: &Config, now_secs: i64) -> (path: (String, String))
    ensures
        path.0@ == dump_dir(*cfg),
        path.1@ == path_under(
            dump_dir(*cfg),
            "files_sent_list_"@ + decimal_int(now_secs as int) + ".csv"@,
        ),
{
    let dir = if cfg.sender.priority_dirs.len() > 0 {
        path_join(cfg.sender.priority_dirs[0].as_str(), "status_dumps")
    } else {
        "/tmp/parachuter".to_owned()
    };
    let mut name = prefixed("files_sent_list_", decimal_i64(now_secs).as_str());
    name.append(".csv");
    let file = path_join(dir.as_str(), name.as_str());
    (dir, file)
}

} // verus!
