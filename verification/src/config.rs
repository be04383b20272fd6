//! Runtime configuration.
//!
//! The configuration file is the durable record and the control socket the live override. What a
//! file says arrives here as the fields that it sets; every field that it leaves out has its
//! default. A configuration that is in force is always valid.

use std::sync::Arc;

use vstd::prelude::*;

use crate::chunker::{chunk_size_accepted, chunk_size_ok};
use crate::error::Error;
use crate::names::{before, has_name, law_lookup_finds_the_entry, law_name_order, NameMap};
use crate::proto::{DEFAULT_CHUNK_SIZE, MAX_CHUNK_SIZE, MIN_CHUNK_SIZE};

verus! {

/// One named link, e.g. `pilot`, `los`, `tdrss`, `starlink`.
#[derive(Debug, Clone)]
pub struct Link {
    /// Destination IP address packets are sent to.
    pub ip: String,
    /// UDP port packets are sent to.
    pub port: u16,
    /// Maximum sustained throughput in kilobits per second.
    pub max_kbps: u64,
    /// Optional comment describing the link.
    pub note: Option<String>,
}

/// Bandwidth budget for one uplink.
#[derive(Debug, Clone, Copy, PartialEq, Eq, Structural)]
pub struct LinkBudget {
    /// Max unacknowledged requests at any time.
    pub max_in_flight: u32,
    /// Minimum spacing between requests (milliseconds).
    pub min_period_ms: u64,
}

/// Sender control states.
#[derive(Debug, Copy, Clone, Eq, PartialEq, Structural)]
pub enum SenderState {
    /// Sender pulls work from the priority directories and ships continuously.
    Auto,
    /// Sender only sends what is explicitly requested.
    Manual,
    /// Sender sends nothing; useful while the link is down.
    Paused,
    /// Sender pulls work from the debug priority directories only.
    Debug,
}

/// Top-level configuration shared by every daemon.
#[derive(Debug, Clone)]
pub struct Config {
    /// Sender-specific configuration.
    pub sender: SenderConfig,
    /// Receiver-specific configuration.
    pub receiver: ReceiverConfig,
    /// Cleaner-specific configuration.
    pub cleaner: CleanerConfig,
    /// Named links indexed by short name.
    pub links: NameMap<Link>,
}

/// Configuration consumed by the sender.
#[derive(Debug, Clone)]
pub struct SenderConfig {
    /// IP the sender binds for outbound packets.
    pub bind_ip: String,
    /// Source port for outbound datagrams.
    pub bind_port: u16,
    /// Datagram size including the 32-byte header.
    pub chunk_size: usize,
    /// Active link key (must exist in `[links]`).
    pub active_link: String,
    /// Where the SQLite ledger lives.
    pub ledger_path: String,
    /// File-priority hierarchy used in `Auto` (and as a fallback elsewhere).
    pub priority_dirs: Vec<String>,
    /// File-priority hierarchy walked when the sender is in `Debug` state. If empty, no
    /// auto-discovery happens in debug mode (manual `submit` / `enqueue` still work).
    pub priority_dirs_debug: Vec<String>,
    /// Whitelist of file extensions the auto-scanner is allowed to pick up; empty means no
    /// restriction.
    pub include_extensions: Vec<String>,
    /// Blacklist of file extensions the auto-scanner must skip. It wins over the whitelist.
    pub skip_extensions: Vec<String>,
    /// Path to the Unix domain socket the sender exposes for control.
    pub control_socket: String,
    /// Initial state.
    pub initial_state: SenderState,
    /// Calibration counter.
    pub images_per_dark: u32,
    /// Calibration counter.
    pub images_per_flat: u32,
    /// Calibration counter.
    pub images_per_bias: u32,
    /// How often to poll the priority directories when the queue is empty.
    pub recheck_period_secs: u64,
    /// How often to dump the ledger as a CSV to ground.
    pub status_dump_period_secs: u64,
}

/// Configuration consumed by the receiver.
#[derive(Debug, Clone)]
pub struct ReceiverConfig {
    /// IP the receiver binds to.
    pub bind_ip: String,
    /// UDP port to bind.
    pub bind_port: u16,
    /// Holding directory for in-flight assemblies.
    pub holding_dir: String,
    /// Final destination for completed files.
    pub final_dir: String,
    /// Where to put filenames matching `files_sent_*.csv*`.
    pub csv_dir: String,
    /// Path to the Unix domain socket the receiver exposes for control.
    pub control_socket: String,
}

/// Configuration consumed by the cleaner.
#[derive(Debug, Clone)]
pub struct CleanerConfig {
    /// Holding directory for in-flight assemblies (must match the receiver).
    pub holding_dir: String,
    /// Final directory.
    pub final_dir: String,
    /// CSV directory.
    pub csv_dir: String,
    /// Path to the sender's control socket, which tells what is queued already.
    pub sender_control_socket: String,
    /// Per-link concurrency limits.
    pub links: NameMap<LinkBudget>,
    /// Active link key.
    pub active_link: String,
    /// Where the TTL dedup table is written.
    pub state_path: String,
    /// How often the cleaner main loop runs.
    pub run_period_secs: u64,
    /// How often the checker reconciles ledger CSVs against the final dir.
    pub checker_period_secs: u64,
    /// How long an in-flight request stays in the dedup cache, in seconds.
    pub dedup_ttl_secs: u64,
    /// Path to the cleaner's own control socket.
    pub control_socket: String,
}

/// The fields of a [`SenderConfig`] that a file sets.
#[derive(Debug, Clone)]
pub struct SenderFields {
    pub bind_ip: Option<String>,
    pub bind_port: Option<u16>,
    pub chunk_size: Option<usize>,
    pub active_link: Option<String>,
    pub ledger_path: Option<String>,
    pub priority_dirs: Option<Vec<String>>,
    pub priority_dirs_debug: Option<Vec<String>>,
    pub include_extensions: Option<Vec<String>>,
    pub skip_extensions: Option<Vec<String>>,
    pub control_socket: Option<String>,
    pub initial_state: Option<SenderState>,
    pub images_per_dark: Option<u32>,
    pub images_per_flat: Option<u32>,
    pub images_per_bias: Option<u32>,
    pub recheck_period_secs: Option<u64>,
    pub status_dump_period_secs: Option<u64>,
}

impl Default for SenderFields {
    /// No field is set.
    fn default() -> (f: SenderFields)
        ensures
            f.bind_ip is None,
            f.bind_port is None,
            f.chunk_size is None,
            f.active_link is None,
            f.ledger_path is None,
            f.priority_dirs is None,
            f.priority_dirs_debug is None,
            f.include_extensions is None,
            f.skip_extensions is None,
            f.control_socket is None,
            f.initial_state is None,
            f.images_per_dark is None,
            f.images_per_flat is None,
            f.images_per_bias is None,
            f.recheck_period_secs is None,
            f.status_dump_period_secs is None,
    {
        SenderFields {
            bind_ip: None,
            bind_port: None,
            chunk_size: None,
            active_link: None,
            ledger_path: None,
            priority_dirs: None,
            priority_dirs_debug: None,
            include_extensions: None,
            skip_extensions: None,
            control_socket: None,
            initial_state: None,
            images_per_dark: None,
            images_per_flat: None,
            images_per_bias: None,
            recheck_period_secs: None,
            status_dump_period_secs: None,
        }
    }
}

/// The fields of a [`ReceiverConfig`] that a file sets.
#[derive(Debug, Clone)]
pub struct ReceiverFields {
    pub bind_ip: Option<String>,
    pub bind_port: Option<u16>,
    pub holding_dir: Option<String>,
    pub final_dir: Option<String>,
    pub csv_dir: Option<String>,
    pub control_socket: Option<String>,
}

impl Default for ReceiverFields {
    /// No field is set.
    fn default() -> (f: ReceiverFields)
        ensures
            f.bind_ip is None,
            f.bind_port is None,
            f.holding_dir is None,
            f.final_dir is None,
            f.csv_dir is None,
            f.control_socket is None,
    {
        ReceiverFields {
            bind_ip: None,
            bind_port: None,
            holding_dir: None,
            final_dir: None,
            csv_dir: None,
            control_socket: None,
        }
    }
}

/// The fields of a [`CleanerConfig`] that a file sets.
#[derive(Debug, Clone)]
pub struct CleanerFields {
    pub holding_dir: Option<String>,
    pub final_dir: Option<String>,
    pub csv_dir: Option<String>,
    pub sender_control_socket: Option<String>,
    pub links: Option<NameMap<LinkBudget>>,
    pub active_link: Option<String>,
    pub state_path: Option<String>,
    pub run_period_secs: Option<u64>,
    pub checker_period_secs: Option<u64>,
    pub dedup_ttl_secs: Option<u64>,
    pub control_socket: Option<String>,
}

impl Default for CleanerFields {
    /// No field is set.
    fn default() -> (f: CleanerFields)
        ensures
            f.holding_dir is None,
            f.final_dir is None,
            f.csv_dir is None,
            f.sender_control_socket is None,
            f.links is None,
            f.active_link is None,
            f.state_path is None,
            f.run_period_secs is None,
            f.checker_period_secs is None,
            f.dedup_ttl_secs is None,
            f.control_socket is None,
    {
        CleanerFields {
            holding_dir: None,
            final_dir: None,
            csv_dir: None,
            sender_control_socket: None,
            links: None,
            active_link: None,
            state_path: None,
            run_period_secs: None,
            checker_period_secs: None,
            dedup_ttl_secs: None,
            control_socket: None,
        }
    }
}

/// The fields of a [`Config`] that a file sets. A table of links that a file sets is taken whole.
#[derive(Debug, Clone)]
pub struct ConfigFields {
    pub sender: SenderFields,
    pub receiver: ReceiverFields,
    pub cleaner: CleanerFields,
    pub links: Option<NameMap<Link>>,
}

/// What reading a configuration file gave.
#[derive(Debug, Clone)]
pub enum ConfigRead {
    /// There is no such file.
    NotFound,
    /// The file could not be read, for the reason given.
    Failed(String),
    /// The file is no well-formed TOML configuration, for the reason given.
    Malformed(String),
    /// The fields that the file sets.
    Fields(ConfigFields),
}

/// A text that was set, or its default.
pub open spec fn text_or(set: Option<String>, default: Seq<char>) -> Seq<char> {
    match set {
        Some(s) => s@,
        None => default,
    }
}

/// A number or another plain value that was set, or its default.
pub open spec fn plain_or<T>(set: Option<T>, default: T) -> T {
    match set {
        Some(v) => v,
        None => default,
    }
}

/// The texts of a list.
pub open spec fn texts(list: Seq<String>) -> Seq<Seq<char>> {
    list.map_values(|s: String| s@)
}

/// A list of texts that was set, or its default.
pub open spec fn texts_or(set: Option<Vec<String>>, default: Seq<Seq<char>>) -> Seq<Seq<char>> {
    match set {
        Some(list) => texts(list@),
        None => default,
    }
}

/// Whether a link has the given address, cap and note.
pub open spec fn link_is(
    link: Link,
    ip: Seq<char>,
    port: u16,
    max_kbps: u64,
    note: Seq<char>,
) -> bool {
    &&& link.ip@ == ip
    &&& link.port == port
    &&& link.max_kbps == max_kbps
    &&& link.note matches Some(n) && n@ == note
}

/// Whether a table holds the default links.
pub open spec fn are_default_links(links: Seq<(Seq<char>, Link)>) -> bool {
    &&& links.len() == 3
    &&& links[0].0 == "los"@
    &&& link_is(links[0].1, "239.255.0.1"@, 41410, 250, "LOS multicast"@)
    &&& links[1].0 == "pilot"@
    &&& link_is(links[1].1, "192.168.98.24"@, 41410, 1000, "Pilot link"@)
    &&& links[2].0 == "tdrss"@
    &&& link_is(links[2].1, "239.255.0.2"@, 41410, 30, "TDRSS multicast"@)
}

/// The default budgets: the same for each of the default links.
pub open spec fn default_budgets() -> Seq<(Seq<char>, LinkBudget)> {
    let budget = LinkBudget { max_in_flight: 8, min_period_ms: 500 };
    seq![("los"@, budget), ("pilot"@, budget), ("tdrss"@, budget)]
}

/// Whether a sender configuration is the default one with the given fields set.
pub open spec fn sender_filled(f: SenderFields, c: SenderConfig) -> bool {
    &&& c.bind_ip@ == text_or(f.bind_ip, "0.0.0.0"@)
    &&& c.bind_port == plain_or(f.bind_port, 34646)
    &&& c.chunk_size == plain_or(f.chunk_size, DEFAULT_CHUNK_SIZE)
    &&& c.active_link@ == text_or(f.active_link, "pilot"@)
    &&& c.ledger_path@ == text_or(f.ledger_path, "/var/lib/parachuter/ledger.sqlite"@)
    &&& texts(c.priority_dirs@) == texts_or(f.priority_dirs, seq!["/data/parachuter/queue"@])
    &&& texts(c.priority_dirs_debug@) == texts_or(f.priority_dirs_debug, Seq::empty())
    &&& texts(c.include_extensions@) == texts_or(f.include_extensions, Seq::empty())
    &&& texts(c.skip_extensions@) == texts_or(f.skip_extensions, Seq::empty())
    &&& c.control_socket@ == text_or(f.control_socket, "/run/parachuter/sender.sock"@)
    &&& c.initial_state == plain_or(f.initial_state, SenderState::Auto)
    &&& c.images_per_dark == plain_or(f.images_per_dark, 0)
    &&& c.images_per_flat == plain_or(f.images_per_flat, 0)
    &&& c.images_per_bias == plain_or(f.images_per_bias, 0)
    &&& c.recheck_period_secs == plain_or(f.recheck_period_secs, 100)
    &&& c.status_dump_period_secs == plain_or(f.status_dump_period_secs, 21_600)
}

/// Whether a receiver configuration is the default one with the given fields set.
pub open spec fn receiver_filled(f: ReceiverFields, c: ReceiverConfig) -> bool {
    &&& c.bind_ip@ == text_or(f.bind_ip, "0.0.0.0"@)
    &&& c.bind_port == plain_or(f.bind_port, 41410)
    &&& c.holding_dir@ == text_or(f.holding_dir, "/var/lib/parachuter/holding"@)
    &&& c.final_dir@ == text_or(f.final_dir, "/var/lib/parachuter/downloads"@)
    &&& c.csv_dir@ == text_or(f.csv_dir, "/var/lib/parachuter/csv"@)
    &&& c.control_socket@ == text_or(f.control_socket, "/run/parachuter/receiver.sock"@)
}

/// Whether a cleaner configuration is the default one with the given fields set. The holding
/// directory is by default the receiver's, which it must match.
pub open spec fn cleaner_filled(
    f: CleanerFields,
    receiver_holding: Seq<char>,
    c: CleanerConfig,
) -> bool {
    &&& c.holding_dir@ == text_or(f.holding_dir, receiver_holding)
    &&& c.final_dir@ == text_or(f.final_dir, "/var/lib/parachuter/downloads"@)
    &&& c.csv_dir@ == text_or(f.csv_dir, "/var/lib/parachuter/csv"@)
    &&& c.sender_control_socket@ == text_or(f.sender_control_socket, "/run/parachuter/sender.sock"@)
    &&& match f.links {
        Some(m) => c.links == m,
        None => c.links@ == default_budgets(),
    }
    &&& c.active_link@ == text_or(f.active_link, "pilot"@)
    &&& c.state_path@ == text_or(f.state_path, "/var/lib/parachuter/cleaner-state.json"@)
    &&& c.run_period_secs == plain_or(f.run_period_secs, 60)
    &&& c.checker_period_secs == plain_or(f.checker_period_secs, 7_200)
    &&& c.dedup_ttl_secs == plain_or(f.dedup_ttl_secs, 300)
    &&& c.control_socket@ == text_or(f.control_socket, "/run/parachuter/cleaner.sock"@)
}

/// Whether a configuration is the default one with the given fields set.
pub open spec fn filled(f: ConfigFields, c: Config) -> bool {
    &&& sender_filled(f.sender, c.sender)
    &&& receiver_filled(f.receiver, c.receiver)
    &&& cleaner_filled(f.cleaner, c.receiver.holding_dir@, c.cleaner)
    &&& match f.links {
        Some(m) => c.links == m,
        None => are_default_links(c.links@),
    }
}

/// Whether no field is set.
pub open spec fn nothing_set(f: ConfigFields) -> bool {
    &&& f.sender.bind_ip is None
    &&& f.sender.bind_port is None
    &&& f.sender.chunk_size is None
    &&& f.sender.active_link is None
    &&& f.sender.ledger_path is None
    &&& f.sender.priority_dirs is None
    &&& f.sender.priority_dirs_debug is None
    &&& f.sender.include_extensions is None
    &&& f.sender.skip_extensions is None
    &&& f.sender.control_socket is None
    &&& f.sender.initial_state is None
    &&& f.sender.images_per_dark is None
    &&& f.sender.images_per_flat is None
    &&& f.sender.images_per_bias is None
    &&& f.sender.recheck_period_secs is None
    &&& f.sender.status_dump_period_secs is None
    &&& f.receiver.bind_ip is None
    &&& f.receiver.bind_port is None
    &&& f.receiver.holding_dir is None
    &&& f.receiver.final_dir is None
    &&& f.receiver.csv_dir is None
    &&& f.receiver.control_socket is None
    &&& f.cleaner.holding_dir is None
    &&& f.cleaner.final_dir is None
    &&& f.cleaner.csv_dir is None
    &&& f.cleaner.sender_control_socket is None
    &&& f.cleaner.links is None
    &&& f.cleaner.active_link is None
    &&& f.cleaner.state_path is None
    &&& f.cleaner.run_period_secs is None
    &&& f.cleaner.checker_period_secs is None
    &&& f.cleaner.dedup_ttl_secs is None
    &&& f.cleaner.control_socket is None
    &&& f.links is None
}

impl Default for ConfigFields {
    /// No field is set.
    fn default() -> (f: ConfigFields)
        ensures
            nothing_set(f),
    {
        ConfigFields {
            sender: SenderFields::default(),
            receiver: ReceiverFields::default(),
            cleaner: CleanerFields::default(),
            links: None,
        }
    }
}

/// A text that was set, or its default.
fn set_text(set: Option<String>, default: &str) -> (text: String)
    ensures
        text@ == text_or(set, default@),
{
    match set {
        Some(s) => s,
        None => default.to_owned(),
    }
}

/// A plain value that was set, or its default.
fn set_plain<T>(set: Option<T>, default: T) -> (value: T)
    ensures
        value == plain_or(set, default),
{
    match set {
        Some(v) => v,
        None => default,
    }
}

/// A list that was set, or an empty one.
fn set_list(set: Option<Vec<String>>) -> (list: Vec<String>)
    ensures
        texts(list@) == texts_or(set, Seq::empty()),
{
    match set {
        Some(list) => list,
        None => {
            let list: Vec<String> = Vec::new();
            assert(texts(list@) =~= Seq::empty());
            list
        },
    }
}

/// A list that was set, or one with a single default.
fn set_list_or(set: Option<Vec<String>>, default: &str) -> (list: Vec<String>)
    ensures
        texts(list@) == texts_or(set, seq![default@]),
{
    match set {
        Some(list) => list,
        None => {
            let mut list: Vec<String> = Vec::new();
            list.push(default.to_owned());
            assert(texts(list@) =~= seq![default@]);
            list
        },
    }
}

/// A link with a note.
fn noted_link(ip: &str, port: u16, max_kbps: u64, note: &str) -> (link: Link)
    ensures
        link_is(link, ip@, port, max_kbps, note@),
{
    Link { ip: ip.to_owned(), port, max_kbps, note: Some(note.to_owned()) }
}

/// The names of the default links are in order.
proof fn lemma_default_names()
    ensures
        before("los"@, "pilot"@),
        before("pilot"@, "tdrss"@),
        before("los"@, "tdrss"@),
        "los"@ != "pilot"@,
        "pilot"@ != "tdrss"@,
        "los"@ != "tdrss"@,
{
    reveal_strlit("los");
    reveal_strlit("pilot");
    reveal_strlit("tdrss");
    assert("los"@[0] == 'l' && "pilot"@[0] == 'p' && "tdrss"@[0] == 't');
}

/// Puts a value under the default names.
fn under_default_names<V>(los: V, pilot: V, tdrss: V) -> (m: NameMap<V>)
    ensures
        m@ == seq![("los"@, los), ("pilot"@, pilot), ("tdrss"@, tdrss)],
{
    let mut m: NameMap<V> = NameMap::new();
    m.insert("los".to_owned(), los);
    assert(m@ =~= seq![("los"@, los)]);
    proof {
        lemma_default_names();
        law_name_order("los"@, "pilot"@, "los"@);
        law_name_order("los"@, "tdrss"@, "los"@);
        law_name_order("pilot"@, "tdrss"@, "pilot"@);
    }
    m.insert("pilot".to_owned(), pilot);
    proof {
        let two = m@;
        assert(two.len() == 2);
        assert(before(two[0].0, two[1].0));
        assert(two =~= seq![("los"@, los), ("pilot"@, pilot)]);
    }
    m.insert("tdrss".to_owned(), tdrss);
    proof {
        let three = m@;
        assert(three.len() == 3);
        assert(before(three[0].0, three[1].0));
        assert(before(three[1].0, three[2].0));
        assert(three =~= seq![("los"@, los), ("pilot"@, pilot), ("tdrss"@, tdrss)]);
    }
    m
}

/// The default links.
fn default_links() -> (m: NameMap<Link>)
    ensures
        are_default_links(m@),
{
    under_default_names(
        noted_link("239.255.0.1", 41410, 250, "LOS multicast"),
        noted_link("192.168.98.24", 41410, 1000, "Pilot link"),
        noted_link("239.255.0.2", 41410, 30, "TDRSS multicast"),
    )
}

/// The default sender configuration with the given fields set.
fn fill_sender(f: SenderFields) -> (c: SenderConfig)
    ensures
        sender_filled(f, c),
{
    SenderConfig {
        bind_ip: set_text(f.bind_ip, "0.0.0.0"),
        bind_port: set_plain(f.bind_port, 34646),
        chunk_size: set_plain(f.chunk_size, DEFAULT_CHUNK_SIZE),
        active_link: set_text(f.active_link, "pilot"),
        ledger_path: set_text(f.ledger_path, "/var/lib/parachuter/ledger.sqlite"),
        priority_dirs: set_list_or(f.priority_dirs, "/data/parachuter/queue"),
        priority_dirs_debug: set_list(f.priority_dirs_debug),
        include_extensions: set_list(f.include_extensions),
        skip_extensions: set_list(f.skip_extensions),
        control_socket: set_text(f.control_socket, "/run/parachuter/sender.sock"),
        initial_state: set_plain(f.initial_state, SenderState::Auto),
        images_per_dark: set_plain(f.images_per_dark, 0),
        images_per_flat: set_plain(f.images_per_flat, 0),
        images_per_bias: set_plain(f.images_per_bias, 0),
        recheck_period_secs: set_plain(f.recheck_period_secs, 100),
        status_dump_period_secs: set_plain(f.status_dump_period_secs, 21_600),
    }
}

/// The default receiver configuration with the given fields set.
fn fill_receiver(f: ReceiverFields) -> (c: ReceiverConfig)
    ensures
        receiver_filled(f, c),
{
    ReceiverConfig {
        bind_ip: set_text(f.bind_ip, "0.0.0.0"),
        bind_port: set_plain(f.bind_port, 41410),
        holding_dir: set_text(f.holding_dir, "/var/lib/parachuter/holding"),
        final_dir: set_text(f.final_dir, "/var/lib/parachuter/downloads"),
        csv_dir: set_text(f.csv_dir, "/var/lib/parachuter/csv"),
        control_socket: set_text(f.control_socket, "/run/parachuter/receiver.sock"),
    }
}

/// The default cleaner configuration with the given fields set.
fn fill_cleaner(f: CleanerFields, receiver_holding: &str) -> (c: CleanerConfig)
    ensures
        cleaner_filled(f, receiver_holding@, c),
{
    let links = match f.links {
        Some(m) => m,
        None => {
            let budget = LinkBudget { max_in_flight: 8, min_period_ms: 500 };
            under_default_names(budget, budget, budget)
        },
    };
    CleanerConfig {
        holding_dir: set_text(f.holding_dir, receiver_holding),
        final_dir: set_text(f.final_dir, "/var/lib/parachuter/downloads"),
        csv_dir: set_text(f.csv_dir, "/var/lib/parachuter/csv"),
        sender_control_socket: set_text(f.sender_control_socket, "/run/parachuter/sender.sock"),
        links,
        active_link: set_text(f.active_link, "pilot"),
        state_path: set_text(f.state_path, "/var/lib/parachuter/cleaner-state.json"),
        run_period_secs: set_plain(f.run_period_secs, 60),
        checker_period_secs: set_plain(f.checker_period_secs, 7_200),
        dedup_ttl_secs: set_plain(f.dedup_ttl_secs, 300),
        control_socket: set_text(f.control_socket, "/run/parachuter/cleaner.sock"),
    }
}

impl Default for Config {
    /// The configuration of a file that sets nothing.
    fn default() -> (c: Config)
        ensures
            exists|f: ConfigFields| nothing_set(f) && #[trigger] filled(f, c),
            c.valid(),
    {
        let f = ConfigFields::default();
        let ghost fields = f;
        let c = Config::augmented(f);
        proof {
            assert(filled(fields, c));
            lemma_default_is_valid(fields, c);
        }
        c
    }
}

/// The default configuration is valid.
proof fn lemma_default_is_valid(f: ConfigFields, c: Config)
    requires
        nothing_set(f),
        filled(f, c),
    ensures
        c.valid(),
{
    assert(c.links@[1].0 == c.sender.active_link@);
    assert(default_budgets()[1].0 == "pilot"@);
    assert(c.cleaner.links@[1].0 == c.cleaner.active_link@);
}

/// Whether an error is what is wrong with a configuration. The checks are made in this order.
pub open spec fn config_fault(c: Config, e: Error) -> bool {
    let link = has_name(c.links@, c.sender.active_link@);
    let budget = has_name(c.cleaner.links@, c.cleaner.active_link@);
    match e {
        Error::BadConfig(why) => {
            ||| !link && why@ == "sender.active_link `"@ + c.sender.active_link@
                + "` not declared in [links]"@
            ||| link && !budget && why@ == "cleaner.active_link `"@ + c.cleaner.active_link@
                + "` has no budget in [cleaner.links]"@
        },
        Error::BadChunkSize(n) => link && budget && !chunk_size_ok(c.sender.chunk_size) && n
            == c.sender.chunk_size,
        _ => false,
    }
}

impl Config {
    /// Cross-field invariants: the links in use are declared and the chunk size is accepted.
    pub open spec fn valid(self) -> bool {
        &&& has_name(self.links@, self.sender.active_link@)
        &&& has_name(self.cleaner.links@, self.cleaner.active_link@)
        &&& chunk_size_ok(self.sender.chunk_size)
    }

    /// The default configuration with the given fields set.
    pub fn augmented(f: ConfigFields) -> (c: Config)
        ensures
            filled(f, c),
    {
        let links = match f.links {
            Some(m) => m,
            None => default_links(),
        };
        let receiver = fill_receiver(f.receiver);
        let cleaner = fill_cleaner(f.cleaner, receiver.holding_dir.as_str());
        Config { sender: fill_sender(f.sender), receiver, cleaner, links }
    }

    /// The configuration that a file holds: the default one, augmented with whatever the file
    /// sets.
    pub fn load(path: &str, read: ConfigRead) -> (r: Result<Config, Error>)
        ensures
            match r {
                Ok(c) => read matches ConfigRead::Fields(f) && filled(f, c) && c.valid(),
                Err(e) => match read {
                    ConfigRead::NotFound => e matches Error::NotFound(p) && p@ == path@,
                    ConfigRead::Failed(why) => e matches Error::Io(w) && w@ == why@,
                    ConfigRead::Malformed(why) => e matches Error::Toml(w) && w@ == why@,
                    ConfigRead::Fields(f) => exists|c: Config|
                        #![trigger filled(f, c)]
                        filled(f, c) && !c.valid() && config_fault(c, e),
                },
            },
    {
        match read {
            ConfigRead::NotFound => Err(Error::NotFound(path.to_owned())),
            ConfigRead::Failed(why) => Err(Error::Io(why)),
            ConfigRead::Malformed(why) => Err(Error::Toml(why)),
            ConfigRead::Fields(f) => {
                let c = Config::augmented(f);
                assert(filled(f, c));
                match c.validate() {
                    Ok(()) => Ok(c),
                    Err(e) => Err(e),
                }
            },
        }
    }

    /// Validate cross-field invariants the type system can't express.
    pub fn validate(&self) -> (r: Result<(), Error>)
        ensures
            match r {
                Ok(()) => self.valid(),
                Err(e) => !self.valid() && config_fault(*self, e),
            },
    {
        if !self.links.contains_key(self.sender.active_link.as_str()) {
            let mut why = "sender.active_link `".to_owned();
            why.append(self.sender.active_link.as_str());
            why.append("` not declared in [links]");
            return Err(Error::BadConfig(why));
        }
        if !self.cleaner.links.contains_key(self.cleaner.active_link.as_str()) {
            let mut why = "cleaner.active_link `".to_owned();
            why.append(self.cleaner.active_link.as_str());
            why.append("` has no budget in [cleaner.links]");
            return Err(Error::BadConfig(why));
        }
        if !chunk_size_accepted(self.sender.chunk_size) {
            return Err(Error::BadChunkSize(self.sender.chunk_size));
        }
        Ok(())
    }
}

/// Handle that holds the configuration that is in force, swapped whenever the file changes on
/// disk or an override arrives. It is always valid. What holds of it is said of one handle: those
/// who share it keep it behind a lock, and see each change through that.
#[derive(Debug)]
pub struct LiveConfig {
    inner: Arc<Config>,
    path: String,
}

impl LiveConfig {
    /// Only a valid configuration is in force.
    #[verifier::type_invariant]
    closed spec fn in_force(self) -> bool {
        self.inner.valid()
    }

    /// The configuration that is in force.
    pub closed spec fn config(self) -> Config {
        *self.inner
    }

    /// The file that backs it.
    pub closed spec fn file(self) -> Seq<char> {
        self.path@
    }

    /// A handle on the configuration that a file holds.
    pub fn load(path: &str, read: ConfigRead) -> (r: Result<LiveConfig, Error>)
        ensures
            match r {
                Ok(live) => {
                    &&& read matches ConfigRead::Fields(f)
                    &&& filled(f, live.config())
                    &&& live.config().valid()
                    &&& live.file() == path@
                },
                Err(e) => match read {
                    ConfigRead::NotFound => e matches Error::NotFound(p) && p@ == path@,
                    ConfigRead::Failed(why) => e matches Error::Io(w) && w@ == why@,
                    ConfigRead::Malformed(why) => e matches Error::Toml(w) && w@ == why@,
                    ConfigRead::Fields(f) => exists|c: Config|
                        #![trigger filled(f, c)]
                        filled(f, c) && !c.valid() && config_fault(c, e),
                },
            },
    {
        match Config::load(path, read) {
            Ok(c) => Ok(LiveConfig { inner: Arc::new(c), path: path.to_owned() }),
            Err(e) => Err(e),
        }
    }

    /// Cheap snapshot of the current configuration. It is stable even if the file is reloaded
    /// meanwhile.
    pub fn current(&self) -> (c: Arc<Config>)
        ensures
            *c == self.config(),
            c.valid(),
    {
        proof {
            use_type_invariant(self);
        }
        self.inner.clone()
    }

    /// Replace the live configuration in memory, without rewriting the file. An invalid one is
    /// refused and changes nothing.
    pub fn override_with(&mut self, new: Config) -> (r: Result<(), Error>)
        ensures
            final(self).file() == old(self).file(),
            match r {
                Ok(()) => new.valid() && final(self).config() == new,
                Err(e) => {
                    &&& !new.valid()
                    &&& config_fault(new, e)
                    &&& final(self).config() == old(self).config()
                },
            },
    {
        match new.validate() {
            Ok(()) => {
                self.inner = Arc::new(new);
                Ok(())
            },
            Err(e) => Err(e),
        }
    }

    /// Take over what the file holds after a change. A file that cannot be used is reported and
    /// changes nothing.
    pub fn reload(&mut self, read: ConfigRead) -> (r: Result<(), Error>)
        ensures
            final(self).file() == old(self).file(),
            final(self).config().valid(),
            match r {
                Ok(()) => read matches ConfigRead::Fields(f) && filled(f, final(self).config()),
                Err(e) => {
                    &&& final(self).config() == old(self).config()
                    &&& match read {
                        ConfigRead::NotFound => e matches Error::NotFound(p) && p@ == old(
                            self,
                        ).file(),
                        ConfigRead::Failed(why) => e matches Error::Io(w) && w@ == why@,
                        ConfigRead::Malformed(why) => e matches Error::Toml(w) && w@ == why@,
                        ConfigRead::Fields(f) => exists|c: Config|
                            #![trigger filled(f, c)]
                            filled(f, c) && !c.valid() && config_fault(c, e),
                    }
                },
            },
    {
        proof {
            use_type_invariant(&*self);
        }
        match Config::load(self.path.as_str(), read) {
            Ok(c) => {
                self.inner = Arc::new(c);
                Ok(())
            },
            Err(e) => Err(e),
        }
    }

    /// Path of the file backing this configuration.
    pub fn path(&self) -> (path: &str)
        ensures
            path@ == self.file(),
    {
        self.path.as_str()
    }
}

/// Lists of the same texts have the same length and, place by place, the same text.
proof fn lemma_same_texts(a: Seq<String>, b: Seq<String>)
    requires
        texts(a) == texts(b),
    ensures
        a.len() == b.len(),
        forall|i: int| 0 <= i < a.len() ==> (#[trigger] a[i])@ == b[i]@,
{
    assert(texts(a).len() == a.len() && texts(b).len() == b.len());
    assert forall|i: int| 0 <= i < a.len() implies (#[trigger] a[i])@ == b[i]@ by {
        assert(texts(a)[i] == a[i]@ && texts(b)[i] == b[i]@);
    }
}

/// Whatever a file sets is what is in force once the file is loaded: every field that it sets has,
/// in the loaded configuration, the value that the file gives it.
pub proof fn law_set_fields_are_loaded(
    f: ConfigFields,
    c: Config,
    path: &str,
    live: LiveConfig,
)
    requires
        ({
            ||| filled(f, c)
            ||| call_ensures(Config::augmented, (f,), c)
            ||| call_ensures(Config::load, (path, ConfigRead::Fields(f)), Ok(c))
            ||| call_ensures(LiveConfig::load, (path, ConfigRead::Fields(f)), Ok(live)) && c
                == live.config()
        }),
    ensures
        f.sender.bind_ip matches Some(v) ==> c.sender.bind_ip@ == v@,
        f.sender.bind_port matches Some(v) ==> c.sender.bind_port == v,
        f.sender.chunk_size matches Some(v) ==> c.sender.chunk_size == v,
        f.sender.active_link matches Some(v) ==> c.sender.active_link@ == v@,
        f.sender.ledger_path matches Some(v) ==> c.sender.ledger_path@ == v@,
        f.sender.priority_dirs matches Some(v) ==> c.sender.priority_dirs@.len() == v@.len()
            && forall|i: int|
            0 <= i < v@.len() ==> (#[trigger] c.sender.priority_dirs@[i])@ == v@[i]@,
        f.sender.priority_dirs_debug matches Some(v) ==> c.sender.priority_dirs_debug@.len() == v@.len()
            && forall|i: int|
            0 <= i < v@.len() ==> (#[trigger] c.sender.priority_dirs_debug@[i])@ == v@[i]@,
        f.sender.include_extensions matches Some(v) ==> c.sender.include_extensions@.len() == v@.len()
            && forall|i: int|
            0 <= i < v@.len() ==> (#[trigger] c.sender.include_extensions@[i])@ == v@[i]@,
        f.sender.skip_extensions matches Some(v) ==> c.sender.skip_extensions@.len() == v@.len()
            && forall|i: int|
            0 <= i < v@.len() ==> (#[trigger] c.sender.skip_extensions@[i])@ == v@[i]@,
        f.sender.control_socket matches Some(v) ==> c.sender.control_socket@ == v@,
        f.sender.initial_state matches Some(v) ==> c.sender.initial_state == v,
        f.sender.images_per_dark matches Some(v) ==> c.sender.images_per_dark == v,
        f.sender.images_per_flat matches Some(v) ==> c.sender.images_per_flat == v,
        f.sender.images_per_bias matches Some(v) ==> c.sender.images_per_bias == v,
        f.sender.recheck_period_secs matches Some(v) ==> c.sender.recheck_period_secs == v,
        f.sender.status_dump_period_secs matches Some(v) ==> c.sender.status_dump_period_secs == v,
        f.receiver.bind_ip matches Some(v) ==> c.receiver.bind_ip@ == v@,
        f.receiver.bind_port matches Some(v) ==> c.receiver.bind_port == v,
        f.receiver.holding_dir matches Some(v) ==> c.receiver.holding_dir@ == v@,
        f.receiver.final_dir matches Some(v) ==> c.receiver.final_dir@ == v@,
        f.receiver.csv_dir matches Some(v) ==> c.receiver.csv_dir@ == v@,
        f.receiver.control_socket matches Some(v) ==> c.receiver.control_socket@ == v@,
        f.cleaner.holding_dir matches Some(v) ==> c.cleaner.holding_dir@ == v@,
        f.cleaner.final_dir matches Some(v) ==> c.cleaner.final_dir@ == v@,
        f.cleaner.csv_dir matches Some(v) ==> c.cleaner.csv_dir@ == v@,
        f.cleaner.sender_control_socket matches Some(v) ==> c.cleaner.sender_control_socket@ == v@,
        f.cleaner.links matches Some(v) ==> c.cleaner.links == v,
        f.cleaner.active_link matches Some(v) ==> c.cleaner.active_link@ == v@,
        f.cleaner.state_path matches Some(v) ==> c.cleaner.state_path@ == v@,
        f.cleaner.run_period_secs matches Some(v) ==> c.cleaner.run_period_secs == v,
        f.cleaner.checker_period_secs matches Some(v) ==> c.cleaner.checker_period_secs == v,
        f.cleaner.dedup_ttl_secs matches Some(v) ==> c.cleaner.dedup_ttl_secs == v,
        f.cleaner.control_socket matches Some(v) ==> c.cleaner.control_socket@ == v@,
        f.links matches Some(v) ==> c.links == v,
{
    if let Some(v) = f.sender.priority_dirs {
        lemma_same_texts(c.sender.priority_dirs@, v@);
    }
    if let Some(v) = f.sender.priority_dirs_debug {
        lemma_same_texts(c.sender.priority_dirs_debug@, v@);
    }
    if let Some(v) = f.sender.include_extensions {
        lemma_same_texts(c.sender.include_extensions@, v@);
    }
    if let Some(v) = f.sender.skip_extensions {
        lemma_same_texts(c.sender.skip_extensions@, v@);
    }
}

/// Every field that a file leaves out has its default in the loaded configuration. The cleaner
/// shares the receiver's holding directory unless it is given one of its own.
pub proof fn law_unset_fields_have_defaults(
    f: ConfigFields,
    c: Config,
    path: &str,
    live: LiveConfig,
)
    requires
        ({
            ||| filled(f, c)
            ||| call_ensures(Config::augmented, (f,), c)
            ||| call_ensures(Config::load, (path, ConfigRead::Fields(f)), Ok(c))
            ||| call_ensures(LiveConfig::load, (path, ConfigRead::Fields(f)), Ok(live)) && c
                == live.config()
        }),
    ensures
        f.sender.bind_ip is None ==> c.sender.bind_ip@ == "0.0.0.0"@,
        f.sender.bind_port is None ==> c.sender.bind_port == 34646,
        f.sender.chunk_size is None ==> c.sender.chunk_size == 16_192,
        f.sender.active_link is None ==> c.sender.active_link@ == "pilot"@,
        f.sender.ledger_path is None ==> c.sender.ledger_path@
            == "/var/lib/parachuter/ledger.sqlite"@,
        f.sender.priority_dirs is None ==> c.sender.priority_dirs@.len() == 1
            && c.sender.priority_dirs@[0]@ == "/data/parachuter/queue"@,
        f.sender.priority_dirs_debug is None ==> c.sender.priority_dirs_debug@.len() == 0,
        f.sender.include_extensions is None ==> c.sender.include_extensions@.len() == 0,
        f.sender.skip_extensions is None ==> c.sender.skip_extensions@.len() == 0,
        f.sender.control_socket is None ==> c.sender.control_socket@
            == "/run/parachuter/sender.sock"@,
        f.sender.initial_state is None ==> c.sender.initial_state == SenderState::Auto,
        f.sender.images_per_dark is None ==> c.sender.images_per_dark == 0,
        f.sender.images_per_flat is None ==> c.sender.images_per_flat == 0,
        f.sender.images_per_bias is None ==> c.sender.images_per_bias == 0,
        f.sender.recheck_period_secs is None ==> c.sender.recheck_period_secs == 100,
        f.sender.status_dump_period_secs is None ==> c.sender.status_dump_period_secs == 21_600,
        f.receiver.bind_ip is None ==> c.receiver.bind_ip@ == "0.0.0.0"@,
        f.receiver.bind_port is None ==> c.receiver.bind_port == 41410,
        f.receiver.holding_dir is None ==> c.receiver.holding_dir@
            == "/var/lib/parachuter/holding"@,
        f.receiver.final_dir is None ==> c.receiver.final_dir@ == "/var/lib/parachuter/downloads"@,
        f.receiver.csv_dir is None ==> c.receiver.csv_dir@ == "/var/lib/parachuter/csv"@,
        f.receiver.control_socket is None ==> c.receiver.control_socket@
            == "/run/parachuter/receiver.sock"@,
        f.cleaner.final_dir is None ==> c.cleaner.final_dir@ == "/var/lib/parachuter/downloads"@,
        f.cleaner.csv_dir is None ==> c.cleaner.csv_dir@ == "/var/lib/parachuter/csv"@,
        f.cleaner.sender_control_socket is None ==> c.cleaner.sender_control_socket@
            == "/run/parachuter/sender.sock"@,
        f.cleaner.active_link is None ==> c.cleaner.active_link@ == "pilot"@,
        f.cleaner.state_path is None ==> c.cleaner.state_path@
            == "/var/lib/parachuter/cleaner-state.json"@,
        f.cleaner.run_period_secs is None ==> c.cleaner.run_period_secs == 60,
        f.cleaner.checker_period_secs is None ==> c.cleaner.checker_period_secs == 7_200,
        f.cleaner.dedup_ttl_secs is None ==> c.cleaner.dedup_ttl_secs == 300,
        f.cleaner.control_socket is None ==> c.cleaner.control_socket@
            == "/run/parachuter/cleaner.sock"@,
        f.cleaner.holding_dir is None ==> c.cleaner.holding_dir@ == c.receiver.holding_dir@,
{
    if f.sender.priority_dirs is None {
        let dirs = c.sender.priority_dirs@;
        assert(texts(dirs).len() == dirs.len());
        assert(texts(dirs)[0] == dirs[0]@);
    }
    assert(texts(c.sender.priority_dirs_debug@).len() == c.sender.priority_dirs_debug@.len());
    assert(texts(c.sender.include_extensions@).len() == c.sender.include_extensions@.len());
    assert(texts(c.sender.skip_extensions@).len() == c.sender.skip_extensions@.len());
}

/// The links that are declared by default, with address, port and throughput cap, and the budget
/// that each of them has; no other link is declared then.
pub proof fn law_default_links(f: ConfigFields, c: Config)
    requires
        filled(f, c),
        f.links is None,
    ensures
        c.links@.len() == 3,
        exists|i: int|
            0 <= i < 3 && (#[trigger] c.links@[i]).0 == "pilot"@ && c.links@[i].1.ip@
                == "192.168.98.24"@ && c.links@[i].1.port == 41410 && c.links@[i].1.max_kbps
                == 1000,
        exists|i: int|
            0 <= i < 3 && (#[trigger] c.links@[i]).0 == "los"@ && c.links@[i].1.ip@
                == "239.255.0.1"@ && c.links@[i].1.port == 41410 && c.links@[i].1.max_kbps == 250,
        exists|i: int|
            0 <= i < 3 && (#[trigger] c.links@[i]).0 == "tdrss"@ && c.links@[i].1.ip@
                == "239.255.0.2"@ && c.links@[i].1.port == 41410 && c.links@[i].1.max_kbps == 30,
        f.cleaner.links is None ==> c.cleaner.links@.len() == 3 && forall|i: int|
            0 <= i < 3 ==> (#[trigger] c.cleaner.links@[i]).0 == c.links@[i].0
                && c.cleaner.links@[i].1.max_in_flight == 8 && c.cleaner.links@[i].1.min_period_ms
                == 500,
{
    assert(c.links@[0].0 == "los"@ && c.links@[1].0 == "pilot"@ && c.links@[2].0 == "tdrss"@);
}

/// What makes a configuration valid: the sender's active link is declared, the cleaner's has a
/// budget, and the chunk size is one that the protocol accepts. An invalid one is reported by the
/// first of these that does not hold, in this order, and a valid one has no fault.
pub proof fn law_what_is_wrong_with_a_configuration(c: Config, e: Error)
    ensures
        c.valid() <==> {
            &&& exists|i: int|
                0 <= i < c.links@.len() && (#[trigger] c.links@[i]).0 == c.sender.active_link@
            &&& exists|i: int|
                0 <= i < c.cleaner.links@.len() && (#[trigger] c.cleaner.links@[i]).0
                    == c.cleaner.active_link@
            &&& MIN_CHUNK_SIZE <= c.sender.chunk_size <= MAX_CHUNK_SIZE
        },
        c.valid() ==> !config_fault(c, e),
        config_fault(c, e) && !has_name(c.links@, c.sender.active_link@) ==> (
        e matches Error::BadConfig(why) && why@ == "sender.active_link `"@ + c.sender.active_link@
            + "` not declared in [links]"@),
        config_fault(c, e) && has_name(c.links@, c.sender.active_link@) && !has_name(
            c.cleaner.links@,
            c.cleaner.active_link@,
        ) ==> (e matches Error::BadConfig(why) && why@ == "cleaner.active_link `"@
            + c.cleaner.active_link@ + "` has no budget in [cleaner.links]"@),
        config_fault(c, e) && has_name(c.links@, c.sender.active_link@) && has_name(
            c.cleaner.links@,
            c.cleaner.active_link@,
        ) ==> e == Error::BadChunkSize(c.sender.chunk_size),
{
    law_lookup_finds_the_entry(c.links@, c.sender.active_link@, 0);
    law_lookup_finds_the_entry(c.cleaner.links@, c.cleaner.active_link@, 0);
}

/// Whether a file is accepted depends on nothing but what it sets.
pub proof fn law_acceptance_is_determined(f: ConfigFields, a: Config, b: Config)
    requires
        filled(f, a),
        filled(f, b),
    ensures
        a.valid() == b.valid(),
{
    if f.links is None {
        lemma_same_names(a.links@, b.links@, a.sender.active_link@);
    }
}

/// Two tables that hold the default links have the same names.
proof fn lemma_same_names(a: Seq<(Seq<char>, Link)>, b: Seq<(Seq<char>, Link)>, name: Seq<char>)
    requires
        are_default_links(a),
        are_default_links(b),
    ensures
        has_name(a, name) == has_name(b, name),
{
    if has_name(a, name) {
        let i = choose|i: int| 0 <= i < a.len() && #[trigger] a[i].0 == name;
        assert(b[i].0 == name);
    }
    if has_name(b, name) {
        let i = choose|i: int| 0 <= i < b.len() && #[trigger] b[i].0 == name;
        assert(a[i].0 == name);
    }
}

/// What comes of reading a configuration file. A file that is not there is reported by its path, one
/// that cannot be read or is no well-formed configuration by the reason, and one that holds an
/// invalid configuration by what is wrong with it; a handle on the file fares as the file does.
pub proof fn law_what_comes_of_a_file(
    path: &str,
    read: ConfigRead,
    r: Result<Config, Error>,
    handle: Result<LiveConfig, Error>,
)
    requires
        call_ensures(Config::load, (path, read), r),
        call_ensures(LiveConfig::load, (path, read), handle),
    ensures
        read is NotFound ==> (r matches Err(Error::NotFound(p)) && p@ == path@),
        read matches ConfigRead::Failed(why) ==> (r matches Err(Error::Io(w)) && w@ == why@),
        read matches ConfigRead::Malformed(why) ==> (r matches Err(Error::Toml(w)) && w@ == why@),
        r is Ok ==> r->Ok_0.valid(),
        r is Ok <==> handle is Ok,
        handle matches Ok(live) ==> live.config().valid() && live.file() == path@,
        r matches Err(e) ==> (read is Fields ==> e is BadConfig || e is BadChunkSize),
{
    if let ConfigRead::Fields(f) = read {
        match (r, handle) {
            (Ok(c), Err(e)) => {
                let d = choose|d: Config| #[trigger]
                    filled(f, d) && !d.valid() && config_fault(d, e);
                law_acceptance_is_determined(f, c, d);
            },
            (Err(e), Ok(live)) => {
                let d = choose|d: Config| #[trigger]
                    filled(f, d) && !d.valid() && config_fault(d, e);
                law_acceptance_is_determined(f, live.config(), d);
            },
            _ => {},
        }
    }
}

/// A configuration is accepted by its checks exactly where it is valid, and a handle takes over what
/// is accepted and nothing else: what is refused leaves in force what was, whether it comes as a
/// replacement or with a change of the file.
pub proof fn law_only_valid_configurations_come_into_force(
    c: Config,
    checked: Result<(), Error>,
    live: &mut LiveConfig,
    replaced: Result<(), Error>,
    changed: &mut LiveConfig,
    read: ConfigRead,
    reloaded: Result<(), Error>,
)
    requires
        call_ensures(Config::validate, (&c,), checked),
        call_ensures(LiveConfig::override_with, (live, c), replaced),
        call_ensures(LiveConfig::reload, (changed, read), reloaded),
    ensures
        checked is Ok <==> c.valid(),
        replaced is Ok <==> c.valid(),
        replaced is Ok ==> final(live).config() == c,
        replaced is Err ==> final(live).config() == old(live).config(),
        final(live).file() == old(live).file(),
        reloaded is Err ==> final(changed).config() == old(changed).config(),
        !(read is Fields) ==> reloaded is Err,
        final(changed).config().valid(),
        final(changed).file() == old(changed).file(),
{
}

/// Where nothing is set no field is: every one of them is left to its default.
pub proof fn law_nothing_set_leaves_every_default(f: ConfigFields)
    requires
        nothing_set(f),
    ensures
        f.sender.bind_ip is None,
        f.sender.bind_port is None,
        f.sender.chunk_size is None,
        f.sender.active_link is None,
        f.sender.ledger_path is None,
        f.sender.priority_dirs is None,
        f.sender.priority_dirs_debug is None,
        f.sender.include_extensions is None,
        f.sender.skip_extensions is None,
        f.sender.control_socket is None,
        f.sender.initial_state is None,
        f.sender.images_per_dark is None,
        f.sender.images_per_flat is None,
        f.sender.images_per_bias is None,
        f.sender.recheck_period_secs is None,
        f.sender.status_dump_period_secs is None,
        f.receiver.bind_ip is None,
        f.receiver.bind_port is None,
        f.receiver.holding_dir is None,
        f.receiver.final_dir is None,
        f.receiver.csv_dir is None,
        f.receiver.control_socket is None,
        f.cleaner.holding_dir is None,
        f.cleaner.final_dir is None,
        f.cleaner.csv_dir is None,
        f.cleaner.sender_control_socket is None,
        f.cleaner.links is None,
        f.cleaner.active_link is None,
        f.cleaner.state_path is None,
        f.cleaner.run_period_secs is None,
        f.cleaner.checker_period_secs is None,
        f.cleaner.dedup_ttl_secs is None,
        f.cleaner.control_socket is None,
        f.links is None,
{
}

} // verus!
