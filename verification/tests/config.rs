use parachuter::config::{
    Config, ConfigFields, ConfigRead, Link, LinkBudget, LiveConfig, SenderState,
};
use parachuter::error::Error;
use parachuter::names::NameMap;

#[test]
fn default_is_valid() {
    Config::default().validate().unwrap();
}

#[test]
fn rejects_unknown_active_link() {
    let mut c = Config::default();
    c.sender.active_link = "missing".into();
    assert!(matches!(c.validate(), Err(Error::BadConfig(_))));
}

#[test]
fn rejects_silly_chunk_size() {
    let mut c = Config::default();
    c.sender.chunk_size = 4;
    assert!(matches!(c.validate(), Err(Error::BadChunkSize(_))));
}

#[test]
fn default_values() {
    let c = Config::default();
    assert_eq!(c.sender.bind_ip, "0.0.0.0");
    assert_eq!(c.sender.bind_port, 34646);
    assert_eq!(c.sender.chunk_size, 16_192);
    assert_eq!(c.sender.active_link, "pilot");
    assert_eq!(c.sender.ledger_path, "/var/lib/parachuter/ledger.sqlite");
    assert_eq!(c.sender.priority_dirs, vec!["/data/parachuter/queue".to_string()]);
    assert!(c.sender.priority_dirs_debug.is_empty());
    assert!(c.sender.include_extensions.is_empty() && c.sender.skip_extensions.is_empty());
    assert_eq!(c.sender.control_socket, "/run/parachuter/sender.sock");
    assert_eq!(c.sender.initial_state, SenderState::Auto);
    assert_eq!(c.sender.recheck_period_secs, 100);
    assert_eq!(c.sender.status_dump_period_secs, 21_600);
    assert_eq!(c.receiver.bind_port, 41410);
    assert_eq!(c.receiver.holding_dir, "/var/lib/parachuter/holding");
    assert_eq!(c.receiver.final_dir, "/var/lib/parachuter/downloads");
    assert_eq!(c.receiver.csv_dir, "/var/lib/parachuter/csv");
    assert_eq!(c.receiver.control_socket, "/run/parachuter/receiver.sock");
    assert_eq!(c.cleaner.state_path, "/var/lib/parachuter/cleaner-state.json");
    assert_eq!(c.cleaner.run_period_secs, 60);
    assert_eq!(c.cleaner.checker_period_secs, 7_200);
    assert_eq!(c.cleaner.dedup_ttl_secs, 300);
    assert_eq!(c.cleaner.control_socket, "/run/parachuter/cleaner.sock");
    let names: Vec<&str> = (0..c.links.len()).map(|i| c.links.entry(i).0).collect();
    assert_eq!(names, vec!["los", "pilot", "tdrss"]);
    let tdrss = c.links.get("tdrss").unwrap();
    assert_eq!((tdrss.ip.as_str(), tdrss.port, tdrss.max_kbps), ("239.255.0.2", 41410, 30));
    assert_eq!(tdrss.note.as_deref(), Some("TDRSS multicast"));
    assert_eq!(
        c.cleaner.links.get("los"),
        Some(&LinkBudget { max_in_flight: 8, min_period_ms: 500 })
    );
}

fn only_link(name: &str) -> NameMap<Link> {
    let mut m = NameMap::new();
    m.insert(
        name.to_string(),
        Link { ip: "10.0.0.1".into(), port: 9, max_kbps: 5, note: None },
    );
    m
}

#[test]
fn missing_fields_use_the_defaults() {
    let mut f = ConfigFields::default();
    f.sender.chunk_size = Some(1024);
    f.sender.active_link = Some("radio".into());
    f.sender.skip_extensions = Some(vec!["log".into()]);
    f.receiver.holding_dir = Some("/h".into());
    f.links = Some(only_link("radio"));
    let c = Config::load("c.toml", ConfigRead::Fields(f)).unwrap();
    assert_eq!(c.sender.chunk_size, 1024);
    assert_eq!(c.sender.skip_extensions, vec!["log".to_string()]);
    assert_eq!(c.sender.bind_port, 34646);
    assert_eq!(c.receiver.holding_dir, "/h");
    assert_eq!(c.cleaner.holding_dir, "/h", "by default the receiver's");
    assert_eq!(c.links.len(), 1);
    assert_eq!(c.cleaner.links.len(), 3);
}

#[test]
fn load_reports_what_is_wrong() {
    assert!(matches!(
        Config::load("c.toml", ConfigRead::NotFound),
        Err(Error::NotFound(p)) if p == "c.toml"
    ));
    assert!(matches!(
        Config::load("c.toml", ConfigRead::Failed("x".into())),
        Err(Error::Io(e)) if e == "x"
    ));
    assert!(matches!(
        Config::load("c.toml", ConfigRead::Malformed("y".into())),
        Err(Error::Toml(e)) if e == "y"
    ));
    let mut f = ConfigFields::default();
    f.links = Some(only_link("radio"));
    assert!(matches!(
        Config::load("c.toml", ConfigRead::Fields(f)),
        Err(Error::BadConfig(why)) if why == "sender.active_link `pilot` not declared in [links]"
    ));
    let mut f = ConfigFields::default();
    f.cleaner.active_link = Some("x".into());
    assert!(matches!(
        Config::load("c.toml", ConfigRead::Fields(f)),
        Err(Error::BadConfig(why)) if why == "cleaner.active_link `x` has no budget in [cleaner.links]"
    ));
}

#[test]
fn live_config_only_takes_what_is_valid() {
    let mut live =
        LiveConfig::load("c.toml", ConfigRead::Fields(ConfigFields::default())).unwrap();
    assert_eq!(live.path(), "c.toml");
    let before = live.current();
    let mut bad = Config::default();
    bad.sender.chunk_size = 1;
    assert_eq!(live.override_with(bad), Err(Error::BadChunkSize(1)));
    assert_eq!(live.current().sender.chunk_size, 16_192);
    let mut good = Config::default();
    good.sender.chunk_size = 2048;
    live.override_with(good).unwrap();
    assert_eq!(live.current().sender.chunk_size, 2048);
    assert_eq!(before.sender.chunk_size, 16_192, "a snapshot is stable");

    assert!(live.reload(ConfigRead::Malformed("oops".into())).is_err());
    assert_eq!(live.current().sender.chunk_size, 2048);
    let mut f = ConfigFields::default();
    f.sender.chunk_size = Some(512);
    live.reload(ConfigRead::Fields(f)).unwrap();
    assert_eq!(live.current().sender.chunk_size, 512);
}

#[test]
fn name_table_is_ordered_and_replaces() {
    let mut m: NameMap<u32> = NameMap::new();
    for (i, n) in ["b", "a", "ab", "", "é", "b"].iter().enumerate() {
        m.insert(n.to_string(), i as u32);
    }
    let all: Vec<(String, u32)> =
        (0..m.len()).map(|i| (m.entry(i).0.to_string(), *m.entry(i).1)).collect();
    let expected: Vec<(String, u32)> = [("", 3), ("a", 1), ("ab", 2), ("b", 5), ("é", 4)]
        .iter()
        .map(|(n, v)| (n.to_string(), *v as u32))
        .collect();
    assert_eq!(all, expected);
    assert_eq!(m.first(), Some(&3));
    assert_eq!(m.get("ab"), Some(&2));
    assert_eq!(m.get("abc"), None);
    let copy = m.clone();
    assert_eq!(copy.len(), 5);
    assert!(copy.contains_key("é"));
}
