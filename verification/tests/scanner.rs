use parachuter::ledger::Timestamp;
use parachuter::sender::scanner::{
    best_created, extension_allowed, is_being_compressed, matches_extension, uncompressed_name,
    Scan, ScanEntry, ScanStep,
};

fn p(s: &str) -> &str {
    s
}

#[test]
fn matches_simple_extension() {
    assert!(matches_extension(p("/tmp/foo.fits"), "fits"));
    assert!(matches_extension(p("/tmp/foo.fits"), ".fits"));
    assert!(matches_extension(p("/tmp/foo.FITS"), "fits"));
    assert!(!matches_extension(p("/tmp/foo.fits.bz2"), "fits"));
    assert!(!matches_extension(p("/tmp/foo.txt"), "fits"));
}

#[test]
fn matches_compound_extension() {
    assert!(matches_extension(p("/tmp/foo.fits.bz2"), "fits.bz2"));
    assert!(matches_extension(p("/tmp/foo.fits.bz2"), ".fits.bz2"));
    assert!(!matches_extension(p("/tmp/foo.fits"), "fits.bz2"));
}

#[test]
fn empty_lists_accept_everything() {
    assert!(extension_allowed(p("/x.fits"), &vec![], &vec![]));
    assert!(extension_allowed(p("/Makefile"), &vec![], &vec![]));
    assert!(extension_allowed(p("/x.log"), &vec![], &vec![]));
}

#[test]
fn skip_only_rejects_listed() {
    let skip = vec!["log".into(), "tmp".into()];
    assert!(!extension_allowed(p("/x.log"), &vec![], &skip));
    assert!(!extension_allowed(p("/y.tmp"), &vec![], &skip));
    assert!(extension_allowed(p("/z.fits"), &vec![], &skip));
}

#[test]
fn include_only_accepts_listed() {
    let inc = vec!["fits".into(), "fits.bz2".into()];
    assert!(extension_allowed(p("/x.fits"), &inc, &vec![]));
    assert!(extension_allowed(p("/x.fits.bz2"), &inc, &vec![]));
    assert!(!extension_allowed(p("/x.log"), &inc, &vec![]));
    assert!(!extension_allowed(p("/x"), &inc, &vec![]));
}

#[test]
fn skip_wins_on_clash() {
    let inc = vec!["fits".into(), "log".into()];
    let skip = vec!["log".into()];
    assert!(extension_allowed(p("/x.fits"), &inc, &skip));
    assert!(!extension_allowed(p("/x.log"), &inc, &skip));
}

#[test]
fn case_insensitive_match() {
    let skip = vec!["LOG".into()];
    assert!(!extension_allowed(p("/y.log"), &vec![], &skip));
    assert!(!extension_allowed(p("/y.LOG"), &vec![], &skip));
}

#[test]
fn empty_extension_entry_is_ignored() {
    // A stray empty string in the config should not match every file.
    let skip = vec!["".into()];
    assert!(extension_allowed(p("/x.fits"), &vec![], &skip));
    assert!(extension_allowed(p("/Makefile"), &vec![], &skip));
}

#[test]
fn only_the_file_name_is_matched() {
    assert!(!matches_extension("/a.fits/b", "fits"));
    assert!(matches_extension("/a/b.fits/", "fits"));
    assert!(matches_extension("/a/b.fits/.", "fits"));
    assert!(!matches_extension("/a/b.fits/..", "fits"));
    assert!(!matches_extension("..", "."));
    assert!(!matches_extension("/tmp/x", "..."));
    assert!(matches_extension(".fits", "fits"));
    assert!(!matches_extension("fits", "fits"));
}

#[test]
fn compressed_files_wait_for_their_original_to_go() {
    assert_eq!(uncompressed_name("/a/b.fits.bz2"), Some("/a/b.fits".to_string()));
    assert_eq!(uncompressed_name("/a/b.tar.gz"), Some("/a/b.tar".to_string()));
    assert_eq!(uncompressed_name("/a/b.fits"), None);
    assert!(is_being_compressed("/a/b.gz", true));
    assert!(!is_being_compressed("/a/b.gz", false));
    assert!(!is_being_compressed("/a/b", true));
}

fn entry(path: &str, modified_secs: Option<i128>, original_exists: bool) -> ScanEntry {
    let modified_nanos = modified_secs.map(|s| s * 1_000_000_000);
    ScanEntry { path: path.into(), modified_nanos, original_exists }
}

/// Runs a scan to its end over listings and known names.
fn run(
    dirs: &[&str],
    listings: &[(&str, Vec<ScanEntry>)],
    known: &[&str],
    wanted: &[&str],
    skip: &[&str],
) -> (Option<String>, Vec<String>) {
    let strings = |l: &[&str]| l.iter().map(|s| s.to_string()).collect::<Vec<String>>();
    let mut scan = Scan::new(&strings(dirs));
    let mut listed = Vec::new();
    loop {
        match scan.step() {
            ScanStep::ListDir(dir) => {
                let entries = &listings.iter().find(|l| l.0 == dir).unwrap().1;
                scan.listed(entries, &strings(wanted), &strings(skip));
                listed.push(dir);
            }
            ScanStep::Lookup(name) => {
                if let Some(found) = scan.looked_up(known.contains(&name.as_str())) {
                    return (Some(found), listed);
                }
            }
            ScanStep::Nothing => return (None, listed),
        }
    }
}

#[test]
fn oldest_unknown_file_of_the_first_directory_is_found() {
    let listings = [
        (
            "/a",
            vec![
                entry("/a/new", Some(30), false),
                entry("/a/old", Some(10), false),
                entry("/a/same1", Some(20), false),
                entry("/a/same2", Some(20), false),
            ],
        ),
        ("/b", vec![entry("/b/ancient", Some(1), false)]),
    ];
    let dirs = ["/a", "/b"];
    assert_eq!(
        run(&dirs, &listings, &[], &[], &[]),
        (Some("/a/old".into()), vec!["/a".to_string()])
    );
    assert_eq!(
        run(&dirs, &listings, &["/a/old"], &[], &[]).0,
        Some("/a/same1".into())
    );
    assert_eq!(
        run(&dirs, &listings, &["/a/old", "/a/same1"], &[], &[]).0,
        Some("/a/same2".into())
    );
    let all_a = ["/a/old", "/a/same1", "/a/same2", "/a/new"];
    assert_eq!(
        run(&dirs, &listings, &all_a, &[], &[]),
        (Some("/b/ancient".into()), vec!["/a".to_string(), "/b".to_string()])
    );
    let all = ["/a/old", "/a/same1", "/a/same2", "/a/new", "/b/ancient"];
    assert_eq!(run(&dirs, &listings, &all, &[], &[]).0, None);
    assert_eq!(run(&[], &listings, &[], &[], &[]), (None, vec![]));
}

#[test]
fn files_of_one_second_are_told_apart() {
    let at = |path: &str, nanos: i128| ScanEntry {
        path: path.into(),
        modified_nanos: Some(nanos),
        original_exists: false,
    };
    let listings = [(
        "/a",
        vec![
            at("/a/later", 7_900_000_000),
            at("/a/earlier", 7_100_000_000),
            at("/a/last", 8_000_000_000),
        ],
    )];
    let found = |known: &[&str]| run(&["/a"], &listings, known, &[], &[]).0;
    assert_eq!(found(&[]), Some("/a/earlier".into()));
    assert_eq!(found(&["/a/earlier"]), Some("/a/later".into()));
    assert_eq!(found(&["/a/earlier", "/a/later"]), Some("/a/last".into()));
    let old = [("/a", vec![at("/a/x", 5), at("/a/before_epoch", -5)])];
    assert_eq!(run(&["/a"], &old, &[], &[], &[]).0, Some("/a/before_epoch".into()));
}

#[test]
fn scan_filters_and_counts_unknown_ages_as_oldest() {
    let listings = [(
        "/a",
        vec![
            entry("/a/x.log", Some(1), false),
            entry("/a/y.fits.gz", Some(2), true),
            entry("/a/z.fits", Some(3), false),
            entry("/a/w.fits", None, false),
        ],
    )];
    assert_eq!(run(&["/a"], &listings, &[], &[], &["log"]).0, Some("/a/w.fits".into()));
    assert_eq!(
        run(&["/a"], &listings, &["/a/w.fits"], &[], &["log"]).0,
        Some("/a/z.fits".into())
    );
    assert_eq!(run(&["/a"], &listings, &[], &["gz"], &[]).0, None);
}

#[test]
fn creation_time_falls_back() {
    let t = |secs: i64| Timestamp { secs, nanos: 0 };
    assert_eq!(best_created(Some(t(1)), Some(t(2)), t(3)), t(1));
    assert_eq!(best_created(None, Some(t(2)), t(3)), t(2));
    assert_eq!(best_created(None, None, t(3)), t(3));
}
