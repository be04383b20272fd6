//! Priority-directory scanner.
//!
//! A scan walks an ordered list of directories and finds the oldest unsent file of the first
//! directory that has one. Whatever ordering is wanted is expressed by the directory order.
//!
//! Two lists of extensions filter the scan: `include_extensions`, if non-empty, names the only
//! ones that are eligible, and `skip_extensions` names those that are always rejected. Skip wins.
//! The filter applies to the scan only; explicit submissions always honour the caller's path.

use vstd::prelude::*;

use crate::ledger::Timestamp;
use crate::text::{
    base_name, ends_with, file_name, lower, lowercase, strip_suffix, trim_leading_dots,
    without_leading_dots,
};

verus! {

/// A file that a scan found.
#[derive(Debug, Clone)]
pub struct Candidate {
    /// Absolute path on disk.
    pub path: String,
    /// File size in bytes.
    pub size: u64,
    /// Best-effort created-at timestamp.
    pub created_at: Timestamp,
}

/// A regular file found under a directory.
#[derive(Debug, Clone)]
pub struct ScanEntry {
    /// Path of the file.
    pub path: String,
    /// When the file was last modified, in nanoseconds since the epoch, as far as is known.
    pub modified_nanos: Option<i128>,
    /// For a compressed file: whether the file it is being made of is still there.
    pub original_exists: bool,
}

/// Whether a path's tail matches an extension, case-insensitively. The extension may include or
/// omit the leading dot, and may be compound: `"fits"` matches `foo.fits` but not
/// `bar.fits.bz2`, and `"fits.bz2"` the other way around. An empty extension matches nothing.
pub open spec fn matches_ext(path: Seq<char>, ext: Seq<char>) -> bool {
    let body = lower(without_leading_dots(ext));
    body.len() > 0 && ends_with(lower(base_name(path)), seq!['.'] + body)
}

/// Whether a path matches one of a list of extensions.
pub open spec fn matches_any(path: Seq<char>, exts: Seq<String>) -> bool {
    exists|i: int| 0 <= i < exts.len() && matches_ext(path, (#[trigger] exts[i])@)
}

/// Whether the filter lets a path through: it matches nothing on the skip list, and something on
/// the include list unless that is empty.
pub open spec fn allowed(path: Seq<char>, wanted: Seq<String>, skip: Seq<String>) -> bool {
    !matches_any(path, skip) && (wanted.len() == 0 || matches_any(path, wanted))
}

/// Returns `true` if `path`'s tail matches `ext` (case-insensitive).
pub fn matches_extension(path: &str, ext: &str) -> (yes: bool)
    ensures
        yes == matches_ext(path@, ext@),
{
    let body = lowercase(trim_leading_dots(ext).as_str());
    if body.as_str().is_empty() {
        return false;
    }
    let mut needle = String::new();
    needle.push('.');
    needle.append(body.as_str());
    assert(needle@ =~= seq!['.'] + body@);
    let name = lowercase(file_name(path).as_str());
    strip_suffix(name.as_str(), needle.as_str()).is_some()
}

/// Whether a path matches one of a list of extensions.
fn matches_one(path: &str, exts: &Vec<String>) -> (yes: bool)
    ensures
        yes == matches_any(path@, exts@),
{
    let mut i: usize = 0;
    while i < exts.len()
        invariant
            i <= exts@.len(),
            forall|j: int| 0 <= j < i ==> !matches_ext(path@, (#[trigger] exts@[j])@),
        decreases exts@.len() - i,
    {
        if matches_extension(path, exts[i].as_str()) {
            assert(matches_ext(path@, exts@[i as int]@));
            return true;
        }
        i += 1;
    }
    false
}

/// Filter precedence:
///
/// 1. If the file matches any entry in `skip`, reject (skip always wins).
/// 2. If `wanted` is empty, accept (no whitelist restriction).
/// 3. Otherwise, accept iff the file matches at least one entry in `wanted`.
pub fn extension_allowed(path: &str, wanted: &Vec<String>, skip: &Vec<String>) -> (ok: bool)
    ensures
        ok == allowed(path@, wanted@, skip@),
{
    if matches_one(path, skip) {
        return false;
    }
    if wanted.len() == 0 {
        return true;
    }
    matches_one(path, wanted)
}

/// The file that a compressed file is made of, told from its name.
pub open spec fn original_of(path: Seq<char>) -> Option<Seq<char>> {
    if ends_with(path, ".bz2"@) {
        Some(path.take(path.len() - ".bz2"@.len()))
    } else if ends_with(path, ".gz"@) {
        Some(path.take(path.len() - ".gz"@.len()))
    } else {
        None
    }
}

/// The file that a compressed file is made of, told from its name; `None` for any other file.
pub fn uncompressed_name(path: &str) -> (name: Option<String>)
    ensures
        match name {
            Some(n) => original_of(path@) == Some(n@),
            None => original_of(path@) is None,
        },
{
    if let Some(stem) = strip_suffix(path, ".bz2") {
        return Some(stem);
    }
    strip_suffix(path, ".gz")
}

/// Whether a file is still being compressed: the file that it is made of is there.
pub fn is_being_compressed(path: &str, original_exists: bool) -> (yes: bool)
    ensures
        yes == (original_of(path@) is Some && original_exists),
{
    uncompressed_name(path).is_some() && original_exists
}

/// When a file was created: its birth time, or else its modification time, or else now.
pub fn best_created(
    created: Option<Timestamp>,
    modified: Option<Timestamp>,
    now: Timestamp,
) -> (t: Timestamp)
    ensures
        t == match (created, modified) {
            (Some(t), _) => t,
            (None, Some(t)) => t,
            (None, None) => now,
        },
{
    match created {
        Some(t) => t,
        None => match modified {
            Some(t) => t,
            None => now,
        },
    }
}

/// Whether a scan may pick an entry.
pub open spec fn eligible(e: ScanEntry, wanted: Seq<String>, skip: Seq<String>) -> bool {
    !(original_of(e.path@) is Some && e.original_exists) && allowed(e.path@, wanted, skip)
}

/// The time by which entries are ordered; an unknown one counts as the epoch.
pub open spec fn age_key(e: ScanEntry) -> i128 {
    match e.modified_nanos {
        Some(t) => t,
        None => 0,
    }
}

/// A list in order of age with one more file, behind those of the same age.
pub open spec fn placed(list: Seq<(i128, Seq<char>)>, file: (i128, Seq<char>)) -> Seq<
    (i128, Seq<char>),
>
    decreases list.len(),
{
    if list.len() == 0 || list.last().0 <= file.0 {
        list.push(file)
    } else {
        placed(list.drop_last(), file).push(list.last())
    }
}

/// The eligible files of a listing, oldest first; files of the same age stay as they were listed.
pub open spec fn by_age(entries: Seq<ScanEntry>, wanted: Seq<String>, skip: Seq<String>) -> Seq<
    (i128, Seq<char>),
>
    decreases entries.len(),
{
    if entries.len() == 0 {
        seq![]
    } else {
        let rest = by_age(entries.drop_last(), wanted, skip);
        let e = entries.last();
        if eligible(e, wanted, skip) {
            placed(rest, (age_key(e), e.path@))
        } else {
            rest
        }
    }
}

/// The names of a list of files.
pub open spec fn names(list: Seq<(i128, Seq<char>)>) -> Seq<Seq<char>> {
    list.map_values(|f: (i128, Seq<char>)| f.1)
}

/// The views of a list of files.
pub open spec fn file_views(list: Seq<(i128, String)>) -> Seq<(i128, Seq<char>)> {
    list.map_values(|f: (i128, String)| (f.0, f.1@))
}

/// Placing a file behind the last that is not younger.
proof fn lemma_placed(list: Seq<(i128, Seq<char>)>, file: (i128, Seq<char>), at: int)
    requires
        0 <= at <= list.len(),
        forall|i: int| at <= i < list.len() ==> (#[trigger] list[i]).0 > file.0,
        at > 0 ==> list[at - 1].0 <= file.0,
    ensures
        placed(list, file) == list.insert(at, file),
    decreases list.len(),
{
    if list.len() == at {
        assert(list.insert(at, file) =~= list.push(file));
    } else {
        lemma_placed(list.drop_last(), file, at);
        assert(list.drop_last().insert(at, file).push(list.last()) =~= list.insert(at, file));
    }
}

/// Puts a file into a list in order of age, behind those of the same age.
fn place(list: &mut Vec<(i128, String)>, file: (i128, String))
    ensures
        file_views(final(list)@) == placed(file_views(old(list)@), (file.0, file.1@)),
{
    let ghost before = file_views(list@);
    let ghost view = (file.0, file.1@);
    let mut at: usize = list.len();
    while at > 0 && list[at - 1].0 > file.0
        invariant
            at <= list@.len(),
            before == file_views(list@),
            forall|i: int| at <= i < list@.len() ==> (#[trigger] list@[i]).0 > file.0,
        decreases at,
    {
        at -= 1;
    }
    proof {
        assert forall|i: int| at <= i < before.len() implies (#[trigger] before[i]).0 > view.0 by {
            assert(list@[i].0 > file.0);
        }
        lemma_placed(before, view, at as int);
    }
    list.insert(at, file);
    assert(file_views(list@) =~= before.insert(at as int, view));
}

/// The eligible files of a listing, oldest first.
fn order_by_age(entries: &Vec<ScanEntry>, wanted: &Vec<String>, skip: &Vec<String>) -> (list: Vec<
    (i128, String),
>)
    ensures
        file_views(list@) == by_age(entries@, wanted@, skip@),
{
    let mut list: Vec<(i128, String)> = Vec::new();
    let mut i: usize = 0;
    assert(entries@.take(0) =~= Seq::empty());
    assert(file_views(list@) =~= seq![]);
    while i < entries.len()
        invariant
            i <= entries@.len(),
            file_views(list@) == by_age(entries@.take(i as int), wanted@, skip@),
        decreases entries@.len() - i,
    {
        let e = &entries[i];
        assert(entries@.take(i + 1).drop_last() =~= entries@.take(i as int));
        let path: &str = e.path.as_str();
        if !is_being_compressed(path, e.original_exists) && extension_allowed(path, wanted, skip) {
            let key: i128 = match e.modified_nanos {
                Some(t) => t,
                None => 0,
            };
            place(&mut list, (key, e.path.clone()));
        }
        i += 1;
    }
    assert(entries@.take(entries@.len() as int) =~= entries@);
    list
}

/// A scan under way: the directories still to be listed, and the files of the current one still
/// to be looked up.
#[derive(Debug)]
pub struct Scan {
    dirs: Vec<String>,
    next_dir: usize,
    files: Vec<(i128, String)>,
    next_file: usize,
}

/// A scan as a mathematical value.
#[verifier::ext_equal]
pub struct ScanView {
    pub dirs: Seq<Seq<char>>,
    pub files: Seq<Seq<char>>,
}

/// What a scan needs next.
#[derive(Debug, Clone)]
pub enum ScanStep {
    /// List the regular files anywhere under this directory.
    ListDir(String),
    /// Look this name up in the ledger.
    Lookup(String),
    /// Nothing is left: there is no unsent file.
    Nothing,
}

/// The texts of a list.
spec fn strings(list: Seq<String>) -> Seq<Seq<char>> {
    list.map_values(|s: String| s@)
}

impl View for Scan {
    type V = ScanView;

    closed spec fn view(&self) -> ScanView {
        ScanView {
            dirs: strings(self.dirs@).skip(self.next_dir as int),
            files: names(file_views(self.files@)).skip(self.next_file as int),
        }
    }
}

impl Scan {
    /// The positions lie within the lists.
    #[verifier::type_invariant]
    closed spec fn in_bounds(self) -> bool {
        self.next_dir <= self.dirs@.len() && self.next_file <= self.files@.len()
    }

    /// Start a scan of the given directories.
    pub fn new(dirs: &Vec<String>) -> (scan: Scan)
        ensures
            scan@.dirs == dirs@.map_values(|s: String| s@),
            scan@.files == Seq::<Seq<char>>::empty(),
    {
        let mut copy: Vec<String> = Vec::new();
        let mut i: usize = 0;
        while i < dirs.len()
            invariant
                i <= dirs@.len(),
                copy@.len() == i,
                forall|k: int| 0 <= k < i ==> (#[trigger] copy@[k])@ == dirs@[k]@,
            decreases dirs@.len() - i,
        {
            copy.push(dirs[i].clone());
            i += 1;
        }
        let scan = Scan { dirs: copy, next_dir: 0, files: Vec::new(), next_file: 0 };
        assert(scan@.dirs =~= dirs@.map_values(|s: String| s@));
        assert(scan@.files =~= Seq::<Seq<char>>::empty());
        scan
    }

    /// What the scan needs next: the oldest file of the current directory looked up, or else the
    /// next directory listed.
    pub fn step(&self) -> (step: ScanStep)
        ensures
            match step {
                ScanStep::Lookup(name) => self@.files.len() > 0 && name@ == self@.files[0],
                ScanStep::ListDir(dir) => self@.files.len() == 0 && self@.dirs.len() > 0 && dir@
                    == self@.dirs[0],
                ScanStep::Nothing => self@.files.len() == 0 && self@.dirs.len() == 0,
            },
    {
        proof {
            use_type_invariant(self);
        }
        if self.next_file < self.files.len() {
            ScanStep::Lookup(self.files[self.next_file].1.clone())
        } else if self.next_dir < self.dirs.len() {
            ScanStep::ListDir(self.dirs[self.next_dir].clone())
        } else {
            ScanStep::Nothing
        }
    }

    /// Take in the listing of the directory that was to be listed.
    pub fn listed(
        &mut self,
        entries: &Vec<ScanEntry>,
        include_extensions: &Vec<String>,
        skip_extensions: &Vec<String>,
    )
        requires
            old(self)@.files.len() == 0,
            old(self)@.dirs.len() > 0,
        ensures
            final(self)@.dirs == old(self)@.dirs.skip(1),
            final(self)@.files == names(by_age(entries@, include_extensions@, skip_extensions@)),
    {
        proof {
            use_type_invariant(&*self);
            assert(self@.dirs.len() == self.dirs.len() - self.next_dir);
        }
        let files = order_by_age(entries, include_extensions, skip_extensions);
        self.next_file = 0;
        self.files = files;
        self.next_dir = self.next_dir + 1;
        assert(self@.dirs =~= old(self)@.dirs.skip(1));
        assert(self@.files =~= names(by_age(entries@, include_extensions@, skip_extensions@)));
    }

    /// Take in whether the name that was to be looked up is in the ledger. If it is not, the file
    /// is what the scan was for.
    pub fn looked_up(&mut self, known: bool) -> (found: Option<String>)
        requires
            old(self)@.files.len() > 0,
        ensures
            final(self)@.dirs == old(self)@.dirs,
            final(self)@.files == old(self)@.files.skip(1),
            match found {
                Some(name) => !known && name@ == old(self)@.files[0],
                None => known,
            },
    {
        proof {
            use_type_invariant(&*self);
            assert(self@.files.len() == self.files.len() - self.next_file);
        }
        let name = self.files[self.next_file].1.clone();
        self.next_file = self.next_file + 1;
        assert(self@.files =~= old(self)@.files.skip(1));
        if known {
            None
        } else {
            Some(name)
        }
    }
}

/// The file that a scan finds, given what listing each directory gives and which names the ledger
/// knows: the steps taken one after the other.
pub open spec fn outcome(
    scan: ScanView,
    listing: spec_fn(Seq<char>) -> Seq<Seq<char>>,
    known: spec_fn(Seq<char>) -> bool,
) -> Option<Seq<char>>
    decreases scan.dirs.len(), scan.files.len(),
{
    if scan.files.len() > 0 {
        if known(scan.files[0]) {
            outcome(ScanView { dirs: scan.dirs, files: scan.files.skip(1) }, listing, known)
        } else {
            Some(scan.files[0])
        }
    } else if scan.dirs.len() > 0 {
        outcome(
            ScanView { dirs: scan.dirs.skip(1), files: listing(scan.dirs[0]) },
            listing,
            known,
        )
    } else {
        None
    }
}

/// The first of a list of names that is not known.
pub open spec fn first_unknown(files: Seq<Seq<char>>, known: spec_fn(Seq<char>) -> bool) -> Option<
    Seq<char>,
>
    decreases files.len(),
{
    if files.len() == 0 {
        None
    } else if !known(files[0]) {
        Some(files[0])
    } else {
        first_unknown(files.skip(1), known)
    }
}

/// A scan looks through the current directory first, oldest file first, and goes on to the next
/// directory, in the order of the list, only where the ledger knows every file of it.
pub proof fn law_scan_order(
    scan: ScanView,
    listing: spec_fn(Seq<char>) -> Seq<Seq<char>>,
    known: spec_fn(Seq<char>) -> bool,
)
    ensures
        first_unknown(scan.files, known) is Some ==> outcome(scan, listing, known) == first_unknown(
            scan.files,
            known,
        ),
        first_unknown(scan.files, known) is None && scan.dirs.len() > 0 ==> outcome(
            scan,
            listing,
            known,
        ) == outcome(
            ScanView { dirs: scan.dirs.skip(1), files: listing(scan.dirs[0]) },
            listing,
            known,
        ),
        first_unknown(scan.files, known) is None && scan.dirs.len() == 0 ==> outcome(
            scan,
            listing,
            known,
        ) is None,
    decreases scan.files.len(),
{
    if scan.files.len() > 0 && known(scan.files[0]) {
        law_scan_order(ScanView { dirs: scan.dirs, files: scan.files.skip(1) }, listing, known);
    }
}

/// The files of a listing come oldest first, and they are exactly the eligible ones.
pub proof fn law_oldest_first(entries: Seq<ScanEntry>, wanted: Seq<String>, skip: Seq<String>)
    ensures
        forall|i: int, j: int|
            0 <= i <= j < by_age(entries, wanted, skip).len() ==> (#[trigger] by_age(
                entries,
                wanted,
                skip,
            )[i]).0 <= (#[trigger] by_age(entries, wanted, skip)[j]).0,
        forall|file: (i128, Seq<char>)|
            #[trigger] by_age(entries, wanted, skip).contains(file) <==> exists|k: int|
                0 <= k < entries.len() && eligible(#[trigger] entries[k], wanted, skip) && file
                    == (age_key(entries[k]), entries[k].path@),
    decreases entries.len(),
{
    if entries.len() > 0 {
        let first = entries.drop_last();
        law_oldest_first(first, wanted, skip);
        let e = entries.last();
        let rest = by_age(first, wanted, skip);
        let file = (age_key(e), e.path@);
        if eligible(e, wanted, skip) {
            lemma_placed_sorted(rest, file);
        }
        let list = by_age(entries, wanted, skip);
        assert forall|f: (i128, Seq<char>)| #[trigger] list.contains(f) <==> exists|k: int|
            0 <= k < entries.len() && eligible(#[trigger] entries[k], wanted, skip) && f == (
                age_key(entries[k]),
                entries[k].path@,
            ) by {
            if list.contains(f) {
                if eligible(e, wanted, skip) && f == file {
                    assert(entries[entries.len() - 1] == e);
                } else {
                    assert(rest.contains(f));
                    let k = choose|k: int|
                        0 <= k < first.len() && eligible(#[trigger] first[k], wanted, skip) && f
                            == (age_key(first[k]), first[k].path@);
                    assert(entries[k] == first[k]);
                }
            }
            if exists|k: int|
                0 <= k < entries.len() && eligible(#[trigger] entries[k], wanted, skip) && f == (
                    age_key(entries[k]),
                    entries[k].path@,
                ) {
                let k = choose|k: int|
                    0 <= k < entries.len() && eligible(#[trigger] entries[k], wanted, skip) && f
                        == (age_key(entries[k]), entries[k].path@);
                if k < first.len() {
                    assert(first[k] == entries[k]);
                    assert(rest.contains(f));
                }
            }
        }
    }
}

/// Whether an entry is one that a scan is for: eligible, and unknown to the ledger.
pub open spec fn unsent(
    e: ScanEntry,
    wanted: Seq<String>,
    skip: Seq<String>,
    known: spec_fn(Seq<char>) -> bool,
) -> bool {
    eligible(e, wanted, skip) && !known(e.path@)
}

/// Whether a listing has an unsent file.
pub open spec fn has_unsent(
    entries: Seq<ScanEntry>,
    wanted: Seq<String>,
    skip: Seq<String>,
    known: spec_fn(Seq<char>) -> bool,
) -> bool {
    exists|k: int| 0 <= k < entries.len() && unsent(#[trigger] entries[k], wanted, skip, known)
}

/// Whether a path is that of an unsent file of a listing, and no unsent file of it is older.
pub open spec fn is_oldest_unsent(
    entries: Seq<ScanEntry>,
    wanted: Seq<String>,
    skip: Seq<String>,
    known: spec_fn(Seq<char>) -> bool,
    path: Seq<char>,
) -> bool {
    exists|k: int|
        {
            &&& 0 <= k < entries.len()
            &&& unsent(#[trigger] entries[k], wanted, skip, known)
            &&& entries[k].path@ == path
            &&& forall|j: int|
                0 <= j < entries.len() && unsent(#[trigger] entries[j], wanted, skip, known)
                    ==> age_key(entries[k]) <= age_key(entries[j])
        }
}

/// Where the first unknown name of a list stands.
proof fn lemma_first_unknown(files: Seq<Seq<char>>, known: spec_fn(Seq<char>) -> bool)
    ensures
        match first_unknown(files, known) {
            None => forall|i: int| 0 <= i < files.len() ==> known(#[trigger] files[i]),
            Some(p) => !known(p) && exists|i: int|
                {
                    &&& 0 <= i < files.len()
                    &&& #[trigger] files[i] == p
                    &&& forall|j: int| 0 <= j < i ==> known(#[trigger] files[j])
                },
        },
    decreases files.len(),
{
    if files.len() > 0 && known(files[0]) {
        let rest = files.skip(1);
        lemma_first_unknown(rest, known);
        match first_unknown(files, known) {
            None => {
                assert forall|i: int| 0 <= i < files.len() implies known(#[trigger] files[i]) by {
                    if i > 0 {
                        assert(rest[i - 1] == files[i]);
                    }
                }
            },
            Some(p) => {
                let i = choose|i: int|
                    {
                        &&& 0 <= i < rest.len()
                        &&& #[trigger] rest[i] == p
                        &&& forall|j: int| 0 <= j < i ==> known(#[trigger] rest[j])
                    };
                assert(files[i + 1] == p);
                assert forall|j: int| 0 <= j < i + 1 implies known(#[trigger] files[j]) by {
                    if j > 0 {
                        assert(rest[j - 1] == files[j]);
                    }
                }
            },
        }
    } else if files.len() > 0 {
        assert(files[0] == first_unknown(files, known)->0);
    }
}

/// What looking through one directory finds.
proof fn lemma_listing_search(
    entries: Seq<ScanEntry>,
    wanted: Seq<String>,
    skip: Seq<String>,
    known: spec_fn(Seq<char>) -> bool,
)
    ensures
        match first_unknown(names(by_age(entries, wanted, skip)), known) {
            None => !has_unsent(entries, wanted, skip, known),
            Some(p) => has_unsent(entries, wanted, skip, known) && is_oldest_unsent(
                entries,
                wanted,
                skip,
                known,
                p,
            ),
        },
{
    let list = by_age(entries, wanted, skip);
    let files = names(list);
    law_oldest_first(entries, wanted, skip);
    lemma_first_unknown(files, known);
    match first_unknown(files, known) {
        None => {
            if has_unsent(entries, wanted, skip, known) {
                let k = choose|k: int|
                    0 <= k < entries.len() && unsent(#[trigger] entries[k], wanted, skip, known);
                let file = (age_key(entries[k]), entries[k].path@);
                assert(list.contains(file));
                let i = choose|i: int| 0 <= i < list.len() && list[i] == file;
                assert(known(files[i]));
            }
        },
        Some(p) => {
            let i = choose|i: int|
                {
                    &&& 0 <= i < files.len()
                    &&& #[trigger] files[i] == p
                    &&& forall|j: int| 0 <= j < i ==> known(#[trigger] files[j])
                };
            let file = list[i];
            assert(list.contains(file));
            let k = choose|k: int|
                0 <= k < entries.len() && eligible(#[trigger] entries[k], wanted, skip) && file == (
                    age_key(entries[k]),
                    entries[k].path@,
                );
            assert(unsent(entries[k], wanted, skip, known));
            assert forall|j: int|
                0 <= j < entries.len() && unsent(
                    #[trigger] entries[j],
                    wanted,
                    skip,
                    known,
                ) implies age_key(entries[k]) <= age_key(entries[j]) by {
                let other = (age_key(entries[j]), entries[j].path@);
                assert(list.contains(other));
                let l = choose|l: int| 0 <= l < list.len() && list[l] == other;
                assert(!known(files[l]));
                assert(list[i].0 <= list[l].0);
            }
        },
    }
}

/// A scan finds the oldest unsent file of the first directory that has one, and finds nothing
/// exactly where no directory has one.
pub proof fn law_scan_finds_the_oldest(
    dirs: Seq<Seq<char>>,
    listing: spec_fn(Seq<char>) -> Seq<ScanEntry>,
    wanted: Seq<String>,
    skip: Seq<String>,
    known: spec_fn(Seq<char>) -> bool,
)
    ensures
        match outcome(
            ScanView { dirs, files: seq![] },
            |d: Seq<char>| names(by_age(listing(d), wanted, skip)),
            known,
        ) {
            None => forall|d: int|
                0 <= d < dirs.len() ==> !has_unsent(
                    listing(#[trigger] dirs[d]),
                    wanted,
                    skip,
                    known,
                ),
            Some(path) => exists|d: int|
                {
                    &&& 0 <= d < dirs.len()
                    &&& is_oldest_unsent(listing(#[trigger] dirs[d]), wanted, skip, known, path)
                    &&& forall|c: int|
                        0 <= c < d ==> !has_unsent(listing(#[trigger] dirs[c]), wanted, skip, known)
                },
        },
    decreases dirs.len(),
{
    let lists = |d: Seq<char>| names(by_age(listing(d), wanted, skip));
    let start = ScanView { dirs, files: seq![] };
    law_scan_order(start, lists, known);
    if dirs.len() > 0 {
        let rest = dirs.skip(1);
        lemma_listing_search(listing(dirs[0]), wanted, skip, known);
        let opened = ScanView { dirs: rest, files: lists(dirs[0]) };
        law_scan_order(opened, lists, known);
        law_scan_order(ScanView { dirs: rest, files: seq![] }, lists, known);
        law_scan_finds_the_oldest(rest, listing, wanted, skip, known);
        match outcome(start, lists, known) {
            None => {
                assert forall|d: int| 0 <= d < dirs.len() implies !has_unsent(
                    listing(#[trigger] dirs[d]),
                    wanted,
                    skip,
                    known,
                ) by {
                    if d > 0 {
                        assert(rest[d - 1] == dirs[d]);
                    }
                }
            },
            Some(path) => {
                if first_unknown(lists(dirs[0]), known) is Some {
                    assert(is_oldest_unsent(listing(dirs[0]), wanted, skip, known, path));
                } else {
                    let e = choose|d: int|
                        {
                            &&& 0 <= d < rest.len()
                            &&& is_oldest_unsent(
                                listing(#[trigger] rest[d]),
                                wanted,
                                skip,
                                known,
                                path,
                            )
                            &&& forall|c: int|
                                0 <= c < d ==> !has_unsent(
                                    listing(#[trigger] rest[c]),
                                    wanted,
                                    skip,
                                    known,
                                )
                        };
                    assert(dirs[e + 1] == rest[e]);
                    assert forall|c: int| 0 <= c < e + 1 implies !has_unsent(
                        listing(#[trigger] dirs[c]),
                        wanted,
                        skip,
                        known,
                    ) by {
                        if c > 0 {
                            assert(rest[c - 1] == dirs[c]);
                        }
                    }
                }
            },
        }
    }
}

/// Placing a file keeps a list in order and adds that file only.
proof fn lemma_placed_sorted(list: Seq<(i128, Seq<char>)>, file: (i128, Seq<char>))
    requires
        forall|i: int, j: int|
            0 <= i <= j < list.len() ==> (#[trigger] list[i]).0 <= (#[trigger] list[j]).0,
    ensures
        forall|i: int, j: int|
            0 <= i <= j < placed(list, file).len() ==> (#[trigger] placed(list, file)[i]).0 <= (
            #[trigger] placed(list, file)[j]).0,
        forall|f: (i128, Seq<char>)|
            #[trigger] placed(list, file).contains(f) <==> list.contains(f) || f == file,
        placed(list, file).len() == list.len() + 1,
    decreases list.len(),
{
    let now = placed(list, file);
    if list.len() == 0 || list.last().0 <= file.0 {
        assert(now == list.push(file));
        assert forall|f: (i128, Seq<char>)| #[trigger] now.contains(f) <==> list.contains(f) || f
            == file by {
            if list.contains(f) {
                let i = choose|i: int| 0 <= i < list.len() && list[i] == f;
                assert(now[i] == f);
            }
            if f == file {
                assert(now[list.len() as int] == f);
            }
        }
    } else {
        let rest = list.drop_last();
        lemma_placed_sorted(rest, file);
        let p = placed(rest, file);
        assert(now == p.push(list.last()));
        assert forall|i: int| 0 <= i < p.len() implies (#[trigger] p[i]).0 <= list.last().0 by {
            assert(p.contains(p[i]));
            if rest.contains(p[i]) {
                let k = choose|k: int| 0 <= k < rest.len() && rest[k] == p[i];
                assert(list[k] == p[i]);
            }
        }
        assert forall|f: (i128, Seq<char>)| #[trigger] now.contains(f) <==> list.contains(f) || f
            == file by {
            if now.contains(f) {
                let i = choose|i: int| 0 <= i < now.len() && now[i] == f;
                if i < p.len() {
                    assert(p.contains(f));
                    if rest.contains(f) {
                        let k = choose|k: int| 0 <= k < rest.len() && rest[k] == f;
                        assert(list[k] == f);
                    }
                } else {
                    assert(list[list.len() - 1] == f);
                }
            }
            if list.contains(f) {
                let k = choose|k: int| 0 <= k < list.len() && list[k] == f;
                if k < rest.len() {
                    assert(rest[k] == f);
                    assert(p.contains(f));
                    let i = choose|i: int| 0 <= i < p.len() && p[i] == f;
                    assert(now[i] == f);
                } else {
                    assert(now[p.len() as int] == f);
                }
            }
            if f == file {
                assert(p.contains(f));
                let i = choose|i: int| 0 <= i < p.len() && p[i] == f;
                assert(now[i] == f);
            }
        }
    }
}

/// The precedence of the two extension lists: with both empty every file passes; a skip list alone
/// rejects what it matches; an include list alone accepts what it matches; with both a file has to
/// match the include list and not the skip list, so skip always wins.
pub proof fn law_filter_precedence(path: Seq<char>, wanted: Seq<String>, skip: Seq<String>)
    ensures
        wanted.len() == 0 && skip.len() == 0 ==> allowed(path, wanted, skip),
        wanted.len() == 0 ==> allowed(path, wanted, skip) == !matches_any(path, skip),
        wanted.len() > 0 && skip.len() == 0 ==> allowed(path, wanted, skip) == matches_any(
            path,
            wanted,
        ),
        wanted.len() > 0 ==> allowed(path, wanted, skip) == (matches_any(path, wanted)
            && !matches_any(path, skip)),
        matches_any(path, skip) ==> !allowed(path, wanted, skip),
{
}

/// How an extension is spelled does not matter: a leading dot may be there or not, and letters
/// may be in either case. An empty extension matches nothing.
pub proof fn law_extension_spelling(path: Seq<char>, ext: Seq<char>)
    ensures
        matches_ext(path, seq!['.'] + ext) == matches_ext(path, ext),
        matches_ext(path, lower(ext)) == matches_ext(path, ext),
        !matches_ext(path, Seq::empty()),
{
    assert((seq!['.'] + ext).skip(1) =~= ext);
    lemma_lower_dots(ext);
    assert(lower(lower(without_leading_dots(ext))) =~= lower(without_leading_dots(ext)));
}

/// Taking dots off and lowering letters can be done in either order.
proof fn lemma_lower_dots(s: Seq<char>)
    ensures
        without_leading_dots(lower(s)) == lower(without_leading_dots(s)),
    decreases s.len(),
{
    if s.len() > 0 {
        assert(lower(s)[0] == '.' <==> s[0] == '.');
        if s[0] == '.' {
            assert(lower(s).skip(1) =~= lower(s.skip(1)));
            lemma_lower_dots(s.skip(1));
        }
    }
}

/// What a listing gives: the files that pass the extension filter, but for a compressed file whose
/// original is still there. An entry is listed with the time of its last modification, or with that
/// of the epoch where it is not known, exactly where nothing on the skip list matches it, the
/// include list is empty or something on it matches, and it is not the case that its path ends in
/// `.bz2` or `.gz` and its original exists.
pub proof fn law_what_is_listed(
    entries: Seq<ScanEntry>,
    wanted: Seq<String>,
    skip: Seq<String>,
    time: i128,
    path: Seq<char>,
)
    ensures
        by_age(entries, wanted, skip).contains((time, path)) <==> exists|k: int|
            {
                &&& 0 <= k < entries.len()
                &&& (#[trigger] entries[k]).path@ == path
                &&& entries[k].modified_nanos == Some(time) || (entries[k].modified_nanos is None
                    && time == 0)
                &&& !(entries[k].original_exists && ((path.len() >= 4 && path.skip(
                    path.len() - 4,
                ) == seq!['.', 'b', 'z', '2']) || (path.len() >= 3 && path.skip(path.len() - 3)
                    == seq!['.', 'g', 'z'])))
                &&& forall|i: int|
                    0 <= i < skip.len() ==> !matches_ext(path, (#[trigger] skip[i])@)
                &&& wanted.len() == 0 || exists|i: int|
                    0 <= i < wanted.len() && matches_ext(path, (#[trigger] wanted[i])@)
            },
{
    law_oldest_first(entries, wanted, skip);
    lemma_compressed_tails(path);
}

/// The tails of the names of compressed files.
proof fn lemma_compressed_tails(path: Seq<char>)
    ensures
        original_of(path) is Some <==> (path.len() >= 4 && path.skip(path.len() - 4) == seq![
            '.',
            'b',
            'z',
            '2',
        ]) || (path.len() >= 3 && path.skip(path.len() - 3) == seq!['.', 'g', 'z']),
{
    reveal_strlit(".bz2");
    reveal_strlit(".gz");
    assert(".bz2"@ =~= seq!['.', 'b', 'z', '2']);
    assert(".gz"@ =~= seq!['.', 'g', 'z']);
}

/// The name of a compressed file is that of its original followed by `.bz2` or `.gz`, and whatever
/// is so named is taken for one.
pub proof fn law_original_of(stem: Seq<char>, path: Seq<char>)
    ensures
        original_of(stem + ".bz2"@) == Some(stem),
        original_of(stem + ".gz"@) == Some(stem),
        original_of(path) matches Some(s) ==> path == s + ".bz2"@ || path == s + ".gz"@,
{
    reveal_strlit(".bz2");
    reveal_strlit(".gz");
    let a = stem + ".bz2"@;
    assert(a.skip(stem.len() as int) =~= ".bz2"@);
    assert(a.take(stem.len() as int) =~= stem);
    let b = stem + ".gz"@;
    assert(b.skip(stem.len() as int) =~= ".gz"@);
    assert(b.take(stem.len() as int) =~= stem);
    if b.len() >= 4 && b.skip(b.len() - 4) == ".bz2"@ {
        assert(b.skip(b.len() - 4)[3] == b[b.len() - 1]);
        assert(".gz"@[2] == b[b.len() - 1]);
    }
    if let Some(s) = original_of(path) {
        if ends_with(path, ".bz2"@) {
            assert(path =~= s + ".bz2"@);
        } else {
            assert(path =~= s + ".gz"@);
        }
    }
}

/// A further entry joins a listing once or not at all, and moves none of the files that are there:
/// it comes behind all that are as old or older, and in front of all that are younger.
pub proof fn law_a_further_entry_takes_its_place(
    entries: Seq<ScanEntry>,
    e: ScanEntry,
    wanted: Seq<String>,
    skip: Seq<String>,
)
    ensures
        ({
            let list = by_age(entries, wanted, skip);
            let longer = by_age(entries.push(e), wanted, skip);
            ||| longer == list
            ||| exists|at: int, time: i128|
                {
                    &&& 0 <= at <= list.len()
                    &&& longer == #[trigger] list.insert(at, (time, e.path@))
                    &&& forall|i: int| 0 <= i < at ==> (#[trigger] list[i]).0 <= time
                    &&& forall|i: int| at <= i < list.len() ==> (#[trigger] list[i]).0 > time
                }
        }),
        by_age(Seq::empty(), wanted, skip).len() == 0,
{
    let list = by_age(entries, wanted, skip);
    assert(entries.push(e).drop_last() =~= entries);
    if eligible(e, wanted, skip) {
        let time = age_key(e);
        law_oldest_first(entries, wanted, skip);
        let at = lemma_place_in_order(list, time);
        lemma_placed(list, (time, e.path@), at);
        assert(by_age(entries.push(e), wanted, skip) == list.insert(at, (time, e.path@)));
    }
}

/// Where a time belongs in a list in order.
proof fn lemma_place_in_order(list: Seq<(i128, Seq<char>)>, time: i128) -> (at: int)
    requires
        forall|i: int, j: int|
            0 <= i <= j < list.len() ==> (#[trigger] list[i]).0 <= (#[trigger] list[j]).0,
    ensures
        0 <= at <= list.len(),
        forall|i: int| 0 <= i < at ==> (#[trigger] list[i]).0 <= time,
        forall|i: int| at <= i < list.len() ==> (#[trigger] list[i]).0 > time,
    decreases list.len(),
{
    if list.len() == 0 || list.last().0 <= time {
        assert forall|i: int| 0 <= i < list.len() implies (#[trigger] list[i]).0 <= time by {
            assert(list[i].0 <= list[list.len() - 1].0);
        }
        list.len() as int
    } else {
        let rest = list.drop_last();
        let at = lemma_place_in_order(rest, time);
        assert forall|i: int| 0 <= i < at implies (#[trigger] list[i]).0 <= time by {
            assert(rest[i] == list[i]);
        }
        assert forall|i: int| at <= i < list.len() implies (#[trigger] list[i]).0 > time by {
            if i < rest.len() {
                assert(rest[i] == list[i]);
            }
        }
        at
    }
}

/// A path matches an extension where its last component, with no regard to case, is something
/// followed by a dot and the extension without its leading dots, and only there.
pub proof fn law_extension_is_the_tail(path: Seq<char>, ext: Seq<char>, stem: Seq<char>)
    ensures
        ext.len() > 0 && ext[0] != '.' && lower(base_name(path)) == stem + seq!['.'] + lower(ext)
            ==> matches_ext(path, ext),
        matches_ext(path, ext) ==> without_leading_dots(ext).len() > 0 && exists|s: Seq<char>|
            lower(base_name(path)) == #[trigger] (s + seq!['.']) + lower(without_leading_dots(ext)),
{
    let name = lower(base_name(path));
    let body = lower(without_leading_dots(ext));
    if ext.len() > 0 && ext[0] != '.' && name == stem + seq!['.'] + lower(ext) {
        assert(name.skip(stem.len() as int) =~= seq!['.'] + body);
    }
    if matches_ext(path, ext) {
        let s = name.take(name.len() - body.len() - 1);
        let tail = name.skip(name.len() - body.len() - 1);
        assert(tail == seq!['.'] + body);
        assert(name =~= (s + seq!['.']) + body) by {
            assert(name =~= s + tail);
        }
    }
}

/// The names that a scan looks up are those of the listed files, in the same order.
pub proof fn law_names_keep_the_order(list: Seq<(i128, Seq<char>)>, i: int)
    requires
        0 <= i < list.len(),
    ensures
        names(list).len() == list.len(),
        names(list)[i] == list[i].1,
{
}

/// What a call says of an extension: it matches where the path's last component, with no regard to
/// case, ends in a dot and the extension, and in no other case; leading dots do not matter.
pub proof fn law_matching_an_extension(
    path: &str,
    ext: &str,
    yes: bool,
    dotted: &str,
    also: bool,
)
    requires
        dotted@ == seq!['.'] + ext@,
        call_ensures(matches_extension, (path, ext), yes),
        call_ensures(matches_extension, (path, dotted), also),
    ensures
        yes == also,
        ext@.len() == 0 ==> !yes,
        ext@.len() > 0 && ext@[0] != '.' ==> (yes <==> exists|s: Seq<char>|
            lower(base_name(path@)) == #[trigger] (s + seq!['.']) + lower(ext@)),
{
    law_extension_spelling(path@, ext@);
    if ext@.len() == 0 {
        assert(ext@ =~= Seq::empty());
    }
    if ext@.len() > 0 && ext@[0] != '.' {
        assert(without_leading_dots(ext@) == ext@);
        if exists|s: Seq<char>|
            lower(base_name(path@)) == #[trigger] (s + seq!['.']) + lower(ext@) {
            let s = choose|s: Seq<char>|
                lower(base_name(path@)) == #[trigger] (s + seq!['.']) + lower(ext@);
            law_extension_is_the_tail(path@, ext@, s);
        }
        law_extension_is_the_tail(path@, ext@, Seq::empty());
    }
}

/// Skipping an extension wins over including it; without a list of wanted extensions everything
/// else is let through, and with one only what it matches.
pub proof fn law_filter_by_extension(
    path: &str,
    wanted: Vec<String>,
    skip: Vec<String>,
    ok: bool,
)
    requires
        call_ensures(extension_allowed, (path, &wanted, &skip), ok),
    ensures
        ok <==> {
            &&& forall|i: int|
                0 <= i < skip@.len() ==> !matches_ext(path@, (#[trigger] skip@[i])@)
            &&& wanted@.len() == 0 || exists|i: int|
                0 <= i < wanted@.len() && matches_ext(path@, (#[trigger] wanted@[i])@)
        },
{
}

/// A file is still being compressed exactly where its name ends in `.bz2` or `.gz` and the file
/// without that ending is there.
pub proof fn law_what_is_being_compressed(
    path: &str,
    original_exists: bool,
    yes: bool,
    name: Option<String>,
)
    requires
        call_ensures(is_being_compressed, (path, original_exists), yes),
        call_ensures(uncompressed_name, (path,), name),
    ensures
        !original_exists ==> !yes,
        original_exists ==> (yes <==> name is Some),
        name is Some <==> (path@.len() >= 4 && path@.skip(path@.len() - 4) == seq![
            '.',
            'b',
            'z',
            '2',
        ]) || (path@.len() >= 3 && path@.skip(path@.len() - 3) == seq!['.', 'g', 'z']),
        name matches Some(n) ==> path@ == n@ + ".bz2"@ || path@ == n@ + ".gz"@,
{
    lemma_compressed_tails(path@);
    law_original_of(path@, path@);
}

/// A file counts as created when it was born, where that is known; or else when it was last
/// modified, where that is; or else now.
pub proof fn law_best_time_of_creation(
    created: Option<Timestamp>,
    modified: Option<Timestamp>,
    now: Timestamp,
    t: Timestamp,
)
    requires
        call_ensures(best_created, (created, modified, now), t),
    ensures
        created matches Some(c) ==> t == c,
        created is None && modified is Some ==> t == modified->0,
        created is None && modified is None ==> t == now,
{
}

/// The way of a scan: it first asks for the first directory to be listed; with the listing it asks
/// for the oldest file in it to be looked up; where the ledger knows that file it goes on to the
/// next, and where it does not, that file is what was found.
pub proof fn law_scan_goes_step_by_step(
    dirs: Vec<String>,
    scan: Scan,
    begin: ScanStep,
    listing: &mut Scan,
    entries: Vec<ScanEntry>,
    wanted: Vec<String>,
    skip: Vec<String>,
    next: ScanStep,
    looking: &mut Scan,
    known: bool,
    found: Option<String>,
)
    requires
        call_ensures(Scan::new, (&dirs,), scan),
        call_ensures(Scan::step, (&scan,), begin),
        old(listing)@ == scan@,
        dirs@.len() > 0,
        call_ensures(Scan::listed, (listing, &entries, &wanted, &skip), ()),
        call_ensures(Scan::step, (&*final(listing),), next),
        old(looking)@ == final(listing)@,
        next is Lookup,
        call_ensures(Scan::looked_up, (looking, known), found),
    ensures
        begin matches ScanStep::ListDir(dir) && dir@ == dirs@[0]@,
        final(listing)@.dirs.len() == dirs@.len() - 1,
        next matches ScanStep::Lookup(name) && final(listing)@.files[0] == name@,
        found is Some <==> !known,
        found matches Some(f) ==> f@ == next->Lookup_0@,
        final(looking)@.files == final(listing)@.files.skip(1),
        final(looking)@.dirs == final(listing)@.dirs,
        exists|k: int|
            {
                &&& 0 <= k < entries@.len()
                &&& (#[trigger] entries@[k]).path@ == next->Lookup_0@
                &&& forall|i: int|
                    0 <= i < skip@.len() ==> !matches_ext(
                        entries@[k].path@,
                        (#[trigger] skip@[i])@,
                    )
                &&& wanted@.len() == 0 || exists|i: int|
                    0 <= i < wanted@.len() && matches_ext(
                        entries@[k].path@,
                        (#[trigger] wanted@[i])@,
                    )
            },
{
    let list = by_age(entries@, wanted@, skip@);
    assert(names(list)[0] == list[0].1);
    assert(list.contains(list[0]));
    law_what_is_listed(entries@, wanted@, skip@, list[0].0, list[0].1);
}

/// What a scan takes in of a listing: exactly the files that pass the extension filter, but for a
/// compressed one whose original is still there. So a file that passes the filter and whose original
/// is not there is always among them. The directory that was listed is done with.
pub proof fn law_what_a_scan_takes_in(
    scan: &mut Scan,
    entries: Vec<ScanEntry>,
    wanted: Vec<String>,
    skip: Vec<String>,
    path: Seq<char>,
)
    requires
        call_ensures(Scan::listed, (scan, &entries, &wanted, &skip), ()),
    ensures
        final(scan)@.dirs == old(scan)@.dirs.skip(1),
        final(scan)@.files.contains(path) <==> exists|k: int|
            {
                &&& 0 <= k < entries@.len()
                &&& (#[trigger] entries@[k]).path@ == path
                &&& !(entries@[k].original_exists && ((path.len() >= 4 && path.skip(
                    path.len() - 4,
                ) == seq!['.', 'b', 'z', '2']) || (path.len() >= 3 && path.skip(path.len() - 3)
                    == seq!['.', 'g', 'z'])))
                &&& forall|i: int|
                    0 <= i < skip@.len() ==> !matches_ext(path, (#[trigger] skip@[i])@)
                &&& wanted@.len() == 0 || exists|i: int|
                    0 <= i < wanted@.len() && matches_ext(path, (#[trigger] wanted@[i])@)
            },
{
    let list = by_age(entries@, wanted@, skip@);
    let files = final(scan)@.files;
    if files.contains(path) {
        let i = choose|i: int| 0 <= i < files.len() && files[i] == path;
        assert(list.contains(list[i]));
        law_what_is_listed(entries@, wanted@, skip@, list[i].0, path);
    }
    if exists|k: int|
        {
            &&& 0 <= k < entries@.len()
            &&& (#[trigger] entries@[k]).path@ == path
            &&& !(entries@[k].original_exists && ((path.len() >= 4 && path.skip(path.len() - 4)
                == seq!['.', 'b', 'z', '2']) || (path.len() >= 3 && path.skip(path.len() - 3)
                == seq!['.', 'g', 'z'])))
            &&& forall|i: int| 0 <= i < skip@.len() ==> !matches_ext(path, (#[trigger] skip@[i])@)
            &&& wanted@.len() == 0 || exists|i: int|
                0 <= i < wanted@.len() && matches_ext(path, (#[trigger] wanted@[i])@)
        } {
        let k = choose|k: int|
            {
                &&& 0 <= k < entries@.len()
                &&& (#[trigger] entries@[k]).path@ == path
                &&& !(entries@[k].original_exists && ((path.len() >= 4 && path.skip(
                    path.len() - 4,
                ) == seq!['.', 'b', 'z', '2']) || (path.len() >= 3 && path.skip(path.len() - 3)
                    == seq!['.', 'g', 'z'])))
                &&& forall|i: int|
                    0 <= i < skip@.len() ==> !matches_ext(path, (#[trigger] skip@[i])@)
                &&& wanted@.len() == 0 || exists|i: int|
                    0 <= i < wanted@.len() && matches_ext(path, (#[trigger] wanted@[i])@)
            };
        let time = match entries@[k].modified_nanos {
            Some(t) => t,
            None => 0,
        };
        law_what_is_listed(entries@, wanted@, skip@, time, path);
        assert(list.contains((time, path)));
        let i = choose|i: int| 0 <= i < list.len() && list[i] == (time, path);
        assert(files[i] == path);
    }
}

} // verus!
