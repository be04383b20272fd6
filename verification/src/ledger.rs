//! The ledger of files the sender knows about: its rows, its records and its CSV export.
//!
//! The table itself is a SQLite database. This module says which column values a file is
//! registered with, how a row is read back as a [`FileRecord`], and what the CSV snapshot that is
//! shipped to ground holds.

use vstd::prelude::*;

use crate::text::{chars_of, decimal, decimal_i64, decimal_int, decimal_u64};
use crate::wire::{lemma_patterns_match, signed_pattern, to_signed, to_unsigned, unsigned_pattern};

verus! {

/// An instant: seconds since the epoch (negative before it) and nanoseconds within the second. In
/// a leap second the nanoseconds run on past a billion.
#[derive(Debug, Clone, Copy, PartialEq, Eq, Structural)]
pub struct Timestamp {
    /// Whole seconds since the epoch.
    pub secs: i64,
    /// Nanoseconds since the last whole second.
    pub nanos: u32,
}

/// Whether seconds and nanoseconds name an instant of the calendar that is in use: the years
/// -262143 to 262142.
pub open spec fn valid_instant(secs: i64, nanos: u32) -> bool {
    &&& -8_334_601_228_800 <= secs <= 8_210_266_876_799
    &&& nanos < 2_000_000_000
    &&& nanos >= 1_000_000_000 ==> secs % 60 == 59
}

/// Whether an instant lies in the years 0 to 9999, whose dates are written with four digits.
pub open spec fn four_digit_year(secs: i64) -> bool {
    -62_167_219_200 <= secs <= 253_402_300_799
}

impl Timestamp {
    /// The instant is one of the calendar.
    pub open spec fn valid(self) -> bool {
        valid_instant(self.secs, self.nanos)
    }

    /// Whether the instant is one of the calendar.
    pub fn is_valid(&self) -> (ok: bool)
        ensures
            ok == self.valid(),
    {
        -8_334_601_228_800 <= self.secs && self.secs <= 8_210_266_876_799 && self.nanos
            < 2_000_000_000 && (self.nanos < 1_000_000_000 || {
            let r: i64 = self.secs % 60;
            if r < 0 {
                r + 60 == 59
            } else {
                r == 59
            }
        })
    }
}

/// An instant in RFC 3339 form.
pub uninterp spec fn rfc3339_text(secs: i64, nanos: u32) -> Seq<char>;

/// The instant that a text in RFC 3339 form names, or `None` for any other text.
pub uninterp spec fn rfc3339_instant(text: Seq<char>) -> Option<(i64, u32)>;

/// `chrono::DateTime::to_rfc3339`, of the UTC instant that `chrono::DateTime::from_timestamp`
/// makes of the arguments. The contract names the text as a function of the instant, and says that
/// a text for a year of four digits names that same instant.
#[verifier::external_body]
fn to_rfc3339(secs: i64, nanos: u32) -> (text: String)
    requires
        valid_instant(secs, nanos),
    ensures
        text@ == rfc3339_text(secs, nanos),
        four_digit_year(secs) ==> rfc3339_instant(text@) == Some((secs, nanos)),
{
    chrono::DateTime::from_timestamp(secs, nanos).unwrap_or_default().to_rfc3339()
}

/// `chrono::DateTime::parse_from_rfc3339`, as seconds and nanoseconds since the epoch. The
/// contract names the result as a function of the text, and says that it is an instant of the
/// calendar.
#[verifier::external_body]
fn parse_from_rfc3339(text: &str) -> (instant: Option<(i64, u32)>)
    ensures
        instant == rfc3339_instant(text@),
        instant matches Some(t) ==> valid_instant(t.0, t.1),
{
    match chrono::DateTime::parse_from_rfc3339(text) {
        Ok(t) => Some((t.timestamp(), t.timestamp_subsec_nanos())),
        Err(_) => None,
    }
}

/// One record of the ledger.
#[derive(Debug, Clone)]
pub struct FileRecord {
    /// Stable identifier this file gets across all systems.
    pub file_id: i64,
    /// Absolute or repo-relative path on the sender.
    pub file_name: String,
    /// File size in bytes when first registered.
    pub file_size: u64,
    /// File creation timestamp (best-effort; `mtime` is used if `birthtime` is unavailable).
    pub created_at: Timestamp,
    /// Calibration counter.
    pub images_per_dark: u32,
    /// Calibration counter.
    pub images_per_flat: u32,
    /// Calibration counter.
    pub images_per_bias: u32,
    /// `false` if the file disappeared from disk after being registered.
    pub still_exists: bool,
    /// Datagram size used when this file was chunked.
    pub chunk_size: u32,
    /// Optional sha256 hex digest, populated lazily.
    pub sha256: Option<String>,
}

/// The column values that a file is registered with. The database assigns the id.
#[derive(Debug, Clone)]
pub struct NewRow {
    pub file_name: String,
    pub file_size: i64,
    pub created_at: String,
    pub images_per_dark: i64,
    pub images_per_flat: i64,
    pub images_per_bias: i64,
    pub still_exists: i64,
    pub chunk_size: i64,
}

/// The column values of a row.
#[derive(Debug, Clone)]
pub struct Row {
    pub file_id: i64,
    pub file_name: String,
    pub file_size: i64,
    pub created_at: String,
    pub images_per_dark: i64,
    pub images_per_flat: i64,
    pub images_per_bias: i64,
    pub still_exists: i64,
    pub chunk_size: i64,
    pub sha256: Option<String>,
}

/// The low 32 bits of a number's bit pattern.
pub open spec fn low_bits(x: i64) -> u32 {
    (unsigned_pattern(x) % 0x1_0000_0000) as u32
}

/// The low 32 bits of a number's bit pattern.
fn low_u32(x: i64) -> (v: u32)
    ensures
        v == low_bits(x),
{
    (to_unsigned(x) % 0x1_0000_0000) as u32
}

/// What to do to register a file.
#[derive(Debug, Clone)]
pub enum Upsert {
    /// The file is known by its name: its id stays, and its row is left alone.
    Reuse(i64),
    /// Insert the row; the database assigns the id.
    Insert(NewRow),
}

/// What to do to register a file, given the id of the row that has its name, if one has.
pub open spec fn upsert_of(existing: Option<i64>, row: NewRow) -> Upsert {
    match existing {
        Some(id) => Upsert::Reuse(id),
        None => Upsert::Insert(row),
    }
}

/// What to do to register a file, given the id of the row that has its name, if one has.
pub fn upsert_file(existing: Option<i64>, row: NewRow) -> (todo: Upsert)
    ensures
        todo == upsert_of(existing, row),
{
    match existing {
        Some(id) => Upsert::Reuse(id),
        None => Upsert::Insert(row),
    }
}

/// Whether a row holds what a file is registered with.
pub open spec fn registers(
    row: NewRow,
    name: Seq<char>,
    size: u64,
    created: Timestamp,
    counters: (u32, u32, u32),
    chunk_size: u32,
) -> bool {
    &&& row.file_name@ == name
    &&& row.file_size == signed_pattern(size as int)
    &&& row.created_at@ == rfc3339_text(created.secs, created.nanos)
    &&& four_digit_year(created.secs) ==> rfc3339_instant(row.created_at@) == Some(
        (created.secs, created.nanos),
    )
    &&& row.images_per_dark == counters.0
    &&& row.images_per_flat == counters.1
    &&& row.images_per_bias == counters.2
    &&& row.still_exists == 1
    &&& row.chunk_size == chunk_size
}

/// The row that a file is registered with.
pub fn new_row(
    name: &str,
    size: u64,
    created: Timestamp,
    images_per_dark: u32,
    images_per_flat: u32,
    images_per_bias: u32,
    chunk_size: u32,
) -> (row: NewRow)
    requires
        created.valid(),
    ensures
        registers(
            row,
            name@,
            size,
            created,
            (images_per_dark, images_per_flat, images_per_bias),
            chunk_size,
        ),
{
    NewRow {
        file_name: name.to_owned(),
        file_size: to_signed(size),
        created_at: to_rfc3339(created.secs, created.nanos),
        images_per_dark: images_per_dark as i64,
        images_per_flat: images_per_flat as i64,
        images_per_bias: images_per_bias as i64,
        still_exists: 1,
        chunk_size: chunk_size as i64,
    }
}

/// Whether a record is what a row says, at the instant `now`. A creation time that cannot be read
/// counts as now.
pub open spec fn record_of(row: Row, now: Timestamp, rec: FileRecord) -> bool {
    &&& rec.file_id == row.file_id
    &&& rec.file_name@ == row.file_name@
    &&& rec.file_size == unsigned_pattern(row.file_size)
    &&& rec.created_at == match rfc3339_instant(row.created_at@) {
        Some(t) => Timestamp { secs: t.0, nanos: t.1 },
        None => now,
    }
    &&& rec.images_per_dark == low_bits(row.images_per_dark)
    &&& rec.images_per_flat == low_bits(row.images_per_flat)
    &&& rec.images_per_bias == low_bits(row.images_per_bias)
    &&& rec.still_exists == (row.still_exists != 0)
    &&& rec.chunk_size == low_bits(row.chunk_size)
    &&& match row.sha256 {
        Some(s) => rec.sha256 matches Some(t) && t@ == s@,
        None => rec.sha256 is None,
    }
}

/// Reads a row as a record.
pub fn row_to_record(row: Row, now: Timestamp) -> (rec: FileRecord)
    requires
        now.valid(),
    ensures
        record_of(row, now, rec),
        rec.created_at.valid(),
{
    let created_at = match parse_from_rfc3339(row.created_at.as_str()) {
        Some((secs, nanos)) => Timestamp { secs, nanos },
        None => now,
    };
    FileRecord {
        file_id: row.file_id,
        file_name: row.file_name,
        file_size: to_unsigned(row.file_size),
        created_at,
        images_per_dark: low_u32(row.images_per_dark),
        images_per_flat: low_u32(row.images_per_flat),
        images_per_bias: low_u32(row.images_per_bias),
        still_exists: row.still_exists != 0,
        chunk_size: low_u32(row.chunk_size),
        sha256: row.sha256,
    }
}

/// Whether a row of the table is a registered one, under the id that the database gave it.
pub open spec fn stored(new: NewRow, row: Row) -> bool {
    &&& row.file_name@ == new.file_name@
    &&& row.file_size == new.file_size
    &&& row.created_at@ == new.created_at@
    &&& row.images_per_dark == new.images_per_dark
    &&& row.images_per_flat == new.images_per_flat
    &&& row.images_per_bias == new.images_per_bias
    &&& row.still_exists == new.still_exists
    &&& row.chunk_size == new.chunk_size
    &&& row.sha256 is None
}

/// A file that was registered is read back as it was registered, whatever its size; its creation
/// time too, for the years that are written with four digits.
pub proof fn law_registered_file_reads_back(
    new: NewRow,
    row: Row,
    rec: FileRecord,
    now: Timestamp,
    name: Seq<char>,
    size: u64,
    created: Timestamp,
    counters: (u32, u32, u32),
    chunk_size: u32,
)
    requires
        registers(new, name, size, created, counters, chunk_size),
        stored(new, row),
        record_of(row, now, rec),
    ensures
        rec.file_id == row.file_id,
        rec.file_name@ == name,
        rec.file_size == size,
        four_digit_year(created.secs) ==> rec.created_at == created,
        rec.images_per_dark == counters.0,
        rec.images_per_flat == counters.1,
        rec.images_per_bias == counters.2,
        rec.still_exists,
        rec.chunk_size == chunk_size,
        rec.sha256 is None,
{
    lemma_patterns_match(size, 0);
}

/// The table of files: its rows, in the order in which they were inserted, and the highest id that
/// has been assigned.
pub struct Table {
    pub rows: Seq<Row>,
    pub highest: int,
}

impl Table {
    /// No two rows have the same name or the same id, and no id is above the highest.
    pub open spec fn valid(self) -> bool {
        &&& forall|i: int, j: int|
            0 <= i < j < self.rows.len() ==> (#[trigger] self.rows[i]).file_name@ != (
            #[trigger] self.rows[j]).file_name@ && self.rows[i].file_id != self.rows[j].file_id
        &&& forall|i: int| 0 <= i < self.rows.len() ==> (#[trigger] self.rows[i]).file_id
            <= self.highest
    }

    /// Whether looking a name up gives the given id, or nothing.
    pub open spec fn finds(self, name: Seq<char>, id: Option<i64>) -> bool {
        match id {
            Some(id) => exists|i: int|
                0 <= i < self.rows.len() && (#[trigger] self.rows[i]).file_name@ == name
                    && self.rows[i].file_id == id,
            None => forall|i: int|
                0 <= i < self.rows.len() ==> (#[trigger] self.rows[i]).file_name@ != name,
        }
    }

    /// Whether doing what registering a file calls for gives another table and an id: a new row
    /// gets an id above every one that has been assigned.
    pub open spec fn becomes(self, todo: Upsert, after: Table, id: i64) -> bool {
        match todo {
            Upsert::Reuse(known) => after == self && id == known,
            Upsert::Insert(new) => {
                &&& after.rows.len() == self.rows.len() + 1
                &&& after.rows.drop_last() == self.rows
                &&& stored(new, after.rows.last())
                &&& after.rows.last().file_id == id
                &&& id > self.highest
                &&& after.highest == id
            },
        }
    }
}

/// Registering a file is idempotent. A name that is known keeps its id, and no row changes; a new
/// name adds one row with the values it was registered with, under an id above every one assigned
/// before, and leaves the others as they are. Either way the name is found under the id that was
/// returned, so that registering it again returns the same id, and every other name is found as
/// before.
pub proof fn law_registering_is_idempotent(
    before: Table,
    after: Table,
    existing: Option<i64>,
    new: NewRow,
    id: i64,
    name: Seq<char>,
    size: u64,
    created: Timestamp,
    counters: (u32, u32, u32),
    chunk_size: u32,
)
    requires
        before.valid(),
        before.finds(name, existing),
        registers(new, name, size, created, counters, chunk_size),
        before.becomes(upsert_of(existing, new), after, id),
    ensures
        after.valid(),
        after.finds(name, Some(id)),
        forall|again: Option<i64>| #[trigger] after.finds(name, again) ==> again == Some(id),
        forall|other: Seq<char>, found: Option<i64>|
            other != name ==> #[trigger] after.finds(other, found) == before.finds(other, found),
        existing matches Some(known) ==> id == known && after == before,
        existing is None ==> {
            &&& after.rows.len() == before.rows.len() + 1
            &&& after.rows.drop_last() == before.rows
            &&& id > before.highest
            &&& after.rows.last().file_id == id
            &&& after.rows.last().sha256 is None
            &&& forall|now: Timestamp, rec: FileRecord| #[trigger]
                record_of(after.rows.last(), now, rec) ==> {
                    &&& rec.file_id == id
                    &&& rec.file_name@ == name
                    &&& rec.file_size == size
                    &&& four_digit_year(created.secs) ==> rec.created_at == created
                    &&& rec.images_per_dark == counters.0
                    &&& rec.images_per_flat == counters.1
                    &&& rec.images_per_bias == counters.2
                    &&& rec.still_exists
                    &&& rec.chunk_size == chunk_size
                    &&& rec.sha256 is None
                }
        },
{
    let n = before.rows.len() as int;
    if existing is None {
        let row = after.rows.last();
        assert(after.rows[n] == row);
        assert forall|i: int| 0 <= i < n implies after.rows[i] == before.rows[i] by {
            assert(after.rows.drop_last()[i] == after.rows[i]);
        }
        assert forall|now: Timestamp, rec: FileRecord| #[trigger] record_of(row, now, rec) implies {
            &&& rec.file_id == id
            &&& rec.file_name@ == name
            &&& rec.file_size == size
            &&& four_digit_year(created.secs) ==> rec.created_at == created
            &&& rec.images_per_dark == counters.0
            &&& rec.images_per_flat == counters.1
            &&& rec.images_per_bias == counters.2
            &&& rec.still_exists
            &&& rec.chunk_size == chunk_size
            &&& rec.sha256 is None
        } by {
            law_registered_file_reads_back(
                new,
                row,
                rec,
                now,
                name,
                size,
                created,
                counters,
                chunk_size,
            );
        }
        assert(row.file_name@ == name);
        assert forall|other: Seq<char>, found: Option<i64>| other != name implies #[trigger] after.finds(
            other,
            found,
        ) == before.finds(other, found) by {
            match found {
                Some(f) => {
                    if before.finds(other, found) {
                        let i = choose|i: int|
                            0 <= i < n && (#[trigger] before.rows[i]).file_name@ == other
                                && before.rows[i].file_id == f;
                        assert(after.rows[i].file_name@ == other);
                    }
                    if after.finds(other, found) {
                        let i = choose|i: int|
                            0 <= i < n + 1 && (#[trigger] after.rows[i]).file_name@ == other
                                && after.rows[i].file_id == f;
                        assert(before.rows[i].file_name@ == other);
                    }
                },
                None => {
                    if after.finds(other, found) {
                        assert forall|i: int| 0 <= i < n implies (
                        #[trigger] before.rows[i]).file_name@ != other by {
                            assert(after.rows[i].file_name@ != other);
                        }
                    }
                },
            }
        }
    }
    assert forall|again: Option<i64>| #[trigger] after.finds(name, again) implies again == Some(
        id,
    ) by {
        let i = choose|i: int|
            0 <= i < after.rows.len() && (#[trigger] after.rows[i]).file_name@ == name
                && after.rows[i].file_id == id;
        assert(after.finds(name, Some(id)));
        match again {
            Some(other) => {
                let j = choose|j: int|
                    0 <= j < after.rows.len() && (#[trigger] after.rows[j]).file_name@ == name
                        && after.rows[j].file_id == other;
                if i < j {
                    assert(after.rows[i].file_name@ != after.rows[j].file_name@);
                } else if j < i {
                    assert(after.rows[j].file_name@ != after.rows[i].file_name@);
                }
            },
            None => {
                assert(after.rows[i].file_name@ != name);
            },
        }
    }
}

/// Whether a text has a character that a CSV field cannot hold bare.
pub open spec fn needs_quotes(s: Seq<char>) -> bool {
    s.contains(',') || s.contains('"') || s.contains('\n')
}

/// A text with its quotation marks doubled.
pub open spec fn doubled(s: Seq<char>) -> Seq<char>
    decreases s.len(),
{
    if s.len() == 0 {
        seq![]
    } else if s.last() == '"' {
        doubled(s.drop_last()).push('"').push('"')
    } else {
        doubled(s.drop_last()).push(s.last())
    }
}

/// A text as a CSV field.
pub open spec fn csv_field(s: Seq<char>) -> Seq<char> {
    if needs_quotes(s) {
        seq!['"'] + doubled(s) + seq!['"']
    } else {
        s
    }
}

/// Writes a text as a CSV field.
pub fn csv_escape(s: &str) -> (field: String)
    ensures
        field@ == csv_field(s@),
{
    let chars = chars_of(s);
    let mut quotes: bool = false;
    let mut body = String::new();
    let mut i: usize = 0;
    assert(chars@.take(0) =~= Seq::empty());
    while i < chars.len()
        invariant
            i <= chars@.len(),
            body@ == doubled(chars@.take(i as int)),
            quotes == (exists|j: int|
                0 <= j < i && (#[trigger] chars@[j] == ',' || chars@[j] == '"' || chars@[j]
                    == '\n')),
        decreases chars@.len() - i,
    {
        let c: char = chars[i];
        assert(chars@.take(i + 1).drop_last() =~= chars@.take(i as int));
        if c == ',' || c == '"' || c == '\n' {
            quotes = true;
        }
        if c == '"' {
            body.push('"');
        }
        body.push(c);
        i += 1;
    }
    assert(chars@.take(chars@.len() as int) =~= chars@);
    assert(quotes == needs_quotes(s@)) by {
        if quotes {
            let j = choose|j: int|
                0 <= j < chars@.len() && (#[trigger] chars@[j] == ',' || chars@[j] == '"'
                    || chars@[j] == '\n');
            assert(s@.contains(s@[j]));
        }
    }
    if quotes {
        let mut field = String::new();
        field.push('"');
        field.append(body.as_str());
        field.push('"');
        assert(field@ =~= csv_field(s@));
        field
    } else {
        s.to_owned()
    }
}

/// The header line of the CSV export.
pub open spec fn csv_header() -> Seq<char> {
    "file_id,file_name,file_size,created_at,images_per_dark,images_per_flat,images_per_bias,still_exists,chunk_size,sha256\n"@
}

/// The line of the CSV export for a record.
pub open spec fn csv_line(r: FileRecord) -> Seq<char> {
    decimal_int(r.file_id as int) + ","@ + csv_field(r.file_name@) + ","@ + decimal(
        r.file_size as nat,
    ) + ","@ + rfc3339_text(r.created_at.secs, r.created_at.nanos) + ","@ + decimal(
        r.images_per_dark as nat,
    ) + ","@ + decimal(r.images_per_flat as nat) + ","@ + decimal(r.images_per_bias as nat) + ","@
        + (if r.still_exists {
        "t"@
    } else {
        "f"@
    }) + ","@ + decimal(r.chunk_size as nat) + ","@ + (match r.sha256 {
        Some(s) => s@,
        None => Seq::empty(),
    }) + "\n"@
}

/// The CSV export of a list of records.
pub open spec fn csv_text(records: Seq<FileRecord>) -> Seq<char>
    decreases records.len(),
{
    if records.len() == 0 {
        csv_header()
    } else {
        csv_text(records.drop_last()) + csv_line(records.last())
    }
}

/// Writes the line of the CSV export for a record.
fn csv_record(r: &FileRecord) -> (line: String)
    requires
        r.created_at.valid(),
    ensures
        line@ == csv_line(*r),
{
    let mut line = decimal_i64(r.file_id);
    line.append(",");
    line.append(csv_escape(r.file_name.as_str()).as_str());
    line.append(",");
    line.append(decimal_u64(r.file_size).as_str());
    line.append(",");
    line.append(to_rfc3339(r.created_at.secs, r.created_at.nanos).as_str());
    line.append(",");
    line.append(decimal_u64(r.images_per_dark as u64).as_str());
    line.append(",");
    line.append(decimal_u64(r.images_per_flat as u64).as_str());
    line.append(",");
    line.append(decimal_u64(r.images_per_bias as u64).as_str());
    line.append(",");
    if r.still_exists {
        line.append("t");
    } else {
        line.append("f");
    }
    line.append(",");
    line.append(decimal_u64(r.chunk_size as u64).as_str());
    line.append(",");
    match &r.sha256 {
        Some(s) => line.append(s.as_str()),
        None => {
            proof {
                let before = line@;
                assert(before + Seq::empty() =~= before);
            }
        },
    }
    line.append("\n");
    line
}

/// The ledger as a CSV text, used to ship a synchronisation snapshot to ground.
pub fn dump_csv(records: &Vec<FileRecord>) -> (text: String)
    requires
        forall|i: int| 0 <= i < records@.len() ==> (#[trigger] records@[i]).created_at.valid(),
    ensures
        text@ == csv_text(records@),
{
    let mut text =
        "file_id,file_name,file_size,created_at,images_per_dark,images_per_flat,images_per_bias,still_exists,chunk_size,sha256\n".to_owned();
    let mut i: usize = 0;
    assert(records@.take(0) =~= Seq::empty());
    while i < records.len()
        invariant
            i <= records@.len(),
            forall|i: int| 0 <= i < records@.len() ==> (#[trigger] records@[i]).created_at.valid(),
            text@ == csv_text(records@.take(i as int)),
        decreases records@.len() - i,
    {
        assert(records@.take(i + 1).drop_last() =~= records@.take(i as int));
        text.append(csv_record(&records[i]).as_str());
        i += 1;
    }
    assert(records@.take(records@.len() as int) =~= records@);
    text
}

/// What a reader makes of the inside of a quoted CSV field: each pair of quotation marks is one.
/// `None` where a quotation mark stands alone.
pub open spec fn halved(s: Seq<char>) -> Option<Seq<char>>
    decreases s.len(),
{
    if s.len() == 0 {
        Some(seq![])
    } else if s.last() != '"' {
        match halved(s.drop_last()) {
            Some(t) => Some(t.push(s.last())),
            None => None,
        }
    } else if s.len() >= 2 && s[s.len() - 2] == '"' {
        match halved(s.drop_last().drop_last()) {
            Some(t) => Some(t.push('"')),
            None => None,
        }
    } else {
        None
    }
}

/// Reading a CSV field gives back the text that was written, quoted or not, and an unquoted field
/// has nothing in it that would end the field or the line.
pub proof fn law_csv_field_reads_back(s: Seq<char>)
    ensures
        halved(doubled(s)) == Some(s),
        needs_quotes(s) ==> csv_field(s).len() >= 2 && csv_field(s)[0] == '"' && csv_field(s).last()
            == '"' && csv_field(s).subrange(1, csv_field(s).len() - 1) == doubled(s),
        !needs_quotes(s) ==> csv_field(s) == s && !s.contains(',') && !s.contains('\n')
            && !s.contains('"'),
{
    lemma_halved_doubled(s);
    if needs_quotes(s) {
        assert(csv_field(s).subrange(1, csv_field(s).len() - 1) =~= doubled(s));
    }
}

/// Halving undoes doubling.
proof fn lemma_halved_doubled(s: Seq<char>)
    ensures
        halved(doubled(s)) == Some(s),
    decreases s.len(),
{
    if s.len() > 0 {
        let rest = s.drop_last();
        lemma_halved_doubled(rest);
        let d = doubled(rest);
        assert(s =~= rest.push(s.last()));
        if s.last() == '"' {
            assert(d.push('"').push('"').drop_last() =~= d.push('"'));
            assert(d.push('"').drop_last() =~= d);
        } else {
            assert(d.push(s.last()).drop_last() =~= d);
        }
    } else {
        assert(s =~= seq![]);
    }
}

/// What the columns of a new row hold: the name as it is, the size (one of 2^63 or more wrapped into
/// the negative numbers), the calibration counters and the chunk size as they are, and a mark that
/// the file is there.
pub proof fn law_what_a_new_row_holds(
    row: NewRow,
    name: Seq<char>,
    size: u64,
    created: Timestamp,
    counters: (u32, u32, u32),
    chunk_size: u32,
)
    requires
        registers(row, name, size, created, counters, chunk_size),
    ensures
        row.file_name@ == name,
        size <= i64::MAX ==> row.file_size == size,
        size > i64::MAX ==> row.file_size == size - 0x1_0000_0000_0000_0000,
        row.created_at@ == rfc3339_text(created.secs, created.nanos),
        row.images_per_dark == counters.0,
        row.images_per_flat == counters.1,
        row.images_per_bias == counters.2,
        row.still_exists == 1,
        row.chunk_size == chunk_size,
{
}

/// What a record says of a row, column by column, whatever the row holds: text as it is; the size
/// and the counters modulo the width of their fields; a file as gone only where its mark is zero;
/// and now in place of a creation time that cannot be read.
pub proof fn law_what_a_record_says(row: Row, now: Timestamp, rec: FileRecord)
    requires
        record_of(row, now, rec),
    ensures
        rec.file_id == row.file_id,
        rec.file_name@ == row.file_name@,
        row.file_size >= 0 ==> rec.file_size == row.file_size,
        row.file_size < 0 ==> rec.file_size == row.file_size + 0x1_0000_0000_0000_0000,
        rfc3339_instant(row.created_at@) matches Some(t) ==> rec.created_at.secs == t.0
            && rec.created_at.nanos == t.1,
        rfc3339_instant(row.created_at@) is None ==> rec.created_at == now,
        rec.images_per_dark == row.images_per_dark as int % 0x1_0000_0000,
        rec.images_per_flat == row.images_per_flat as int % 0x1_0000_0000,
        rec.images_per_bias == row.images_per_bias as int % 0x1_0000_0000,
        rec.chunk_size == row.chunk_size as int % 0x1_0000_0000,
        !rec.still_exists <==> row.still_exists == 0,
        rec.sha256 is Some <==> row.sha256 is Some,
        row.sha256 matches Some(s) ==> rec.sha256->0@ == s@,
{
    lemma_low_bits(row.images_per_dark);
    lemma_low_bits(row.images_per_flat);
    lemma_low_bits(row.images_per_bias);
    lemma_low_bits(row.chunk_size);
}

/// The low bits of a number are what it is modulo 2^32.
proof fn lemma_low_bits(x: i64)
    ensures
        low_bits(x) == x as int % 0x1_0000_0000,
{
}

/// A text is quoted where it has a comma, a quotation mark or a line break in it, and only there.
/// In quotes each quotation mark stands twice, and everything else as it is.
pub proof fn law_what_is_quoted(s: Seq<char>, c: char)
    ensures
        csv_field(s) == s <==> !(s.contains(',') || s.contains('"') || s.contains('\n')),
        s.contains(',') || s.contains('"') || s.contains('\n') ==> csv_field(s) == seq!['"']
            + doubled(s) + seq!['"'],
        doubled(s.push(c)) == doubled(s) + (if c == '"' {
            seq!['"', '"']
        } else {
            seq![c]
        }),
        doubled(Seq::empty()).len() == 0,
{
    assert(s.push(c).drop_last() =~= s);
    assert(doubled(s.push(c)) =~= doubled(s) + (if c == '"' {
        seq!['"', '"']
    } else {
        seq![c]
    }));
    if needs_quotes(s) {
        lemma_doubled_length(s);
        assert(csv_field(s).len() == doubled(s).len() + 2);
    }
}

/// Doubling makes no text shorter.
proof fn lemma_doubled_length(s: Seq<char>)
    ensures
        doubled(s).len() >= s.len(),
    decreases s.len(),
{
    if s.len() > 0 {
        lemma_doubled_length(s.drop_last());
    }
}

/// What a line of the export says, from left to right, in the order of the header: the id, the
/// name as a field of its own, the size, the creation time, the three calibration counters, `t` or
/// `f` for a file that is there or gone, the chunk size, and the digest where there is one.
pub proof fn law_what_a_line_of_the_export_says(r: FileRecord)
    ensures
        csv_line(r) == decimal_int(r.file_id as int) + ","@ + csv_field(r.file_name@) + ","@
            + decimal_int(r.file_size as int) + ","@ + rfc3339_text(
            r.created_at.secs,
            r.created_at.nanos,
        ) + ","@ + decimal_int(r.images_per_dark as int) + ","@ + decimal_int(
            r.images_per_flat as int,
        ) + ","@ + decimal_int(r.images_per_bias as int) + ","@ + (if r.still_exists {
            "t"@
        } else {
            "f"@
        }) + ","@ + decimal_int(r.chunk_size as int) + ","@ + (if r.sha256 is Some {
            r.sha256->0@
        } else {
            Seq::empty()
        }) + "\n"@,
        csv_header()
            == "file_id,file_name,file_size,created_at,images_per_dark,images_per_flat,images_per_bias,still_exists,chunk_size,sha256\n"@,
{
}

/// The export is the header and then a line for each record, in order.
pub proof fn law_export_goes_record_by_record(records: Seq<FileRecord>, r: FileRecord)
    ensures
        csv_text(Seq::empty()) == csv_header(),
        csv_text(records.push(r)) == csv_text(records) + csv_line(r),
{
    assert(records.push(r).drop_last() =~= records);
}

/// The instants that are accepted: those of the calendar's years, with the nanoseconds of a second,
/// and of a leap second only at the end of a minute.
pub proof fn law_instants_of_the_calendar(t: Timestamp)
    ensures
        t.nanos < 1_000_000_000 ==> (t.valid() <==> -8_334_601_228_800 <= t.secs
            <= 8_210_266_876_799),
        1_000_000_000 <= t.nanos < 2_000_000_000 ==> (t.valid() <==> -8_334_601_228_800 <= t.secs
            <= 8_210_266_876_799 && (t.secs + 1) % 60 == 0),
        t.nanos >= 2_000_000_000 ==> !t.valid(),
{
}

/// A file whose name is known is not registered anew, and one whose name is not is registered with
/// its row.
pub proof fn law_known_files_are_reused(existing: Option<i64>, row: NewRow)
    ensures
        existing matches Some(id) ==> upsert_of(existing, row) == Upsert::Reuse(id),
        existing is None ==> upsert_of(existing, row) == Upsert::Insert(row),
{
}

/// A file that is registered and read back from its row is as it was registered.
pub proof fn law_register_and_read_back(
    name: &str,
    size: u64,
    created: Timestamp,
    dark: u32,
    flat: u32,
    bias: u32,
    chunk_size: u32,
    new: NewRow,
    todo: Upsert,
    row: Row,
    now: Timestamp,
    rec: FileRecord,
)
    requires
        created.valid(),
        now.valid(),
        call_ensures(new_row, (name, size, created, dark, flat, bias, chunk_size), new),
        call_ensures(upsert_file, (None::<i64>, new), todo),
        todo matches Upsert::Insert(inserted) && stored(inserted, row),
        call_ensures(row_to_record, (row, now), rec),
    ensures
        rec.file_id == row.file_id,
        rec.file_name@ == name@,
        rec.file_size == size,
        four_digit_year(created.secs) ==> rec.created_at == created,
        rec.images_per_dark == dark,
        rec.images_per_flat == flat,
        rec.images_per_bias == bias,
        rec.chunk_size == chunk_size,
        rec.still_exists,
        rec.sha256 is None,
{
    law_registered_file_reads_back(
        new,
        row,
        rec,
        now,
        name@,
        size,
        created,
        (dark, flat, bias),
        chunk_size,
    );
}

/// An export with one more record is the export without it and one more line, which names the file
/// so that a reader gets the name back.
pub proof fn law_export_grows_by_a_line(
    records: Vec<FileRecord>,
    longer: Vec<FileRecord>,
    r: FileRecord,
    name: &str,
    text: String,
    more: String,
    field: String,
)
    requires
        longer@ == records@.push(r),
        name@ == r.file_name@,
        call_ensures(dump_csv, (&records,), text),
        call_ensures(dump_csv, (&longer,), more),
        call_ensures(csv_escape, (name,), field),
    ensures
        more@ == text@ + csv_line(r),
        csv_line(r).subrange(
            decimal_int(r.file_id as int).len() + 1int,
            decimal_int(r.file_id as int).len() + 1int + field@.len(),
        ) == field@,
        !(name@.contains(',') || name@.contains('"') || name@.contains('\n')) ==> field@ == name@,
{
    law_export_goes_record_by_record(records@, r);
    law_what_is_quoted(name@, ',');
    reveal_strlit(",");
    let n = decimal_int(r.file_id as int).len() as int;
    let line = csv_line(r);
    assert(line.subrange(n + 1, n + 1 + field@.len()) =~= field@);
}

} // verus!
