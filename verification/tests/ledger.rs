use parachuter::ledger::{
    csv_escape, dump_csv, new_row, row_to_record, upsert_file, FileRecord, NewRow, Row, Timestamp,
    Upsert,
};
use rusqlite::{Connection, OptionalExtension};

/// A ledger on a database in memory.
struct Ledger {
    db: Connection,
}

fn now() -> Timestamp {
    let t = chrono::Utc::now();
    Timestamp { secs: t.timestamp(), nanos: t.timestamp_subsec_nanos() }
}

fn row_of(r: &rusqlite::Row<'_>) -> rusqlite::Result<Row> {
    Ok(Row {
        file_id: r.get(0)?,
        file_name: r.get(1)?,
        file_size: r.get(2)?,
        created_at: r.get(3)?,
        images_per_dark: r.get(4)?,
        images_per_flat: r.get(5)?,
        images_per_bias: r.get(6)?,
        still_exists: r.get(7)?,
        chunk_size: r.get(8)?,
        sha256: r.get(9)?,
    })
}

impl Ledger {
    fn open() -> Ledger {
        let db = Connection::open_in_memory().unwrap();
        db.execute_batch(
            "CREATE TABLE files (file_id INTEGER PRIMARY KEY AUTOINCREMENT,
             file_name TEXT NOT NULL UNIQUE, file_size INTEGER NOT NULL, created_at TEXT NOT NULL,
             images_per_dark INTEGER, images_per_flat INTEGER, images_per_bias INTEGER,
             still_exists INTEGER, chunk_size INTEGER, sha256 TEXT);",
        )
        .unwrap();
        Ledger { db }
    }

    fn upsert(
        &mut self,
        name: &str,
        size: u64,
        created: Timestamp,
        ipd: u32,
        ipf: u32,
        ipb: u32,
        chunk_size: u32,
    ) -> i64 {
        let existing: Option<i64> = self
            .db
            .query_row("SELECT file_id FROM files WHERE file_name = ?1", (name,), |r| r.get(0))
            .optional()
            .unwrap();
        match upsert_file(existing, new_row(name, size, created, ipd, ipf, ipb, chunk_size)) {
            Upsert::Reuse(id) => id,
            Upsert::Insert(row) => self.insert(row),
        }
    }

    fn insert(&mut self, r: NewRow) -> i64 {
        self.db
            .execute(
                "INSERT INTO files (file_name, file_size, created_at, images_per_dark,
                 images_per_flat, images_per_bias, still_exists, chunk_size)
                 VALUES (?1, ?2, ?3, ?4, ?5, ?6, ?7, ?8)",
                (
                    r.file_name,
                    r.file_size,
                    r.created_at,
                    r.images_per_dark,
                    r.images_per_flat,
                    r.images_per_bias,
                    r.still_exists,
                    r.chunk_size,
                ),
            )
            .unwrap();
        self.db.last_insert_rowid()
    }

    fn mark_gone(&mut self, name: &str) {
        self.db
            .execute("UPDATE files SET still_exists = 0 WHERE file_name = ?1", (name,))
            .unwrap();
    }

    fn all(&self) -> Vec<FileRecord> {
        let mut stmt = self.db.prepare("SELECT * FROM files ORDER BY file_id").unwrap();
        let rows = stmt.query_map([], row_of).unwrap();
        rows.map(|r| row_to_record(r.unwrap(), now())).collect()
    }

    fn get_by_name(&self, name: &str) -> Option<FileRecord> {
        self.all().into_iter().find(|r| r.file_name == name)
    }
}

#[test]
fn upsert_is_idempotent() {
    let mut l = Ledger::open(); // "ledger.sqlite"
    let id1 = l.upsert("/data/foo.fits", 100, now(), 0, 0, 0, 16192);
    let id2 = l.upsert("/data/foo.fits", 100, now(), 0, 0, 0, 16192);
    assert_eq!(id1, id2);
}

#[test]
fn mark_gone_persists() {
    let mut l = Ledger::open();
    l.upsert("/data/x.bin", 1, now(), 0, 0, 0, 16192);
    l.mark_gone("/data/x.bin");
    let r = l.get_by_name("/data/x.bin").unwrap();
    assert!(!r.still_exists);
}

#[test]
fn ledger_upsert_is_idempotent() {
    let mut l = Ledger::open();
    let now = now();
    let id1 = l.upsert("/data/foo.fits", 100, now, 0, 0, 0, 16192);
    let id2 = l.upsert("/data/foo.fits", 100, now, 0, 0, 0, 16192);
    assert_eq!(id1, id2, "same name must yield same file_id");
}

#[test]
fn ledger_mark_gone_persists() {
    let mut l = Ledger::open();
    l.upsert("/data/x.bin", 1, now(), 0, 0, 0, 16192);
    l.mark_gone("/data/x.bin");
    let r = l.get_by_name("/data/x.bin").unwrap();
    assert!(!r.still_exists);
}

#[test]
fn ledger_csv_dump_is_parseable() {
    let mut l = Ledger::open();
    let now = now();
    l.upsert("/science/img_001.fits", 123456, now, 5, 3, 2, 16192);
    l.upsert("/science/img_002.fits", 7890, now, 5, 3, 2, 16192);

    // "out.csv"
    let content = dump_csv(&l.all());
    let mut lines = content.lines();
    let header = lines.next().unwrap();
    assert!(header.starts_with("file_id,file_name,file_size"), "bad CSV header: {header}");
    let rows: Vec<&str> = lines.collect();
    assert_eq!(rows.len(), 2);
    assert!(rows[0].contains("/science/img_001.fits"));
    assert!(rows[1].contains("/science/img_002.fits"));
}

#[test]
fn registered_file_reads_back() {
    let mut l = Ledger::open();
    for (size, t) in [
        (0u64, Timestamp { secs: 0, nanos: 0 }),
        (u64::MAX, Timestamp { secs: 1_700_000_000, nanos: 123_456_789 }),
        (7, Timestamp { secs: -62_167_219_200, nanos: 0 }),
        (8, Timestamp { secs: 253_402_300_799, nanos: 999_999_999 }),
        (9, Timestamp { secs: 59, nanos: 1_500_000_000 }),
    ] {
        assert!(t.is_valid());
        let name = format!("f{size}");
        let id = l.upsert(&name, size, t, 1, 2, u32::MAX, 16192);
        let r = l.get_by_name(&name).unwrap();
        assert_eq!(r.file_id, id);
        assert_eq!(r.file_size, size);
        assert_eq!(r.created_at, t);
        assert_eq!((r.images_per_dark, r.images_per_flat, r.images_per_bias), (1, 2, u32::MAX));
        assert!(r.still_exists);
        assert_eq!(r.chunk_size, 16192);
        assert_eq!(r.sha256, None);
    }
}

#[test]
fn registering_leaves_other_rows_alone() {
    let mut l = Ledger::open();
    let t = Timestamp { secs: 5, nanos: 6 };
    let a = l.upsert("a", 1, t, 0, 0, 0, 64);
    let b = l.upsert("b", 2, t, 0, 0, 0, 64);
    assert!(b > a);
    let show = |l: &Ledger| format!("{:?}", l.all());
    let before = show(&l);
    assert_eq!(l.upsert("a", 9, now(), 9, 9, 9, 99), a);
    assert_eq!(show(&l), before, "a known name changes no row");
    let c = l.upsert("c", 3, t, 0, 0, 0, 64);
    assert!(c > b);
    assert_eq!(l.all().len(), 3);
    assert_eq!(format!("{:?}", &l.all()[..2]), before);
}

#[test]
fn creation_time_is_written_in_rfc3339() {
    let row = new_row("n", 1, Timestamp { secs: 1_431_648_000, nanos: 5_000_000 }, 0, 0, 0, 64);
    assert_eq!(row.created_at, "2015-05-15T00:00:00.005+00:00");
    assert_eq!(row.still_exists, 1);
}

#[test]
fn unreadable_creation_time_counts_as_now() {
    let row = |text: &str| Row {
        file_id: 1,
        file_name: "n".into(),
        file_size: -1,
        created_at: text.into(),
        images_per_dark: -1,
        images_per_flat: 0x1_0000_0002,
        images_per_bias: 0,
        still_exists: 2,
        chunk_size: 64,
        sha256: Some("ab".into()),
    };
    let now = Timestamp { secs: 77, nanos: 1 };
    let r = row_to_record(row("yesterday"), now);
    assert_eq!(r.created_at, now);
    assert_eq!(r.file_size, u64::MAX);
    assert_eq!((r.images_per_dark, r.images_per_flat), (u32::MAX, 2));
    assert!(r.still_exists);
    assert_eq!(r.sha256.as_deref(), Some("ab"));
    let r = row_to_record(row("1996-12-19T16:39:57-08:00"), now);
    assert_eq!(r.created_at, Timestamp { secs: 851_042_397, nanos: 0 });
}

#[test]
fn instants_outside_the_calendar_are_not_valid() {
    assert!(!Timestamp { secs: i64::MAX, nanos: 0 }.is_valid());
    assert!(!Timestamp { secs: i64::MIN, nanos: 0 }.is_valid());
    assert!(!Timestamp { secs: 0, nanos: 2_000_000_000 }.is_valid());
    assert!(!Timestamp { secs: 0, nanos: 1_000_000_000 }.is_valid());
    assert!(Timestamp { secs: 59, nanos: 1_000_000_000 }.is_valid());
    assert!(Timestamp { secs: -1, nanos: 1_000_000_000 }.is_valid());
    for (secs, ok) in [
        (-8_334_601_228_801i64, false),
        (-8_334_601_228_800, true),
        (8_210_266_876_799, true),
        (8_210_266_876_800, false),
    ] {
        assert_eq!(Timestamp { secs, nanos: 0 }.is_valid(), ok);
        assert_eq!(chrono::DateTime::from_timestamp(secs, 0).is_some(), ok);
    }
}

#[test]
fn csv_fields_are_quoted_where_needed() {
    assert_eq!(csv_escape("plain"), "plain");
    assert_eq!(csv_escape(""), "");
    assert_eq!(csv_escape("a,b"), "\"a,b\"");
    assert_eq!(csv_escape("a\nb"), "\"a\nb\"");
    assert_eq!(csv_escape("say \"hi\""), "\"say \"\"hi\"\"\"");
}

#[test]
fn csv_lines_are_exact() {
    let rec = FileRecord {
        file_id: -4,
        file_name: "a,b".into(),
        file_size: 10,
        created_at: Timestamp { secs: 0, nanos: 0 },
        images_per_dark: 1,
        images_per_flat: 2,
        images_per_bias: 3,
        still_exists: false,
        chunk_size: 64,
        sha256: Some("ff".into()),
    };
    let mut gone = rec.clone();
    gone.still_exists = true;
    gone.sha256 = None;
    assert_eq!(
        dump_csv(&vec![rec, gone]),
        "file_id,file_name,file_size,created_at,images_per_dark,images_per_flat,images_per_bias,still_exists,chunk_size,sha256\n\
         -4,\"a,b\",10,1970-01-01T00:00:00+00:00,1,2,3,f,64,ff\n\
         -4,\"a,b\",10,1970-01-01T00:00:00+00:00,1,2,3,t,64,\n"
    );
}
