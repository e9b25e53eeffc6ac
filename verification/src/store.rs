//! The store writer: a fixed-schema table keyed by codepoint, created if
//! absent and populated exactly once. The table is reached only through
//! the `Store` handle, whose trusted constructors create the table when it
//! is absent and refuse a database whose table differs from the fixed
//! schema; the handle's contents are modeled as a map from codepoint to
//! stored row, and the handle is assumed to be the database's one writer
//! while it lives.

use vstd::prelude::*;
use crate::record::RecordModel;
use crate::record_map::{records_map, RecordMap};
use crate::error::BuildError;

verus! {

#[verifier::external_type_specification]
#[verifier::external_body]
pub struct ExConnection(rusqlite::Connection);

#[verifier::external_type_specification]
#[verifier::external_body]
pub struct ExSqlError(rusqlite::Error);

/// A handle on the per-codepoint store. One exists only for a database
/// whose `UnicodeData` table carries exactly the fixed schema: the
/// constructors create the table where it is absent and refuse anything
/// else, so every handle's table keys its rows by a unique, in-range
/// codepoint and types every column.
pub struct Store {
    pub(crate) conn: rusqlite::Connection,
}

/// One stored row, keyed by its codepoint: the fifteen non-key columns of
/// the table, at their declared types.
pub ghost struct StoredRow {
    pub name: Seq<char>,
    pub category: Seq<char>,
    pub block: Seq<char>,
    pub age: Seq<char>,
    pub canonical_combining_class: u32,
    pub bidi_class: Seq<char>,
    pub bidi_mirrored: bool,
    pub decomposition_type: Option<Seq<char>>,
    pub decomposition_mapping: Option<Seq<char>>,
    pub numeric_type: Option<Seq<char>>,
    pub numeric_value: Option<Seq<char>>,
    pub lowercase_mapping: Option<u32>,
    pub uppercase_mapping: Option<u32>,
    pub titlecase_mapping: Option<u32>,
    pub html_entity: Option<Seq<char>>,
}

/// The contents of the handle's table: one entry per row, keyed by the
/// codepoint column. The schema behind every handle keys rows uniquely by
/// an integer codepoint within the codepoint value range and types every
/// column strictly, so each row has exactly one image here.
pub uninterp spec fn store_rows(s: Store) -> Map<u32, StoredRow>;

pub open spec fn view_of_opt_str(o: Option<&str>) -> Option<Seq<char>> {
    match o {
        Some(s) => Some(s@),
        None => None,
    }
}

/// How one record is laid down as a stored row: enumerations written as
/// their codes, everything else carried over.
pub open spec fn row_of_record(r: RecordModel) -> StoredRow {
    StoredRow {
        name: r.name,
        category: r.category.code_spec(),
        block: r.block,
        age: r.age,
        canonical_combining_class: r.canonical_combining_class,
        bidi_class: r.bidi_class.code_spec(),
        bidi_mirrored: r.bidi_mirrored,
        decomposition_type: r.decomposition_type,
        decomposition_mapping: r.decomposition_mapping,
        numeric_type: match r.numeric_type {
            Some(t) => Some(t.code_spec()),
            None => None,
        },
        numeric_value: r.numeric_value,
        lowercase_mapping: r.lowercase_mapping,
        uppercase_mapping: r.uppercase_mapping,
        titlecase_mapping: r.titlecase_mapping,
        html_entity: r.html_entity,
    }
}

/// The stored image of a whole record sequence, later records overwriting
/// earlier ones at the same codepoint.
pub open spec fn stored_map_of(recs: Seq<RecordModel>) -> Map<u32, StoredRow>
    decreases recs.len(),
{
    if recs.len() == 0 {
        Map::empty()
    } else {
        stored_map_of(recs.drop_last()).insert(
            recs.last().codepoint,
            row_of_record(recs.last()),
        )
    }
}

/// The stored image of a record sequence is its keyed contents laid down
/// row by row: the same codepoints, and at each one the stored row of the
/// record that stands there.
pub proof fn lemma_stored_map_matches_records(recs: Seq<RecordModel>)
    ensures
        forall|cp: u32|
            #[trigger] stored_map_of(recs).dom().contains(cp) <==> records_map(
                recs,
            ).dom().contains(cp),
        forall|cp: u32|
            #[trigger] records_map(recs).dom().contains(cp) ==> stored_map_of(recs)[cp]
                == row_of_record(records_map(recs)[cp]),
    decreases recs.len(),
{
    if recs.len() > 0 {
        let t = recs.drop_last();
        let last = recs.last();
        lemma_stored_map_matches_records(t);
        assert forall|cp: u32|
            #[trigger] stored_map_of(recs).dom().contains(cp) <==> records_map(
            recs,
        ).dom().contains(cp) by {
            if cp != last.codepoint {
                assert(stored_map_of(recs).dom().contains(cp) <==> stored_map_of(
                    t,
                ).dom().contains(cp));
                assert(records_map(recs).dom().contains(cp) <==> records_map(t).dom().contains(cp));
            }
        }
        assert forall|cp: u32|
            #[trigger] records_map(recs).dom().contains(cp) implies stored_map_of(recs)[cp]
            == row_of_record(records_map(recs)[cp]) by {
            if cp != last.codepoint {
                assert(records_map(t).dom().contains(cp));
                assert(stored_map_of(recs)[cp] == stored_map_of(t)[cp]);
                assert(records_map(recs)[cp] == records_map(t)[cp]);
            }
        }
    }
}

/// Relies on rusqlite's `execute` and `query_row`, and on SQLite
/// recording a table's statement text minus the existence clause: runs
/// `CREATE TABLE IF NOT EXISTS` for the fixed schema, reads the recorded
/// text back, and accepts the connection exactly when the live table's
/// text is the fixed schema's. The schema keys rows by a strictly typed
/// integer codepoint, unique and checked against the codepoint value
/// range, so every accepted table fits the contents model.
#[verifier::external_body]
fn attach_store(conn: rusqlite::Connection) -> Option<Store> {
    let create = "CREATE TABLE IF NOT EXISTS UnicodeData (codepoint INTEGER NOT NULL PRIMARY KEY CHECK (codepoint >= 0 AND codepoint <= 4294967295), name TEXT NOT NULL, category TEXT NOT NULL, block TEXT NOT NULL, age TEXT NOT NULL, canonical_combining_class INTEGER NOT NULL, bidi_class TEXT NOT NULL, bidi_mirrored INTEGER NOT NULL, decomposition_type TEXT, decomposition_mapping TEXT, numeric_type TEXT, numeric_value TEXT, lowercase_mapping INTEGER, uppercase_mapping INTEGER, titlecase_mapping INTEGER, html_entity TEXT) WITHOUT ROWID, STRICT";
    conn.execute(create, ()).ok()?;
    let recorded: String = conn
        .query_row(
            "SELECT sql FROM sqlite_master WHERE type = 'table' AND name = 'UnicodeData'",
            (),
            |row| row.get(0),
        )
        .ok()?;
    let expected = format!("CREATE TABLE {}", &create["CREATE TABLE IF NOT EXISTS ".len()..]);
    if recorded == expected {
        Some(Store { conn })
    } else {
        None
    }
}

/// Relies on rusqlite's `Connection::open_in_memory`: a fresh, empty
/// in-memory database, whose table the attachment then creates empty.
#[verifier::external_body]
fn raw_open_in_memory() -> (r: Option<Store>)
    ensures
        match r {
            Some(s) => store_rows(s) == Map::<u32, StoredRow>::empty(),
            None => true,
        },
{
    let conn = rusqlite::Connection::open_in_memory().ok()?;
    attach_store(conn)
}

/// Relies on rusqlite's `Connection::open`: the database at the path,
/// created when absent; the attachment then creates or verifies the
/// table, so an existing table of another shape is refused.
#[verifier::external_body]
fn raw_open_path(path: &str) -> (r: Option<Store>) {
    let conn = rusqlite::Connection::open(path).ok()?;
    attach_store(conn)
}

impl Store {
    /// Opens a fresh in-memory store: its table exists and holds nothing.
    pub fn open_in_memory() -> (r: Result<Store, BuildError>)
        ensures
            r is Ok ==> store_rows(r->Ok_0) == Map::<u32, StoredRow>::empty(),
            r is Err ==> r->Err_0 == BuildError::StoreFailure,
    {
        match raw_open_in_memory() {
            Some(s) => Ok(s),
            None => Err(BuildError::StoreFailure),
        }
    }

    /// Opens the store at the path, creating the database and the table
    /// where they are absent; a database whose table differs from the
    /// fixed schema is refused.
    pub fn open(path: &str) -> (r: Result<Store, BuildError>)
        ensures
            r is Err ==> r->Err_0 == BuildError::StoreFailure,
    {
        match raw_open_path(path) {
            Some(s) => Ok(s),
            None => Err(BuildError::StoreFailure),
        }
    }

    /// How many codepoints the store holds.
    pub fn count(&self) -> (r: Result<u32, BuildError>)
        ensures
            r is Ok ==> r->Ok_0 as nat == store_rows(*self).dom().len(),
            r is Err ==> r->Err_0 == BuildError::StoreFailure,
    {
        match count_rows(self) {
            Ok(n) => Ok(n),
            Err(_) => Err(BuildError::StoreFailure),
        }
    }

    /// Relies on nothing: hands the underlying connection back out, for
    /// callers that inspect or ship the finished database themselves.
    #[verifier::external_body]
    pub fn into_connection(self) -> rusqlite::Connection {
        self.conn
    }
}

/// Relies on `Connection::query_row` running `SELECT COUNT(*)`: the
/// number of rows of the table. Every row of a handle's table keys a
/// distinct in-range codepoint, so the count is the size of the contents'
/// domain, always finite; an error when the count does not fit.
#[verifier::external_body]
fn count_rows(s: &Store) -> (r: Result<u32, rusqlite::Error>)
    ensures
        r is Ok ==> r->Ok_0 as nat == store_rows(*s).dom().len() && store_rows(
            *s,
        ).dom().finite(),
{
    s.conn.query_row("SELECT COUNT(*) FROM UnicodeData", (), |row| row.get::<usize, u32>(0))
}

/// Relies on `Connection::execute` running one `INSERT` statement: on
/// success exactly the given row is added under its codepoint; a failed
/// statement (a duplicate key, a violated check) changes nothing.
#[verifier::external_body]
fn insert_row(
    s: &mut Store,
    cp: u32,
    name: &str,
    category: &str,
    block: &str,
    age: &str,
    ccc: u32,
    bidi_class: &str,
    bidi_mirrored: bool,
    decomposition_type: Option<&str>,
    decomposition_mapping: Option<&str>,
    numeric_type: Option<&str>,
    numeric_value: Option<&str>,
    lowercase_mapping: Option<u32>,
    uppercase_mapping: Option<u32>,
    titlecase_mapping: Option<u32>,
    html_entity: Option<&str>,
) -> (r: Result<(), rusqlite::Error>)
    ensures
        r is Ok ==> store_rows(*final(s)) == store_rows(*old(s)).insert(
            cp,
            StoredRow {
                name: name@,
                category: category@,
                block: block@,
                age: age@,
                canonical_combining_class: ccc,
                bidi_class: bidi_class@,
                bidi_mirrored: bidi_mirrored,
                decomposition_type: view_of_opt_str(decomposition_type),
                decomposition_mapping: view_of_opt_str(decomposition_mapping),
                numeric_type: view_of_opt_str(numeric_type),
                numeric_value: view_of_opt_str(numeric_value),
                lowercase_mapping: lowercase_mapping,
                uppercase_mapping: uppercase_mapping,
                titlecase_mapping: titlecase_mapping,
                html_entity: view_of_opt_str(html_entity),
            },
        ),
        r is Err ==> store_rows(*final(s)) == store_rows(*old(s)),
{
    let r = s.conn.execute(
        "INSERT INTO UnicodeData VALUES (?1,?2,?3,?4,?5,?6,?7,?8,?9,?10,?11,?12,?13,?14,?15,?16)",
        (
            cp, name, category, block, age, ccc, bidi_class, bidi_mirrored,
            decomposition_type, decomposition_mapping, numeric_type, numeric_value,
            lowercase_mapping, uppercase_mapping, titlecase_mapping, html_entity,
        ),
    );
    match r {
        Ok(_) => Ok(()),
        Err(e) => Err(e),
    }
}

fn opt_as_str(o: &Option<String>) -> (r: Option<&str>)
    ensures
        view_of_opt_str(r) == crate::record::view_of_opt_string(*o),
{
    match o {
        Some(s) => Some(s.as_str()),
        None => None,
    }
}

/// What one successful writer run does to the store: a store already
/// holding rows is left untouched, an empty one receives the whole
/// record sequence.
pub open spec fn writer_post(
    before: Map<u32, StoredRow>,
    after: Map<u32, StoredRow>,
    recs: Seq<RecordModel>,
) -> bool {
    (before.dom().len() > 0 && after == before) || (before.dom().len() == 0 && after
        == stored_map_of(recs))
}

/// Every codepoint of the sequence is stored, and nothing else is.
pub proof fn lemma_stored_map_dom(recs: Seq<RecordModel>)
    ensures
        forall|cp: u32|
            #[trigger] stored_map_of(recs).dom().contains(cp) <==> exists|i: int|
                0 <= i < recs.len() && #[trigger] recs[i].codepoint == cp,
    decreases recs.len(),
{
    if recs.len() > 0 {
        let t = recs.drop_last();
        lemma_stored_map_dom(t);
        assert forall|cp: u32| #[trigger] stored_map_of(recs).dom().contains(cp) implies exists|
            i: int,
        | 0 <= i < recs.len() && #[trigger] recs[i].codepoint == cp by {
            if cp == recs.last().codepoint {
                assert(recs[recs.len() - 1].codepoint == cp);
            } else {
                assert(stored_map_of(t).dom().contains(cp));
                let i = choose|i: int| 0 <= i < t.len() && #[trigger] t[i].codepoint == cp;
                assert(recs[i].codepoint == cp);
            }
        }
        assert forall|cp: u32|
            exists|i: int| 0 <= i < recs.len() && #[trigger] recs[i].codepoint == cp implies (
        #[trigger] stored_map_of(recs).dom().contains(cp)) by {
            let i = choose|i: int| 0 <= i < recs.len() && #[trigger] recs[i].codepoint == cp;
            if i < recs.len() - 1 {
                assert(t[i].codepoint == cp);
                assert(stored_map_of(t).dom().contains(cp));
            } else {
                assert(cp == recs.last().codepoint);
            }
        }
    }
}

/// Invoking the store writer twice against one record set, starting from
/// an empty store, yields exactly the one stored image of the set: one
/// row per codepoint, never two.
pub proof fn lemma_store_writer_idempotent(
    first: Map<u32, StoredRow>,
    mid: Map<u32, StoredRow>,
    last: Map<u32, StoredRow>,
    recs: Seq<RecordModel>,
)
    requires
        first.dom().len() == 0,
        writer_post(first, mid, recs),
        writer_post(mid, last, recs),
    ensures
        last == stored_map_of(recs),
        forall|cp: u32|
            #[trigger] last.dom().contains(cp) <==> exists|i: int|
                0 <= i < recs.len() && #[trigger] recs[i].codepoint == cp,
{
    lemma_stored_map_dom(recs);
}

/// Populates the store exactly once: one already holding rows is left
/// untouched, an empty one receives every record, walked in the map's
/// ascending codepoint order, so repeating the call never duplicates a
/// row. The table itself stands from the handle's opening. A failed run
/// leaves either the untouched store or the image of a prefix of the
/// records.
pub fn save_to_database(store: &mut Store, map: &RecordMap) -> (r: Result<(), BuildError>)
    ensures
        match r {
            Ok(()) => writer_post(store_rows(*old(store)), store_rows(*final(store)), map@),
            Err(e) => e == BuildError::StoreFailure && (store_rows(*final(store)) == store_rows(
                *old(store),
            ) || exists|k: int|
                0 <= k <= map@.len() && store_rows(*final(store)) == #[trigger] stored_map_of(
                    map@.take(k),
                )),
        },
{
    let existing = match count_rows(store) {
        Ok(n) => n,
        Err(_) => {
            return Err(BuildError::StoreFailure);
        },
    };
    if existing > 0 {
        return Ok(());
    }
    let ghost base = store_rows(*store);
    proof {
        assert(base.dom() =~= Set::<u32>::empty());
        assert(base =~= Map::<u32, StoredRow>::empty());
        assert(stored_map_of(map@.take(0)) == Map::<u32, StoredRow>::empty());
    }
    let n = map.len();
    let mut i: usize = 0;
    while i < n
        invariant
            i <= n,
            n == map@.len(),
            store_rows(*store) == stored_map_of(map@.take(i as int)),
        decreases n - i,
    {
        let rec = map.get(i);
        proof {
            assert(map@.take(i + 1).drop_last() =~= map@.take(i as int));
            assert(map@.take(i + 1).last() == map@[i as int]);
        }
        let r = insert_row(
            store,
            rec.codepoint,
            rec.name.as_str(),
            rec.category.code(),
            rec.block.as_str(),
            rec.age.as_str(),
            rec.canonical_combining_class,
            rec.bidi_class.code(),
            rec.bidi_mirrored,
            opt_as_str(&rec.decomposition_type),
            opt_as_str(&rec.decomposition_mapping),
            match &rec.numeric_type {
                Some(t) => Some(t.code()),
                None => None,
            },
            opt_as_str(&rec.numeric_value),
            rec.lowercase_mapping,
            rec.uppercase_mapping,
            rec.titlecase_mapping,
            opt_as_str(&rec.html_entity),
        );
        match r {
            Ok(()) => (),
            Err(_) => {
                proof {
                    assert(store_rows(*store) == stored_map_of(map@.take(i as int)));
                }
                return Err(BuildError::StoreFailure);
            },
        }
        i = i + 1;
    }
    proof {
        assert(map@.take(n as int) =~= map@);
    }
    Ok(())
}

} // verus!
