use chr::annotate::{process_ages, process_blocks};
use chr::lookup::{compose_output, convert_database_row_to_result, search_database, SearchOptions, StoreRow};
use chr::store::{save_to_database, Store};
use chr::ucd::parse_unicode_data;

fn annotated_map() -> chr::record_map::RecordMap {
    let mut map = parse_unicode_data(
        "0021;EXCLAMATION MARK;Po;0;ON;;;;;N;;;;;\n0024;DOLLAR SIGN;Sc;0;ET;;;;;N;;;;;\n0040;COMMERCIAL AT;Po;0;ON;;;;;N;;;;;",
    )
    .unwrap();
    process_blocks(&mut map, "0000..007F; Basic Latin\n").unwrap();
    process_ages(&mut map, "0000..007F ; 1.1 # comment\n").unwrap();
    map
}

fn populated_store() -> Store {
    let map = annotated_map();
    let mut store = Store::open_in_memory().unwrap();
    save_to_database(&mut store, &map).unwrap();
    store
}

#[test]
fn writer_populates_an_empty_store_in_codepoint_order() {
    let store = populated_store();
    assert_eq!(store.count().unwrap(), 3);
    let conn = store.into_connection();
    let name: String = conn
        .query_row("SELECT name FROM UnicodeData WHERE codepoint = 33", (), |row| row.get(0))
        .unwrap();
    assert_eq!(name, "EXCLAMATION MARK");
    let block: String = conn
        .query_row("SELECT block FROM UnicodeData WHERE codepoint = 36", (), |row| row.get(0))
        .unwrap();
    assert_eq!(block, "Basic Latin");
    let age: String = conn
        .query_row("SELECT age FROM UnicodeData WHERE codepoint = 64", (), |row| row.get(0))
        .unwrap();
    assert_eq!(age, "1.1");
    let cat: String = conn
        .query_row("SELECT category FROM UnicodeData WHERE codepoint = 36", (), |row| row.get(0))
        .unwrap();
    assert_eq!(cat, "Sc");
}

#[test]
fn writer_is_idempotent_across_repeated_builds() {
    let map = annotated_map();
    let mut store = Store::open_in_memory().unwrap();
    save_to_database(&mut store, &map).unwrap();
    save_to_database(&mut store, &map).unwrap();
    assert_eq!(store.count().unwrap(), 3);
}

#[test]
fn full_variant_columns_are_stored() {
    let mut map = parse_unicode_data(
        "00BD;VULGAR FRACTION ONE HALF;No;0;ON;<fraction> 0031 2044 0032;;;1/2;N;;;;;\n",
    )
    .unwrap();
    process_blocks(&mut map, "0080..00FF; Latin-1 Supplement\n").unwrap();
    let mut store = Store::open_in_memory().unwrap();
    save_to_database(&mut store, &map).unwrap();
    let conn = store.into_connection();
    let (dt, dm, nt, nv): (String, String, String, String) = conn
        .query_row(
            "SELECT decomposition_type, decomposition_mapping, numeric_type, numeric_value FROM UnicodeData WHERE codepoint = 189",
            (),
            |row| {
                Ok((row.get(0)?, row.get(1)?, row.get(2)?, row.get(3)?))
            },
        )
        .unwrap();
    assert_eq!(dt, "fraction");
    assert_eq!(dm, "49 8260 50");
    assert_eq!(nt, "numeric");
    assert_eq!(nv, "1/2");
}

fn search_options(chars: Vec<char>, name: Option<&str>) -> SearchOptions {
    SearchOptions {
        chars,
        name: name.map(String::from),
        is_paging_disabled: true,
        is_output_colorized: false,
    }
}

#[test]
fn character_search_renders_rows_in_codepoint_order() {
    let store = populated_store();
    let results = search_database(&store, &search_options(vec!['@', '!'], None)).unwrap();
    assert_eq!(results.len(), 2);
    assert_eq!(
        results[0],
        "1.\t!\tU+0021\nEXCLAMATION MARK\nBasic Latin\tOther Punctuation\nsince 1.1"
    );
    assert_eq!(
        results[1],
        "2.\t@\tU+0040\nCOMMERCIAL AT\nBasic Latin\tOther Punctuation\nsince 1.1"
    );
}

#[test]
fn character_search_skips_unstored_codepoints() {
    let store = populated_store();
    let results = search_database(&store, &search_options(vec!['Ä', '$'], None)).unwrap();
    assert_eq!(results.len(), 1);
    assert_eq!(
        results[0],
        "1.\t$\tU+0024\nDOLLAR SIGN\nBasic Latin\tCurrency Sign\nsince 1.1"
    );
}

#[test]
fn name_search_matches_substrings_case_blind() {
    let store = populated_store();
    let results = search_database(&store, &search_options(vec![], Some("exclam"))).unwrap();
    assert_eq!(results.len(), 1);
    assert!(results[0].contains("EXCLAMATION MARK"));
    let results = search_database(&store, &search_options(vec![], Some("SIGN"))).unwrap();
    assert_eq!(results.len(), 1);
    assert!(results[0].contains("DOLLAR SIGN"));
    let results = search_database(&store, &search_options(vec![], Some("no such name"))).unwrap();
    assert_eq!(results.len(), 0);
}

#[test]
fn rendering_fails_on_a_category_outside_the_closed_set() {
    let row = StoreRow {
        codepoint: 33,
        name: String::from("EXCLAMATION MARK"),
        category: String::from("Qq"),
        block: String::from(""),
        age: String::from(""),
    };
    assert!(matches!(
        convert_database_row_to_result(&row, 1, false),
        Err(chr::error::LookupError::UnknownCategory)
    ));
}

#[test]
fn rendering_fails_on_a_surrogate_codepoint() {
    let row = StoreRow {
        codepoint: 0xD800,
        name: String::from("BAD"),
        category: String::from("Po"),
        block: String::from(""),
        age: String::from(""),
    };
    assert!(matches!(
        convert_database_row_to_result(&row, 1, false),
        Err(chr::error::LookupError::InvalidCodepoint)
    ));
}

#[test]
fn hex_labels_are_zero_padded_to_four_places() {
    let row = StoreRow {
        codepoint: 0x1F600,
        name: String::from("GRINNING FACE"),
        category: String::from("So"),
        block: String::from("Emoticons"),
        age: String::from("6.1"),
    };
    let s = convert_database_row_to_result(&row, 3, false).unwrap();
    assert_eq!(s, "3.\t\u{1F600}\tU+1F600\nGRINNING FACE\nEmoticons\tOther Symbol\nsince 6.1");
}

#[test]
fn output_is_joined_by_blank_lines_with_an_optional_count() {
    let results = vec![String::from("alpha"), String::from("beta")];
    assert_eq!(compose_output(&results, false), "alpha\n\nbeta");
    assert_eq!(compose_output(&results, true), ">>> 2 results found\n\nalpha\n\nbeta");
    let empty: Vec<String> = Vec::new();
    assert_eq!(compose_output(&empty, false), "");
    assert_eq!(compose_output(&empty, true), ">>> 0 results found");
}

#[test]
fn writer_accepts_an_empty_record_set() {
    let map = parse_unicode_data("").unwrap();
    let mut store = Store::open_in_memory().unwrap();
    save_to_database(&mut store, &map).unwrap();
    save_to_database(&mut store, &map).unwrap();
    assert_eq!(store.count().unwrap(), 0);
}

#[test]
fn searching_an_empty_store_finds_nothing() {
    let store = Store::open_in_memory().unwrap();
    let results = search_database(&store, &search_options(vec!['!'], None)).unwrap();
    assert!(results.is_empty());
}

#[test]
fn a_foreign_table_under_the_store_name_is_refused() {
    let path = "/tmp/chr_foreign_schema.db";
    {
        let conn = rusqlite::Connection::open(path).unwrap();
        conn.execute(
            "CREATE TABLE IF NOT EXISTS UnicodeData (codepoint INTEGER, name TEXT)",
            (),
        )
        .unwrap();
    }
    assert!(matches!(Store::open(path), Err(chr::error::BuildError::StoreFailure)));
}

#[test]
fn a_store_file_reopens_with_its_rows_kept() {
    let path = "/tmp/chr_reopened_store.db";
    {
        let conn = rusqlite::Connection::open(path).unwrap();
        conn.execute("DROP TABLE IF EXISTS UnicodeData", ()).unwrap();
    }
    let map = annotated_map();
    {
        let mut store = Store::open(path).unwrap();
        save_to_database(&mut store, &map).unwrap();
    }
    let reopened = Store::open(path).unwrap();
    assert_eq!(reopened.count().unwrap(), 3);
    let results = search_database(&reopened, &search_options(vec!['!'], None)).unwrap();
    assert_eq!(results.len(), 1);
}

#[test]
fn a_query_against_a_dropped_table_fails() {
    let path = "/tmp/chr_dropped_store.db";
    {
        let conn = rusqlite::Connection::open(path).unwrap();
        conn.execute("DROP TABLE IF EXISTS UnicodeData", ()).unwrap();
    }
    let store = Store::open(path).unwrap();
    {
        let conn = rusqlite::Connection::open(path).unwrap();
        conn.execute("DROP TABLE UnicodeData", ()).unwrap();
    }
    let result = search_database(&store, &search_options(vec!['!'], None));
    assert!(matches!(result, Err(chr::error::LookupError::QueryFailed)));
}
