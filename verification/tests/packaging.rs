use chr::error::BuildError;
use chr::package::{compress_database, unzip_database};
use chr::pipeline::build_dataset;
use chr::sources::source_files;
use chr::store::{save_to_database, Store};

#[test]
fn archive_round_trip_preserves_the_store_bytes() {
    let bytes: Vec<u8> = (0u32..2048).map(|i| (i * 7 % 251) as u8).collect();
    let archive = compress_database("chr.db", &bytes).unwrap();
    assert_ne!(archive, bytes);
    let back = unzip_database(&archive).unwrap();
    assert_eq!(back, bytes);
}

#[test]
fn unreadable_bytes_are_no_archive() {
    let garbage: Vec<u8> = vec![1, 2, 3, 4, 5, 6, 7, 8];
    assert!(unzip_database(&garbage).is_none());
    assert!(unzip_database(&Vec::new()).is_none());
}

#[test]
fn source_list_names_the_four_inputs() {
    let files = source_files();
    assert_eq!(files.len(), 4);
    assert_eq!(files[0].file_name, "Blocks.txt");
    assert_eq!(files[1].file_name, "DerivedAge.txt");
    assert_eq!(files[2].file_name, "UnicodeData.txt");
    assert_eq!(files[2].url, "http://ftp.unicode.org/Public/13.0.0/ucd/UnicodeData.txt");
    assert_eq!(files[3].file_name, "entities.json");
}

#[test]
fn whole_pipeline_builds_and_packages() {
    let entries = vec![chr::annotate::EntityEntry {
        name: String::from("excl;"),
        codepoints: vec![33],
    }];
    let map = build_dataset(
        "0021;EXCLAMATION MARK;Po;0;ON;;;;;N;;;;;\n",
        "0000..007F; Basic Latin\n",
        "0000..007F ; 1.1\n",
        &entries,
    )
    .unwrap();
    assert_eq!(map.len(), 1);
    assert_eq!(map.get(0).block, "Basic Latin");
    assert_eq!(map.get(0).age, "1.1");
    assert_eq!(map.get(0).html_entity.as_deref(), Some("excl;"));
    let mut store = Store::open_in_memory().unwrap();
    save_to_database(&mut store, &map).unwrap();
    let conn = store.into_connection();
    let entity: String = conn
        .query_row("SELECT html_entity FROM UnicodeData WHERE codepoint = 33", (), |row| {
            row.get(0)
        })
        .unwrap();
    assert_eq!(entity, "excl;");
}

#[test]
fn pipeline_stops_on_the_first_malformed_stage() {
    let entries: Vec<chr::annotate::EntityEntry> = Vec::new();
    assert!(matches!(
        build_dataset("bad row", "", "", &entries),
        Err(BuildError::MalformedRecord)
    ));
    assert!(matches!(
        build_dataset(
            "0021;EXCLAMATION MARK;Po;0;ON;;;;;N;;;;;\n",
            "00XX; Broken Block\n",
            "",
            &entries
        ),
        Err(BuildError::MalformedRecord)
    ));
    assert!(matches!(
        build_dataset(
            "0021;EXCLAMATION MARK;Po;0;ON;;;;;N;;;;;\n",
            "",
            "00XX ; 1.1\n",
            &entries
        ),
        Err(BuildError::MalformedRecord)
    ));
}
