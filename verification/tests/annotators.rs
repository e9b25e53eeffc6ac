use chr::annotate::{
    parse_codepoint_range, process_ages, process_blocks, process_entities, EntityEntry,
};
use chr::error::BuildError;
use chr::ucd::parse_unicode_data;

fn base_map() -> chr::record_map::RecordMap {
    parse_unicode_data(
        "0021;EXCLAMATION MARK;Po;0;ON;;;;;N;;;;;\n0026;AMPERSAND;Po;0;ON;;;;;N;;;;;\n4E00;<CJK Ideograph, First>;Lo;0;L;;;;;N;;;;;\n4E03;<CJK Ideograph, Last>;Lo;0;L;;;;;N;;;;;",
    )
    .unwrap()
}

#[test]
fn range_expression_with_dots_is_inclusive() {
    assert_eq!(parse_codepoint_range("0041..005A"), Some((0x41, 0x5A)));
}

#[test]
fn range_expression_without_dots_is_a_singleton() {
    assert_eq!(parse_codepoint_range("0041"), Some((0x41, 0x41)));
}

#[test]
fn range_expression_rejects_junk() {
    assert_eq!(parse_codepoint_range(""), None);
    assert_eq!(parse_codepoint_range("00GG"), None);
    assert_eq!(parse_codepoint_range("0041.."), None);
    assert_eq!(parse_codepoint_range("..0041"), None);
}

#[test]
fn block_rows_stamp_only_covered_mapped_codepoints() {
    let mut map = base_map();
    process_blocks(
        &mut map,
        "# Blocks-13.0.0.txt\n\n0000..007F; Basic Latin\n0080..00FF; Latin-1 Supplement\n",
    )
    .unwrap();
    assert_eq!(map.get(0).block, "Basic Latin");
    assert_eq!(map.get(1).block, "Basic Latin");
    // the ideograph records lie outside every listed interval
    assert_eq!(map.get(2).block, "");
    assert_eq!(map.get(3).block, "");
}

#[test]
fn block_rows_with_single_codepoint_keys_work() {
    let mut map = base_map();
    process_blocks(&mut map, "0021; Lonely Block\n").unwrap();
    assert_eq!(map.get(0).block, "Lonely Block");
    assert_eq!(map.get(1).block, "");
}

#[test]
fn malformed_block_rows_are_ignored_or_fatal_as_their_shape_demands() {
    let mut map = base_map();
    // a row without exactly two fields is skipped, not fatal
    process_blocks(&mut map, "just a stray line\na;b;c\n").unwrap();
    assert_eq!(map.get(0).block, "");
    // a two-field row with an unparsable range is fatal
    let mut map = base_map();
    assert!(matches!(
        process_blocks(&mut map, "00GG..00FF; Broken\n"),
        Err(BuildError::MalformedRecord)
    ));
}

#[test]
fn later_block_rows_overwrite_earlier_ones() {
    let mut map = base_map();
    process_blocks(&mut map, "0000..007F; Old Name\n0021; New Name\n").unwrap();
    assert_eq!(map.get(0).block, "New Name");
    assert_eq!(map.get(1).block, "Old Name");
}

#[test]
fn age_rows_strip_the_trailing_comment() {
    let mut map = base_map();
    process_ages(&mut map, "# DerivedAge\n0000..007F    ; 1.1 #  [128] <control>..DELETE\n")
        .unwrap();
    assert_eq!(map.get(0).age, "1.1");
    assert_eq!(map.get(1).age, "1.1");
    assert_eq!(map.get(2).age, "");
}

#[test]
fn entity_entries_stamp_single_codepoint_names() {
    let mut map = base_map();
    let entries = vec![
        EntityEntry { name: String::from("amp;"), codepoints: vec![38] },
        EntityEntry { name: String::from("acE;"), codepoints: vec![8766, 819] },
        EntityEntry { name: String::from("excl;"), codepoints: vec![33] },
        EntityEntry { name: String::from("missing;"), codepoints: vec![0x2603] },
    ];
    process_entities(&mut map, &entries);
    assert_eq!(map.get(1).html_entity.as_deref(), Some("amp;"));
    assert_eq!(map.get(0).html_entity.as_deref(), Some("excl;"));
    // the two-codepoint entry and the unmapped codepoint leave no trace
    assert!(map.get(2).html_entity.is_none());
    assert!(map.get(3).html_entity.is_none());
}

#[test]
fn entity_entries_with_other_lengths_are_dropped() {
    let mut map = base_map();
    let entries = vec![
        EntityEntry { name: String::from("odd;"), codepoints: vec![] },
        EntityEntry { name: String::from("pair;"), codepoints: vec![38, 33] },
    ];
    process_entities(&mut map, &entries);
    for i in 0..4usize {
        assert!(map.get(i).html_entity.is_none());
    }
}

#[test]
fn annotating_an_empty_map_does_nothing() {
    let mut map = parse_unicode_data("").unwrap();
    process_blocks(&mut map, "0000..10FFFF; Everything\n").unwrap();
    process_ages(&mut map, "0000..10FFFF ; 1.1\n").unwrap();
    process_entities(&mut map, &vec![EntityEntry { name: String::from("amp;"), codepoints: vec![38] }]);
    assert_eq!(map.len(), 0);
}

#[test]
fn range_parser_accepts_the_top_of_the_codepoint_space() {
    assert_eq!(parse_codepoint_range("10FFFF"), Some((0x10FFFF, 0x10FFFF)));
    assert_eq!(parse_codepoint_range("E000..10FFFF"), Some((0xE000, 0x10FFFF)));
}

#[test]
fn trimming_strips_unicode_whitespace_like_the_standard_library() {
    let mut map = base_map();
    process_blocks(&mut map, "\u{00A0}0021\u{3000} ;\u{2003}Padded Block\u{2003}\n").unwrap();
    assert_eq!(map.get(0).block, "Padded Block");
}
