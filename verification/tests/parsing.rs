use chr::bidi::BidiClass;
use chr::category::Category;
use chr::error::BuildError;
use chr::numbers::{convert_chars_to_decimals, parse_dec, parse_hex, to_decimal_number, to_hex_code};
use chr::record::NumericType;
use chr::ucd::{classify_numeric, decode_decomposition, parse_unicode_data};

#[test]
fn hex_decoding_accepts_both_cases_and_rejects_junk() {
    assert_eq!(parse_hex("0041"), Some(0x41));
    assert_eq!(parse_hex("10FFFF"), Some(0x10FFFF));
    assert_eq!(parse_hex("1f600"), Some(0x1F600));
    assert_eq!(parse_hex(""), None);
    assert_eq!(parse_hex("XYZ"), None);
    assert_eq!(parse_hex("41 "), None);
    assert_eq!(parse_hex("FFFFFFFF"), Some(u32::MAX));
    assert_eq!(parse_hex("100000000"), None);
}

#[test]
fn dec_decoding_is_strict() {
    assert_eq!(parse_dec("0"), Some(0));
    assert_eq!(parse_dec("230"), Some(230));
    assert_eq!(parse_dec(""), None);
    assert_eq!(parse_dec("2x"), None);
    assert_eq!(parse_dec("4294967295"), Some(u32::MAX));
    assert_eq!(parse_dec("4294967296"), None);
}

#[test]
fn character_codes_round_trip() {
    assert_eq!(to_hex_code('!'), "21");
    assert_eq!(to_hex_code('\u{1F600}'), "1f600");
    assert_eq!(to_decimal_number('A'), 65);
    assert_eq!(to_decimal_number('!'), 33);
    assert_eq!(parse_hex(&to_hex_code('ß')), Some(to_decimal_number('ß')));
    assert_eq!(convert_chars_to_decimals(&vec!['A', '!']), vec![65, 33]);
}

#[test]
fn category_codes_are_a_closed_set() {
    assert!(matches!(Category::from_code("Po"), Some(Category::Po)));
    assert!(matches!(Category::from_code("Lu"), Some(Category::Lu)));
    assert!(Category::from_code("XX").is_none());
    assert!(Category::from_code("P").is_none());
    assert!(Category::from_code("Pox").is_none());
    assert_eq!(Category::Po.description(), "Other Punctuation");
    assert_eq!(Category::Sc.description(), "Currency Sign");
    assert_eq!(Category::Po.code(), "Po");
    assert!(matches!(Category::from_code(Category::Zs.code()), Some(Category::Zs)));
}

#[test]
fn bidi_codes_are_a_closed_set() {
    assert!(matches!(BidiClass::from_code("ON"), Some(BidiClass::On)));
    assert!(matches!(BidiClass::from_code("L"), Some(BidiClass::L)));
    assert!(matches!(BidiClass::from_code("NSM"), Some(BidiClass::Nsm)));
    assert!(BidiClass::from_code("QQ").is_none());
    assert_eq!(BidiClass::On.code(), "ON");
    assert!(matches!(BidiClass::from_code(BidiClass::Pdi.code()), Some(BidiClass::Pdi)));
}

#[test]
fn numeric_classification_follows_the_branch_order() {
    // a decimal value without a digit value matches no branch
    let r = classify_numeric("3", "", "3").unwrap();
    assert!(r.0.is_none());
    assert!(r.1.is_none());
    let r = classify_numeric("", "2", "2").unwrap();
    assert!(matches!(r.0, Some(NumericType::Digit)));
    assert_eq!(r.1.as_deref(), Some("2"));
    let r = classify_numeric("", "", "1/2").unwrap();
    assert!(matches!(r.0, Some(NumericType::Numeric)));
    assert_eq!(r.1.as_deref(), Some("1/2"));
    let r = classify_numeric("", "", "").unwrap();
    assert!(r.0.is_none());
    assert!(r.1.is_none());
    let r = classify_numeric("7", "7", "7").unwrap();
    assert!(matches!(r.0, Some(NumericType::Decimal)));
    assert_eq!(r.1.as_deref(), Some("7"));
    assert!(matches!(classify_numeric("x", "", ""), Err(BuildError::MalformedRecord)));
    assert!(matches!(classify_numeric("", "y", "1"), Err(BuildError::MalformedRecord)));
}

#[test]
fn decomposition_field_decodes_tags_and_mappings() {
    let (t, m) = decode_decomposition("").unwrap();
    assert!(t.is_none());
    assert!(m.is_none());
    let (t, m) = decode_decomposition("0041 0301").unwrap();
    assert_eq!(t.as_deref(), Some("canonical"));
    assert_eq!(m.as_deref(), Some("65 769"));
    let (t, m) = decode_decomposition("<font> 0041").unwrap();
    assert_eq!(t.as_deref(), Some("font"));
    assert_eq!(m.as_deref(), Some("65"));
    let (t, m) = decode_decomposition("<noBreak> 0020").unwrap();
    assert_eq!(t.as_deref(), Some("noBreak"));
    assert_eq!(m.as_deref(), Some("32"));
    assert!(matches!(decode_decomposition("004G"), Err(BuildError::MalformedRecord)));
}

#[test]
fn exclamation_mark_row_decodes_exactly() {
    let map = parse_unicode_data("0021;EXCLAMATION MARK;Po;0;ON;;;;;N;;;;;").unwrap();
    assert_eq!(map.len(), 1);
    let rec = map.get(0);
    assert_eq!(rec.codepoint, 33);
    assert!(matches!(rec.category, Category::Po));
    assert_eq!(rec.name, "EXCLAMATION MARK");
    assert!(!rec.bidi_mirrored);
    assert!(rec.decomposition_type.is_none());
    assert!(rec.decomposition_mapping.is_none());
    assert!(rec.numeric_type.is_none());
    assert!(rec.numeric_value.is_none());
    assert_eq!(rec.canonical_combining_class, 0);
    assert!(matches!(rec.bidi_class, BidiClass::On));
    assert_eq!(rec.block, "");
    assert_eq!(rec.age, "");
    assert!(rec.html_entity.is_none());
}

#[test]
fn full_fields_decode() {
    let map = parse_unicode_data(
        "00BD;VULGAR FRACTION ONE HALF;No;0;ON;<fraction> 0031 2044 0032;;;1/2;N;FRACTION ONE HALF;;;;\n",
    )
    .unwrap();
    assert_eq!(map.len(), 1);
    let rec = map.get(0);
    assert_eq!(rec.codepoint, 0xBD);
    assert!(matches!(rec.category, Category::No));
    assert_eq!(rec.decomposition_type.as_deref(), Some("fraction"));
    assert_eq!(rec.decomposition_mapping.as_deref(), Some("49 8260 50"));
    assert!(matches!(rec.numeric_type, Some(NumericType::Numeric)));
    assert_eq!(rec.numeric_value.as_deref(), Some("1/2"));
}

#[test]
fn case_mappings_decode_from_hex() {
    let map = parse_unicode_data("0041;LATIN CAPITAL LETTER A;Lu;0;L;;;;;N;;;;0061;").unwrap();
    let rec = map.get(0);
    assert_eq!(rec.lowercase_mapping, Some(0x61));
    assert_eq!(rec.uppercase_mapping, None);
    assert_eq!(rec.titlecase_mapping, None);
}

#[test]
fn range_pair_expands_to_identical_records() {
    let text = "0041;<Letter Run, First>;Lo;0;L;;;;;N;;;;;\n0045;<Letter Run, Last>;Lo;0;L;;;;;N;;;;;";
    let map = parse_unicode_data(text).unwrap();
    assert_eq!(map.len(), 5);
    for i in 0..5usize {
        let rec = map.get(i);
        assert_eq!(rec.codepoint, 0x41 + i as u32);
        assert_eq!(rec.name, "Letter Run");
        assert!(matches!(rec.category, Category::Lo));
        assert_eq!(rec.canonical_combining_class, 0);
    }
}

#[test]
fn range_pair_without_closing_row_is_fatal() {
    let text = "0041;<Letter Run, First>;Lo;0;L;;;;;N;;;;;";
    assert!(matches!(parse_unicode_data(text), Err(BuildError::MalformedRecord)));
    let text = "0041;<Letter Run, First>;Lo;0;L;;;;;N;;;;;\n0045;NOT A RANGE ROW;Lo;0;L;;;;;N;;;;;";
    assert!(matches!(parse_unicode_data(text), Err(BuildError::MalformedRecord)));
}

#[test]
fn malformed_rows_are_fatal() {
    assert!(matches!(parse_unicode_data("0021;TOO;FEW;FIELDS"), Err(BuildError::MalformedRecord)));
    assert!(matches!(
        parse_unicode_data("00ZZ;BAD HEX;Po;0;ON;;;;;N;;;;;"),
        Err(BuildError::MalformedRecord)
    ));
    assert!(matches!(
        parse_unicode_data("0021;BAD CATEGORY;Qq;0;ON;;;;;N;;;;;"),
        Err(BuildError::MalformedRecord)
    ));
}

#[test]
fn empty_lines_and_crlf_are_tolerated() {
    let text = "0021;EXCLAMATION MARK;Po;0;ON;;;;;N;;;;;\r\n\n0024;DOLLAR SIGN;Sc;0;ET;;;;;N;;;;;\r\n";
    let map = parse_unicode_data(text).unwrap();
    assert_eq!(map.len(), 2);
    assert_eq!(map.get(0).codepoint, 0x21);
    assert_eq!(map.get(1).codepoint, 0x24);
}

#[test]
fn later_rows_overwrite_earlier_codepoints() {
    let text = "0021;FIRST NAME;Po;0;ON;;;;;N;;;;;\n0021;SECOND NAME;Po;0;ON;;;;;N;;;;;";
    let map = parse_unicode_data(text).unwrap();
    assert_eq!(map.len(), 1);
    assert_eq!(map.get(0).name, "SECOND NAME");
}

#[test]
fn an_empty_file_denotes_an_empty_map() {
    let map = parse_unicode_data("").unwrap();
    assert_eq!(map.len(), 0);
    let map = parse_unicode_data("\n\n\r\n").unwrap();
    assert_eq!(map.len(), 0);
}

#[test]
fn the_largest_codepoint_decodes() {
    let map = parse_unicode_data("10FFFF;LAST CODEPOINT;Cn;0;BN;;;;;N;;;;;").unwrap();
    assert_eq!(map.get(0).codepoint, 0x10FFFF);
    assert_eq!(to_hex_code('\u{10FFFF}'), "10ffff");
}
