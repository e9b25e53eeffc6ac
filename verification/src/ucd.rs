//! The base record parser: strict decoding of the semicolon-delimited,
//! fifteen-field per-codepoint rows, and expansion of range row pairs into
//! one record per codepoint.

use vstd::prelude::*;
use vstd::string::StrSliceExecFns;
use crate::text::{split_seq, split_str, views_of_strings, push_char, has_suffix};
use crate::record_map::RecordMap;
use crate::numbers::{
    parse_hex_spec, parse_hex, parse_dec_spec, parse_dec, dec_digits_of, push_dec,
};
use crate::category::Category;
use crate::bidi::BidiClass;
use crate::record::{NumericType, RecordModel, UnicodeCharRecord};
use crate::error::BuildError;

verus! {

/// The non-empty parts, in order: what splitting on blanks leaves.
pub open spec fn keep_nonempty(parts: Seq<Seq<char>>) -> Seq<Seq<char>>
    decreases parts.len(),
{
    if parts.len() == 0 {
        Seq::empty()
    } else {
        let rest = keep_nonempty(parts.drop_last());
        if parts.last().len() > 0 {
            rest.push(parts.last())
        } else {
            rest
        }
    }
}

/// The whitespace-split tokens of a field.
pub open spec fn ws_tokens(f: Seq<char>) -> Seq<Seq<char>> {
    keep_nonempty(split_seq(f, ' '))
}

/// Splits a field at blanks and keeps the non-empty tokens.
fn tokens_of(f: &str) -> (r: Vec<String>)
    ensures
        views_of_strings(r@) == ws_tokens(f@),
{
    let parts = split_str(f, ' ');
    let mut toks: Vec<String> = Vec::new();
    let mut j: usize = 0;
    proof {
        assert(views_of_strings(parts@).take(0) =~= Seq::<Seq<char>>::empty());
        assert(views_of_strings(toks@) =~= keep_nonempty(views_of_strings(parts@).take(0)));
    }
    while j < parts.len()
        invariant
            j <= parts@.len(),
            views_of_strings(toks@) == keep_nonempty(views_of_strings(parts@).take(j as int)),
        decreases parts@.len() - j,
    {
        proof {
            assert(views_of_strings(parts@).take(j + 1).drop_last() =~= views_of_strings(
                parts@,
            ).take(j as int));
            assert(views_of_strings(parts@).take(j + 1).last() == parts@[j as int]@);
        }
        let ghost before = views_of_strings(toks@);
        if parts[j].as_str().unicode_len() > 0 {
            let t = parts[j].clone();
            toks.push(t);
            proof {
                assert(views_of_strings(toks@) =~~= before.push(parts@[j as int]@));
            }
        }
        j = j + 1;
    }
    proof {
        assert(views_of_strings(parts@).take(parts@.len() as int) =~= views_of_strings(parts@));
    }
    toks
}

/// Exactly the string `Y` means mirrored; anything else does not.
pub open spec fn spec_bidi_mirrored(f: Seq<char>) -> bool {
    f.len() == 1 && f[0] == 'Y'
}

/// An optional hexadecimal case-mapping field: absent when empty, its
/// value when it decodes, and malformed otherwise.
pub open spec fn spec_case_mapping(f: Seq<char>) -> Option<Option<u32>> {
    if f.len() == 0 {
        Some(None)
    } else {
        match parse_hex_spec(f) {
            Some(v) => Some(Some(v)),
            None => None,
        }
    }
}

/// Decodes one optional case-mapping field.
pub fn parse_case_mapping(f: &str) -> (r: Result<Option<u32>, BuildError>)
    ensures
        match r {
            Ok(v) => spec_case_mapping(f@) == Some(v),
            Err(e) => spec_case_mapping(f@) is None && e == BuildError::MalformedRecord,
        },
{
    if f.unicode_len() == 0 {
        Ok(None)
    } else {
        match parse_hex(f) {
            Some(v) => Ok(Some(v)),
            None => Err(BuildError::MalformedRecord),
        }
    }
}

/// Hexadecimal mapping tokens re-encoded as decimal and joined with one
/// blank; `None` as soon as one token is no hexadecimal number.
pub open spec fn spec_mapping_decimals(toks: Seq<Seq<char>>) -> Option<Seq<char>>
    decreases toks.len(),
{
    if toks.len() == 0 {
        Some(Seq::empty())
    } else {
        match (spec_mapping_decimals(toks.drop_last()), parse_hex_spec(toks.last())) {
            (Some(pre), Some(v)) => {
                if toks.len() == 1 {
                    Some(dec_digits_of(v as nat))
                } else {
                    Some(pre + seq![' '] + dec_digits_of(v as nat))
                }
            },
            _ => None,
        }
    }
}

/// Re-encodes the tokens from `start` on as space-joined decimal.
fn mapping_of_tokens(toks: &Vec<String>, start: usize) -> (r: Result<String, BuildError>)
    requires
        start <= toks@.len(),
    ensures
        match r {
            Ok(s) => spec_mapping_decimals(views_of_strings(toks@).skip(start as int)) == Some(s@),
            Err(e) => spec_mapping_decimals(views_of_strings(toks@).skip(start as int)) is None
                && e == BuildError::MalformedRecord,
        },
{
    let ghost all = views_of_strings(toks@);
    let mut out = String::new();
    let mut j: usize = start;
    proof {
        assert(all.subrange(start as int, start as int) =~= Seq::<Seq<char>>::empty());
        assert(out@ =~= Seq::<char>::empty());
    }
    while j < toks.len()
        invariant
            start <= j <= all.len(),
            all == views_of_strings(toks@),
            Some(out@) == spec_mapping_decimals(all.subrange(start as int, j as int)),
        decreases all.len() - j,
    {
        let v = match parse_hex(toks[j].as_str()) {
            Some(v) => v,
            None => {
                proof {
                    lemma_mapping_prefix_none(all.skip(start as int), (j - start) as int);
                    assert(all.skip(start as int)[j - start] == all[j as int]);
                }
                return Err(BuildError::MalformedRecord);
            },
        };
        proof {
            assert(all.subrange(start as int, j + 1).drop_last() =~= all.subrange(
                start as int,
                j as int,
            ));
            assert(all.subrange(start as int, j + 1).last() == all[j as int]);
        }
        if j > start {
            push_char(&mut out, ' ');
        }
        push_dec(&mut out, v as u64);
        proof {
            let pre = all.subrange(start as int, j as int);
            if j == start {
                assert(out@ =~= spec_mapping_decimals(pre).unwrap() + seq![' ']
                    + dec_digits_of(v as nat) || out@ =~= dec_digits_of(v as nat));
                assert(Seq::<char>::empty() + dec_digits_of(v as nat) =~= dec_digits_of(v as nat));
            } else {
                assert(out@ =~= spec_mapping_decimals(pre).unwrap().push(' ') + dec_digits_of(
                    v as nat,
                ));
                assert(spec_mapping_decimals(pre).unwrap().push(' ') + dec_digits_of(v as nat)
                    =~= spec_mapping_decimals(pre).unwrap() + seq![' '] + dec_digits_of(v as nat));
            }
        }
        j = j + 1;
    }
    proof {
        assert(all.subrange(start as int, all.len() as int) =~= all.skip(start as int));
    }
    Ok(out)
}

/// A token that fails to decode poisons the whole token list.
proof fn lemma_mapping_prefix_none(toks: Seq<Seq<char>>, k: int)
    requires
        0 <= k < toks.len(),
        parse_hex_spec(toks[k]) is None,
    ensures
        spec_mapping_decimals(toks) is None,
    decreases toks.len(),
{
    if toks.len() > 0 {
        if k < toks.len() - 1 {
            lemma_mapping_prefix_none(toks.drop_last(), k);
        }
    }
}

/// A decomposition field decodes to an optional type and an optional
/// mapping: absent on an empty field; a bracketed first token names the
/// type; an unbracketed first token means the fixed type `canonical` and
/// belongs to the mapping.
pub open spec fn spec_decomposition(f: Seq<char>) -> Option<(Option<Seq<char>>, Option<Seq<char>>)> {
    if f.len() == 0 {
        Some((None, None))
    } else {
        let toks = ws_tokens(f);
        if toks.len() == 0 {
            None
        } else if toks[0].len() >= 2 && toks[0][0] == '<' && toks[0][toks[0].len() - 1] == '>' {
            let tag = toks[0].subrange(1, toks[0].len() - 1);
            if toks.len() == 1 {
                Some((Some(tag), None))
            } else {
                match spec_mapping_decimals(toks.skip(1)) {
                    Some(m) => Some((Some(tag), Some(m))),
                    None => None,
                }
            }
        } else {
            match spec_mapping_decimals(toks) {
                Some(m) => Some((Some("canonical"@), Some(m))),
                None => None,
            }
        }
    }
}

/// Decodes one decomposition field.
pub fn decode_decomposition(f: &str) -> (r: Result<(Option<String>, Option<String>), BuildError>)
    ensures
        match r {
            Ok((t, m)) => spec_decomposition(f@) == Some(
                (
                    match t {
                        Some(s) => Some(s@),
                        None => None,
                    },
                    match m {
                        Some(s) => Some(s@),
                        None => None,
                    },
                ),
            ),
            Err(e) => spec_decomposition(f@) is None && e == BuildError::MalformedRecord,
        },
{
    if f.unicode_len() == 0 {
        return Ok((None, None));
    }
    let toks = tokens_of(f);
    if toks.len() == 0 {
        return Err(BuildError::MalformedRecord);
    }
    let n0 = toks[0].as_str().unicode_len();
    let tagged = n0 >= 2 && toks[0].as_str().get_char(0) == '<' && toks[0].as_str().get_char(n0 - 1)
        == '>';
    if tagged {
        let tag = toks[0].as_str().substring_char(1, n0 - 1).to_owned();
        proof {
            assert(tag@ =~= views_of_strings(toks@)[0].subrange(
                1,
                views_of_strings(toks@)[0].len() - 1,
            ));
        }
        if toks.len() == 1 {
            Ok((Some(tag), None))
        } else {
            match mapping_of_tokens(&toks, 1) {
                Ok(m) => Ok((Some(tag), Some(m))),
                Err(e) => Err(e),
            }
        }
    } else {
        match mapping_of_tokens(&toks, 0) {
            Ok(m) => {
                proof {
                    assert(views_of_strings(toks@).skip(0) =~= views_of_strings(toks@));
                }
                Ok((Some("canonical".to_owned()), Some(m)))
            },
            Err(e) => {
                proof {
                    assert(views_of_strings(toks@).skip(0) =~= views_of_strings(toks@));
                }
                Err(e)
            },
        }
    }
}

/// The numeric classification, decided by which of the three raw numeric
/// fields are present, in exactly this branch order: all three present
/// means `decimal` valued from the first; the second and third without the
/// first means `digit` valued from the second; the third alone means
/// `numeric` with its text verbatim; every other combination means no
/// classification. A non-empty first or second field that is no decimal
/// integer is malformed wherever it stands.
pub open spec fn spec_numeric(f6: Seq<char>, f7: Seq<char>, f8: Seq<char>) -> Option<
    (Option<NumericType>, Option<Seq<char>>),
> {
    if f6.len() > 0 && parse_dec_spec(f6) is None {
        None
    } else if f7.len() > 0 && parse_dec_spec(f7) is None {
        None
    } else if f6.len() > 0 && f7.len() > 0 && f8.len() > 0 {
        Some((Some(NumericType::Decimal), Some(dec_digits_of(parse_dec_spec(f6)->0 as nat))))
    } else if f6.len() == 0 && f7.len() > 0 && f8.len() > 0 {
        Some((Some(NumericType::Digit), Some(dec_digits_of(parse_dec_spec(f7)->0 as nat))))
    } else if f6.len() == 0 && f7.len() == 0 && f8.len() > 0 {
        Some((Some(NumericType::Numeric), Some(f8)))
    } else {
        Some((None, None))
    }
}

/// Classifies the three raw numeric fields.
pub fn classify_numeric(f6: &str, f7: &str, f8: &str) -> (r: Result<
    (Option<NumericType>, Option<String>),
    BuildError,
>)
    ensures
        match r {
            Ok((t, v)) => spec_numeric(f6@, f7@, f8@) == Some(
                (
                    t,
                    match v {
                        Some(s) => Some(s@),
                        None => None,
                    },
                ),
            ),
            Err(e) => spec_numeric(f6@, f7@, f8@) is None && e == BuildError::MalformedRecord,
        },
{
    let n6 = f6.unicode_len();
    let n7 = f7.unicode_len();
    let n8 = f8.unicode_len();
    let v6 = if n6 > 0 {
        match parse_dec(f6) {
            Some(v) => Some(v),
            None => {
                return Err(BuildError::MalformedRecord);
            },
        }
    } else {
        None
    };
    let v7 = if n7 > 0 {
        match parse_dec(f7) {
            Some(v) => Some(v),
            None => {
                return Err(BuildError::MalformedRecord);
            },
        }
    } else {
        None
    };
    if n6 > 0 && n7 > 0 && n8 > 0 {
        let mut s = String::new();
        push_dec(&mut s, v6.unwrap() as u64);
        proof {
            assert(Seq::<char>::empty() + dec_digits_of(parse_dec_spec(f6@)->0 as nat)
                =~= dec_digits_of(parse_dec_spec(f6@)->0 as nat));
        }
        Ok((Some(NumericType::Decimal), Some(s)))
    } else if n6 == 0 && n7 > 0 && n8 > 0 {
        let mut s = String::new();
        push_dec(&mut s, v7.unwrap() as u64);
        proof {
            assert(Seq::<char>::empty() + dec_digits_of(parse_dec_spec(f7@)->0 as nat)
                =~= dec_digits_of(parse_dec_spec(f7@)->0 as nat));
        }
        Ok((Some(NumericType::Digit), Some(s)))
    } else if n6 == 0 && n7 == 0 && n8 > 0 {
        Ok((Some(NumericType::Numeric), Some(f8.to_owned())))
    } else {
        Ok((None, None))
    }
}

/// One fully decoded base-file row, placed at `cp` under `name`: every
/// field strict, unknown category or bidirectional codes rejected, the
/// two annotator fields left empty for the annotators.
pub open spec fn spec_decode_record(fields: Seq<Seq<char>>, cp: u32, name: Seq<char>) -> Option<
    RecordModel,
>
    recommends
        fields.len() == 15,
{
    match Category::spec_from_code(fields[2]) {
        None => None,
        Some(category) => match parse_dec_spec(fields[3]) {
            None => None,
            Some(ccc) => match BidiClass::spec_from_code(fields[4]) {
                None => None,
                Some(bidi_class) => match spec_decomposition(fields[5]) {
                    None => None,
                    Some((decomposition_type, decomposition_mapping)) => match spec_numeric(
                        fields[6],
                        fields[7],
                        fields[8],
                    ) {
                        None => None,
                        Some((numeric_type, numeric_value)) => match spec_case_mapping(fields[12]) {
                            None => None,
                            Some(uppercase_mapping) => match spec_case_mapping(fields[13]) {
                                None => None,
                                Some(lowercase_mapping) => match spec_case_mapping(fields[14]) {
                                    None => None,
                                    Some(titlecase_mapping) => Some(
                                        RecordModel {
                                            codepoint: cp,
                                            name: name,
                                            category: category,
                                            block: Seq::empty(),
                                            age: Seq::empty(),
                                            canonical_combining_class: ccc,
                                            bidi_class: bidi_class,
                                            bidi_mirrored: spec_bidi_mirrored(fields[9]),
                                            decomposition_type: decomposition_type,
                                            decomposition_mapping: decomposition_mapping,
                                            numeric_type: numeric_type,
                                            numeric_value: numeric_value,
                                            lowercase_mapping: lowercase_mapping,
                                            uppercase_mapping: uppercase_mapping,
                                            titlecase_mapping: titlecase_mapping,
                                            html_entity: None,
                                        },
                                    ),
                                },
                            },
                        },
                    },
                },
            },
        },
    }
}

/// Decodes the typed fields of one row into a record at `cp` named `name`.
pub fn decode_record(fields: &Vec<String>, cp: u32, name: String) -> (r: Result<
    UnicodeCharRecord,
    BuildError,
>)
    requires
        fields@.len() == 15,
    ensures
        match r {
            Ok(rec) => spec_decode_record(views_of_strings(fields@), cp, name@) == Some(rec@),
            Err(e) => spec_decode_record(views_of_strings(fields@), cp, name@) is None && e
                == BuildError::MalformedRecord,
        },
{
    let category = match Category::from_code(fields[2].as_str()) {
        Some(c) => c,
        None => {
            return Err(BuildError::MalformedRecord);
        },
    };
    let ccc = match parse_dec(fields[3].as_str()) {
        Some(v) => v,
        None => {
            return Err(BuildError::MalformedRecord);
        },
    };
    let bidi_class = match BidiClass::from_code(fields[4].as_str()) {
        Some(b) => b,
        None => {
            return Err(BuildError::MalformedRecord);
        },
    };
    let (decomposition_type, decomposition_mapping) = match decode_decomposition(
        fields[5].as_str(),
    ) {
        Ok(d) => d,
        Err(e) => {
            return Err(e);
        },
    };
    let (numeric_type, numeric_value) = match classify_numeric(
        fields[6].as_str(),
        fields[7].as_str(),
        fields[8].as_str(),
    ) {
        Ok(nv) => nv,
        Err(e) => {
            return Err(e);
        },
    };
    let f9 = fields[9].as_str();
    let bidi_mirrored = f9.unicode_len() == 1 && f9.get_char(0) == 'Y';
    let uppercase_mapping = match parse_case_mapping(fields[12].as_str()) {
        Ok(v) => v,
        Err(e) => {
            return Err(e);
        },
    };
    let lowercase_mapping = match parse_case_mapping(fields[13].as_str()) {
        Ok(v) => v,
        Err(e) => {
            return Err(e);
        },
    };
    let titlecase_mapping = match parse_case_mapping(fields[14].as_str()) {
        Ok(v) => v,
        Err(e) => {
            return Err(e);
        },
    };
    Ok(
        UnicodeCharRecord {
            codepoint: cp,
            name: name,
            category: category,
            block: String::new(),
            age: String::new(),
            canonical_combining_class: ccc,
            bidi_class: bidi_class,
            bidi_mirrored: bidi_mirrored,
            decomposition_type: decomposition_type,
            decomposition_mapping: decomposition_mapping,
            numeric_type: numeric_type,
            numeric_value: numeric_value,
            lowercase_mapping: lowercase_mapping,
            uppercase_mapping: uppercase_mapping,
            titlecase_mapping: titlecase_mapping,
            html_entity: None,
        },
    )
}


/// The logical rows of a source file: every line with one trailing
/// carriage return removed, empty lines skipped.
pub open spec fn spec_logical_rows(lines: Seq<Seq<char>>) -> Seq<Seq<char>>
    decreases lines.len(),
{
    if lines.len() == 0 {
        Seq::empty()
    } else {
        let rest = spec_logical_rows(lines.drop_last());
        let l = crate::text::strip_cr_spec(lines.last());
        if l.len() == 0 {
            rest
        } else {
            rest.push(l)
        }
    }
}

/// One decoded range row stamped across the whole inclusive interval:
/// every codepoint of [a, b] maps to the decoded record, re-placed at that
/// codepoint; everything else keeps its binding.
pub open spec fn spec_insert_range(
    acc: Map<u32, RecordModel>,
    rec: RecordModel,
    a: u32,
    b: u32,
) -> Map<u32, RecordModel> {
    acc.union_prefer_right(
        Map::new(|q: u32| a <= q && q <= b, |q: u32| rec.with_codepoint(q)),
    )
}

/// The record map that a row sequence denotes, folded over `acc` in file
/// order with one-row lookahead: a row whose name ends in `First>` must be
/// followed by a row whose name ends in `Last>`, and stamps the interval
/// between their codepoints; any other row maps its own codepoint.
pub open spec fn spec_parse_rows(rows: Seq<Seq<char>>, acc: Map<u32, RecordModel>) -> Option<
    Map<u32, RecordModel>,
>
    decreases rows.len(),
{
    if rows.len() == 0 {
        Some(acc)
    } else {
        let fields = split_seq(rows[0], ';');
        if fields.len() != 15 {
            None
        } else {
            match parse_hex_spec(fields[0]) {
                None => None,
                Some(cp) => {
                    if crate::text::ends_with_seq(fields[1], "First>"@) {
                        if rows.len() < 2 {
                            None
                        } else {
                            let fields2 = split_seq(rows[1], ';');
                            if fields2.len() != 15 {
                                None
                            } else if !crate::text::ends_with_seq(fields2[1], "Last>"@) {
                                None
                            } else {
                                match parse_hex_spec(fields2[0]) {
                                    None => None,
                                    Some(last) => {
                                        let label_src = split_seq(fields[1], ',')[0];
                                        if label_src.len() == 0 {
                                            None
                                        } else {
                                            match spec_decode_record(
                                                fields,
                                                cp,
                                                label_src.drop_first(),
                                            ) {
                                                None => None,
                                                Some(rec) => spec_parse_rows(
                                                    rows.skip(2),
                                                    spec_insert_range(acc, rec, cp, last),
                                                ),
                                            }
                                        }
                                    },
                                }
                            }
                        }
                    } else {
                        match spec_decode_record(fields, cp, fields[1]) {
                            None => None,
                            Some(rec) => spec_parse_rows(rows.skip(1), acc.insert(cp, rec)),
                        }
                    }
                },
            }
        }
    }
}

/// What the whole base file denotes: its logical rows folded over the
/// empty map.
pub open spec fn spec_parse_unicode_data(text: Seq<char>) -> Option<Map<u32, RecordModel>> {
    spec_parse_rows(spec_logical_rows(split_seq(text, '\n')), Map::empty())
}

/// Parses the whole base data file into the ordered record map. `Ok`
/// exactly when every row decodes and every `First>` row is closed by a
/// `Last>` row, and then the map holds exactly what the file denotes.
pub fn parse_unicode_data(text: &str) -> (r: Result<RecordMap, BuildError>)
    ensures
        match r {
            Ok(map) => map.wf() && Some(map.contents()) == spec_parse_unicode_data(text@),
            Err(e) => spec_parse_unicode_data(text@) is None && e == BuildError::MalformedRecord,
        },
{
    let lines = split_str(text, '\n');
    let mut rows: Vec<String> = Vec::new();
    let mut k: usize = 0;
    proof {
        assert(views_of_strings(lines@).take(0) =~= Seq::<Seq<char>>::empty());
        assert(views_of_strings(rows@) =~= spec_logical_rows(views_of_strings(lines@).take(0)));
    }
    while k < lines.len()
        invariant
            k <= lines@.len(),
            views_of_strings(rows@) == spec_logical_rows(views_of_strings(lines@).take(k as int)),
        decreases lines@.len() - k,
    {
        proof {
            assert(views_of_strings(lines@).take(k + 1).drop_last() =~= views_of_strings(
                lines@,
            ).take(k as int));
            assert(views_of_strings(lines@).take(k + 1).last() == lines@[k as int]@);
        }
        let ghost before = views_of_strings(rows@);
        let stripped = crate::text::strip_cr(lines[k].as_str());
        if stripped.as_str().unicode_len() > 0 {
            rows.push(stripped);
            proof {
                assert(views_of_strings(rows@) =~~= before.push(
                    crate::text::strip_cr_spec(lines@[k as int]@),
                ));
            }
        }
        k = k + 1;
    }
    proof {
        assert(views_of_strings(lines@).take(lines@.len() as int) =~= views_of_strings(lines@));
    }
    let ghost rowviews = views_of_strings(rows@);
    let ghost goal = spec_parse_unicode_data(text@);
    let mut map = RecordMap::new();
    let mut i: usize = 0;
    proof {
        assert(rowviews.skip(0) =~= rowviews);
        assert(map.contents() =~= Map::<u32, RecordModel>::empty());
    }
    while i < rows.len()
        invariant
            i <= rows@.len(),
            rowviews == views_of_strings(rows@),
            goal == spec_parse_unicode_data(text@),
            map.wf(),
            spec_parse_rows(rowviews.skip(i as int), map.contents()) == goal,
        decreases rows@.len() - i,
    {
        proof {
            assert(rowviews.skip(i as int)[0] == rowviews[i as int]);
        }
        let fields = split_str(rows[i].as_str(), ';');
        if fields.len() != 15 {
            return Err(BuildError::MalformedRecord);
        }
        let cp = match parse_hex(fields[0].as_str()) {
            Some(v) => v,
            None => {
                return Err(BuildError::MalformedRecord);
            },
        };
        if has_suffix(fields[1].as_str(), "First>") {
            if i + 1 >= rows.len() {
                proof {
                    assert(rowviews.skip(i as int).len() < 2);
                }
                return Err(BuildError::MalformedRecord);
            }
            proof {
                assert(rowviews.skip(i as int)[1] == rowviews[i + 1]);
                assert(rowviews.skip(i as int).len() >= 2);
            }
            let fields2 = split_str(rows[i + 1].as_str(), ';');
            if fields2.len() != 15 {
                return Err(BuildError::MalformedRecord);
            }
            if !has_suffix(fields2[1].as_str(), "Last>") {
                return Err(BuildError::MalformedRecord);
            }
            let last = match parse_hex(fields2[0].as_str()) {
                Some(v) => v,
                None => {
                    return Err(BuildError::MalformedRecord);
                },
            };
            let label_parts = split_str(fields[1].as_str(), ',');
            proof {
                crate::text::lemma_split_seq_len(fields@[1]@, ',');
            }
            let nl = label_parts[0].as_str().unicode_len();
            if nl == 0 {
                return Err(BuildError::MalformedRecord);
            }
            let label = label_parts[0].as_str().substring_char(1, nl).to_owned();
            proof {
                assert(label@ =~= split_seq(fields@[1]@, ',')[0].drop_first());
            }
            let rec = match decode_record(&fields, cp, label) {
                Ok(rec) => rec,
                Err(e) => {
                    return Err(e);
                },
            };
            let ghost acc0 = map.contents();
            let mut p: u64 = cp as u64;
            proof {
                assert(map.contents() =~= acc0.union_prefer_right(
                    Map::new(
                        |q: u32| cp <= q && (q as u64) < p,
                        |q: u32| rec@.with_codepoint(q),
                    ),
                ));
            }
            while p <= last as u64
                invariant
                    cp as u64 <= p <= last as u64 + 1 || p == cp as u64,
                    map.wf(),
                    map.contents() == acc0.union_prefer_right(
                        Map::new(
                            |q: u32| cp <= q && (q as u64) < p,
                            |q: u32| rec@.with_codepoint(q),
                        ),
                    ),
                decreases last as u64 + 1 - p,
            {
                let pc: u32 = p as u32;
                let one = rec.duplicate_at(pc);
                map.insert(one);
                proof {
                    assert(map.contents() =~= acc0.union_prefer_right(
                        Map::new(
                            |q: u32| cp <= q && (q as u64) < p + 1,
                            |q: u32| rec@.with_codepoint(q),
                        ),
                    ));
                }
                p = p + 1;
            }
            proof {
                assert(map.contents() =~= spec_insert_range(acc0, rec@, cp, last));
                assert(rowviews.skip(i as int).skip(2) =~= rowviews.skip(i + 2));
            }
            i = i + 2;
        } else {
            let name = fields[1].clone();
            let rec = match decode_record(&fields, cp, name) {
                Ok(rec) => rec,
                Err(e) => {
                    return Err(e);
                },
            };
            let ghost acc0 = map.contents();
            map.insert(rec);
            proof {
                assert(map.contents() == acc0.insert(rec@.codepoint, rec@));
                assert(rowviews.skip(i as int).skip(1) =~= rowviews.skip(i + 1));
            }
            i = i + 1;
        }
    }
    proof {
        assert(rowviews.skip(i as int).len() == 0);
        assert(rowviews.skip(i as int) =~= Seq::<Seq<char>>::empty());
    }
    Ok(map)
}


/// Cardinality of an inclusive codepoint interval.
proof fn lemma_u32_interval_len(a: u32, b: u32)
    requires
        a <= b,
    ensures
        Set::new(|q: u32| a <= q && q <= b).finite(),
        Set::new(|q: u32| a <= q && q <= b).len() == b - a + 1,
    decreases b - a,
{
    if a == b {
        assert(Set::new(|q: u32| a <= q && q <= b) =~= Set::empty().insert(a));
    } else {
        lemma_u32_interval_len(a, (b - 1) as u32);
        assert(Set::new(|q: u32| a <= q && q <= b) =~= Set::new(
            |q: u32| a <= q && q <= (b - 1) as u32,
        ).insert(b));
    }
}

/// Expanding one decoded range row across [a, b] yields exactly
/// b - a + 1 records, one per codepoint of the interval, each identical
/// to the decoded row in every field but the codepoint, and binds nothing
/// outside the interval to anything new.
pub proof fn lemma_range_expansion(acc: Map<u32, RecordModel>, rec: RecordModel, a: u32, b: u32)
    requires
        a <= b,
    ensures
        forall|p: u32|
            a <= p && p <= b ==> #[trigger] spec_insert_range(acc, rec, a, b).dom().contains(p),
        forall|p: u32|
            a <= p && p <= b ==> #[trigger] spec_insert_range(acc, rec, a, b)[p]
                == rec.with_codepoint(p),
        forall|p: u32|
            a <= p && p <= b ==> #[trigger] spec_insert_range(acc, rec, a, b)[p].with_codepoint(
                rec.codepoint,
            ) == rec,
        forall|p: u32|
            !(a <= p && p <= b) ==> (#[trigger] spec_insert_range(acc, rec, a, b).dom().contains(p)
                <==> acc.dom().contains(p)),
        forall|p: u32|
            !(a <= p && p <= b) && acc.dom().contains(p) ==> #[trigger] spec_insert_range(
                acc,
                rec,
                a,
                b,
            )[p] == acc[p],
        acc == Map::<u32, RecordModel>::empty() ==> spec_insert_range(acc, rec, a, b).dom().len()
            == b - a + 1,
{
    if acc == Map::<u32, RecordModel>::empty() {
        lemma_u32_interval_len(a, b);
        assert(spec_insert_range(acc, rec, a, b).dom() =~= Set::new(|q: u32| a <= q && q <= b));
    }
}

} // verus!
