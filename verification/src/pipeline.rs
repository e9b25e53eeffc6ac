//! The build pipeline above the store: base records parsed, then blocks,
//! ages and entities stamped on, strictly in that order, each stage
//! handing its whole map to the next.

use vstd::prelude::*;
use crate::record::RecordModel;
use crate::record_map::{records_map, sorted_by_codepoint, RecordMap};
use crate::ucd::{
    parse_unicode_data, spec_parse_unicode_data, spec_insert_range, lemma_range_expansion,
};
use crate::annotate::{
    process_blocks, process_ages, process_entities, spec_process_blocks, spec_process_ages,
    spec_annotate_entities, views_of_entries, EntityEntry, spec_stamp_block, spec_stamp_entity,
    lemma_stamp_block_contents, lemma_stamp_entity_contents,
};
use crate::store::{
    writer_post, stored_map_of, row_of_record, lemma_stored_map_matches_records, StoredRow,
};
use crate::lookup::{rows_answer_codepoints, LookupRow};
use crate::error::BuildError;

verus! {

/// Runs every in-memory stage of the build over the given source file
/// contents: the parsed base records, annotated by the block file, the
/// age file and the entity mapping, in that order. It succeeds exactly
/// when every stage's file denotes something, and fails on the first
/// malformed row: either the base file denotes no map, or it denotes one
/// whose block or age pass denotes nothing.
pub fn build_dataset(
    unicode_data: &str,
    blocks: &str,
    ages: &str,
    entities: &Vec<EntityEntry>,
) -> (r: Result<RecordMap, BuildError>)
    ensures
        match r {
            Ok(map) => map.wf() && spec_parse_unicode_data(unicode_data@) is Some && exists|
                s0: Seq<RecordModel>,
            |
                {
                    &&& sorted_by_codepoint(s0)
                    &&& Some(#[trigger] records_map(s0)) == spec_parse_unicode_data(unicode_data@)
                    &&& spec_process_blocks(blocks@, s0) is Some
                    &&& spec_process_ages(ages@, spec_process_blocks(blocks@, s0)->0) is Some
                    &&& map@ == spec_annotate_entities(
                        views_of_entries(entities@),
                        spec_process_ages(ages@, spec_process_blocks(blocks@, s0)->0)->0,
                    )
                },
            Err(e) => e == BuildError::MalformedRecord && (spec_parse_unicode_data(unicode_data@)
                is None || exists|s0: Seq<RecordModel>|
                {
                    &&& sorted_by_codepoint(s0)
                    &&& Some(#[trigger] records_map(s0)) == spec_parse_unicode_data(unicode_data@)
                    &&& (spec_process_blocks(blocks@, s0) is None || spec_process_ages(
                        ages@,
                        spec_process_blocks(blocks@, s0)->0,
                    ) is None)
                }),
        },
{
    let mut map = match parse_unicode_data(unicode_data) {
        Ok(m) => m,
        Err(e) => {
            return Err(e);
        },
    };
    let ghost s0 = map@;
    match process_blocks(&mut map, blocks) {
        Ok(()) => (),
        Err(e) => {
            proof {
                assert(sorted_by_codepoint(s0) && Some(records_map(s0))
                    == spec_parse_unicode_data(unicode_data@) && spec_process_blocks(
                    blocks@,
                    s0,
                ) is None);
            }
            return Err(e);
        },
    }
    match process_ages(&mut map, ages) {
        Ok(()) => (),
        Err(e) => {
            proof {
                assert(sorted_by_codepoint(s0) && Some(records_map(s0))
                    == spec_parse_unicode_data(unicode_data@) && spec_process_ages(
                    ages@,
                    spec_process_blocks(blocks@, s0)->0,
                ) is None);
            }
            return Err(e);
        },
    }
    process_entities(&mut map, entities);
    proof {
        assert(sorted_by_codepoint(s0) && Some(records_map(s0)) == spec_parse_unicode_data(
            unicode_data@,
        ) && spec_process_blocks(blocks@, s0) is Some && spec_process_ages(
            ages@,
            spec_process_blocks(blocks@, s0)->0,
        ) is Some && map@ == spec_annotate_entities(
            views_of_entries(entities@),
            spec_process_ages(ages@, spec_process_blocks(blocks@, s0)->0)->0,
        ));
    }
    Ok(map)
}

/// What a character search shows of a store the writer populated from a
/// record sequence: every fetched row carries exactly the record standing
/// at its codepoint — its name, category code, block and age — every
/// requested mapped codepoint is answered, and the answers come in
/// ascending codepoint order without duplicates.
pub proof fn lemma_search_reflects_records(
    recs: Seq<RecordModel>,
    before: Map<u32, StoredRow>,
    after: Map<u32, StoredRow>,
    wanted: Seq<u32>,
    rows: Seq<LookupRow>,
)
    requires
        before.dom().len() == 0,
        writer_post(before, after, recs),
        rows_answer_codepoints(after, wanted, rows),
    ensures
        forall|i: int|
            0 <= i < rows.len() ==> {
                let r = #[trigger] rows[i];
                &&& records_map(recs).dom().contains(r.codepoint)
                &&& r.name == records_map(recs)[r.codepoint].name
                &&& r.category == records_map(recs)[r.codepoint].category.code_spec()
                &&& r.block == records_map(recs)[r.codepoint].block
                &&& r.age == records_map(recs)[r.codepoint].age
                &&& wanted.contains(r.codepoint)
            },
        forall|cp: u32|
            #[trigger] wanted.contains(cp) && records_map(recs).dom().contains(cp) ==> exists|
                i: int,
            | 0 <= i < rows.len() && #[trigger] rows[i].codepoint == cp,
        forall|i: int, j: int| 0 <= i < j < rows.len() ==> rows[i].codepoint < rows[j].codepoint,
{
    assert(after == stored_map_of(recs));
    lemma_stored_map_matches_records(recs);
    assert forall|i: int|
        0 <= i < rows.len() implies {
        let r = #[trigger] rows[i];
        &&& records_map(recs).dom().contains(r.codepoint)
        &&& r.name == records_map(recs)[r.codepoint].name
        &&& r.category == records_map(recs)[r.codepoint].category.code_spec()
        &&& r.block == records_map(recs)[r.codepoint].block
        &&& r.age == records_map(recs)[r.codepoint].age
        &&& wanted.contains(r.codepoint)
    } by {
        assert(crate::lookup::row_in_store(after, rows[i]));
        assert(records_map(recs).dom().contains(rows[i].codepoint));
        assert(after[rows[i].codepoint] == row_of_record(records_map(recs)[rows[i].codepoint]));
    }
    assert forall|cp: u32|
        #[trigger] wanted.contains(cp) && records_map(recs).dom().contains(cp) implies exists|
        i: int,
    | 0 <= i < rows.len() && #[trigger] rows[i].codepoint == cp by {
        assert(after.dom().contains(cp));
    }
}

/// What a character search shows of a store populated from one expanded
/// range row: every answered codepoint of [a, b] renders the decoded
/// row's shared name, category code, block and age, and every requested
/// codepoint of the interval is answered.
pub proof fn lemma_search_shows_range_expansion(
    acc: Map<u32, RecordModel>,
    rec: RecordModel,
    a: u32,
    b: u32,
    recs: Seq<RecordModel>,
    before: Map<u32, StoredRow>,
    after: Map<u32, StoredRow>,
    wanted: Seq<u32>,
    rows: Seq<LookupRow>,
)
    requires
        a <= b,
        records_map(recs) == spec_insert_range(acc, rec, a, b),
        before.dom().len() == 0,
        writer_post(before, after, recs),
        rows_answer_codepoints(after, wanted, rows),
    ensures
        forall|i: int|
            0 <= i < rows.len() && a <= (#[trigger] rows[i]).codepoint && rows[i].codepoint <= b
                ==> rows[i].name == rec.name && rows[i].category == rec.category.code_spec()
                && rows[i].block == rec.block && rows[i].age == rec.age,
        forall|cp: u32|
            a <= cp && cp <= b && #[trigger] wanted.contains(cp) ==> exists|i: int|
                0 <= i < rows.len() && #[trigger] rows[i].codepoint == cp,
{
    lemma_range_expansion(acc, rec, a, b);
    lemma_search_reflects_records(recs, before, after, wanted, rows);
    assert forall|i: int|
        0 <= i < rows.len() && a <= (#[trigger] rows[i]).codepoint && rows[i].codepoint <= b
        implies rows[i].name == rec.name && rows[i].category == rec.category.code_spec()
        && rows[i].block == rec.block && rows[i].age == rec.age by {
        let cp = rows[i].codepoint;
        assert(records_map(recs)[cp] == rec.with_codepoint(cp));
    }
    assert forall|cp: u32|
        a <= cp && cp <= b && #[trigger] wanted.contains(cp) implies exists|i: int|
        0 <= i < rows.len() && #[trigger] rows[i].codepoint == cp by {
        assert(records_map(recs).dom().contains(cp));
    }
}

/// What a character search shows of a store populated after one block
/// stamp over [a, b]: an answered codepoint inside the interval renders
/// the stamped name, one outside keeps its record's block, and every
/// other displayed column is the untouched record's.
pub proof fn lemma_search_shows_block_stamp(
    recs: Seq<RecordModel>,
    a: u32,
    b: u32,
    name: Seq<char>,
    before: Map<u32, StoredRow>,
    after: Map<u32, StoredRow>,
    wanted: Seq<u32>,
    rows: Seq<LookupRow>,
)
    requires
        before.dom().len() == 0,
        writer_post(before, after, spec_stamp_block(recs, a, b, name)),
        rows_answer_codepoints(after, wanted, rows),
    ensures
        forall|i: int|
            0 <= i < rows.len() ==> {
                let r = #[trigger] rows[i];
                &&& records_map(recs).dom().contains(r.codepoint)
                &&& (a <= r.codepoint && r.codepoint <= b ==> r.block == name)
                &&& (!(a <= r.codepoint && r.codepoint <= b) ==> r.block == records_map(
                    recs,
                )[r.codepoint].block)
                &&& r.name == records_map(recs)[r.codepoint].name
                &&& r.category == records_map(recs)[r.codepoint].category.code_spec()
                &&& r.age == records_map(recs)[r.codepoint].age
            },
        forall|cp: u32|
            #[trigger] wanted.contains(cp) && records_map(recs).dom().contains(cp) ==> exists|
                i: int,
            | 0 <= i < rows.len() && #[trigger] rows[i].codepoint == cp,
{
    let stamped = spec_stamp_block(recs, a, b, name);
    lemma_stamp_block_contents(recs, a, b, name);
    lemma_search_reflects_records(stamped, before, after, wanted, rows);
    assert forall|i: int|
        0 <= i < rows.len() implies {
        let r = #[trigger] rows[i];
        &&& records_map(recs).dom().contains(r.codepoint)
        &&& (a <= r.codepoint && r.codepoint <= b ==> r.block == name)
        &&& (!(a <= r.codepoint && r.codepoint <= b) ==> r.block == records_map(
            recs,
        )[r.codepoint].block)
        &&& r.name == records_map(recs)[r.codepoint].name
        &&& r.category == records_map(recs)[r.codepoint].category.code_spec()
        &&& r.age == records_map(recs)[r.codepoint].age
    } by {
        let cp = rows[i].codepoint;
        assert(records_map(stamped).dom().contains(cp));
        assert(records_map(recs).dom().contains(cp));
    }
    assert forall|cp: u32|
        #[trigger] wanted.contains(cp) && records_map(recs).dom().contains(cp) implies exists|
        i: int,
    | 0 <= i < rows.len() && #[trigger] rows[i].codepoint == cp by {
        assert(records_map(stamped).dom().contains(cp));
    }
}

/// What the fuller store holds after one entity stamp: the stamped
/// codepoint's row carries the entity name and is otherwise its record's
/// stored row unchanged; every other row is untouched.
pub proof fn lemma_store_shows_entity_stamp(
    recs: Seq<RecordModel>,
    at: u32,
    name: Seq<char>,
    before: Map<u32, StoredRow>,
    after: Map<u32, StoredRow>,
)
    requires
        before.dom().len() == 0,
        writer_post(before, after, spec_stamp_entity(recs, at, name)),
    ensures
        forall|cp: u32|
            #[trigger] after.dom().contains(cp) <==> records_map(recs).dom().contains(cp),
        records_map(recs).dom().contains(at) ==> after[at] == (StoredRow {
            html_entity: Some(name),
            ..row_of_record(records_map(recs)[at])
        }),
        forall|cp: u32|
            #[trigger] records_map(recs).dom().contains(cp) && cp != at ==> after[cp]
                == row_of_record(records_map(recs)[cp]),
{
    let stamped = spec_stamp_entity(recs, at, name);
    assert(after == stored_map_of(stamped));
    lemma_stamp_entity_contents(recs, at, name);
    lemma_stored_map_matches_records(stamped);
    assert forall|cp: u32|
        #[trigger] after.dom().contains(cp) <==> records_map(recs).dom().contains(cp) by {
        assert(after.dom().contains(cp) <==> records_map(stamped).dom().contains(cp));
    }
    if records_map(recs).dom().contains(at) {
        assert(records_map(stamped).dom().contains(at));
        assert(after[at] == row_of_record(records_map(stamped)[at]));
        assert(records_map(stamped)[at] == records_map(recs)[at].with_entity(name));
    }
    assert forall|cp: u32|
        #[trigger] records_map(recs).dom().contains(cp) && cp != at implies after[cp]
        == row_of_record(records_map(recs)[cp]) by {
        assert(records_map(stamped).dom().contains(cp));
        assert(after[cp] == row_of_record(records_map(stamped)[cp]));
    }
}

} // verus!
