//! The three annotators: block names, ages and HTML entities stamped onto
//! records already present in the map. Codepoints the map does not hold
//! are silently skipped, for the annotation files cover the whole
//! codepoint space.

use vstd::prelude::*;
use vstd::string::StrSliceExecFns;
use crate::text::{split_seq, split_str, views_of_strings, trim_spec, trim};
use crate::numbers::{parse_hex_spec, parse_hex};
use crate::record::RecordModel;
use crate::record_map::{records_map, lemma_records_map_key, lemma_records_map_map_values, RecordMap};
use crate::ucd::spec_logical_rows;
use crate::error::BuildError;

verus! {

/// Where the first `..` of a range expression stands, or -1.
pub open spec fn dotdot_index(s: Seq<char>) -> int
    decreases s.len(),
{
    if s.len() < 2 {
        -1
    } else if s[0] == '.' && s[1] == '.' {
        0
    } else {
        let r = dotdot_index(s.drop_first());
        if r == -1 {
            -1
        } else {
            r + 1
        }
    }
}

proof fn lemma_dotdot_found(s: Seq<char>, j: int)
    requires
        0 <= j <= s.len() - 2,
        s[j] == '.' && s[j + 1] == '.',
        forall|k: int| #![trigger s[k]] 0 <= k < j ==> !(s[k] == '.' && s[k + 1] == '.'),
    ensures
        dotdot_index(s) == j,
    decreases j,
{
    if j == 0 {
    } else {
        let t = s.drop_first();
        assert(t[j - 1] == '.' && t[j - 1 + 1] == '.');
        assert forall|k: int| #![trigger t[k]] 0 <= k < j - 1 implies !(t[k] == '.' && t[k + 1] == '.') by {
            assert(!(s[k + 1] == '.' && s[k + 2] == '.'));
        }
        lemma_dotdot_found(t, j - 1);
    }
}

proof fn lemma_dotdot_none(s: Seq<char>)
    requires
        forall|k: int| #![trigger s[k]] 0 <= k <= s.len() - 2 ==> !(s[k] == '.' && s[k + 1] == '.'),
    ensures
        dotdot_index(s) == -1,
    decreases s.len(),
{
    if s.len() >= 2 {
        let t = s.drop_first();
        assert forall|k: int| #![trigger t[k]] 0 <= k <= t.len() - 2 implies !(t[k] == '.' && t[k + 1] == '.') by {
            assert(!(s[k + 1] == '.' && s[k + 2] == '.'));
        }
        lemma_dotdot_none(t);
    }
}

/// A range expression denotes an inclusive codepoint interval: two
/// hexadecimal codes joined by `..`, or one code standing for itself.
pub open spec fn spec_parse_range(s: Seq<char>) -> Option<(u32, u32)> {
    let i = dotdot_index(s);
    if i == -1 {
        match parse_hex_spec(s) {
            Some(v) => Some((v, v)),
            None => None,
        }
    } else {
        match (parse_hex_spec(s.take(i)), parse_hex_spec(s.skip(i + 2))) {
            (Some(a), Some(b)) => Some((a, b)),
            _ => None,
        }
    }
}

/// Parses a range expression into its inclusive bounds.
pub fn parse_codepoint_range(s: &str) -> (r: Option<(u32, u32)>)
    ensures
        r == spec_parse_range(s@),
{
    let n = s.unicode_len();
    let mut j: usize = 0;
    while n > 0 && j < n - 1
        invariant
            j <= n,
            n == s@.len(),
            forall|k: int| #![trigger s@[k]] 0 <= k < j ==> !(s@[k] == '.' && s@[k + 1] == '.'),
        decreases n - j,
    {
        if s.get_char(j) == '.' && s.get_char(j + 1) == '.' {
            proof {
                lemma_dotdot_found(s@, j as int);
            }
            let left = s.substring_char(0, j);
            let right = s.substring_char(j + 2, n);
            proof {
                assert(left@ =~= s@.take(j as int));
                assert(right@ =~= s@.skip(j + 2));
            }
            let a = match parse_hex(left) {
                Some(v) => v,
                None => {
                    return None;
                },
            };
            let b = match parse_hex(right) {
                Some(v) => v,
                None => {
                    return None;
                },
            };
            return Some((a, b));
        }
        j = j + 1;
    }
    proof {
        lemma_dotdot_none(s@);
    }
    match parse_hex(s) {
        Some(v) => Some((v, v)),
        None => None,
    }
}

/// Every record of the interval [a, b] with its block set to `name`;
/// records outside the interval untouched.
pub open spec fn spec_stamp_block(recs: Seq<RecordModel>, a: u32, b: u32, name: Seq<char>) -> Seq<
    RecordModel,
> {
    Seq::new(
        recs.len(),
        |i: int|
            if a <= recs[i].codepoint && recs[i].codepoint <= b {
                recs[i].with_block(name)
            } else {
                recs[i]
            },
    )
}

/// Every record of the interval [a, b] with its age set to `version`.
pub open spec fn spec_stamp_age(recs: Seq<RecordModel>, a: u32, b: u32, version: Seq<char>) -> Seq<
    RecordModel,
> {
    Seq::new(
        recs.len(),
        |i: int|
            if a <= recs[i].codepoint && recs[i].codepoint <= b {
                recs[i].with_age(version)
            } else {
                recs[i]
            },
    )
}

/// The record at codepoint `cp`, if any, with its entity name set.
pub open spec fn spec_stamp_entity(recs: Seq<RecordModel>, cp: u32, name: Seq<char>) -> Seq<
    RecordModel,
> {
    Seq::new(
        recs.len(),
        |i: int|
            if recs[i].codepoint == cp {
                recs[i].with_entity(name)
            } else {
                recs[i]
            },
    )
}

/// One block-file row: `Some(None)` for a comment or a row without exactly
/// two fields, both skipped; `None` for a fatal malformed range; otherwise
/// the inclusive interval and the trimmed block name.
pub open spec fn spec_block_line(line: Seq<char>) -> Option<Option<(u32, u32, Seq<char>)>> {
    let fields = split_seq(line, ';');
    if fields.len() != 2 {
        Some(None)
    } else {
        let key = trim_spec(fields[0]);
        if key.len() > 0 && key[0] == '#' {
            Some(None)
        } else {
            match spec_parse_range(key) {
                None => None,
                Some((a, b)) => Some(Some((a, b, trim_spec(fields[1])))),
            }
        }
    }
}

/// One age-file row: like a block row, but the second field may carry a
/// trailing `#`-introduced comment, stripped before trimming.
pub open spec fn spec_age_line(line: Seq<char>) -> Option<Option<(u32, u32, Seq<char>)>> {
    let fields = split_seq(line, ';');
    if fields.len() != 2 {
        Some(None)
    } else {
        let key = trim_spec(fields[0]);
        if key.len() > 0 && key[0] == '#' {
            Some(None)
        } else {
            match spec_parse_range(key) {
                None => None,
                Some((a, b)) => Some(Some((a, b, trim_spec(split_seq(fields[1], '#')[0])))),
            }
        }
    }
}

/// The block file folded over the records, row by row in file order.
pub open spec fn spec_annotate_blocks(rows: Seq<Seq<char>>, recs: Seq<RecordModel>) -> Option<
    Seq<RecordModel>,
>
    decreases rows.len(),
{
    if rows.len() == 0 {
        Some(recs)
    } else {
        match spec_block_line(rows[0]) {
            None => None,
            Some(None) => spec_annotate_blocks(rows.skip(1), recs),
            Some(Some((a, b, name))) => spec_annotate_blocks(
                rows.skip(1),
                spec_stamp_block(recs, a, b, name),
            ),
        }
    }
}

/// The age file folded over the records, row by row in file order.
pub open spec fn spec_annotate_ages(rows: Seq<Seq<char>>, recs: Seq<RecordModel>) -> Option<
    Seq<RecordModel>,
>
    decreases rows.len(),
{
    if rows.len() == 0 {
        Some(recs)
    } else {
        match spec_age_line(rows[0]) {
            None => None,
            Some(None) => spec_annotate_ages(rows.skip(1), recs),
            Some(Some((a, b, version))) => spec_annotate_ages(
                rows.skip(1),
                spec_stamp_age(recs, a, b, version),
            ),
        }
    }
}

/// What the whole block file does to the records.
pub open spec fn spec_process_blocks(text: Seq<char>, recs: Seq<RecordModel>) -> Option<
    Seq<RecordModel>,
> {
    spec_annotate_blocks(spec_logical_rows(split_seq(text, '\n')), recs)
}

/// What the whole age file does to the records.
pub open spec fn spec_process_ages(text: Seq<char>, recs: Seq<RecordModel>) -> Option<
    Seq<RecordModel>,
> {
    spec_annotate_ages(spec_logical_rows(split_seq(text, '\n')), recs)
}

/// Stamps one block annotation across an inclusive codepoint interval.
fn stamp_block(map: &mut RecordMap, a: u32, b: u32, name: &str)
    requires
        old(map).wf(),
    ensures
        final(map).wf(),
        final(map)@ == spec_stamp_block(old(map)@, a, b, name@),
{
    let n = map.len();
    let mut i: usize = 0;
    while i < n
        invariant
            i <= n,
            n == map@.len(),
            n == old(map)@.len(),
            map.wf(),
            forall|k: int| 0 <= k < i ==> map@[k] == spec_stamp_block(old(map)@, a, b, name@)[k],
            forall|k: int| i <= k < n ==> map@[k] == old(map)@[k],
        decreases n - i,
    {
        let cp = map.get(i).codepoint;
        if a <= cp && cp <= b {
            map.set_block(i, name);
        }
        i = i + 1;
    }
    proof {
        assert(map@ =~= spec_stamp_block(old(map)@, a, b, name@));
    }
}

/// Stamps one age annotation across an inclusive codepoint interval.
fn stamp_age(map: &mut RecordMap, a: u32, b: u32, version: &str)
    requires
        old(map).wf(),
    ensures
        final(map).wf(),
        final(map)@ == spec_stamp_age(old(map)@, a, b, version@),
{
    let n = map.len();
    let mut i: usize = 0;
    while i < n
        invariant
            i <= n,
            n == map@.len(),
            n == old(map)@.len(),
            map.wf(),
            forall|k: int| 0 <= k < i ==> map@[k] == spec_stamp_age(old(map)@, a, b, version@)[k],
            forall|k: int| i <= k < n ==> map@[k] == old(map)@[k],
        decreases n - i,
    {
        let cp = map.get(i).codepoint;
        if a <= cp && cp <= b {
            map.set_age(i, version);
        }
        i = i + 1;
    }
    proof {
        assert(map@ =~= spec_stamp_age(old(map)@, a, b, version@));
    }
}

/// Annotates every mapped codepoint of the block file's intervals with its
/// block name; codepoints absent from the map are silently skipped, and a
/// later interval covering a codepoint again overwrites the earlier name.
pub fn process_blocks(map: &mut RecordMap, text: &str) -> (r: Result<(), BuildError>)
    requires
        old(map).wf(),
    ensures
        final(map).wf(),
        match r {
            Ok(()) => Some(final(map)@) == spec_process_blocks(text@, old(map)@),
            Err(e) => spec_process_blocks(text@, old(map)@) is None && e
                == BuildError::MalformedRecord,
        },
{
    let lines = split_str(text, '\n');
    let mut rows: Vec<String> = Vec::new();
    let mut k: usize = 0;
    proof {
        assert(views_of_strings(lines@).take(0) =~= Seq::<Seq<char>>::empty());
        assert(views_of_strings(rows@) =~= spec_logical_rows(views_of_strings(lines@).take(0)));
    }
    while k < lines.len()
        invariant
            k <= lines@.len(),
            views_of_strings(rows@) == spec_logical_rows(views_of_strings(lines@).take(k as int)),
        decreases lines@.len() - k,
    {
        proof {
            assert(views_of_strings(lines@).take(k + 1).drop_last() =~= views_of_strings(
                lines@,
            ).take(k as int));
            assert(views_of_strings(lines@).take(k + 1).last() == lines@[k as int]@);
        }
        let ghost before = views_of_strings(rows@);
        let stripped = crate::text::strip_cr(lines[k].as_str());
        if stripped.as_str().unicode_len() > 0 {
            rows.push(stripped);
            proof {
                assert(views_of_strings(rows@) =~~= before.push(
                    crate::text::strip_cr_spec(lines@[k as int]@),
                ));
            }
        }
        k = k + 1;
    }
    proof {
        assert(views_of_strings(lines@).take(lines@.len() as int) =~= views_of_strings(lines@));
    }
    let ghost rowviews = views_of_strings(rows@);
    let ghost goal = spec_process_blocks(text@, old(map)@);
    let mut i: usize = 0;
    proof {
        assert(rowviews.skip(0) =~= rowviews);
    }
    while i < rows.len()
        invariant
            i <= rows@.len(),
            rowviews == views_of_strings(rows@),
            map.wf(),
            spec_annotate_blocks(rowviews.skip(i as int), map@) == goal,
            goal == spec_process_blocks(text@, old(map)@),
        decreases rows@.len() - i,
    {
        proof {
            assert(rowviews.skip(i as int)[0] == rowviews[i as int]);
        }
        let fields = split_str(rows[i].as_str(), ';');
        if fields.len() == 2 {
            let key = trim(fields[0].as_str());
            let is_comment = key.as_str().unicode_len() > 0 && key.as_str().get_char(0) == '#';
            if !is_comment {
                match parse_codepoint_range(key.as_str()) {
                    Some((a, b)) => {
                        let name = trim(fields[1].as_str());
                        stamp_block(map, a, b, name.as_str());
                    },
                    None => {
                        proof {
                            assert(spec_block_line(rowviews[i as int]) is None);
                        }
                        return Err(BuildError::MalformedRecord);
                    },
                }
            }
        }
        proof {
            assert(rowviews.skip(i as int).skip(1) =~= rowviews.skip(i + 1));
        }
        i = i + 1;
    }
    proof {
        assert(rowviews.skip(i as int) =~= Seq::<Seq<char>>::empty());
    }
    Ok(())
}

/// Annotates every mapped codepoint of the age file's intervals with its
/// version string, the trailing comment of the second field stripped.
pub fn process_ages(map: &mut RecordMap, text: &str) -> (r: Result<(), BuildError>)
    requires
        old(map).wf(),
    ensures
        final(map).wf(),
        match r {
            Ok(()) => Some(final(map)@) == spec_process_ages(text@, old(map)@),
            Err(e) => spec_process_ages(text@, old(map)@) is None && e
                == BuildError::MalformedRecord,
        },
{
    let lines = split_str(text, '\n');
    let mut rows: Vec<String> = Vec::new();
    let mut k: usize = 0;
    proof {
        assert(views_of_strings(lines@).take(0) =~= Seq::<Seq<char>>::empty());
        assert(views_of_strings(rows@) =~= spec_logical_rows(views_of_strings(lines@).take(0)));
    }
    while k < lines.len()
        invariant
            k <= lines@.len(),
            views_of_strings(rows@) == spec_logical_rows(views_of_strings(lines@).take(k as int)),
        decreases lines@.len() - k,
    {
        proof {
            assert(views_of_strings(lines@).take(k + 1).drop_last() =~= views_of_strings(
                lines@,
            ).take(k as int));
            assert(views_of_strings(lines@).take(k + 1).last() == lines@[k as int]@);
        }
        let ghost before = views_of_strings(rows@);
        let stripped = crate::text::strip_cr(lines[k].as_str());
        if stripped.as_str().unicode_len() > 0 {
            rows.push(stripped);
            proof {
                assert(views_of_strings(rows@) =~~= before.push(
                    crate::text::strip_cr_spec(lines@[k as int]@),
                ));
            }
        }
        k = k + 1;
    }
    proof {
        assert(views_of_strings(lines@).take(lines@.len() as int) =~= views_of_strings(lines@));
    }
    let ghost rowviews = views_of_strings(rows@);
    let ghost goal = spec_process_ages(text@, old(map)@);
    let mut i: usize = 0;
    proof {
        assert(rowviews.skip(0) =~= rowviews);
    }
    while i < rows.len()
        invariant
            i <= rows@.len(),
            rowviews == views_of_strings(rows@),
            map.wf(),
            spec_annotate_ages(rowviews.skip(i as int), map@) == goal,
            goal == spec_process_ages(text@, old(map)@),
        decreases rows@.len() - i,
    {
        proof {
            assert(rowviews.skip(i as int)[0] == rowviews[i as int]);
        }
        let fields = split_str(rows[i].as_str(), ';');
        if fields.len() == 2 {
            let key = trim(fields[0].as_str());
            let is_comment = key.as_str().unicode_len() > 0 && key.as_str().get_char(0) == '#';
            if !is_comment {
                match parse_codepoint_range(key.as_str()) {
                    Some((a, b)) => {
                        let comment_parts = split_str(fields[1].as_str(), '#');
                        proof {
                            crate::text::lemma_split_seq_len(fields@[1]@, '#');
                        }
                        let version = trim(comment_parts[0].as_str());
                        stamp_age(map, a, b, version.as_str());
                    },
                    None => {
                        proof {
                            assert(spec_age_line(rowviews[i as int]) is None);
                        }
                        return Err(BuildError::MalformedRecord);
                    },
                }
            }
        }
        proof {
            assert(rowviews.skip(i as int).skip(1) =~= rowviews.skip(i + 1));
        }
        i = i + 1;
    }
    proof {
        assert(rowviews.skip(i as int) =~= Seq::<Seq<char>>::empty());
    }
    Ok(())
}

/// One entry of the entity mapping: a name and the codepoint sequence it
/// denotes.
pub struct EntityEntry {
    pub name: String,
    pub codepoints: Vec<u32>,
}

impl View for EntityEntry {
    type V = (Seq<char>, Seq<u32>);

    open spec fn view(&self) -> (Seq<char>, Seq<u32>) {
        (self.name@, self.codepoints@)
    }
}

pub open spec fn views_of_entries(v: Seq<EntityEntry>) -> Seq<(Seq<char>, Seq<u32>)> {
    Seq::new(v.len(), |i: int| v[i]@)
}

/// The entity mapping folded over the records: only entries denoting
/// exactly one codepoint stamp that codepoint, and only when it is mapped.
pub open spec fn spec_annotate_entities(
    entries: Seq<(Seq<char>, Seq<u32>)>,
    recs: Seq<RecordModel>,
) -> Seq<RecordModel>
    decreases entries.len(),
{
    if entries.len() == 0 {
        recs
    } else {
        let e = entries[0];
        let stamped = if e.1.len() == 1 {
            spec_stamp_entity(recs, e.1[0], e.0)
        } else {
            recs
        };
        spec_annotate_entities(entries.skip(1), stamped)
    }
}

/// Stamps one entity name onto one codepoint, if it is mapped.
fn stamp_entity(map: &mut RecordMap, cp: u32, name: &str)
    requires
        old(map).wf(),
    ensures
        final(map).wf(),
        final(map)@ == spec_stamp_entity(old(map)@, cp, name@),
{
    let n = map.len();
    let mut i: usize = 0;
    while i < n
        invariant
            i <= n,
            n == map@.len(),
            n == old(map)@.len(),
            map.wf(),
            forall|k: int| 0 <= k < i ==> map@[k] == spec_stamp_entity(old(map)@, cp, name@)[k],
            forall|k: int| i <= k < n ==> map@[k] == old(map)@[k],
        decreases n - i,
    {
        let rcp = map.get(i).codepoint;
        if rcp == cp {
            map.set_entity(i, name);
        }
        i = i + 1;
    }
    proof {
        assert(map@ =~= spec_stamp_entity(old(map)@, cp, name@));
    }
}

/// Annotates records with their HTML entity names. An entry whose
/// codepoint sequence has any length other than one is dropped, and an
/// entry naming an unmapped codepoint does nothing.
pub fn process_entities(map: &mut RecordMap, entries: &Vec<EntityEntry>)
    requires
        old(map).wf(),
    ensures
        final(map).wf(),
        final(map)@ == spec_annotate_entities(views_of_entries(entries@), old(map)@),
{
    let ghost all = views_of_entries(entries@);
    let mut i: usize = 0;
    proof {
        assert(all.skip(0) =~= all);
    }
    while i < entries.len()
        invariant
            i <= entries@.len(),
            all == views_of_entries(entries@),
            map.wf(),
            spec_annotate_entities(all.skip(i as int), map@) == spec_annotate_entities(
                all,
                old(map)@,
            ),
        decreases entries@.len() - i,
    {
        proof {
            assert(all.skip(i as int)[0] == all[i as int]);
        }
        if entries[i].codepoints.len() == 1 {
            let cp = entries[i].codepoints[0];
            stamp_entity(map, cp, entries[i].name.as_str());
        }
        proof {
            assert(all.skip(i as int).skip(1) =~= all.skip(i + 1));
        }
        i = i + 1;
    }
    proof {
        assert(all.skip(i as int) =~= Seq::<(Seq<char>, Seq<u32>)>::empty());
    }
}


/// Stamping an interval moves through the keyed contents pointwise: the
/// codepoints are unchanged; a mapped codepoint inside [a, b] carries the
/// new block name, and one outside keeps its record untouched.
pub proof fn lemma_stamp_block_contents(recs: Seq<RecordModel>, a: u32, b: u32, name: Seq<char>)
    ensures
        forall|cp: u32|
            #[trigger] records_map(spec_stamp_block(recs, a, b, name)).dom().contains(cp)
                <==> records_map(recs).dom().contains(cp),
        forall|cp: u32|
            #[trigger] records_map(recs).dom().contains(cp) ==> records_map(
                spec_stamp_block(recs, a, b, name),
            )[cp] == (if a <= cp && cp <= b {
                records_map(recs)[cp].with_block(name)
            } else {
                records_map(recs)[cp]
            }),
{
    let f = (|r: RecordModel|
        if a <= r.codepoint && r.codepoint <= b {
            r.with_block(name)
        } else {
            r
        });
    assert(spec_stamp_block(recs, a, b, name) =~= recs.map_values(f));
    lemma_records_map_map_values(recs, f);
    lemma_records_map_key(recs);
}

/// One well-formed block row denotes exactly one interval stamp: the
/// trimmed range key's inclusive interval — two hexadecimal codes joined
/// by `..`, or one code standing for itself — under the trimmed name.
pub proof fn lemma_single_block_row(line: Seq<char>, recs: Seq<RecordModel>)
    requires
        split_seq(line, ';').len() == 2,
        !(trim_spec(split_seq(line, ';')[0]).len() > 0 && trim_spec(split_seq(line, ';')[0])[0]
            == '#'),
        spec_parse_range(trim_spec(split_seq(line, ';')[0])) is Some,
    ensures
        spec_annotate_blocks(seq![line], recs) == Some(
            spec_stamp_block(
                recs,
                (spec_parse_range(trim_spec(split_seq(line, ';')[0]))->0).0,
                (spec_parse_range(trim_spec(split_seq(line, ';')[0]))->0).1,
                trim_spec(split_seq(line, ';')[1]),
            ),
        ),
{
    let rows = seq![line];
    assert(rows[0] == line);
    assert(rows.skip(1) =~= Seq::<Seq<char>>::empty());
    let a = (spec_parse_range(trim_spec(split_seq(line, ';')[0]))->0).0;
    let b = (spec_parse_range(trim_spec(split_seq(line, ';')[0]))->0).1;
    let name = trim_spec(split_seq(line, ';')[1]);
    let stamped = spec_stamp_block(recs, a, b, name);
    assert(spec_block_line(line) == Some(Some((a, b, name))));
    assert(spec_annotate_blocks(rows.skip(1), stamped) == Some(stamped));
}

/// The age stamp moves through the keyed contents the same way.
pub proof fn lemma_stamp_age_contents(recs: Seq<RecordModel>, a: u32, b: u32, version: Seq<char>)
    ensures
        forall|cp: u32|
            #[trigger] records_map(spec_stamp_age(recs, a, b, version)).dom().contains(cp)
                <==> records_map(recs).dom().contains(cp),
        forall|cp: u32|
            #[trigger] records_map(recs).dom().contains(cp) ==> records_map(
                spec_stamp_age(recs, a, b, version),
            )[cp] == (if a <= cp && cp <= b {
                records_map(recs)[cp].with_age(version)
            } else {
                records_map(recs)[cp]
            }),
{
    let f = (|r: RecordModel|
        if a <= r.codepoint && r.codepoint <= b {
            r.with_age(version)
        } else {
            r
        });
    assert(spec_stamp_age(recs, a, b, version) =~= recs.map_values(f));
    lemma_records_map_map_values(recs, f);
    lemma_records_map_key(recs);
}

/// The entity stamp sets the name at exactly its one codepoint, when that
/// codepoint is mapped at all, and leaves every other record untouched.
pub proof fn lemma_stamp_entity_contents(recs: Seq<RecordModel>, at: u32, name: Seq<char>)
    ensures
        forall|cp: u32|
            #[trigger] records_map(spec_stamp_entity(recs, at, name)).dom().contains(cp)
                <==> records_map(recs).dom().contains(cp),
        forall|cp: u32|
            #[trigger] records_map(recs).dom().contains(cp) ==> records_map(
                spec_stamp_entity(recs, at, name),
            )[cp] == (if cp == at {
                records_map(recs)[cp].with_entity(name)
            } else {
                records_map(recs)[cp]
            }),
{
    let f = (|r: RecordModel|
        if r.codepoint == at {
            r.with_entity(name)
        } else {
            r
        });
    assert(spec_stamp_entity(recs, at, name) =~= recs.map_values(f));
    lemma_records_map_map_values(recs, f);
    lemma_records_map_key(recs);
}

} // verus!
