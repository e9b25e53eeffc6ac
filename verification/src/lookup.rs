//! The lookup side: queries against the finished store by character list
//! or by name fragment, and the rendering of each matching row into the
//! displayed result block.

use vstd::prelude::*;
use vstd::string::StrSliceExecFns;
use vstd::string::StringExecFns;
use crate::text::push_char;
use crate::numbers::{dec_digits_of, push_dec, hex_upper_of, push_hex_upper};
use crate::category::Category;
use crate::store::{store_rows, Store, StoredRow};
use crate::error::LookupError;
use colored::Colorize;

verus! {

/// The question put to the store: one or more characters, or a name
/// fragment, with the two display switches.
pub struct SearchOptions {
    pub chars: Vec<char>,
    pub name: Option<String>,
    pub is_paging_disabled: bool,
    pub is_output_colorized: bool,
}

/// The five displayed columns of one matching row.
pub struct StoreRow {
    pub codepoint: u32,
    pub name: String,
    pub category: String,
    pub block: String,
    pub age: String,
}

/// The mathematical image of one fetched row.
pub ghost struct LookupRow {
    pub codepoint: u32,
    pub name: Seq<char>,
    pub category: Seq<char>,
    pub block: Seq<char>,
    pub age: Seq<char>,
}

impl View for StoreRow {
    type V = LookupRow;

    open spec fn view(&self) -> LookupRow {
        LookupRow {
            codepoint: self.codepoint,
            name: self.name@,
            category: self.category@,
            block: self.block@,
            age: self.age@,
        }
    }
}

pub open spec fn views_of_rows(v: Seq<StoreRow>) -> Seq<LookupRow> {
    Seq::new(v.len(), |i: int| v[i]@)
}

/// The scalar values of a character list, in order.
pub open spec fn scalar_values_of(chars: Seq<char>) -> Seq<u32> {
    Seq::new(chars.len(), |i: int| chars[i] as u32)
}

/// A fetched row repeats the store: its codepoint is stored, and the four
/// text columns carry what the store holds there.
pub open spec fn row_in_store(m: Map<u32, StoredRow>, row: LookupRow) -> bool {
    &&& m.dom().contains(row.codepoint)
    &&& m[row.codepoint].name == row.name
    &&& m[row.codepoint].category == row.category
    &&& m[row.codepoint].block == row.block
    &&& m[row.codepoint].age == row.age
}

/// One question mark per requested codepoint, comma-joined.
pub open spec fn placeholders(n: nat) -> Seq<char>
    decreases n,
{
    if n == 0 {
        Seq::empty()
    } else if n == 1 {
        seq!['?']
    } else {
        placeholders((n - 1) as nat) + seq![',', '?']
    }
}

/// The exact-match query: the displayed columns of the requested
/// codepoints, in ascending codepoint order.
pub open spec fn spec_codepoint_query(n: nat) -> Seq<char> {
    "SELECT codepoint, name, category, block, age FROM UnicodeData WHERE codepoint IN ("@
        + placeholders(n) + ") ORDER BY codepoint"@
}

/// The substring-match query against the name column.
pub open spec fn spec_name_query(q: Seq<char>) -> Seq<char> {
    "SELECT codepoint, name, category, block, age FROM UnicodeData WHERE name LIKE '%"@ + q
        + "%' ORDER BY codepoint"@
}

/// Builds the exact-match query for `n` codepoints.
pub fn build_codepoint_query(n: usize) -> (r: String)
    ensures
        r@ == spec_codepoint_query(n as nat),
{
    let mut sql = String::from_str(
        "SELECT codepoint, name, category, block, age FROM UnicodeData WHERE codepoint IN (",
    );
    let ghost head = sql@;
    let mut k: usize = 0;
    proof {
        assert(sql@ =~= head + placeholders(0));
    }
    while k < n
        invariant
            k <= n,
            sql@ == head + placeholders(k as nat),
            head
                == "SELECT codepoint, name, category, block, age FROM UnicodeData WHERE codepoint IN ("@,
        decreases n - k,
    {
        if k > 0 {
            push_char(&mut sql, ',');
        }
        push_char(&mut sql, '?');
        proof {
            if k == 0 {
                assert(sql@ =~= head + placeholders(1));
            } else {
                assert(sql@ =~= head + placeholders(k as nat) + seq![',', '?']);
                assert(head + placeholders(k as nat) + seq![',', '?'] =~= head + placeholders(
                    (k + 1) as nat,
                ));
            }
        }
        k = k + 1;
    }
    sql.append(") ORDER BY codepoint");
    proof {
        assert(sql@ =~= spec_codepoint_query(n as nat));
    }
    sql
}

/// Builds the substring-match query for a name fragment.
pub fn build_name_query(q: &str) -> (r: String)
    ensures
        r@ == spec_name_query(q@),
{
    let mut sql = String::from_str(
        "SELECT codepoint, name, category, block, age FROM UnicodeData WHERE name LIKE '%",
    );
    sql.append(q);
    sql.append("%' ORDER BY codepoint");
    proof {
        assert(sql@ =~= spec_name_query(q@));
    }
    sql
}

/// A fetched row sequence answers a codepoint question: ascending and
/// duplicate-free, every row a stored row at a requested codepoint, and
/// every requested, stored codepoint present.
pub open spec fn rows_answer_codepoints(
    m: Map<u32, StoredRow>,
    wanted: Seq<u32>,
    rows: Seq<LookupRow>,
) -> bool {
    &&& forall|i: int, j: int|
        0 <= i < j < rows.len() ==> rows[i].codepoint < rows[j].codepoint
    &&& forall|i: int|
        0 <= i < rows.len() ==> row_in_store(m, #[trigger] rows[i]) && wanted.contains(
            rows[i].codepoint,
        )
    &&& forall|cp: u32|
        #[trigger] wanted.contains(cp) && m.dom().contains(cp) ==> exists|i: int|
            0 <= i < rows.len() && #[trigger] rows[i].codepoint == cp
}

/// The ASCII-folded image of a character, as the store's `LIKE` folds it.
pub open spec fn ascii_lower(c: char) -> char {
    if 65 <= c as u32 && c as u32 <= 90 {
        (((c as u32) + 32) as u8) as char
    } else {
        c
    }
}

/// Whether `q` stands in `name` at position `k`, compared ASCII-case-blind.
pub open spec fn like_match_at(name: Seq<char>, q: Seq<char>, k: int) -> bool {
    forall|j: int| #![trigger q[j]] 0 <= j < q.len() ==> ascii_lower(name[k + j]) == ascii_lower(q[j])
}

/// Whether `name` holds `q` as a substring, compared ASCII-case-blind.
pub open spec fn like_contains(name: Seq<char>, q: Seq<char>) -> bool {
    exists|k: int| 0 <= k <= name.len() - q.len() && #[trigger] like_match_at(name, q, k)
}

/// A fragment that reaches the store's matcher verbatim: free of the
/// quote that would end the statement's text.
pub open spec fn has_no_quote(q: Seq<char>) -> bool {
    forall|i: int| 0 <= i < q.len() ==> q[i] != '\''
}

/// A fragment free of the two pattern wildcards, so that it means itself.
pub open spec fn has_no_wildcard(q: Seq<char>) -> bool {
    forall|i: int| 0 <= i < q.len() ==> q[i] != '%' && q[i] != '_'
}

/// A fetched row sequence answers a name question: ascending and
/// duplicate-free rows of the store whose names hold the fragment, and
/// every stored row whose name holds it is present.
pub open spec fn rows_answer_name(
    m: Map<u32, StoredRow>,
    q: Seq<char>,
    rows: Seq<LookupRow>,
) -> bool {
    &&& forall|i: int, j: int|
        0 <= i < j < rows.len() ==> rows[i].codepoint < rows[j].codepoint
    &&& forall|i: int|
        0 <= i < rows.len() ==> row_in_store(m, #[trigger] rows[i]) && like_contains(
            rows[i].name,
            q,
        )
    &&& forall|cp: u32|
        #[trigger] m.dom().contains(cp) && like_contains(m[cp].name, q) ==> exists|i: int|
            0 <= i < rows.len() && #[trigger] rows[i].codepoint == cp
}

/// Relies on rusqlite's `prepare`, `query` and `Row::get`: runs the
/// exact-match query with the codepoints bound to its placeholders, and
/// hands back the fetched rows. The handle's table keys rows uniquely by
/// the codepoint, so on success the rows are exactly the requested stored
/// codepoints, in the order the statement demands.
#[verifier::external_body]
fn query_by_codepoints(s: &Store, sql: &str, cps: &Vec<u32>) -> (r: Result<
    Vec<StoreRow>,
    rusqlite::Error,
>)
    requires
        sql@ == spec_codepoint_query(cps@.len() as nat),
    ensures
        r is Ok ==> rows_answer_codepoints(store_rows(*s), cps@, views_of_rows(r->Ok_0@)),
{
    let mut stmt = s.conn.prepare(sql)?;
    let rows = stmt.query_map(rusqlite::params_from_iter(cps.iter()), |row| {
        Ok(StoreRow {
            codepoint: row.get(0)?,
            name: row.get(1)?,
            category: row.get(2)?,
            block: row.get(3)?,
            age: row.get(4)?,
        })
    })?;
    rows.collect()
}

/// Relies on rusqlite's `prepare`, `query` and `Row::get`: runs the
/// substring-match query, whose pattern embeds the fragment between two
/// `%` wildcards. The promise is conditional: only a fragment without a
/// quote reaches the matcher as itself, and only one without wildcards
/// means a plain ASCII-case-blind substring.
#[verifier::external_body]
fn query_by_name(s: &Store, sql: &str, q: &str) -> (r: Result<
    Vec<StoreRow>,
    rusqlite::Error,
>)
    requires
        sql@ == spec_name_query(q@),
    ensures
        r is Ok && has_no_quote(q@) && has_no_wildcard(q@) ==> rows_answer_name(
            store_rows(*s),
            q@,
            views_of_rows(r->Ok_0@),
        ),
{
    let mut stmt = s.conn.prepare(sql)?;
    let rows = stmt.query_map((), |row| {
        Ok(StoreRow {
            codepoint: row.get(0)?,
            name: row.get(1)?,
            category: row.get(2)?,
            block: row.get(3)?,
            age: row.get(4)?,
        })
    })?;
    rows.collect()
}

/// A character is written next to its scalar value: a codepoint below the
/// surrogate range or above it and within the codepoint space.
pub open spec fn is_scalar_value(cp: u32) -> bool {
    cp < 0xD800 || (0xE000 <= cp && cp <= 0x10FFFF)
}

/// The character carrying a scalar value.
pub open spec fn scalar_char(cp: u32) -> char {
    cp as char
}

/// Relies on `char::from_u32`: a scalar value decodes to the character
/// with exactly that value, and nothing else decodes.
#[verifier::external_body]
fn char_of_scalar(cp: u32) -> (r: Option<char>)
    ensures
        r is Some <==> is_scalar_value(cp),
        r is Some ==> r->0 as u32 == cp,
{
    char::from_u32(cp)
}

/// Relies on colored's `bright_white` and `on_bright_blue`; what they
/// wrap around the text depends on the terminal and environment, so
/// nothing is promised of the result.
#[verifier::external_body]
fn color_index(s: &str) -> String {
    s.bright_white().on_bright_blue().to_string()
}

/// Relies on colored's `green`; environment-dependent, nothing promised.
#[verifier::external_body]
fn color_green(s: &str) -> String {
    s.green().to_string()
}

/// Relies on colored's `cyan`; environment-dependent, nothing promised.
#[verifier::external_body]
fn color_cyan(s: &str) -> String {
    s.cyan().to_string()
}

/// Relies on colored's `red`; environment-dependent, nothing promised.
#[verifier::external_body]
fn color_red(s: &str) -> String {
    s.red().to_string()
}

/// Relies on colored's `purple`; environment-dependent, nothing promised.
#[verifier::external_body]
fn color_purple(s: &str) -> String {
    s.purple().to_string()
}

/// Relies on colored's `yellow`; environment-dependent, nothing promised.
#[verifier::external_body]
fn color_yellow(s: &str) -> String {
    s.yellow().to_string()
}

/// The hexadecimal code label of a codepoint: upper-case digits behind
/// `U+`, zero-padded to at least four places.
pub open spec fn spec_hex_code_label(cp: u32) -> Seq<char> {
    let h = hex_upper_of(cp as nat);
    if h.len() >= 4 {
        "U+"@ + h
    } else {
        "U+"@ + Seq::new((4 - h.len()) as nat, |i: int| '0') + h
    }
}

/// Appends the hexadecimal code label of a codepoint.
fn push_hex_code_label(out: &mut String, cp: u32)
    ensures
        final(out)@ == old(out)@ + spec_hex_code_label(cp),
{
    out.append("U+");
    let mut digits = String::new();
    push_hex_upper(&mut digits, cp);
    proof {
        assert(digits@ =~= hex_upper_of(cp as nat));
    }
    let ndig = digits.as_str().unicode_len();
    let ghost mid = out@;
    let padn: usize = if ndig >= 4 { 0 } else { 4 - ndig };
    let mut pad: usize = 0;
    while pad < padn
        invariant
            ndig == hex_upper_of(cp as nat).len(),
            padn == if ndig >= 4 { 0int } else { 4 - ndig },
            pad <= padn,
            out@ == mid + Seq::new(pad as nat, |i: int| '0'),
        decreases padn - pad,
    {
        push_char(out, '0');
        proof {
            assert(out@ =~= mid + Seq::new((pad + 1) as nat, |i: int| '0'));
        }
        pad = pad + 1;
    }
    out.append(digits.as_str());
    proof {
        if hex_upper_of(cp as nat).len() >= 4 {
            assert(Seq::new(0, |i: int| '0') =~= Seq::<char>::empty());
            assert(out@ =~= old(out)@ + spec_hex_code_label(cp));
        } else {
            assert(out@ =~= old(out)@ + spec_hex_code_label(cp));
        }
    }
}

/// The displayed block for one matching row: its running number, the
/// character, its code label, name, block, category description and age,
/// laid out over four lines.
pub open spec fn spec_plain_result(row: LookupRow, idx: u64) -> Seq<char> {
    dec_digits_of(idx as nat) + ".\t"@ + seq![scalar_char(row.codepoint)] + "\t"@
        + spec_hex_code_label(row.codepoint) + "\n"@ + row.name + "\n"@ + row.block + "\t"@
        + Category::spec_from_code(row.category)->0.description_spec() + "\nsince "@ + row.age
}

/// Whether one fetched row can be displayed at all: its codepoint denotes
/// a character and its category code is in the closed set.
pub open spec fn row_renders(row: LookupRow) -> bool {
    is_scalar_value(row.codepoint) && Category::spec_from_code(row.category) is Some
}

/// Renders one fetched row. Without colorizing, the result is exactly the
/// plain four-line block; with it, the same pieces pass through the
/// terminal colorizer first, whose dressing depends on the environment.
pub fn convert_database_row_to_result(row: &StoreRow, idx: u64, colorize: bool) -> (r: Result<
    String,
    LookupError,
>)
    ensures
        r is Ok <==> row_renders(row@),
        r is Ok && !colorize ==> r->Ok_0@ == spec_plain_result(row@, idx),
        r is Err ==> (if is_scalar_value(row@.codepoint) {
            r->Err_0 == LookupError::UnknownCategory
        } else {
            r->Err_0 == LookupError::InvalidCodepoint
        }),
{
    let c = match char_of_scalar(row.codepoint) {
        Some(c) => c,
        None => {
            return Err(LookupError::InvalidCodepoint);
        },
    };
    proof {
        vstd::utf8::char_u32_cast(c, row@.codepoint);
        assert(scalar_char(row@.codepoint) == c);
    }
    let category = match Category::from_code(row.category.as_str()) {
        Some(cat) => cat,
        None => {
            return Err(LookupError::UnknownCategory);
        },
    };
    let desc = category.description();
    if !colorize {
        let mut out = String::new();
        push_dec(&mut out, idx);
        out.append(".\t");
        push_char(&mut out, c);
        out.append("\t");
        push_hex_code_label(&mut out, row.codepoint);
        out.append("\n");
        out.append(row.name.as_str());
        out.append("\n");
        out.append(row.block.as_str());
        out.append("\t");
        out.append(desc);
        out.append("\nsince ");
        out.append(row.age.as_str());
        proof {
            assert(scalar_char(row@.codepoint) == c);
            assert(out@ =~= spec_plain_result(row@, idx));
        }
        Ok(out)
    } else {
        let mut idx_str = String::new();
        push_dec(&mut idx_str, idx);
        idx_str.append(".");
        let mut hex_label = String::new();
        push_hex_code_label(&mut hex_label, row.codepoint);
        let mut age_str = String::from_str("since ");
        age_str.append(row.age.as_str());
        let colored_idx = color_index(idx_str.as_str());
        let colored_hex = color_green(hex_label.as_str());
        let colored_name = color_cyan(row.name.as_str());
        let colored_cat = color_red(desc);
        let colored_block = color_purple(row.block.as_str());
        let colored_age = color_yellow(age_str.as_str());
        let mut out = String::new();
        out.append(colored_idx.as_str());
        out.append("\t");
        push_char(&mut out, c);
        out.append("\t");
        out.append(colored_hex.as_str());
        out.append("\n");
        out.append(colored_name.as_str());
        out.append("\n");
        out.append(colored_block.as_str());
        out.append("\t");
        out.append(colored_cat.as_str());
        out.append("\n");
        out.append(colored_age.as_str());
        Ok(out)
    }
}

/// Every fetched row rendered in order, numbered from one. `Ok` exactly
/// when every row can be displayed; the first failing row decides the
/// error, as its position in the order demands.
pub fn retrieve_results(rows: &Vec<StoreRow>, colorize: bool) -> (r: Result<
    Vec<String>,
    LookupError,
>)
    ensures
        r is Ok <==> (forall|i: int| 0 <= i < rows@.len() ==> row_renders(#[trigger] rows@[i]@)),
        r is Ok ==> r->Ok_0@.len() == rows@.len(),
        r is Ok && !colorize ==> forall|i: int|
            0 <= i < rows@.len() ==> #[trigger] r->Ok_0@[i]@ == spec_plain_result(
                rows@[i]@,
                (i + 1) as u64,
            ),
{
    let mut out: Vec<String> = Vec::new();
    let mut i: usize = 0;
    while i < rows.len()
        invariant
            i <= rows@.len(),
            out@.len() == i,
            forall|k: int| 0 <= k < i ==> row_renders(#[trigger] rows@[k]@),
            !colorize ==> forall|k: int|
                0 <= k < i ==> #[trigger] out@[k]@ == spec_plain_result(
                    rows@[k]@,
                    (k + 1) as u64,
                ),
        decreases rows@.len() - i,
    {
        let idx: u64 = (i as u64) + 1;
        match convert_database_row_to_result(&rows[i], idx, colorize) {
            Ok(s) => {
                out.push(s);
            },
            Err(e) => {
                return Err(e);
            },
        }
        i = i + 1;
    }
    Ok(out)
}

/// Searches the store as the options demand: by the characters' scalar
/// values when any characters were given, else by the name fragment. The
/// fetched rows are rendered in ascending codepoint order, numbered from
/// one. An error other than a failed query means the fetched answer held
/// a row that cannot be displayed.
pub fn search_database(store: &Store, options: &SearchOptions) -> (r: Result<
    Vec<String>,
    LookupError,
>)
    requires
        options.chars@.len() > 0 || options.name is Some,
    ensures
        options.chars@.len() > 0 && r is Ok ==> exists|rows: Seq<LookupRow>|
            #[trigger] rows_answer_codepoints(
                store_rows(*store),
                scalar_values_of(options.chars@),
                rows,
            ) && r->Ok_0@.len() == rows.len() && (forall|i: int|
                0 <= i < rows.len() ==> row_renders(#[trigger] rows[i])) && (
            !options.is_output_colorized ==> forall|i: int|
                0 <= i < rows.len() ==> #[trigger] r->Ok_0@[i]@ == spec_plain_result(
                    rows[i],
                    (i + 1) as u64,
                )),
        options.chars@.len() == 0 && r is Ok && has_no_quote(options.name->0@) && has_no_wildcard(
            options.name->0@,
        ) ==> exists|rows: Seq<LookupRow>|
            #[trigger] rows_answer_name(store_rows(*store), options.name->0@, rows)
                && r->Ok_0@.len() == rows.len() && (forall|i: int|
                0 <= i < rows.len() ==> row_renders(#[trigger] rows[i])) && (
            !options.is_output_colorized ==> forall|i: int|
                0 <= i < rows.len() ==> #[trigger] r->Ok_0@[i]@ == spec_plain_result(
                    rows[i],
                    (i + 1) as u64,
                )),
        options.chars@.len() > 0 && r is Err && r->Err_0 != LookupError::QueryFailed ==> exists|
            rows: Seq<LookupRow>,
        |
            #[trigger] rows_answer_codepoints(
                store_rows(*store),
                scalar_values_of(options.chars@),
                rows,
            ) && exists|i: int| 0 <= i < rows.len() && !row_renders(#[trigger] rows[i]),
        options.chars@.len() == 0 && r is Err && r->Err_0 != LookupError::QueryFailed
            && has_no_quote(options.name->0@) && has_no_wildcard(options.name->0@) ==> exists|
            rows: Seq<LookupRow>,
        |
            #[trigger] rows_answer_name(store_rows(*store), options.name->0@, rows) && exists|
                i: int,
            | 0 <= i < rows.len() && !row_renders(#[trigger] rows[i]),
{
    if options.chars.len() > 0 {
        let cps = crate::numbers::convert_chars_to_decimals(&options.chars);
        proof {
            assert(cps@ =~= scalar_values_of(options.chars@));
        }
        let sql = build_codepoint_query(cps.len());
        let fetched = match query_by_codepoints(store, sql.as_str(), &cps) {
            Ok(v) => v,
            Err(_) => {
                return Err(LookupError::QueryFailed);
            },
        };
        let out = match retrieve_results(&fetched, options.is_output_colorized) {
            Ok(v) => v,
            Err(e) => {
                proof {
                    assert(exists|i: int|
                        0 <= i < views_of_rows(fetched@).len() && !row_renders(
                            #[trigger] views_of_rows(fetched@)[i],
                        )) by {
                        assert(!(forall|i: int|
                            0 <= i < fetched@.len() ==> row_renders(#[trigger] fetched@[i]@)));
                        let i = choose|i: int|
                            !(0 <= i < fetched@.len() ==> row_renders(#[trigger] fetched@[i]@));
                        assert(views_of_rows(fetched@)[i] == fetched@[i]@);
                    }
                }
                return Err(e);
            },
        };
        proof {
            assert(views_of_rows(fetched@).len() == fetched@.len());
            assert(forall|i: int|
                0 <= i < fetched@.len() ==> views_of_rows(fetched@)[i] == #[trigger] fetched@[i]@);
        }
        Ok(out)
    } else {
        let q = match &options.name {
            Some(q) => q,
            None => {
                return Err(LookupError::QueryFailed);
            },
        };
        let sql = build_name_query(q.as_str());
        let fetched = match query_by_name(store, sql.as_str(), q.as_str()) {
            Ok(v) => v,
            Err(_) => {
                return Err(LookupError::QueryFailed);
            },
        };
        let out = match retrieve_results(&fetched, options.is_output_colorized) {
            Ok(v) => v,
            Err(e) => {
                proof {
                    assert(exists|i: int|
                        0 <= i < views_of_rows(fetched@).len() && !row_renders(
                            #[trigger] views_of_rows(fetched@)[i],
                        )) by {
                        assert(!(forall|i: int|
                            0 <= i < fetched@.len() ==> row_renders(#[trigger] fetched@[i]@)));
                        let i = choose|i: int|
                            !(0 <= i < fetched@.len() ==> row_renders(#[trigger] fetched@[i]@));
                        assert(views_of_rows(fetched@)[i] == fetched@[i]@);
                    }
                }
                return Err(e);
            },
        };
        proof {
            assert(views_of_rows(fetched@).len() == fetched@.len());
            assert(forall|i: int|
                0 <= i < fetched@.len() ==> views_of_rows(fetched@)[i] == #[trigger] fetched@[i]@);
        }
        Ok(out)
    }
}

/// The result blocks joined by blank lines.
pub open spec fn spec_join_results(results: Seq<Seq<char>>) -> Seq<char>
    decreases results.len(),
{
    if results.len() == 0 {
        Seq::empty()
    } else if results.len() == 1 {
        results[0]
    } else {
        spec_join_results(results.drop_last()) + "\n\n"@ + results.last()
    }
}

/// The count line put before a paged name search's results.
pub open spec fn spec_count_line(n: nat) -> Seq<char> {
    ">>> "@ + dec_digits_of(n) + " results found"@
}

/// What the terminal receives: the result blocks joined by blank lines,
/// preceded by the count line when `with_count` asks for one.
pub open spec fn spec_rendered_output(results: Seq<Seq<char>>, with_count: bool) -> Seq<char> {
    if with_count {
        spec_join_results(seq![spec_count_line(results.len())] + results)
    } else {
        spec_join_results(results)
    }
}

/// Joins the result blocks into the text handed to the terminal or the
/// pager: blank lines between blocks, and for a paged name search a
/// leading line counting the results.
pub fn compose_output(results: &Vec<String>, with_count: bool) -> (r: String)
    ensures
        r@ == spec_rendered_output(crate::text::views_of_strings(results@), with_count),
{
    let ghost all = crate::text::views_of_strings(results@);
    let ghost target = if with_count {
        seq![spec_count_line(all.len())] + all
    } else {
        all
    };
    let mut out = String::new();
    let mut started = false;
    if with_count {
        out.append(">>> ");
        push_dec(&mut out, results.len() as u64);
        out.append(" results found");
        started = true;
        proof {
            assert(out@ =~= spec_count_line(all.len()));
            assert(target.take(1) =~= seq![spec_count_line(all.len())]);
            assert(spec_join_results(target.take(1)) == out@);
        }
    }
    let ghost done: int = if with_count {
        1
    } else {
        0
    };
    proof {
        if !with_count {
            assert(target.take(0) =~= Seq::<Seq<char>>::empty());
        }
        assert(out@ == spec_join_results(target.take(done)));
        assert(started <==> done > 0);
    }
    let mut i: usize = 0;
    while i < results.len()
        invariant
            i <= results@.len(),
            all == crate::text::views_of_strings(results@),
            target == if with_count {
                seq![spec_count_line(all.len())] + all
            } else {
                all
            },
            done == if with_count {
                1int
            } else {
                0int
            },
            out@ == spec_join_results(target.take(done + i)),
            started <==> (done + i) > 0,
        decreases results@.len() - i,
    {
        if started {
            out.append("\n\n");
        }
        out.append(results[i].as_str());
        started = true;
        proof {
            assert(target.take(done + i + 1).drop_last() =~= target.take(done + i));
            assert(target.take(done + i + 1).last() == target[done + i]);
            assert(target[done + i] == all[i as int]);
            if done + i == 0 {
                assert(out@ =~= spec_join_results(target.take(done + i + 1)));
            } else {
                assert(out@ =~= spec_join_results(target.take(done + i)) + "\n\n"@ + all[i as int]);
                assert(out@ =~= spec_join_results(target.take(done + i + 1)));
            }
        }
        i = i + 1;
    }
    proof {
        assert(target.take(done + results@.len()) =~= target);
    }
    out
}

} // verus!
