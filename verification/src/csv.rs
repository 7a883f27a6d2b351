//! The logic of the CSV primitives: the column types and row issues of a
//! schema report, and the row cleaning and schema enforcement of an
//! aggregation (merging unquoted currency splits, dropping `NULL` rows,
//! keeping the first of duplicate rows, refusing unknown columns).
//!
//! Reading the file and the numeric parses of a cell (integer and
//! floating-point) are the caller's: each cell arrives with what those parses
//! said of it.

use vstd::prelude::*;

use crate::error::{join_strings, join_text, AcosError};
use crate::plan::contains_name;
use crate::plugin::{is_missing, missing_sentinel};
use crate::refs::views;
use crate::text::{chars_of, debug_str, debug_text, push_text, str_eq, string_of, trim_seq, trim_text};
use crate::types::FailureClass;

verus! {

/// A raw CSV cell with what the numeric parses said of it.
pub struct CsvCell {
    pub text: String,
    /// The text parses as an `i64`.
    pub integer: bool,
    /// The text, trimmed and without `$` and `,`, parses as a float, and it
    /// is no missing-value sentinel.
    pub number: bool,
    /// The text, trimmed and without `.` and `,`, parses as a float (the
    /// tail of an unquoted currency split).
    pub amount_like: bool,
}

/// The inferred type of a column.
#[derive(Debug, Clone, Copy, PartialEq, Eq, Structural)]
pub enum ColumnType {
    Integer,
    Number,
    Text,
}

impl ColumnType {
    /// The name used in the schema report.
    pub fn as_text(&self) -> (r: &'static str)
        ensures
            r@ == match *self {
                ColumnType::Integer => "integer"@,
                ColumnType::Number => "number"@,
                ColumnType::Text => "string"@,
            },
    {
        match self {
            ColumnType::Integer => "integer",
            ColumnType::Number => "number",
            ColumnType::Text => "string",
        }
    }
}

// ── Schema report ──────────────────────────────────────────────────────────

/// Some row has a cell in column `i`.
pub open spec fn column_present(rows: Seq<Vec<CsvCell>>, i: int) -> bool {
    exists|j: int| 0 <= j < rows.len() && i < (#[trigger] rows[j])@.len()
}

/// Every cell of column `i` parses as an integer.
pub open spec fn column_integer(rows: Seq<Vec<CsvCell>>, i: int) -> bool {
    forall|j: int| 0 <= j < rows.len() && i < (#[trigger] rows[j])@.len() ==> rows[j]@[i].integer
}

/// Every cell of column `i` parses as a number.
pub open spec fn column_number(rows: Seq<Vec<CsvCell>>, i: int) -> bool {
    forall|j: int| 0 <= j < rows.len() && i < (#[trigger] rows[j])@.len() ==> rows[j]@[i].number
}

/// The type of column `i`: `integer` when it has cells and all are
/// integers, else `number` when it has cells and all are numbers, else
/// `string`.
pub open spec fn column_type_s(rows: Seq<Vec<CsvCell>>, i: int) -> ColumnType {
    if column_present(rows, i) && column_integer(rows, i) {
        ColumnType::Integer
    } else if column_present(rows, i) && column_number(rows, i) {
        ColumnType::Number
    } else {
        ColumnType::Text
    }
}

/// Infers the type of column `i`.
pub fn column_type(rows: &Vec<Vec<CsvCell>>, i: usize) -> (r: ColumnType)
    ensures
        r == column_type_s(rows@, i as int),
{
    let mut present = false;
    let mut all_int = true;
    let mut all_num = true;
    let mut j: usize = 0;
    while j < rows.len()
        invariant
            j <= rows@.len(),
            present == (exists|k: int| 0 <= k < j && i < (#[trigger] rows@[k])@.len()),
            all_int == (forall|k: int|
                0 <= k < j && i < (#[trigger] rows@[k])@.len() ==> rows@[k]@[i as int].integer),
            all_num == (forall|k: int|
                0 <= k < j && i < (#[trigger] rows@[k])@.len() ==> rows@[k]@[i as int].number),
        decreases rows@.len() - j,
    {
        if i < rows[j].len() {
            present = true;
            if !rows[j][i].integer {
                all_int = false;
            }
            if !rows[j][i].number {
                all_num = false;
            }
        }
        j = j + 1;
    }
    if present && all_int {
        ColumnType::Integer
    } else if present && all_num {
        ColumnType::Number
    } else {
        ColumnType::Text
    }
}

/// What a schema inspection reports of a file.
pub struct SchemaReport {
    /// Each header column with its inferred type.
    pub columns: Vec<(String, ColumnType)>,
    pub row_count: usize,
    /// Some row has another number of fields than the header.
    pub field_count_mismatch: bool,
    /// Some cell holds a missing-value sentinel.
    pub missing_value: bool,
}

/// Some row's field count differs from the header's.
pub open spec fn count_mismatch(rows: Seq<Vec<CsvCell>>, ncols: int) -> bool {
    exists|j: int| 0 <= j < rows.len() && (#[trigger] rows[j])@.len() != ncols
}

/// Some cell is a missing-value sentinel.
pub open spec fn has_missing(rows: Seq<Vec<CsvCell>>) -> bool {
    exists|j: int, k: int|
        0 <= j < rows.len() && 0 <= k < rows[j]@.len() && missing_sentinel(
            trim_seq((#[trigger] rows[j]@[k]).text@),
        )
}

fn row_has_missing(row: &Vec<CsvCell>) -> (b: bool)
    ensures
        b == (exists|k: int| 0 <= k < row@.len() && missing_sentinel(trim_seq((#[trigger] row@[k]).text@))),
{
    let mut k: usize = 0;
    while k < row.len()
        invariant
            k <= row@.len(),
            forall|m: int| 0 <= m < k ==> !missing_sentinel(trim_seq((#[trigger] row@[m]).text@)),
        decreases row@.len() - k,
    {
        if is_missing(row[k].text.as_str()) {
            return true;
        }
        k = k + 1;
    }
    false
}

/// The schema report of a file's header and rows.
pub fn inspect_schema(header: &Vec<String>, rows: &Vec<Vec<CsvCell>>) -> (r: SchemaReport)
    ensures
        r.columns@.len() == header@.len(),
        forall|i: int|
            0 <= i < header@.len() ==> (#[trigger] r.columns@[i]).0@ == header@[i]@ && r.columns@[i].1
                == column_type_s(rows@, i),
        r.row_count == rows@.len(),
        r.field_count_mismatch == count_mismatch(rows@, header@.len() as int),
        r.missing_value == has_missing(rows@),
{
    let mut columns: Vec<(String, ColumnType)> = Vec::new();
    let mut i: usize = 0;
    while i < header.len()
        invariant
            i <= header@.len(),
            columns@.len() == i,
            forall|m: int|
                0 <= m < i ==> (#[trigger] columns@[m]).0@ == header@[m]@ && columns@[m].1
                    == column_type_s(rows@, m),
        decreases header@.len() - i,
    {
        let ty = column_type(rows, i);
        columns.push((string_of(header[i].as_str()), ty));
        i = i + 1;
    }
    let mut mismatch = false;
    let mut missing = false;
    let mut j: usize = 0;
    while j < rows.len()
        invariant
            j <= rows@.len(),
            mismatch == (exists|k: int| 0 <= k < j && (#[trigger] rows@[k])@.len() != header@.len()),
            missing == (exists|k: int, m: int|
                0 <= k < j && 0 <= m < rows@[k]@.len() && missing_sentinel(
                    trim_seq((#[trigger] rows@[k]@[m]).text@),
                )),
        decreases rows@.len() - j,
    {
        if rows[j].len() != header.len() {
            mismatch = true;
        }
        if row_has_missing(&rows[j]) {
            missing = true;
        }
        j = j + 1;
    }
    SchemaReport { columns, row_count: rows.len(), field_count_mismatch: mismatch, missing_value: missing }
}

impl SchemaReport {
    /// The issue labels of the report, in report order.
    pub fn issues(&self) -> (r: Vec<String>)
        ensures
            views(r@) == (if self.field_count_mismatch { seq!["field_count_mismatch"@] } else { seq![] })
                + (if self.missing_value { seq!["missing_value"@] } else { seq![] }),
    {
        let mut r: Vec<String> = Vec::new();
        if self.field_count_mismatch {
            r.push(string_of("field_count_mismatch"));
        }
        let ghost a = views(r@);
        if self.missing_value {
            r.push(string_of("missing_value"));
        }
        assert(views(r@) =~= a + (if self.missing_value { seq!["missing_value"@] } else { seq![] }));
        assert(a =~= (if self.field_count_mismatch { seq!["field_count_mismatch"@] } else { seq![] }));
        r
    }
}

// ── Aggregation: row cleaning ──────────────────────────────────────────────

/// A row's cells after merging unquoted currency splits, with the number of
/// merges: a trimmed cell starting with `$` followed by an amount-like cell
/// becomes one cell `"$a,b"`; every cell is trimmed.
pub open spec fn merge_from(cells: Seq<CsvCell>) -> (Seq<Seq<char>>, nat)
    decreases cells.len(),
{
    if cells.len() == 0 {
        (seq![], 0)
    } else {
        let c = trim_seq(cells[0].text@);
        if c.len() > 0 && c[0] == '$' && cells.len() > 1 && cells[1].amount_like {
            let r = merge_from(cells.skip(2));
            (seq![c + ","@ + trim_seq(cells[1].text@)] + r.0, r.1 + 1)
        } else {
            let r = merge_from(cells.skip(1));
            (seq![c] + r.0, r.1)
        }
    }
}

proof fn lemma_merge_count(cells: Seq<CsvCell>)
    ensures
        merge_from(cells).1 <= cells.len(),
    decreases cells.len(),
{
    if cells.len() > 0 {
        let c = trim_seq(cells[0].text@);
        if c.len() > 0 && c[0] == '$' && cells.len() > 1 && cells[1].amount_like {
            lemma_merge_count(cells.skip(2));
        } else {
            lemma_merge_count(cells.skip(1));
        }
    }
}

/// Merges a row's unquoted currency splits.
pub fn merge_currency_splits(cells: &Vec<CsvCell>) -> (r: (Vec<String>, usize))
    ensures
        views(r.0@) == merge_from(cells@).0,
        r.1 == merge_from(cells@).1,
{
    let mut out: Vec<String> = Vec::new();
    let mut merges: usize = 0;
    let mut i: usize = 0;
    proof {
        lemma_merge_count(cells@);
        assert(cells@.skip(0) =~= cells@);
        assert(views(out@) + merge_from(cells@.skip(0)).0 =~= merge_from(cells@).0);
    }
    while i < cells.len()
        invariant
            i <= cells@.len(),
            views(out@) + merge_from(cells@.skip(i as int)).0 == merge_from(cells@).0,
            merges + merge_from(cells@.skip(i as int)).1 == merge_from(cells@).1,
            merge_from(cells@).1 <= cells@.len(),
        decreases cells@.len() - i,
    {
        let ghost rest = cells@.skip(i as int);
        let c = trim_text(cells[i].text.as_str());
        let cv = chars_of(c.as_str());
        let dollar = cv.len() > 0 && cv[0] == '$';
        if dollar && i + 1 < cells.len() && cells[i + 1].amount_like {
            let mut m = c;
            push_text(&mut m, ",");
            let tail = trim_text(cells[i + 1].text.as_str());
            push_text(&mut m, tail.as_str());
            let ghost before = views(out@);
            out.push(m);
            proof {
                assert(rest.skip(2) =~= cells@.skip(i + 2));
                assert(views(out@) =~= before.push(m@));
                lemma_merge_count(cells@.skip(i + 2));
            }
            merges = merges + 1;
            i = i + 2;
        } else {
            let ghost before = views(out@);
            out.push(c);
            proof {
                assert(rest.skip(1) =~= cells@.skip(i + 1));
                assert(views(out@) =~= before.push(trim_seq(cells@[i as int].text@)));
            }
            i = i + 1;
        }
    }
    proof {
        assert(cells@.skip(i as int) =~= seq![]);
        assert(views(out@) + seq![] =~= views(out@));
    }
    (out, merges)
}

/// What `str::to_uppercase` makes of a text.
pub uninterp spec fn uppercase(s: Seq<char>) -> Seq<char>;

/// Unicode uppercase of a text (`str::to_uppercase`); named `uppercase`.
#[verifier::external_body]
fn to_upper(s: &str) -> (r: String)
    ensures
        r@ == uppercase(s@),
{
    s.to_uppercase()
}

/// Some cell of a row reads `NULL` in any case.
pub open spec fn null_row(r: Seq<Seq<char>>) -> bool {
    exists|k: int| 0 <= k < r.len() && uppercase(#[trigger] r[k]) == "NULL"@
}

fn is_null_row(r: &Vec<String>) -> (b: bool)
    ensures
        b == null_row(views(r@)),
{
    let mut k: usize = 0;
    while k < r.len()
        invariant
            k <= r@.len(),
            forall|m: int| 0 <= m < k ==> uppercase(#[trigger] views(r@)[m]) != "NULL"@,
        decreases r@.len() - k,
    {
        let u = to_upper(r[k].as_str());
        if str_eq(u.as_str(), "NULL") {
            proof {
                reveal_strlit("NULL");
                assert(views(r@)[k as int] == r@[k as int]@);
            }
            return true;
        }
        proof {
            reveal_strlit("NULL");
        }
        k = k + 1;
    }
    false
}

/// The rows of a file after cleaning, processed in order: each row's currency
/// splits are merged; a row with a `NULL` cell is dropped; a row equal to one
/// already kept is dropped; the rest are kept. With the counts of `NULL`
/// rows, duplicate rows and currency merges.
pub open spec fn clean_s(rows: Seq<Vec<CsvCell>>) -> (Seq<Seq<Seq<char>>>, nat, nat, nat)
    decreases rows.len(),
{
    if rows.len() == 0 {
        (seq![], 0, 0, 0)
    } else {
        let (kept, nulls, dups, merges) = clean_s(rows.drop_last());
        let (r, m) = merge_from(rows.last()@);
        if null_row(r) {
            (kept, nulls + 1, dups, merges + m)
        } else if kept.contains(r) {
            (kept, nulls, dups + 1, merges + m)
        } else {
            (kept.push(r), nulls, dups, merges + m)
        }
    }
}

/// The cleaned form of input row `i`: its currency splits merged.
pub open spec fn merged_row(rows: Seq<Vec<CsvCell>>, i: int) -> Seq<Seq<char>> {
    merge_from(rows[i]@).0
}

/// The number of input rows whose cleaned form has a `NULL` cell.
pub open spec fn null_count(rows: Seq<Vec<CsvCell>>) -> nat
    decreases rows.len(),
{
    if rows.len() == 0 {
        0
    } else {
        null_count(rows.drop_last()) + if null_row(merge_from(rows.last()@).0) {
            1nat
        } else {
            0nat
        }
    }
}

/// Cleaning keeps each distinct row without a `NULL` cell exactly once: the
/// kept rows are pairwise distinct and free of `NULL` cells, every such input
/// row (after its currency merge) is among them and every kept row is one of
/// them; every `NULL` row is counted as such, and the rest are duplicates.
pub proof fn lemma_clean_keeps_distinct(rows: Seq<Vec<CsvCell>>)
    ensures
        forall|a: int, b: int|
            0 <= a < b < clean_s(rows).0.len() ==> #[trigger] clean_s(rows).0[a] != #[trigger] clean_s(
                rows,
            ).0[b],
        forall|k: int| 0 <= k < clean_s(rows).0.len() ==> !null_row(#[trigger] clean_s(rows).0[k]),
        forall|i: int|
            0 <= i < rows.len() && !null_row(#[trigger] merged_row(rows, i)) ==> clean_s(rows).0.contains(
                merged_row(rows, i),
            ),
        forall|k: int|
            #![trigger clean_s(rows).0[k]]
            0 <= k < clean_s(rows).0.len() ==> exists|i: int|
                0 <= i < rows.len() && #[trigger] merged_row(rows, i) == clean_s(rows).0[k],
        clean_s(rows).1 == null_count(rows),
        clean_s(rows).0.len() + clean_s(rows).1 + clean_s(rows).2 == rows.len(),
    decreases rows.len(),
{
    lemma_clean_bounds(rows);
    if rows.len() > 0 {
        let d = rows.drop_last();
        lemma_clean_keeps_distinct(d);
        let kd = clean_s(d).0;
        let k = clean_s(rows).0;
        let l = rows.len() - 1;
        let r = merge_from(rows.last()@).0;
        assert(rows.last() == rows[l]);
        assert(merged_row(rows, l) == r);
        assert forall|i: int| 0 <= i < d.len() implies #[trigger] merged_row(d, i) == merged_row(rows, i) by {
            assert(d[i] == rows[i]);
        }
        assert forall|j: int| 0 <= j < kd.len() implies k.contains(#[trigger] kd[j]) by {
            if !null_row(r) && !kd.contains(r) {
                assert(k[j] == kd[j]);
            } else {
                assert(k[j] == kd[j]);
            }
        }
        if !null_row(r) && !kd.contains(r) {
            assert(k == kd.push(r));
            assert(k[kd.len() as int] == r);
            assert forall|a: int, b: int| 0 <= a < b < k.len() implies #[trigger] k[a] != #[trigger] k[b] by {
                if b == kd.len() {
                    assert(k[a] == kd[a]);
                    assert(kd.contains(kd[a]));
                } else {
                    assert(k[a] == kd[a] && k[b] == kd[b]);
                }
            }
            assert forall|j: int| #![trigger k[j]] 0 <= j < k.len() implies exists|i: int|
                0 <= i < rows.len() && #[trigger] merged_row(rows, i) == k[j] by {
                if j < kd.len() {
                    assert(k[j] == kd[j]);
                    let i = choose|i: int| 0 <= i < d.len() && #[trigger] merged_row(d, i) == kd[j];
                    assert(merged_row(rows, i) == merged_row(d, i));
                } else {
                    assert(merged_row(rows, l) == k[j]);
                }
            }
        } else {
            assert(k == kd);
            assert forall|j: int| #![trigger k[j]] 0 <= j < k.len() implies exists|i: int|
                0 <= i < rows.len() && #[trigger] merged_row(rows, i) == k[j] by {
                let i = choose|i: int| 0 <= i < d.len() && #[trigger] merged_row(d, i) == kd[j];
                assert(merged_row(rows, i) == merged_row(d, i));
            }
        }
        assert forall|i: int| 0 <= i < rows.len() && !null_row(#[trigger] merged_row(rows, i)) implies k.contains(
            merged_row(rows, i),
        ) by {
            if i < l {
                assert(merged_row(d, i) == merged_row(rows, i));
                assert(kd.contains(merged_row(d, i)));
                let j = choose|j: int| 0 <= j < kd.len() && kd[j] == merged_row(d, i);
                assert(k.contains(kd[j]));
            } else {
                if kd.contains(r) {
                    let j = choose|j: int| 0 <= j < kd.len() && kd[j] == r;
                    assert(k.contains(kd[j]));
                } else {
                    assert(k[kd.len() as int] == r);
                }
            }
        }
    }
}

/// The number of cells of all rows./// The number of cells of all rows.
pub open spec fn cell_total(rows: Seq<Vec<CsvCell>>) -> nat
    decreases rows.len(),
{
    if rows.len() == 0 {
        0
    } else {
        cell_total(rows.drop_last()) + rows.last()@.len()
    }
}

proof fn lemma_clean_bounds(rows: Seq<Vec<CsvCell>>)
    ensures
        clean_s(rows).0.len() + clean_s(rows).1 + clean_s(rows).2 == rows.len(),
        clean_s(rows).3 <= cell_total(rows),
    decreases rows.len(),
{
    if rows.len() > 0 {
        lemma_clean_bounds(rows.drop_last());
        lemma_merge_count(rows.last()@);
    }
}

proof fn lemma_cell_total_prefix(rows: Seq<Vec<CsvCell>>, j: int)
    requires
        0 <= j <= rows.len(),
    ensures
        cell_total(rows.take(j)) <= cell_total(rows),
    decreases rows.len() - j,
{
    if j < rows.len() {
        lemma_cell_total_prefix(rows, j + 1);
        assert(rows.take(j + 1).drop_last() =~= rows.take(j));
    } else {
        assert(rows.take(j) =~= rows);
    }
}

/// The views of a list of rows.
pub open spec fn row_views(k: Seq<Vec<String>>) -> Seq<Seq<Seq<char>>> {
    k.map_values(|r: Vec<String>| views(r@))
}

fn rows_equal(a: &Vec<String>, b: &Vec<String>) -> (r: bool)
    ensures
        r == (views(a@) == views(b@)),
{
    if a.len() != b.len() {
        assert(views(a@).len() != views(b@).len());
        return false;
    }
    let mut k: usize = 0;
    while k < a.len()
        invariant
            k <= a@.len(),
            a@.len() == b@.len(),
            forall|m: int| 0 <= m < k ==> a@[m]@ == b@[m]@,
        decreases a@.len() - k,
    {
        if !str_eq(a[k].as_str(), b[k].as_str()) {
            assert(views(a@)[k as int] != views(b@)[k as int]);
            return false;
        }
        k = k + 1;
    }
    assert(views(a@) =~= views(b@));
    true
}

fn contains_row(kept: &Vec<Vec<String>>, r: &Vec<String>) -> (b: bool)
    ensures
        b == row_views(kept@).contains(views(r@)),
{
    let mut k: usize = 0;
    while k < kept.len()
        invariant
            k <= kept@.len(),
            forall|m: int| 0 <= m < k ==> views((#[trigger] kept@[m])@) != views(r@),
        decreases kept@.len() - k,
    {
        if rows_equal(&kept[k], r) {
            assert(row_views(kept@)[k as int] == views(r@));
            return true;
        }
        k = k + 1;
    }
    assert forall|m: int| 0 <= m < row_views(kept@).len() implies row_views(kept@)[m] != views(r@) by {
        assert(row_views(kept@)[m] == views(kept@[m]@));
    }
    false
}

/// The cleaned rows of a file, with the counts of what was dropped or merged.
pub struct CleanRows {
    pub kept: Vec<Vec<String>>,
    pub null_dropped: usize,
    pub dup_dropped: usize,
    pub currency_merges: usize,
}

/// Cleans a file's rows for aggregation.
pub fn clean_rows(rows: &Vec<Vec<CsvCell>>) -> (r: CleanRows)
    requires
        cell_total(rows@) <= usize::MAX,
    ensures
        row_views(r.kept@) == clean_s(rows@).0,
        r.null_dropped == clean_s(rows@).1,
        r.dup_dropped == clean_s(rows@).2,
        r.currency_merges == clean_s(rows@).3,
        forall|a: int, b: int|
            0 <= a < b < r.kept@.len() ==> #[trigger] row_views(r.kept@)[a] != #[trigger] row_views(
                r.kept@,
            )[b],
        r.null_dropped == null_count(rows@),
{
    proof {
        lemma_clean_keeps_distinct(rows@);
    }
    let mut kept: Vec<Vec<String>> = Vec::new();
    let mut nulls: usize = 0;
    let mut dups: usize = 0;
    let mut merges: usize = 0;
    let mut j: usize = 0;
    proof {
        assert(rows@.take(0) =~= seq![]);
        assert(row_views(kept@) =~= seq![]);
    }
    while j < rows.len()
        invariant
            j <= rows@.len(),
            cell_total(rows@) <= usize::MAX,
            row_views(kept@) == clean_s(rows@.take(j as int)).0,
            nulls == clean_s(rows@.take(j as int)).1,
            dups == clean_s(rows@.take(j as int)).2,
            merges == clean_s(rows@.take(j as int)).3,
        decreases rows@.len() - j,
    {
        proof {
            assert(rows@.take(j + 1).drop_last() =~= rows@.take(j as int));
            assert(rows@.take(j + 1).last() == rows@[j as int]);
            lemma_clean_bounds(rows@.take(j + 1));
            lemma_cell_total_prefix(rows@, j + 1);
        }
        let (r, m) = merge_currency_splits(&rows[j]);
        merges = merges + m;
        if is_null_row(&r) {
            nulls = nulls + 1;
        } else if contains_row(&kept, &r) {
            dups = dups + 1;
        } else {
            let ghost before = row_views(kept@);
            kept.push(r);
            proof {
                assert(row_views(kept@) =~= before.push(views(r@)));
            }
        }
        j = j + 1;
    }
    proof {
        assert(rows@.take(j as int) =~= rows@);
    }
    CleanRows { kept, null_dropped: nulls, dup_dropped: dups, currency_merges: merges }
}

impl CleanRows {
    /// The issue labels of the cleaning, in report order.
    pub fn issues(&self) -> (r: Vec<String>)
        ensures
            views(r@) == cleaning_issues(self.currency_merges > 0, self.null_dropped > 0, self.dup_dropped > 0),
    {
        let mut r: Vec<String> = Vec::new();
        if self.currency_merges > 0 {
            r.push(string_of("currency_formatting"));
        }
        let ghost a1 = views(r@);
        if self.null_dropped > 0 {
            r.push(string_of("missing_value_NULL"));
        }
        let ghost a2 = views(r@);
        assert(a2 =~= if self.null_dropped > 0 { a1.push("missing_value_NULL"@) } else { a1 });
        if self.dup_dropped > 0 {
            r.push(string_of("duplicate_rows"));
        }
        assert(views(r@) =~= if self.dup_dropped > 0 { a2.push("duplicate_rows"@) } else { a2 });
        assert(a1 =~= if self.currency_merges > 0 { seq!["currency_formatting"@] } else { seq![] });
        r
    }
}

/// The issue labels of a cleaning: currency merges, `NULL` rows, duplicates.
pub open spec fn cleaning_issues(merged: bool, nulls: bool, dups: bool) -> Seq<Seq<char>> {
    let a: Seq<Seq<char>> = if merged { seq!["currency_formatting"@] } else { seq![] };
    let b = if nulls { a.push("missing_value_NULL"@) } else { a };
    if dups { b.push("duplicate_rows"@) } else { b }
}

// ── Aggregation: schema enforcement ────────────────────────────────────────

/// The requested columns that the header lacks, in request order.
pub open spec fn unknown_columns(cols: Seq<Seq<char>>, header: Seq<Seq<char>>) -> Seq<Seq<char>>
    decreases cols.len(),
{
    if cols.len() == 0 {
        seq![]
    } else {
        let r = unknown_columns(cols.drop_last(), header);
        if header.contains(cols.last()) {
            r
        } else {
            r.push(cols.last())
        }
    }
}

proof fn lemma_known_columns(cols: Seq<Seq<char>>, header: Seq<Seq<char>>, k: int)
    requires
        unknown_columns(cols, header).len() == 0,
        0 <= k < cols.len(),
    ensures
        header.contains(cols[k]),
    decreases cols.len(),
{
    if k < cols.len() - 1 {
        assert(cols.drop_last()[k] == cols[k]);
        lemma_known_columns(cols.drop_last(), header, k);
    }
}

proof fn lemma_first_index(s: Seq<Seq<char>>, x: Seq<char>, k: int)
    requires
        0 <= k < s.len(),
        s[k] == x,
        forall|m: int| 0 <= m < k ==> s[m] != x,
    ensures
        crate::probe::first_index(s, x) == k,
    decreases k,
{
    if k > 0 {
        assert forall|m: int| 0 <= m < k - 1 implies s.drop_first()[m] != x by {
            assert(s.drop_first()[m] == s[m + 1]);
        }
        lemma_first_index(s.drop_first(), x, k - 1);
    }
}

/// `format!("{:?}", items)` of a list of strings: `["a", "b"]`.
pub open spec fn debug_list(items: Seq<Seq<char>>) -> Seq<char> {
    "["@ + join_text(items.map_values(|s: Seq<char>| debug_text(s)), ", "@) + "]"@
}

fn debug_list_text(items: &Vec<String>) -> (r: String)
    ensures
        r@ == debug_list(views(items@)),
{
    let mut parts: Vec<String> = Vec::new();
    let mut k: usize = 0;
    while k < items.len()
        invariant
            k <= items@.len(),
            views(parts@) == views(items@).take(k as int).map_values(|s: Seq<char>| debug_text(s)),
        decreases items@.len() - k,
    {
        let ghost before = views(parts@);
        parts.push(debug_str(items[k].as_str()));
        proof {
            assert(views(parts@) =~= before.push(debug_text(items@[k as int]@)));
            assert(views(items@).take(k + 1) =~= views(items@).take(k as int).push(items@[k as int]@));
            assert(views(parts@) =~= views(items@).take(k + 1).map_values(|s: Seq<char>| debug_text(s)));
        }
        k = k + 1;
    }
    proof {
        assert(views(items@).take(k as int) =~= views(items@));
    }
    let mut r = string_of("[");
    push_text(&mut r, join_strings(&parts, ", ").as_str());
    push_text(&mut r, "]");
    r
}

/// The first position of `c` in the header.
fn column_position(header: &Vec<String>, c: &str) -> (r: Option<usize>)
    ensures
        match r {
            None => !views(header@).contains(c@),
            Some(k) => k == crate::probe::first_index(views(header@), c@),
        },
{
    let mut k: usize = 0;
    while k < header.len()
        invariant
            k <= header@.len(),
            forall|m: int| 0 <= m < k ==> views(header@)[m] != c@,
        decreases header@.len() - k,
    {
        if str_eq(header[k].as_str(), c) {
            proof {
                lemma_first_index(views(header@), c@, k as int);
            }
            return Some(k);
        }
        k = k + 1;
    }
    None
}

/// The text of the error for columns the header lacks.
pub open spec fn unknown_columns_message(missing: Seq<Seq<char>>, header: Seq<Seq<char>>) -> Seq<char> {
    "csv.aggregate: unknown column(s) "@ + debug_list(missing) + "; actual header is "@ + debug_list(
        header,
    )
}

/// Checks the requested columns against the header: the positions of the
/// columns when the header has them all, else the primitive failure that
/// names the unknown ones and the header.
pub fn check_columns(columns: &Vec<String>, header: &Vec<String>) -> (r: Result<Vec<usize>, AcosError>)
    ensures
        match r {
            Ok(idx) => unknown_columns(views(columns@), views(header@)).len() == 0 && idx@.len()
                == columns@.len() && forall|k: int|
                0 <= k < columns@.len() ==> (#[trigger] idx@[k]) == crate::probe::first_index(
                    views(header@),
                    columns@[k]@,
                ),
            Err(e) => {
                &&& unknown_columns(views(columns@), views(header@)).len() > 0
                &&& e matches AcosError::PrimitiveFailure { message, primitive_id, class }
                &&& message@ == unknown_columns_message(
                    unknown_columns(views(columns@), views(header@)),
                    views(header@),
                )
                &&& primitive_id matches Some(p) && p@ == "csv.aggregate"@
                &&& class == FailureClass::Unknown
            },
        },
{
    let mut missing: Vec<String> = Vec::new();
    let mut k: usize = 0;
    while k < columns.len()
        invariant
            k <= columns@.len(),
            views(missing@) == unknown_columns(views(columns@).take(k as int), views(header@)),
        decreases columns@.len() - k,
    {
        proof {
            assert(views(columns@).take(k + 1).drop_last() =~= views(columns@).take(k as int));
            assert(views(columns@).take(k + 1).last() == columns@[k as int]@);
        }
        if !contains_name(header, columns[k].as_str()) {
            let ghost before = views(missing@);
            missing.push(string_of(columns[k].as_str()));
            assert(views(missing@) =~= before.push(columns@[k as int]@));
        }
        k = k + 1;
    }
    proof {
        assert(views(columns@).take(k as int) =~= views(columns@));
    }
    if missing.len() > 0 {
        let mut m = string_of("csv.aggregate: unknown column(s) ");
        push_text(&mut m, debug_list_text(&missing).as_str());
        push_text(&mut m, "; actual header is ");
        push_text(&mut m, debug_list_text(header).as_str());
        return Err(
            AcosError::PrimitiveFailure {
                message: m,
                primitive_id: Some(string_of("csv.aggregate")),
                class: FailureClass::Unknown,
            },
        );
    }
    let mut idx: Vec<usize> = Vec::new();
    let mut k: usize = 0;
    while k < columns.len()
        invariant
            k <= columns@.len(),
            unknown_columns(views(columns@), views(header@)).len() == 0,
            idx@.len() == k,
            forall|m: int|
                0 <= m < k ==> (#[trigger] idx@[m]) == crate::probe::first_index(
                    views(header@),
                    columns@[m]@,
                ),
        decreases columns@.len() - k,
    {
        proof {
            lemma_known_columns(views(columns@), views(header@), k as int);
        }
        let p = match column_position(header, columns[k].as_str()) {
            Some(p) => p,
            None => 0,
        };
        idx.push(p);
        k = k + 1;
    }
    Ok(idx)
}

} // verus!
