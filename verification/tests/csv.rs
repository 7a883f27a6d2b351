use acos::csv::{check_columns, clean_rows, inspect_schema, merge_currency_splits, ColumnType, CsvCell};
use acos::error::AcosError;
use acos::plugin::{is_missing, parse_csv_line};

fn parse_number(v: &str) -> Option<f64> {
    let s = v.trim();
    if is_missing(s) {
        return None;
    }
    s.replace(['$', ','], "").parse::<f64>().ok()
}

fn cell(text: &str) -> CsvCell {
    CsvCell {
        text: text.to_string(),
        integer: text.parse::<i64>().is_ok(),
        number: parse_number(text).is_some(),
        amount_like: text.trim().replace(['.', ','], "").parse::<f64>().is_ok(),
    }
}

fn rows(lines: &[&str]) -> Vec<Vec<CsvCell>> {
    lines.iter().map(|l| parse_csv_line(l).iter().map(|v| cell(v)).collect()).collect()
}

#[test]
fn schema_report_types_columns_and_flags_missing_values() {
    let header = parse_csv_line("date,product,units,revenue");
    let body = rows(&["a,1,5,100", "b,2,,\"1,200\""]);
    let report = inspect_schema(&header, &body);
    assert_eq!(report.columns.len(), 4);
    assert_eq!(report.columns[3].0, "revenue");
    assert_eq!(report.columns[0].1, ColumnType::Text);
    assert_eq!(report.columns[1].1, ColumnType::Integer);
    assert_eq!(report.columns[2].1, ColumnType::Text);
    assert_eq!(report.columns[3].1, ColumnType::Number);
    assert_eq!(report.columns[3].1.as_text(), "number");
    assert_eq!(report.row_count, 2);
    assert!(!report.field_count_mismatch);
    assert!(report.missing_value);
    assert_eq!(report.issues(), vec!["missing_value".to_string()]);
}

#[test]
fn schema_report_flags_ragged_rows() {
    let header = parse_csv_line("a,b");
    let report = inspect_schema(&header, &rows(&["1,2", "3"]));
    assert!(report.field_count_mismatch);
    assert!(!report.missing_value);
    assert_eq!(report.issues(), vec!["field_count_mismatch".to_string()]);
}

#[test]
fn currency_splits_are_merged() {
    let cells: Vec<CsvCell> = ["x", "$3", "150.00", "7"].iter().map(|v| cell(v)).collect();
    let (merged, n) = merge_currency_splits(&cells);
    assert_eq!(merged, vec!["x".to_string(), "$3,150.00".to_string(), "7".to_string()]);
    assert_eq!(n, 1);
    let lone: Vec<CsvCell> = ["$1,200"].iter().map(|v| cell(v)).collect();
    assert_eq!(merge_currency_splits(&lone), (vec!["$1,200".to_string()], 0));
}

#[test]
fn cleaning_drops_null_rows_and_later_duplicates() {
    let body = rows(&["x,10,5", "y,null,3", "x,10,5", "z,$3,150", "w,1,2"]);
    let c = clean_rows(&body);
    assert_eq!(
        c.kept,
        vec![
            vec!["x".to_string(), "10".to_string(), "5".to_string()],
            vec!["z".to_string(), "$3,150".to_string()],
            vec!["w".to_string(), "1".to_string(), "2".to_string()],
        ]
    );
    assert_eq!(c.null_dropped, 1);
    assert_eq!(c.dup_dropped, 1);
    assert_eq!(c.currency_merges, 1);
    assert_eq!(
        c.issues(),
        vec!["currency_formatting".to_string(), "missing_value_NULL".to_string(), "duplicate_rows".to_string()]
    );
}

#[test]
fn columns_are_checked_against_the_header() {
    let header = parse_csv_line("product,units,revenue");
    let cols = vec!["revenue".to_string(), "units".to_string()];
    match check_columns(&cols, &header) {
        Ok(idx) => assert_eq!(idx, vec![2, 1]),
        Err(e) => panic!("{}", e.to_text()),
    }
    match check_columns(&vec!["quantity".to_string()], &header) {
        Err(AcosError::PrimitiveFailure { message, primitive_id, .. }) => {
            assert_eq!(
                message,
                "csv.aggregate: unknown column(s) [\"quantity\"]; actual header is [\"product\", \"units\", \"revenue\"]"
            );
            assert_eq!(primitive_id.as_deref(), Some("csv.aggregate"));
        }
        _ => panic!("expected an unknown-column failure"),
    }
}

