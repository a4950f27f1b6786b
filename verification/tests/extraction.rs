use replenish::error::IngestError;
use replenish::extract::{extract_movements, extract_valuations};
use replenish::num::Dec;

fn row(cells: &[&str]) -> Vec<String> {
    cells.iter().map(|s| s.to_string()).collect()
}

fn preamble(n: usize) -> Vec<Vec<String>> {
    (0..n).map(|i| row(&["preamble", &i.to_string()])).collect()
}

fn movement_grid(data: &[&[&str]]) -> Vec<Vec<String>> {
    let mut grid = preamble(12);
    grid.push(row(&[
        "Date",
        "Quantity",
        "Product Code",
        "Product Name",
        "Brand Group",
        "Local SubFamily Name",
    ]));
    for r in data {
        grid.push(row(r));
    }
    grid
}

fn valuation_grid(data: &[&[&str]]) -> Vec<Vec<String>> {
    let mut grid = preamble(3);
    grid.push(row(&["Product Code", "Valuated Quantity"]));
    for r in data {
        grid.push(row(r));
    }
    grid
}

#[test]
fn movement_keeps_valid_rows_in_order() {
    let grid = movement_grid(&[
        &["2024-01-02", "3", "P1", "Widget", "Acme", "Fasteners"],
        &["2024-02-03", "1.5", "P2", "Gadget", "Bolt", "Tools"],
    ]);
    let recs = extract_movements(&grid).unwrap();
    assert_eq!(recs.len(), 2);
    assert_eq!(recs[0].date, "2024-01-02");
    assert_eq!(recs[0].quantity, Dec { neg: false, mantissa: 3, scale: 0 });
    assert_eq!(recs[0].product_code, "P1");
    assert_eq!(recs[0].product_name, "Widget");
    assert_eq!(recs[0].product_brand, "Acme");
    assert_eq!(recs[0].subfamily_name, "Fasteners");
    assert_eq!(recs[1].date, "2024-02-03");
    assert_eq!(recs[1].quantity, Dec { neg: false, mantissa: 15, scale: 1 });
    assert_eq!(recs[1].product_code, "P2");
}

#[test]
fn movement_drops_rows_with_unrecognized_dates() {
    let grid = movement_grid(&[
        &["Total", "3", "P1", "n", "b", "s"],
        &["2024-1-02", "3", "P2", "n", "b", "s"],
        &["2024-01-02x", "3", "P3", "n", "b", "s"],
        &["02-01-2024", "3", "P4", "n", "b", "s"],
        &["", "3", "P5", "n", "b", "s"],
        &["2024-01-02", "3", "P6", "n", "b", "s"],
    ]);
    let recs = extract_movements(&grid).unwrap();
    assert_eq!(recs.len(), 1);
    assert_eq!(recs[0].product_code, "P6");
}

#[test]
fn movement_drops_nonpositive_and_unparsable_quantities() {
    let grid = movement_grid(&[
        &["2024-01-02", "0", "P1", "n", "b", "s"],
        &["2024-01-02", "-2", "P2", "n", "b", "s"],
        &["2024-01-02", "n/a", "P3", "n", "b", "s"],
        &["2024-01-02", "1,5", "P4", "n", "b", "s"],
        &["2024-01-02", "0.25", "P5", "n", "b", "s"],
    ]);
    // In the movement variant the comma is not a decimal separator, so
    // "1,5" is unparsable, counts as zero and the row is dropped.
    let recs = extract_movements(&grid).unwrap();
    assert_eq!(recs.len(), 1);
    assert_eq!(recs[0].product_code, "P5");
    assert_eq!(recs[0].quantity, Dec { neg: false, mantissa: 25, scale: 2 });
}

#[test]
fn movement_header_columns_resolve_in_any_order() {
    let mut grid = preamble(12);
    grid.push(row(&[
        "extra",
        "  QUANTITY ",
        "Local SubFamily Name",
        "Brand Group",
        "Product Name",
        "Product Code",
        "DATE",
    ]));
    grid.push(row(&["x", "2", "sub", "brand", "name", "code", "2024-05-06"]));
    let recs = extract_movements(&grid).unwrap();
    assert_eq!(recs.len(), 1);
    assert_eq!(recs[0].date, "2024-05-06");
    assert_eq!(recs[0].quantity, Dec { neg: false, mantissa: 2, scale: 0 });
    assert_eq!(recs[0].product_code, "code");
    assert_eq!(recs[0].product_name, "name");
    assert_eq!(recs[0].product_brand, "brand");
    assert_eq!(recs[0].subfamily_name, "sub");
}

#[test]
fn movement_header_tolerates_unicode_whitespace() {
    let mut grid = preamble(12);
    grid.push(row(&[
        "date\u{00A0}",
        "Quantity",
        "Product Code",
        "Product Name",
        "Brand Group",
        "Local SubFamily Name",
    ]));
    grid.push(row(&["2024-01-02", "3", "P1", "n", "b", "s"]));
    let recs = extract_movements(&grid).unwrap();
    assert_eq!(recs.len(), 1);
    assert_eq!(recs[0].date, "2024-01-02");
}

#[test]
fn valuation_header_tolerates_unicode_whitespace() {
    let mut grid = preamble(3);
    grid.push(row(&["product code\u{00A0}", "Valuated Quantity"]));
    grid.push(row(&["P1", "2"]));
    let recs = extract_valuations(&grid).unwrap();
    assert_eq!(recs.len(), 1);
    assert_eq!(recs[0].product_code, "P1");
}

#[test]
fn movement_short_grid_is_malformed() {
    assert_eq!(extract_movements(&Vec::new()).unwrap_err(), IngestError::MalformedInput);
    assert_eq!(extract_movements(&preamble(5)).unwrap_err(), IngestError::MalformedInput);
    // Twelve rows leave no room for the header row itself.
    assert_eq!(extract_movements(&preamble(12)).unwrap_err(), IngestError::MalformedInput);
}

#[test]
fn movement_header_only_grid_yields_no_records() {
    let grid = movement_grid(&[]);
    let recs = extract_movements(&grid).unwrap();
    assert!(recs.is_empty());
}

#[test]
fn movement_missing_column_is_fatal() {
    let mut grid = preamble(12);
    grid.push(row(&["Date", "Product Code", "Product Name", "Brand Group",
        "Local SubFamily Name"]));
    grid.push(row(&["2024-01-02", "P1", "n", "b", "s"]));
    let err = extract_movements(&grid).unwrap_err();
    assert_eq!(err, IngestError::MissingColumn("quantity".to_string()));
}

#[test]
fn movement_short_data_rows_count_as_empty_cells() {
    let grid = movement_grid(&[
        &["2024-01-02"],
        &["2024-01-02", "4", "P1", "n", "b", "s"],
    ]);
    // The first row has no quantity cell: empty text, unparsable, dropped.
    let recs = extract_movements(&grid).unwrap();
    assert_eq!(recs.len(), 1);
    assert_eq!(recs[0].product_code, "P1");
}

#[test]
fn valuation_normalizes_comma_and_filters_positives() {
    let grid = valuation_grid(&[
        &["P1", "1,5"],
        &["P2", "0"],
        &["P3", "2.5"],
        &["P4", "-1,5"],
        &["P5", "n/a"],
    ]);
    let recs = extract_valuations(&grid).unwrap();
    assert_eq!(recs.len(), 2);
    assert_eq!(recs[0].product_code, "P1");
    assert_eq!(recs[0].valuated_quantity, Dec { neg: false, mantissa: 15, scale: 1 });
    assert_eq!(recs[1].product_code, "P3");
    assert_eq!(recs[1].valuated_quantity, Dec { neg: false, mantissa: 25, scale: 1 });
}

#[test]
fn valuation_short_grid_is_malformed() {
    assert_eq!(extract_valuations(&preamble(3)).unwrap_err(), IngestError::MalformedInput);
    assert_eq!(extract_valuations(&Vec::new()).unwrap_err(), IngestError::MalformedInput);
}

#[test]
fn valuation_missing_column_is_fatal() {
    let mut grid = preamble(3);
    grid.push(row(&["Product Code", "Quantity"]));
    let err = extract_valuations(&grid).unwrap_err();
    assert_eq!(err, IngestError::MissingColumn("valuated quantity".to_string()));
}
