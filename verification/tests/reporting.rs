use replenish::num::Dec;
use replenish::report::{generate_report, CellContent, CellWrite, NumField, ReplenishmentRecord};

fn value(mantissa: u64, scale: u32) -> NumField {
    NumField::Value(Dec { neg: false, mantissa, scale })
}

fn sample_record() -> ReplenishmentRecord {
    // One product: lead time 5, service coefficient 1.65, order frequency 7,
    // mean daily consumption 10, standard deviation 2, current stock 40.
    ReplenishmentRecord {
        reference: "A1".to_string(),
        designation: "Widget".to_string(),
        product_brand: "Acme".to_string(),
        subfamily_name: "Fasteners".to_string(),
        delivery_duration: value(5, 0),
        security_coeff: value(165, 2),
        order_frequency: value(7, 0),
        average_consumption: value(10, 0),
        std_dev: value(2, 0),
        stock_quantity: value(40, 0),
    }
}

fn find<'a>(out: &'a [CellWrite], row: u32, col: u16) -> &'a CellWrite {
    out.iter()
        .find(|w| w.row == row && w.col == col)
        .unwrap_or_else(|| panic!("no write at row {row}, col {col}"))
}

fn formula_text<'a>(w: &'a CellWrite) -> &'a str {
    match &w.content {
        CellContent::Formula(t) => t.as_str(),
        other => panic!("expected a formula cell, got {other:?}"),
    }
}

fn text<'a>(w: &'a CellWrite) -> &'a str {
    match &w.content {
        CellContent::Text(t) => t.as_str(),
        other => panic!("expected a text cell, got {other:?}"),
    }
}

#[test]
fn empty_input_yields_headers_only() {
    let out = generate_report(&Vec::new());
    assert_eq!(out.len(), 16);
    for (j, w) in out.iter().enumerate() {
        assert_eq!(w.row, 0);
        assert_eq!(w.col, j as u16);
        assert!(w.bold);
        assert!(matches!(w.content, CellContent::Text(_)));
    }
    assert_eq!(text(find(&out, 0, 0)), "Référence");
    assert_eq!(text(find(&out, 0, 13)), "Quantité à Commander");
    assert_eq!(text(find(&out, 0, 15)), "Local SubFamily Name");
}

#[test]
fn one_record_writes_its_row_and_formulas() {
    let rec = sample_record();
    let out = generate_report(&vec![rec]);
    assert_eq!(out.len(), 32);
    // Literal cells of the record, all on workbook row 1.
    assert_eq!(text(find(&out, 1, 0)), "A1");
    assert_eq!(text(find(&out, 1, 1)), "Widget");
    assert_eq!(text(find(&out, 1, 2)), "Acme");
    assert_eq!(text(find(&out, 1, 15)), "Fasteners");
    let lead = find(&out, 1, 3);
    assert_eq!(lead.content, CellContent::Number(Dec { neg: false, mantissa: 5, scale: 0 }));
    let coeff = find(&out, 1, 4);
    assert_eq!(coeff.content, CellContent::Number(Dec { neg: false, mantissa: 165, scale: 2 }));
    let stock = find(&out, 1, 11);
    assert_eq!(stock.content, CellContent::Number(Dec { neg: false, mantissa: 40, scale: 0 }));
    // Formula cells address spreadsheet row 2, the record's own row.
    assert_eq!(formula_text(find(&out, 1, 8)), "=G2*(D2 + F2)*(1+O2)");
    assert_eq!(formula_text(find(&out, 1, 9)), "=E2*H2*SQRT(D2+F2)");
    assert_eq!(formula_text(find(&out, 1, 10)), "=ROUNDUP(I2+J2,0)");
    assert_eq!(formula_text(find(&out, 1, 12)), "=K2-L2");
    let order = find(&out, 1, 13);
    assert!(order.bold);
    assert_eq!(formula_text(order), "=IF(M2>=0,ROUNDUP(K2+M2,0),0)");
    assert_eq!(formula_text(find(&out, 1, 14)), "20%");
    // No write goes beyond the record's row.
    assert!(out.iter().all(|w| w.row <= 1));
}

#[test]
fn rows_align_with_record_positions() {
    let mut records = Vec::new();
    for i in 0..10 {
        let mut r = sample_record();
        r.reference = format!("P{i}");
        records.push(r);
    }
    let out = generate_report(&records);
    assert_eq!(out.len(), 16 * 11);
    for (i, _) in records.iter().enumerate() {
        let row = i as u32 + 1;
        let rn = i + 2;
        assert_eq!(text(find(&out, row, 0)), &format!("P{i}"));
        assert_eq!(formula_text(find(&out, row, 10)), &format!("=ROUNDUP(I{rn}+J{rn},0)"));
        assert_eq!(
            formula_text(find(&out, row, 13)),
            &format!("=IF(M{rn}>=0,ROUNDUP(K{rn}+M{rn},0),0)")
        );
    }
    // Rows written are exactly the header row and one row per record.
    let max_row = out.iter().map(|w| w.row).max().unwrap();
    assert_eq!(max_row, 10);
    for r in 0..=10u32 {
        assert!(out.iter().any(|w| w.row == r));
    }
}

#[test]
fn generation_is_idempotent() {
    let records = vec![sample_record(), {
        let mut r = sample_record();
        r.reference = "B2".to_string();
        r.delivery_duration = NumField::Display("5 jours".to_string());
        r
    }];
    let first = generate_report(&records);
    let second = generate_report(&records);
    assert_eq!(first, second);
}

#[test]
fn preformatted_fields_are_written_as_text() {
    let mut r = sample_record();
    r.delivery_duration = NumField::Display("5 jours".to_string());
    r.std_dev = NumField::Display("2,0".to_string());
    let out = generate_report(&vec![r]);
    assert_eq!(text(find(&out, 1, 3)), "5 jours");
    assert_eq!(text(find(&out, 1, 7)), "2,0");
    // The exact-value fields stay numeric.
    assert!(matches!(find(&out, 1, 4).content, CellContent::Number(_)));
}

#[test]
fn only_order_quantity_and_headers_are_bold() {
    let out = generate_report(&vec![sample_record()]);
    for w in &out {
        let expected = w.row == 0 || w.col == 13;
        assert_eq!(w.bold, expected, "bold mismatch at row {}, col {}", w.row, w.col);
    }
}
