use replenish::columns::resolve_columns;
use replenish::error::IngestError;

fn strings(v: &[&str]) -> Vec<String> {
    v.iter().map(|s| s.to_string()).collect()
}

fn movement_names() -> Vec<String> {
    strings(&[
        "date",
        "quantity",
        "product code",
        "product name",
        "brand group",
        "local subfamily name",
    ])
}

#[test]
fn resolves_any_order_case_and_whitespace() {
    let headers = strings(&[
        "  QUANTITY  ",
        "Product Code",
        "\tdate\n",
        "Brand Group",
        "local SUBFAMILY name",
        "Product Name",
    ]);
    let ix = resolve_columns(&headers, &movement_names()).unwrap();
    assert_eq!(ix, vec![2, 0, 1, 5, 3, 4]);
}

#[test]
fn resolves_exact_lowercase_headers() {
    let headers = strings(&["date", "quantity", "product code", "product name", "brand group",
        "local subfamily name"]);
    let ix = resolve_columns(&headers, &movement_names()).unwrap();
    assert_eq!(ix, vec![0, 1, 2, 3, 4, 5]);
}

#[test]
fn trims_unicode_whitespace() {
    // A non-breaking space or other Unicode whitespace around a header
    // still lets the canonical name match.
    let headers = strings(&[
        "\u{00A0}date\u{00A0}",
        "\u{2009}quantity\u{3000}",
        "product code",
        "product name",
        "brand group",
        "local subfamily name",
    ]);
    let ix = resolve_columns(&headers, &movement_names()).unwrap();
    assert_eq!(ix, vec![0, 1, 2, 3, 4, 5]);
}

#[test]
fn missing_column_names_the_missing_one() {
    let headers = strings(&[
        "date",
        "product code",
        "product name",
        "brand group",
        "local subfamily name",
    ]);
    let err = resolve_columns(&headers, &movement_names()).unwrap_err();
    assert_eq!(err, IngestError::MissingColumn("quantity".to_string()));
}

#[test]
fn missing_column_reports_first_missing_in_required_order() {
    let headers = strings(&["product code", "product name"]);
    let err = resolve_columns(&headers, &movement_names()).unwrap_err();
    assert_eq!(err, IngestError::MissingColumn("date".to_string()));
}

#[test]
fn duplicate_headers_resolve_to_first_match() {
    let headers = strings(&["x", " DATE ", "date", "y"]);
    let ix = resolve_columns(&headers, &strings(&["date"])).unwrap();
    assert_eq!(ix, vec![1]);
}

#[test]
fn ignores_extra_headers() {
    let headers = strings(&["junk", "date", "more junk"]);
    let ix = resolve_columns(&headers, &strings(&["date"])).unwrap();
    assert_eq!(ix, vec![1]);
}
