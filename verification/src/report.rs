//! The replenishment formula generator. From the ordered replenishment
//! records it produces the full list of cell writes of the output workbook:
//! one emphasized header row of sixteen labels, per record the literal cells
//! at their fixed columns, and per record the five formula cells of the
//! safety-stock model plus the per-row growth-factor cell, all addressing
//! only the record's own spreadsheet row. The list is a pure function of the
//! records, so generating twice from the same records yields identical text.
//! A tabular writer replays the writes and saves the workbook.

use vstd::prelude::*;
use vstd::arithmetic::div_mod::{lemma_fundamental_div_mod, lemma_mod_division_less_than_divisor};
use crate::num::Dec;
use crate::text::{dec_digits, u32_to_string};

verus! {

/// What one cell of the output workbook holds.
#[derive(Debug, Clone, PartialEq)]
pub enum CellContent {
    /// A literal text cell.
    Text(String),
    /// A literal numeric cell.
    Number(Dec),
    /// A formula cell; the text is handed to the spreadsheet engine.
    Formula(String),
}

/// Mathematical view of a cell's content.
pub enum CellContentV {
    Text(Seq<char>),
    Number(Dec),
    Formula(Seq<char>),
}

impl View for CellContent {
    type V = CellContentV;

    open spec fn view(&self) -> CellContentV {
        match self {
            CellContent::Text(s) => CellContentV::Text(s@),
            CellContent::Number(d) => CellContentV::Number(*d),
            CellContent::Formula(s) => CellContentV::Formula(s@),
        }
    }
}

/// One write instruction for the tabular writer: zero-based row and column,
/// the content, and whether the cell is emphasized.
#[derive(Debug, Clone, PartialEq)]
pub struct CellWrite {
    pub row: u32,
    pub col: u16,
    pub bold: bool,
    pub content: CellContent,
}

/// Mathematical view of a write instruction.
pub struct CellWriteV {
    pub row: u32,
    pub col: u16,
    pub bold: bool,
    pub content: CellContentV,
}

impl View for CellWrite {
    type V = CellWriteV;

    open spec fn view(&self) -> CellWriteV {
        CellWriteV { row: self.row, col: self.col, bold: self.bold, content: self.content@ }
    }
}

/// A numeric field of a replenishment record: either an exact value or a
/// display string formatted upstream. The two schema variants are kept
/// distinct; the generator writes the one as a numeric cell and the other as
/// a text cell.
#[derive(Debug, Clone, PartialEq)]
pub enum NumField {
    Value(Dec),
    Display(String),
}

/// Mathematical view of a numeric field.
pub enum NumFieldV {
    Value(Dec),
    Display(Seq<char>),
}

impl View for NumField {
    type V = NumFieldV;

    open spec fn view(&self) -> NumFieldV {
        match self {
            NumField::Value(d) => NumFieldV::Value(*d),
            NumField::Display(s) => NumFieldV::Display(s@),
        }
    }
}

/// One row of the final report, computed upstream and passed in whole.
pub struct ReplenishmentRecord {
    pub reference: String,
    pub designation: String,
    pub product_brand: String,
    pub subfamily_name: String,
    pub delivery_duration: NumField,
    pub security_coeff: NumField,
    pub order_frequency: NumField,
    pub average_consumption: NumField,
    pub std_dev: NumField,
    pub stock_quantity: NumField,
}

/// Mathematical view of a replenishment record.
pub struct ReplenishmentRecordV {
    pub reference: Seq<char>,
    pub designation: Seq<char>,
    pub product_brand: Seq<char>,
    pub subfamily_name: Seq<char>,
    pub delivery_duration: NumFieldV,
    pub security_coeff: NumFieldV,
    pub order_frequency: NumFieldV,
    pub average_consumption: NumFieldV,
    pub std_dev: NumFieldV,
    pub stock_quantity: NumFieldV,
}

impl View for ReplenishmentRecord {
    type V = ReplenishmentRecordV;

    open spec fn view(&self) -> ReplenishmentRecordV {
        ReplenishmentRecordV {
            reference: self.reference@,
            designation: self.designation@,
            product_brand: self.product_brand@,
            subfamily_name: self.subfamily_name@,
            delivery_duration: self.delivery_duration@,
            security_coeff: self.security_coeff@,
            order_frequency: self.order_frequency@,
            average_consumption: self.average_consumption@,
            std_dev: self.std_dev@,
            stock_quantity: self.stock_quantity@,
        }
    }
}

pub open spec fn cwrites_view(s: Seq<CellWrite>) -> Seq<CellWriteV> {
    s.map_values(|w: CellWrite| w@)
}

pub open spec fn rrecs_view(s: Seq<ReplenishmentRecord>) -> Seq<ReplenishmentRecordV> {
    s.map_values(|r: ReplenishmentRecord| r@)
}

/// The cell a numeric field yields: a number for the exact variant, a text
/// for the pre-formatted variant.
pub open spec fn num_content(f: NumFieldV) -> CellContentV {
    match f {
        NumFieldV::Value(d) => CellContentV::Number(d),
        NumFieldV::Display(s) => CellContentV::Text(s),
    }
}

/// Minimum stock: mean consumption times the covered days, grown by the
/// per-row growth factor.
pub open spec fn min_stock_formula_text(rn: nat) -> Seq<char> {
    "=G"@ + dec_digits(rn) + "*(D"@ + dec_digits(rn) + " + F"@ + dec_digits(rn) + ")*(1+O"@
        + dec_digits(rn) + ")"@
}

/// Security stock: service coefficient times demand deviation times the
/// square root of the covered days.
pub open spec fn security_stock_formula_text(rn: nat) -> Seq<char> {
    "=E"@ + dec_digits(rn) + "*H"@ + dec_digits(rn) + "*SQRT(D"@ + dec_digits(rn) + "+F"@
        + dec_digits(rn) + ")"@
}

/// Reorder threshold: minimum plus security stock, rounded up to whole units.
pub open spec fn threshold_formula_text(rn: nat) -> Seq<char> {
    "=ROUNDUP(I"@ + dec_digits(rn) + "+J"@ + dec_digits(rn) + ",0)"@
}

/// Stock delta: reorder threshold minus the current stock.
pub open spec fn delta_formula_text(rn: nat) -> Seq<char> {
    "=K"@ + dec_digits(rn) + "-L"@ + dec_digits(rn)
}

/// Order quantity: threshold plus delta rounded up when the delta is not
/// negative, else zero.
pub open spec fn order_formula_text(rn: nat) -> Seq<char> {
    "=IF(M"@ + dec_digits(rn) + ">=0,ROUNDUP(K"@ + dec_digits(rn) + "+M"@ + dec_digits(rn)
        + ",0),0)"@
}

/// The per-row growth factor, an overridable formula cell.
pub open spec fn growth_formula_text() -> Seq<char> {
    "20%"@
}

/// A bold header cell on the first row.
pub open spec fn hdr_cell(col: u16, label: Seq<char>) -> CellWriteV {
    CellWriteV { row: 0, col, bold: true, content: CellContentV::Text(label) }
}

/// The fixed header row of the report.
pub open spec fn header_cells() -> Seq<CellWriteV> {
    seq![
        hdr_cell(0, "Référence"@),
        hdr_cell(1, "Désignation"@),
        hdr_cell(2, "Marque"@),
        hdr_cell(3, "Durée de Livraison (jours)"@),
        hdr_cell(4, "Coefficient de Sécurité"@),
        hdr_cell(5, "Fréquence de Commande (jours)"@),
        hdr_cell(6, "Consommation Moyenne / jour"@),
        hdr_cell(7, "Ecart-type"@),
        hdr_cell(8, "Stock Minimum"@),
        hdr_cell(9, "Stock de Sécurité"@),
        hdr_cell(10, "Seuil de Commande"@),
        hdr_cell(11, "Stock Actuel"@),
        hdr_cell(12, "Delta de Stock"@),
        hdr_cell(13, "Quantité à Commander"@),
        hdr_cell(14, "Croissance"@),
        hdr_cell(15, "Local SubFamily Name"@),
    ]
}

/// A cell of the record at position `i`, written on workbook row `i + 1`.
pub open spec fn rec_cell(i: int, col: u16, bold: bool, content: CellContentV) -> CellWriteV {
    CellWriteV { row: (i + 1) as u32, col, bold, content }
}

/// The sixteen writes of the record at position `i`: the literal cells at
/// their fixed columns, then the formula cells, all on row `i + 1` and
/// addressing spreadsheet row `i + 2` (the same row, one-based).
pub open spec fn record_cells(r: ReplenishmentRecordV, i: int) -> Seq<CellWriteV> {
    seq![
        rec_cell(i, 0, false, CellContentV::Text(r.reference)),
        rec_cell(i, 1, false, CellContentV::Text(r.designation)),
        rec_cell(i, 2, false, CellContentV::Text(r.product_brand)),
        rec_cell(i, 3, false, num_content(r.delivery_duration)),
        rec_cell(i, 4, false, num_content(r.security_coeff)),
        rec_cell(i, 5, false, num_content(r.order_frequency)),
        rec_cell(i, 6, false, num_content(r.average_consumption)),
        rec_cell(i, 7, false, num_content(r.std_dev)),
        rec_cell(i, 11, false, num_content(r.stock_quantity)),
        rec_cell(i, 15, false, CellContentV::Text(r.subfamily_name)),
        rec_cell(i, 8, false, CellContentV::Formula(min_stock_formula_text((i + 2) as nat))),
        rec_cell(i, 9, false, CellContentV::Formula(security_stock_formula_text((i + 2) as nat))),
        rec_cell(i, 10, false, CellContentV::Formula(threshold_formula_text((i + 2) as nat))),
        rec_cell(i, 12, false, CellContentV::Formula(delta_formula_text((i + 2) as nat))),
        rec_cell(i, 13, true, CellContentV::Formula(order_formula_text((i + 2) as nat))),
        rec_cell(i, 14, false, CellContentV::Formula(growth_formula_text())),
    ]
}

/// The writes of all record rows, in record order.
pub open spec fn body_cells(rs: Seq<ReplenishmentRecordV>) -> Seq<CellWriteV>
    decreases rs.len(),
{
    if rs.len() == 0 {
        Seq::empty()
    } else {
        body_cells(rs.drop_last()) + record_cells(rs.last(), rs.len() - 1)
    }
}

/// Every write of the report: the header row, then the record rows.
pub open spec fn report_cells(rs: Seq<ReplenishmentRecordV>) -> Seq<CellWriteV> {
    header_cells() + body_cells(rs)
}

pub proof fn lemma_body_len(rs: Seq<ReplenishmentRecordV>)
    ensures
        body_cells(rs).len() == 16 * rs.len(),
    decreases rs.len(),
{
    if rs.len() > 0 {
        lemma_body_len(rs.drop_last());
    }
}

/// One generation step: the body of the first `m + 1` records extends the
/// body of the first `m` by the cells of record `m`.
pub proof fn lemma_body_succ(rs: Seq<ReplenishmentRecordV>, m: int)
    requires
        0 <= m < rs.len(),
    ensures
        body_cells(rs.take(m + 1)) == body_cells(rs.take(m)) + record_cells(rs[m], m),
{
    let a = rs.take(m + 1);
    assert(a.drop_last() =~= rs.take(m));
    assert(a.last() == rs[m]);
}

/// The cells of the record at position `i` stand right after the header and
/// the cells of the records before it.
pub proof fn lemma_body_index(rs: Seq<ReplenishmentRecordV>, i: int)
    requires
        0 <= i < rs.len(),
    ensures
        forall|j: int|
            0 <= j < 16 ==> body_cells(rs)[16 * i + j] == record_cells(rs[i], i)[j],
    decreases rs.len(),
{
    lemma_body_len(rs);
    lemma_body_len(rs.drop_last());
    if i == rs.len() - 1 {
        assert forall|j: int| 0 <= j < 16 implies body_cells(rs)[16 * i + j] == record_cells(
            rs[i],
            i,
        )[j] by {
            assert(rs.last() == rs[i]);
        }
    } else {
        lemma_body_index(rs.drop_last(), i);
        assert(rs.drop_last()[i] == rs[i]);
        assert forall|j: int| 0 <= j < 16 implies body_cells(rs)[16 * i + j] == record_cells(
            rs[i],
            i,
        )[j] by {
            assert(16 * i + j < 16 * (rs.len() - 1));
            assert(body_cells(rs)[16 * i + j] == body_cells(rs.drop_last())[16 * i + j]);
        }
    }
}

/// Where the cells of the record at position `i` stand in the whole report.
pub proof fn lemma_report_index(rs: Seq<ReplenishmentRecordV>, i: int)
    requires
        0 <= i < rs.len(),
    ensures
        forall|j: int|
            0 <= j < 16 ==> report_cells(rs)[16 + 16 * i + j] == record_cells(rs[i], i)[j],
{
    lemma_body_index(rs, i);
    lemma_body_len(rs);
}

/// Whether a formula text is one of the model's formulas addressing
/// spreadsheet row `rn`, or the row-independent growth-factor cell.
pub open spec fn formula_for_row(t: Seq<char>, rn: nat) -> bool {
    ||| t == min_stock_formula_text(rn)
    ||| t == security_stock_formula_text(rn)
    ||| t == threshold_formula_text(rn)
    ||| t == delta_formula_text(rn)
    ||| t == order_formula_text(rn)
    ||| t == growth_formula_text()
}

/// Row alignment of the report. The report has `16 * (N + 1)` writes for `N`
/// records: sixteen emphasized header texts on row zero, then sixteen writes
/// per record, all on the record's own row `i + 1`; no write goes beyond row
/// `N`, and every row up to `N` is written. Every formula cell holds one of
/// the model's formulas addressing spreadsheet row `row + 1` — its own row,
/// one-based — so each record's formulas reference only that record's row.
pub proof fn lemma_report_row_alignment(rs: Seq<ReplenishmentRecordV>)
    requires
        rs.len() < 0xFFFF_FFFF,
    ensures
        report_cells(rs).len() == 16 + 16 * rs.len(),
        forall|k: int|
            0 <= k < 16 ==> (#[trigger] report_cells(rs)[k]).row == 0 && report_cells(
                rs,
            )[k].content is Text && report_cells(rs)[k].bold,
        forall|k: int|
            16 <= k < report_cells(rs).len() ==> (#[trigger] report_cells(rs)[k]).row as int == 1
                + (k - 16) / 16,
        forall|k: int|
            0 <= k < report_cells(rs).len() ==> (#[trigger] report_cells(rs)[k]).row as int
                <= rs.len(),
        forall|r: int|
            1 <= r <= rs.len() ==> (#[trigger] report_cells(rs)[16 + 16 * (r - 1)]).row as int
                == r,
        forall|k: int|
            0 <= k < report_cells(rs).len() && (#[trigger] report_cells(rs)[k]).content is Formula
                ==> formula_for_row(
                report_cells(rs)[k].content->Formula_0,
                (report_cells(rs)[k].row + 1) as nat,
            ),
{
    lemma_body_len(rs);
    assert forall|k: int|
        16 <= k < report_cells(rs).len() implies (#[trigger] report_cells(rs)[k]).row as int == 1
        + (k - 16) / 16 && report_cells(rs)[k].row as int <= rs.len() && (report_cells(
        rs,
    )[k].content is Formula ==> formula_for_row(
        report_cells(rs)[k].content->Formula_0,
        (report_cells(rs)[k].row + 1) as nat,
    )) by {
        let d = k - 16;
        lemma_fundamental_div_mod(d, 16);
        lemma_mod_division_less_than_divisor(d, 16);
        let i = d / 16;
        let j = d % 16;
        assert(d == 16 * i + j);
        assert(0 <= j < 16);
        assert(0 <= i < rs.len());
        lemma_report_index(rs, i);
        assert(report_cells(rs)[k] == record_cells(rs[i], i)[j]);
        assert(record_cells(rs[i], i)[j].row == (i + 1) as u32);
        assert((i + 1) as u32 as int == i + 1);
    }
    assert forall|r: int| 1 <= r <= rs.len() implies (#[trigger] report_cells(rs)[16 + 16 * (r
        - 1)]).row as int == r by {
        lemma_report_index(rs, r - 1);
        assert(report_cells(rs)[16 + 16 * (r - 1) + 0] == record_cells(rs[r - 1], r - 1)[0]);
    }
}

/// Generation is deterministic: the write list is a function of the records
/// alone (`generate_report` ensures its output is exactly `report_cells` of
/// its input), so generating twice from equal records yields identical
/// header, literal and formula text.
pub proof fn lemma_report_deterministic(
    a: Seq<ReplenishmentRecordV>,
    b: Seq<ReplenishmentRecordV>,
)
    requires
        a == b,
    ensures
        report_cells(a) == report_cells(b),
{
}

/// With no records the report is the header row alone: no formula cells, one
/// written row.
pub proof fn lemma_report_empty()
    ensures
        report_cells(Seq::empty()) == header_cells(),
{
    assert(header_cells() + body_cells(Seq::empty()) =~= header_cells());
}

fn min_stock_formula(rn: u32) -> (r: String)
    ensures
        r@ == min_stock_formula_text(rn as nat),
{
    let d = u32_to_string(rn);
    let mut s = String::from_str("=G");
    s.append(d.as_str());
    s.append("*(D");
    s.append(d.as_str());
    s.append(" + F");
    s.append(d.as_str());
    s.append(")*(1+O");
    s.append(d.as_str());
    s.append(")");
    proof {
        assert(s@ =~= min_stock_formula_text(rn as nat));
    }
    s
}

fn security_stock_formula(rn: u32) -> (r: String)
    ensures
        r@ == security_stock_formula_text(rn as nat),
{
    let d = u32_to_string(rn);
    let mut s = String::from_str("=E");
    s.append(d.as_str());
    s.append("*H");
    s.append(d.as_str());
    s.append("*SQRT(D");
    s.append(d.as_str());
    s.append("+F");
    s.append(d.as_str());
    s.append(")");
    proof {
        assert(s@ =~= security_stock_formula_text(rn as nat));
    }
    s
}

fn threshold_formula(rn: u32) -> (r: String)
    ensures
        r@ == threshold_formula_text(rn as nat),
{
    let d = u32_to_string(rn);
    let mut s = String::from_str("=ROUNDUP(I");
    s.append(d.as_str());
    s.append("+J");
    s.append(d.as_str());
    s.append(",0)");
    proof {
        assert(s@ =~= threshold_formula_text(rn as nat));
    }
    s
}

fn delta_formula(rn: u32) -> (r: String)
    ensures
        r@ == delta_formula_text(rn as nat),
{
    let d = u32_to_string(rn);
    let mut s = String::from_str("=K");
    s.append(d.as_str());
    s.append("-L");
    s.append(d.as_str());
    proof {
        assert(s@ =~= delta_formula_text(rn as nat));
    }
    s
}

fn order_formula(rn: u32) -> (r: String)
    ensures
        r@ == order_formula_text(rn as nat),
{
    let d = u32_to_string(rn);
    let mut s = String::from_str("=IF(M");
    s.append(d.as_str());
    s.append(">=0,ROUNDUP(K");
    s.append(d.as_str());
    s.append("+M");
    s.append(d.as_str());
    s.append(",0),0)");
    proof {
        assert(s@ =~= order_formula_text(rn as nat));
    }
    s
}

fn num_content_x(f: &NumField) -> (c: CellContent)
    ensures
        c@ == num_content(f@),
{
    match f {
        NumField::Value(d) => CellContent::Number(*d),
        NumField::Display(s) => CellContent::Text(s.clone()),
    }
}

/// Generates the report as the ordered list of cell writes. The output is a
/// pure function of the records: a second generation from equal records is
/// identical. The record count is bounded by the writer's row addressing.
pub fn generate_report(records: &Vec<ReplenishmentRecord>) -> (out: Vec<CellWrite>)
    requires
        records@.len() < 0xFFFF_FFFF,
    ensures
        cwrites_view(out@) == report_cells(rrecs_view(records@)),
{
    let ghost rv = rrecs_view(records@);
    let mut out: Vec<CellWrite> = Vec::new();
    out.push(CellWrite { row: 0, col: 0, bold: true, content: CellContent::Text(String::from_str("Référence")) });
    out.push(CellWrite { row: 0, col: 1, bold: true, content: CellContent::Text(String::from_str("Désignation")) });
    out.push(CellWrite { row: 0, col: 2, bold: true, content: CellContent::Text(String::from_str("Marque")) });
    out.push(CellWrite { row: 0, col: 3, bold: true, content: CellContent::Text(String::from_str("Durée de Livraison (jours)")) });
    out.push(CellWrite { row: 0, col: 4, bold: true, content: CellContent::Text(String::from_str("Coefficient de Sécurité")) });
    out.push(CellWrite { row: 0, col: 5, bold: true, content: CellContent::Text(String::from_str("Fréquence de Commande (jours)")) });
    out.push(CellWrite { row: 0, col: 6, bold: true, content: CellContent::Text(String::from_str("Consommation Moyenne / jour")) });
    out.push(CellWrite { row: 0, col: 7, bold: true, content: CellContent::Text(String::from_str("Ecart-type")) });
    out.push(CellWrite { row: 0, col: 8, bold: true, content: CellContent::Text(String::from_str("Stock Minimum")) });
    out.push(CellWrite { row: 0, col: 9, bold: true, content: CellContent::Text(String::from_str("Stock de Sécurité")) });
    out.push(CellWrite { row: 0, col: 10, bold: true, content: CellContent::Text(String::from_str("Seuil de Commande")) });
    out.push(CellWrite { row: 0, col: 11, bold: true, content: CellContent::Text(String::from_str("Stock Actuel")) });
    out.push(CellWrite { row: 0, col: 12, bold: true, content: CellContent::Text(String::from_str("Delta de Stock")) });
    out.push(CellWrite { row: 0, col: 13, bold: true, content: CellContent::Text(String::from_str("Quantité à Commander")) });
    out.push(CellWrite { row: 0, col: 14, bold: true, content: CellContent::Text(String::from_str("Croissance")) });
    out.push(CellWrite { row: 0, col: 15, bold: true, content: CellContent::Text(String::from_str("Local SubFamily Name")) });
    proof {
        assert(cwrites_view(out@) =~= report_cells(rv.take(0)));
    }
    let mut idx: usize = 0;
    while idx < records.len()
        invariant
            idx <= records.len(),
            records@.len() < 0xFFFF_FFFF,
            rv == rrecs_view(records@),
            rv.len() == records@.len(),
            cwrites_view(out@) == report_cells(rv.take(idx as int)),
        decreases records.len() - idx,
    {
        let r: &ReplenishmentRecord = &records[idx];
        let row: u32 = (idx as u32) + 1;
        let rn: u32 = row + 1;
        let ghost prev = out@;
        proof {
            assert(rv[idx as int] == r@);
        }
        out.push(CellWrite { row, col: 0, bold: false, content: CellContent::Text(r.reference.clone()) });
        out.push(CellWrite { row, col: 1, bold: false, content: CellContent::Text(r.designation.clone()) });
        out.push(CellWrite { row, col: 2, bold: false, content: CellContent::Text(r.product_brand.clone()) });
        out.push(CellWrite { row, col: 3, bold: false, content: num_content_x(&r.delivery_duration) });
        out.push(CellWrite { row, col: 4, bold: false, content: num_content_x(&r.security_coeff) });
        out.push(CellWrite { row, col: 5, bold: false, content: num_content_x(&r.order_frequency) });
        out.push(CellWrite { row, col: 6, bold: false, content: num_content_x(&r.average_consumption) });
        out.push(CellWrite { row, col: 7, bold: false, content: num_content_x(&r.std_dev) });
        out.push(CellWrite { row, col: 11, bold: false, content: num_content_x(&r.stock_quantity) });
        out.push(CellWrite { row, col: 15, bold: false, content: CellContent::Text(r.subfamily_name.clone()) });
        out.push(CellWrite { row, col: 8, bold: false, content: CellContent::Formula(min_stock_formula(rn)) });
        out.push(CellWrite { row, col: 9, bold: false, content: CellContent::Formula(security_stock_formula(rn)) });
        out.push(CellWrite { row, col: 10, bold: false, content: CellContent::Formula(threshold_formula(rn)) });
        out.push(CellWrite { row, col: 12, bold: false, content: CellContent::Formula(delta_formula(rn)) });
        out.push(CellWrite { row, col: 13, bold: true, content: CellContent::Formula(order_formula(rn)) });
        out.push(CellWrite { row, col: 14, bold: false, content: CellContent::Formula(String::from_str("20%")) });
        proof {
            lemma_body_succ(rv, idx as int);
            let rc = record_cells(rv[idx as int], idx as int);
            let before = report_cells(rv.take(idx as int));
            assert(cwrites_view(prev) == before);
            assert(out@.len() == prev.len() + 16);
            assert(report_cells(rv.take(idx + 1)) =~= before + rc);
            assert(out@[prev.len() as int + 0]@ == rc[0]);
            assert(out@[prev.len() as int + 1]@ == rc[1]);
            assert(out@[prev.len() as int + 2]@ == rc[2]);
            assert(out@[prev.len() as int + 3]@ == rc[3]);
            assert(out@[prev.len() as int + 4]@ == rc[4]);
            assert(out@[prev.len() as int + 5]@ == rc[5]);
            assert(out@[prev.len() as int + 6]@ == rc[6]);
            assert(out@[prev.len() as int + 7]@ == rc[7]);
            assert(out@[prev.len() as int + 8]@ == rc[8]);
            assert(out@[prev.len() as int + 9]@ == rc[9]);
            assert(out@[prev.len() as int + 10]@ == rc[10]);
            assert(out@[prev.len() as int + 11]@ == rc[11]);
            assert(out@[prev.len() as int + 12]@ == rc[12]);
            assert(out@[prev.len() as int + 13]@ == rc[13]);
            assert(out@[prev.len() as int + 14]@ == rc[14]);
            assert(out@[prev.len() as int + 15]@ == rc[15]);
            assert(forall|j: int| 0 <= j < prev.len() ==> out@[j] == prev[j]);
            assert(cwrites_view(out@) =~= report_cells(rv.take(idx + 1)));
        }
        idx += 1;
    }
    proof {
        assert(rv.take(rv.len() as int) =~= rv);
    }
    out
}

} // verus!
