//! Row extraction and validation. The movement variant reads the sheet whose
//! header row follows twelve preamble rows: a row is kept when its date cell
//! has the strict calendar-date shape and its quantity parses to a strictly
//! positive value (an unparsable quantity counts as zero and the row is
//! dropped). The valuation variant reads a sheet with three preamble rows,
//! rewrites the comma decimal separator before parsing, and keeps rows with a
//! positive valuated quantity. A grid too short to hold its header row is a
//! fatal `MalformedInput`; a required column without a match is a fatal
//! `MissingColumn`.

use vstd::prelude::*;
use crate::columns::{first_match, first_unresolved, has_match, resolve_columns, strs_view};
use crate::error::IngestError;
use crate::num::{commas_to_dots, parse_or_zero, parse_or_default, Dec};
use crate::text::{is_iso_date, is_iso_date_str};

verus! {

/// Number of rows preceding the header row of the movement sheet.
pub const MOVEMENT_HEADER_ROW: usize = 12;

/// Number of rows preceding the header row of the valuation sheet.
pub const VALUATION_HEADER_ROW: usize = 3;

/// Seq-of-characters view of a grid of text cells.
pub open spec fn grid_view(g: Seq<Vec<String>>) -> Seq<Seq<Seq<char>>> {
    g.map_values(|r: Vec<String>| strs_view(r@))
}

/// The cell of a row at column `j`, with the empty text standing in for a
/// position beyond the row's end.
pub open spec fn cell(row: Seq<Seq<char>>, j: int) -> Seq<char> {
    if 0 <= j < row.len() {
        row[j]
    } else {
        Seq::empty()
    }
}

/// The canonical column names the movement sheet must provide, in resolution
/// order.
pub open spec fn movement_required() -> Seq<Seq<char>> {
    seq![
        "date"@,
        "quantity"@,
        "product code"@,
        "product name"@,
        "brand group"@,
        "local subfamily name"@,
    ]
}

/// The canonical column names the valuation sheet must provide, in resolution
/// order.
pub open spec fn valuation_required() -> Seq<Seq<char>> {
    seq!["product code"@, "valuated quantity"@]
}

/// The resolved position of the movement sheet's `k`-th required column.
pub open spec fn m_idx(hdr: Seq<Seq<char>>, k: int) -> int {
    first_match(hdr, movement_required()[k])
}

/// The resolved position of the valuation sheet's `k`-th required column.
pub open spec fn v_idx(hdr: Seq<Seq<char>>, k: int) -> int {
    first_match(hdr, valuation_required()[k])
}

/// One validated sales movement observation.
#[derive(Debug)]
pub struct MovementRecord {
    pub date: String,
    pub quantity: Dec,
    pub product_code: String,
    pub product_name: String,
    pub product_brand: String,
    pub subfamily_name: String,
}

/// Mathematical view of a movement record.
pub struct MovementRecordV {
    pub date: Seq<char>,
    pub quantity: Dec,
    pub product_code: Seq<char>,
    pub product_name: Seq<char>,
    pub product_brand: Seq<char>,
    pub subfamily_name: Seq<char>,
}

impl View for MovementRecord {
    type V = MovementRecordV;

    open spec fn view(&self) -> MovementRecordV {
        MovementRecordV {
            date: self.date@,
            quantity: self.quantity,
            product_code: self.product_code@,
            product_name: self.product_name@,
            product_brand: self.product_brand@,
            subfamily_name: self.subfamily_name@,
        }
    }
}

/// One validated stock valuation observation.
#[derive(Debug)]
pub struct ValuationRecord {
    pub product_code: String,
    pub valuated_quantity: Dec,
}

/// Mathematical view of a valuation record.
pub struct ValuationRecordV {
    pub product_code: Seq<char>,
    pub valuated_quantity: Dec,
}

impl View for ValuationRecord {
    type V = ValuationRecordV;

    open spec fn view(&self) -> ValuationRecordV {
        ValuationRecordV {
            product_code: self.product_code@,
            valuated_quantity: self.valuated_quantity,
        }
    }
}

pub open spec fn mrecs_view(s: Seq<MovementRecord>) -> Seq<MovementRecordV> {
    s.map_values(|r: MovementRecord| r@)
}

pub open spec fn vrecs_view(s: Seq<ValuationRecord>) -> Seq<ValuationRecordV> {
    s.map_values(|r: ValuationRecord| r@)
}

/// The parsed quantity of a movement row.
pub open spec fn movement_qty(row: Seq<Seq<char>>, hdr: Seq<Seq<char>>) -> Dec {
    parse_or_zero(cell(row, m_idx(hdr, 1)))
}

/// Whether a movement row survives validation: a well-shaped date and a
/// strictly positive quantity.
pub open spec fn movement_keep(row: Seq<Seq<char>>, hdr: Seq<Seq<char>>) -> bool {
    &&& is_iso_date(cell(row, m_idx(hdr, 0)))
    &&& movement_qty(row, hdr).is_pos()
}

/// The record a surviving movement row yields.
pub open spec fn movement_rec(row: Seq<Seq<char>>, hdr: Seq<Seq<char>>) -> MovementRecordV {
    MovementRecordV {
        date: cell(row, m_idx(hdr, 0)),
        quantity: movement_qty(row, hdr),
        product_code: cell(row, m_idx(hdr, 2)),
        product_name: cell(row, m_idx(hdr, 3)),
        product_brand: cell(row, m_idx(hdr, 4)),
        subfamily_name: cell(row, m_idx(hdr, 5)),
    }
}

/// The validated records of the movement data rows, in input order.
pub open spec fn movement_records(rows: Seq<Seq<Seq<char>>>, hdr: Seq<Seq<char>>) -> Seq<
    MovementRecordV,
>
    decreases rows.len(),
{
    if rows.len() == 0 {
        Seq::empty()
    } else {
        movement_records(rows.drop_last(), hdr) + (if movement_keep(rows.last(), hdr) {
            seq![movement_rec(rows.last(), hdr)]
        } else {
            Seq::empty()
        })
    }
}

/// The parsed quantity of a valuation row, after locale normalization.
pub open spec fn valuation_qty(row: Seq<Seq<char>>, hdr: Seq<Seq<char>>) -> Dec {
    parse_or_zero(commas_to_dots(cell(row, v_idx(hdr, 1))))
}

/// Whether a valuation row survives validation: a strictly positive
/// valuated quantity.
pub open spec fn valuation_keep(row: Seq<Seq<char>>, hdr: Seq<Seq<char>>) -> bool {
    valuation_qty(row, hdr).is_pos()
}

/// The record a surviving valuation row yields.
pub open spec fn valuation_rec(row: Seq<Seq<char>>, hdr: Seq<Seq<char>>) -> ValuationRecordV {
    ValuationRecordV {
        product_code: cell(row, v_idx(hdr, 0)),
        valuated_quantity: valuation_qty(row, hdr),
    }
}

/// The validated records of the valuation data rows, in input order.
pub open spec fn valuation_records(rows: Seq<Seq<Seq<char>>>, hdr: Seq<Seq<char>>) -> Seq<
    ValuationRecordV,
>
    decreases rows.len(),
{
    if rows.len() == 0 {
        Seq::empty()
    } else {
        valuation_records(rows.drop_last(), hdr) + (if valuation_keep(rows.last(), hdr) {
            seq![valuation_rec(rows.last(), hdr)]
        } else {
            Seq::empty()
        })
    }
}

/// Whether the grid holds a header row for the movement sheet and every
/// required movement column resolves.
pub open spec fn movement_ok(gv: Seq<Seq<Seq<char>>>) -> bool {
    &&& gv.len() > MOVEMENT_HEADER_ROW
    &&& forall|k: int|
        0 <= k < movement_required().len() ==> has_match(
            gv[MOVEMENT_HEADER_ROW as int],
            #[trigger] movement_required()[k],
        )
}

/// Whether the grid holds a header row for the valuation sheet and every
/// required valuation column resolves.
pub open spec fn valuation_ok(gv: Seq<Seq<Seq<char>>>) -> bool {
    &&& gv.len() > VALUATION_HEADER_ROW
    &&& forall|k: int|
        0 <= k < valuation_required().len() ==> has_match(
            gv[VALUATION_HEADER_ROW as int],
            #[trigger] valuation_required()[k],
        )
}

fn cell_at<'a>(row: &'a Vec<String>, j: usize) -> (r: &'a str)
    ensures
        r@ == cell(strs_view(row@), j as int),
{
    if j < row.len() {
        row[j].as_str()
    } else {
        proof {
            reveal_strlit("");
            assert(""@ =~= Seq::<char>::empty());
        }
        ""
    }
}

fn movement_required_vec() -> (r: Vec<String>)
    ensures
        strs_view(r@) == movement_required(),
{
    let mut v: Vec<String> = Vec::new();
    v.push(String::from_str("date"));
    v.push(String::from_str("quantity"));
    v.push(String::from_str("product code"));
    v.push(String::from_str("product name"));
    v.push(String::from_str("brand group"));
    v.push(String::from_str("local subfamily name"));
    proof {
        assert(strs_view(v@) =~= movement_required());
    }
    v
}

fn valuation_required_vec() -> (r: Vec<String>)
    ensures
        strs_view(r@) == valuation_required(),
{
    let mut v: Vec<String> = Vec::new();
    v.push(String::from_str("product code"));
    v.push(String::from_str("valuated quantity"));
    proof {
        assert(strs_view(v@) =~= valuation_required());
    }
    v
}

/// One validation step: the records of the first `m + 1` rows are those of
/// the first `m`, extended by row `m`'s record when it survives.
pub proof fn lemma_movement_records_succ(
    rows: Seq<Seq<Seq<char>>>,
    hdr: Seq<Seq<char>>,
    m: int,
)
    requires
        0 <= m < rows.len(),
    ensures
        movement_records(rows.take(m + 1), hdr) == movement_records(rows.take(m), hdr) + (
        if movement_keep(rows[m], hdr) {
            seq![movement_rec(rows[m], hdr)]
        } else {
            Seq::<MovementRecordV>::empty()
        }),
{
    let a = rows.take(m + 1);
    assert(a.drop_last() =~= rows.take(m));
    assert(a.last() == rows[m]);
}

/// One validation step of the valuation variant.
pub proof fn lemma_valuation_records_succ(
    rows: Seq<Seq<Seq<char>>>,
    hdr: Seq<Seq<char>>,
    m: int,
)
    requires
        0 <= m < rows.len(),
    ensures
        valuation_records(rows.take(m + 1), hdr) == valuation_records(rows.take(m), hdr) + (
        if valuation_keep(rows[m], hdr) {
            seq![valuation_rec(rows[m], hdr)]
        } else {
            Seq::<ValuationRecordV>::empty()
        }),
{
    let a = rows.take(m + 1);
    assert(a.drop_last() =~= rows.take(m));
    assert(a.last() == rows[m]);
}

/// Every extracted movement record has a well-shaped date and a strictly
/// positive quantity.
pub proof fn lemma_movement_all_valid(rows: Seq<Seq<Seq<char>>>, hdr: Seq<Seq<char>>)
    ensures
        forall|i: int|
            0 <= i < movement_records(rows, hdr).len() ==> is_iso_date(
                (#[trigger] movement_records(rows, hdr)[i]).date,
            ) && movement_records(rows, hdr)[i].quantity.is_pos(),
    decreases rows.len(),
{
    if rows.len() > 0 {
        lemma_movement_all_valid(rows.drop_last(), hdr);
        let prefix = movement_records(rows.drop_last(), hdr);
        let recs = movement_records(rows, hdr);
        assert forall|i: int| 0 <= i < recs.len() implies is_iso_date((#[trigger] recs[i]).date)
            && recs[i].quantity.is_pos() by {
            if i < prefix.len() {
                assert(recs[i] == prefix[i]);
            } else {
                assert(movement_keep(rows.last(), hdr));
                assert(recs[i] == movement_rec(rows.last(), hdr));
            }
        }
    }
}

/// Every extracted valuation record has a strictly positive valuated
/// quantity.
pub proof fn lemma_valuation_all_valid(rows: Seq<Seq<Seq<char>>>, hdr: Seq<Seq<char>>)
    ensures
        forall|i: int|
            0 <= i < valuation_records(rows, hdr).len() ==> (#[trigger] valuation_records(
                rows,
                hdr,
            )[i]).valuated_quantity.is_pos(),
    decreases rows.len(),
{
    if rows.len() > 0 {
        lemma_valuation_all_valid(rows.drop_last(), hdr);
        let prefix = valuation_records(rows.drop_last(), hdr);
        let recs = valuation_records(rows, hdr);
        assert forall|i: int| 0 <= i < recs.len() implies (#[trigger] recs[i]).valuated_quantity.is_pos() by {
            if i < prefix.len() {
                assert(recs[i] == prefix[i]);
            } else {
                assert(valuation_keep(rows.last(), hdr));
                assert(recs[i] == valuation_rec(rows.last(), hdr));
            }
        }
    }
}

/// A movement row whose date cell does not have the calendar-date shape
/// contributes nothing to the output, whatever its other cells hold.
pub proof fn lemma_movement_bad_date_excluded(
    rows: Seq<Seq<Seq<char>>>,
    hdr: Seq<Seq<char>>,
    row: Seq<Seq<char>>,
)
    requires
        !is_iso_date(cell(row, m_idx(hdr, 0))),
    ensures
        movement_records(rows.push(row), hdr) == movement_records(rows, hdr),
{
    assert(rows.push(row).drop_last() =~= rows);
    assert(rows.push(row).last() == row);
    assert(movement_records(rows, hdr) + Seq::<MovementRecordV>::empty() =~= movement_records(
        rows,
        hdr,
    ));
}

/// A movement row whose quantity is not strictly positive after parsing
/// (an unparsable quantity counts as zero) contributes nothing to the
/// output.
pub proof fn lemma_movement_nonpos_excluded(
    rows: Seq<Seq<Seq<char>>>,
    hdr: Seq<Seq<char>>,
    row: Seq<Seq<char>>,
)
    requires
        !movement_qty(row, hdr).is_pos(),
    ensures
        movement_records(rows.push(row), hdr) == movement_records(rows, hdr),
{
    assert(rows.push(row).drop_last() =~= rows);
    assert(rows.push(row).last() == row);
    assert(movement_records(rows, hdr) + Seq::<MovementRecordV>::empty() =~= movement_records(
        rows,
        hdr,
    ));
}

/// A valuation row whose valuated quantity is not strictly positive after
/// locale normalization and parsing contributes nothing to the output.
pub proof fn lemma_valuation_nonpos_excluded(
    rows: Seq<Seq<Seq<char>>>,
    hdr: Seq<Seq<char>>,
    row: Seq<Seq<char>>,
)
    requires
        !valuation_qty(row, hdr).is_pos(),
    ensures
        valuation_records(rows.push(row), hdr) == valuation_records(rows, hdr),
{
    assert(rows.push(row).drop_last() =~= rows);
    assert(rows.push(row).last() == row);
    assert(valuation_records(rows, hdr) + Seq::<ValuationRecordV>::empty() =~= valuation_records(
        rows,
        hdr,
    ));
}

/// Extracts the validated movement records of a grid whose header row
/// follows twelve preamble rows.
pub fn extract_movements(grid: &Vec<Vec<String>>) -> (r: Result<
    Vec<MovementRecord>,
    IngestError,
>)
    ensures
        ({
            let gv = grid_view(grid@);
            &&& (r matches Err(IngestError::MalformedInput) <==> gv.len()
                <= MOVEMENT_HEADER_ROW)
            &&& (r is Ok <==> movement_ok(gv))
            &&& (r matches Ok(recs) ==> mrecs_view(recs@) == movement_records(
                gv.skip(MOVEMENT_HEADER_ROW + 1),
                gv[MOVEMENT_HEADER_ROW as int],
            ))
            &&& (r matches Err(IngestError::MissingColumn(name)) ==> {
                let hdr = gv[MOVEMENT_HEADER_ROW as int];
                let k0 = first_unresolved(hdr, movement_required());
                &&& gv.len() > MOVEMENT_HEADER_ROW
                &&& k0 < movement_required().len()
                &&& name@ == movement_required()[k0]
                &&& !has_match(hdr, movement_required()[k0])
            })
        }),
{
    let ghost gv = grid_view(grid@);
    if grid.len() <= MOVEMENT_HEADER_ROW {
        return Err(IngestError::MalformedInput);
    }
    let header: &Vec<String> = &grid[MOVEMENT_HEADER_ROW];
    let ghost hdr = gv[MOVEMENT_HEADER_ROW as int];
    proof {
        assert(strs_view(header@) == hdr);
    }
    let required = movement_required_vec();
    let ix = match resolve_columns(header, &required) {
        Ok(ix) => ix,
        Err(e) => {
            proof {
                crate::columns::lemma_first_unresolved(hdr, movement_required());
            }
            return Err(e);
        },
    };
    proof {
        assert(movement_ok(gv));
    }
    let ghost data = gv.skip(MOVEMENT_HEADER_ROW + 1);
    let mut out: Vec<MovementRecord> = Vec::new();
    let mut i: usize = MOVEMENT_HEADER_ROW + 1;
    while i < grid.len()
        invariant
            MOVEMENT_HEADER_ROW + 1 <= i <= grid.len(),
            gv == grid_view(grid@),
            gv.len() == grid@.len(),
            hdr == gv[MOVEMENT_HEADER_ROW as int],
            data == gv.skip(MOVEMENT_HEADER_ROW + 1),
            data.len() == gv.len() - (MOVEMENT_HEADER_ROW + 1),
            ix@.len() == movement_required().len(),
            forall|k: int|
                0 <= k < movement_required().len() ==> ix@[k] as int == m_idx(hdr, k),
            mrecs_view(out@) == movement_records(
                data.take(i - (MOVEMENT_HEADER_ROW + 1)),
                hdr,
            ),
        decreases grid.len() - i,
    {
        let ghost m = i - (MOVEMENT_HEADER_ROW + 1);
        let row: &Vec<String> = &grid[i];
        proof {
            assert(strs_view(row@) == gv[i as int]);
            assert(data[m as int] == gv[i as int]);
        }
        let date_cell = cell_at(row, ix[0]);
        let mut kept = false;
        if is_iso_date_str(date_cell) {
            let q = parse_or_default(cell_at(row, ix[1]), false);
            if q.positive() {
                kept = true;
                let rec = MovementRecord {
                    date: String::from_str(date_cell),
                    quantity: q,
                    product_code: String::from_str(cell_at(row, ix[2])),
                    product_name: String::from_str(cell_at(row, ix[3])),
                    product_brand: String::from_str(cell_at(row, ix[4])),
                    subfamily_name: String::from_str(cell_at(row, ix[5])),
                };
                proof {
                    assert(rec@ == movement_rec(data[m as int], hdr));
                    assert(movement_keep(data[m as int], hdr));
                }
                out.push(rec);
                proof {
                    lemma_movement_records_succ(data, hdr, m as int);
                    assert(mrecs_view(out@) =~= movement_records(data.take(m + 1), hdr));
                }
            }
        }
        if !kept {
            proof {
                assert(!movement_keep(data[m as int], hdr));
                lemma_movement_records_succ(data, hdr, m as int);
                assert(movement_records(data.take(m + 1), hdr) =~= movement_records(
                    data.take(m as int),
                    hdr,
                ));
            }
        }
        i += 1;
    }
    proof {
        assert(data.take(data.len() as int) =~= data);
    }
    Ok(out)
}

/// Extracts the validated valuation records of a grid whose header row
/// follows three preamble rows.
pub fn extract_valuations(grid: &Vec<Vec<String>>) -> (r: Result<
    Vec<ValuationRecord>,
    IngestError,
>)
    ensures
        ({
            let gv = grid_view(grid@);
            &&& (r matches Err(IngestError::MalformedInput) <==> gv.len()
                <= VALUATION_HEADER_ROW)
            &&& (r is Ok <==> valuation_ok(gv))
            &&& (r matches Ok(recs) ==> vrecs_view(recs@) == valuation_records(
                gv.skip(VALUATION_HEADER_ROW + 1),
                gv[VALUATION_HEADER_ROW as int],
            ))
            &&& (r matches Err(IngestError::MissingColumn(name)) ==> {
                let hdr = gv[VALUATION_HEADER_ROW as int];
                let k0 = first_unresolved(hdr, valuation_required());
                &&& gv.len() > VALUATION_HEADER_ROW
                &&& k0 < valuation_required().len()
                &&& name@ == valuation_required()[k0]
                &&& !has_match(hdr, valuation_required()[k0])
            })
        }),
{
    let ghost gv = grid_view(grid@);
    if grid.len() <= VALUATION_HEADER_ROW {
        return Err(IngestError::MalformedInput);
    }
    let header: &Vec<String> = &grid[VALUATION_HEADER_ROW];
    let ghost hdr = gv[VALUATION_HEADER_ROW as int];
    proof {
        assert(strs_view(header@) == hdr);
    }
    let required = valuation_required_vec();
    let ix = match resolve_columns(header, &required) {
        Ok(ix) => ix,
        Err(e) => {
            proof {
                crate::columns::lemma_first_unresolved(hdr, valuation_required());
            }
            return Err(e);
        },
    };
    proof {
        assert(valuation_ok(gv));
    }
    let ghost data = gv.skip(VALUATION_HEADER_ROW + 1);
    let mut out: Vec<ValuationRecord> = Vec::new();
    let mut i: usize = VALUATION_HEADER_ROW + 1;
    while i < grid.len()
        invariant
            VALUATION_HEADER_ROW + 1 <= i <= grid.len(),
            gv == grid_view(grid@),
            gv.len() == grid@.len(),
            hdr == gv[VALUATION_HEADER_ROW as int],
            data == gv.skip(VALUATION_HEADER_ROW + 1),
            data.len() == gv.len() - (VALUATION_HEADER_ROW + 1),
            ix@.len() == valuation_required().len(),
            forall|k: int|
                0 <= k < valuation_required().len() ==> ix@[k] as int == v_idx(hdr, k),
            vrecs_view(out@) == valuation_records(
                data.take(i - (VALUATION_HEADER_ROW + 1)),
                hdr,
            ),
        decreases grid.len() - i,
    {
        let ghost m = i - (VALUATION_HEADER_ROW + 1);
        let row: &Vec<String> = &grid[i];
        proof {
            assert(strs_view(row@) == gv[i as int]);
            assert(data[m as int] == gv[i as int]);
        }
        let q = parse_or_default(cell_at(row, ix[1]), true);
        if q.positive() {
            let rec = ValuationRecord {
                product_code: String::from_str(cell_at(row, ix[0])),
                valuated_quantity: q,
            };
            proof {
                assert(rec@ == valuation_rec(data[m as int], hdr));
                assert(valuation_keep(data[m as int], hdr));
            }
            out.push(rec);
            proof {
                lemma_valuation_records_succ(data, hdr, m as int);
                assert(vrecs_view(out@) =~= valuation_records(data.take(m + 1), hdr));
            }
        } else {
            proof {
                assert(!valuation_keep(data[m as int], hdr));
                lemma_valuation_records_succ(data, hdr, m as int);
                assert(valuation_records(data.take(m + 1), hdr) =~= valuation_records(
                    data.take(m as int),
                    hdr,
                ));
            }
        }
        i += 1;
    }
    proof {
        assert(data.take(data.len() as int) =~= data);
    }
    Ok(out)
}

} // verus!
