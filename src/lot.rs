use vstd::prelude::*;
use crate::instant::Instant;
use crate::amount::{as_i64, decimal_ticks, parse_quantity};
use crate::table::{csv_rows, rows_view, instant_value, parse_instant, first_index, find_column, read_csv_rows};

verus! {

/// One acquisition or disposal of a security in an account. `quantity` is in
/// hundred-millionths of a unit and is negative for a disposal.
#[derive(Debug, Clone, PartialEq)]
pub struct Lot {
    pub account: String,
    pub time: Instant,
    pub product: String,
    pub quantity: i64,
}

/// Sum of the quantities of `lots`, in ticks.
pub open spec fn quantity_sum(lots: Seq<Lot>) -> int
    decreases lots.len(),
{
    if lots.len() == 0 {
        0
    } else {
        quantity_sum(lots.drop_last()) + lots.last().quantity
    }
}

/// The lots of `lots` that reference the security `symbol`, in their order.
pub open spec fn lots_for(lots: Seq<Lot>, symbol: Seq<char>) -> Seq<Lot>
    decreases lots.len(),
{
    if lots.len() == 0 {
        Seq::empty()
    } else if lots.last().product@ == symbol {
        lots_for(lots.drop_last(), symbol).push(lots.last())
    } else {
        lots_for(lots.drop_last(), symbol)
    }
}

/// Every lot's instant lies in the range of date arithmetic.
pub open spec fn times_in_range(lots: Seq<Lot>) -> bool {
    forall|i: int| 0 <= i < lots.len() ==> (#[trigger] lots[i]).time.in_range()
}

/// The sum of the quantities of `n` lots is at most `n` times the largest
/// magnitude of an `i64`.
pub proof fn lemma_quantity_sum_bound(lots: Seq<Lot>)
    ensures
        -(lots.len() * 0x8000_0000_0000_0000) <= quantity_sum(lots) <= lots.len()
            * 0x8000_0000_0000_0000,
    decreases lots.len(),
{
    if lots.len() > 0 {
        lemma_quantity_sum_bound(lots.drop_last());
    }
}

impl Lot {
    /// A copy of the lot.
    pub fn duplicate(&self) -> (r: Lot)
        ensures
            r == *self,
    {
        Lot {
            account: self.account.clone(),
            time: self.time,
            product: self.product.clone(),
            quantity: self.quantity,
        }
    }
}

/// A column of the lot table.
#[derive(Debug, Clone, Copy, PartialEq, Eq, Structural)]
pub enum LotColumn {
    Account,
    Time,
    Product,
    Quantity,
}

impl LotColumn {
    /// The column's name in the header row.
    pub open spec fn spec_name(self) -> Seq<char> {
        match self {
            LotColumn::Account => "account"@,
            LotColumn::Time => "time"@,
            LotColumn::Product => "product"@,
            LotColumn::Quantity => "quantity"@,
        }
    }

    /// The column's name in the header row.
    pub fn name(&self) -> (r: &'static str)
        ensures
            r@ == self.spec_name(),
    {
        match self {
            LotColumn::Account => "account",
            LotColumn::Time => "time",
            LotColumn::Product => "product",
            LotColumn::Quantity => "quantity",
        }
    }
}

/// Why a lot table could not be read.
#[derive(Debug, Clone, Copy, PartialEq, Eq, Structural)]
pub enum LotReadError {
    /// The data is not well-formed CSV.
    CsvReadError,
    /// The header row lacks a required column.
    MissingColumn(LotColumn),
    /// A field of a data row (counted from zero, header excluded) is absent
    /// or does not hold a value of the column's type.
    InvalidField { row: usize, column: LotColumn },
}

/// Positions of the account, time, product and quantity columns in a header
/// row, or the first of them that it lacks.
pub open spec fn lot_layout(header: Seq<Seq<char>>) -> Result<(int, int, int, int), LotColumn> {
    let account = first_index(header, LotColumn::Account.spec_name());
    let time = first_index(header, LotColumn::Time.spec_name());
    let product = first_index(header, LotColumn::Product.spec_name());
    let quantity = first_index(header, LotColumn::Quantity.spec_name());
    if account is None {
        Err(LotColumn::Account)
    } else if time is None {
        Err(LotColumn::Time)
    } else if product is None {
        Err(LotColumn::Product)
    } else if quantity is None {
        Err(LotColumn::Quantity)
    } else {
        Ok((account->0, time->0, product->0, quantity->0))
    }
}

/// The first column, in table order, whose field in `row` is absent or
/// unreadable.
pub open spec fn lot_field_error(row: Seq<Seq<char>>, cols: (int, int, int, int)) -> Option<
    LotColumn,
> {
    if !(0 <= cols.0 < row.len()) {
        Some(LotColumn::Account)
    } else if !(0 <= cols.1 < row.len()) || instant_value(row[cols.1]) is None {
        Some(LotColumn::Time)
    } else if !(0 <= cols.2 < row.len()) {
        Some(LotColumn::Product)
    } else if !(0 <= cols.3 < row.len()) || as_i64(decimal_ticks(row[cols.3])) is None {
        Some(LotColumn::Quantity)
    } else {
        None
    }
}

/// `lot` holds the values of the readable data row `row`.
pub open spec fn lot_of_row(lot: Lot, row: Seq<Seq<char>>, cols: (int, int, int, int)) -> bool {
    &&& lot.account@ == row[cols.0]
    &&& Some(lot.time.nanos as int) == instant_value(row[cols.1])
    &&& lot.product@ == row[cols.2]
    &&& Some(lot.quantity) == as_i64(decimal_ticks(row[cols.3]))
}

/// `r` is the outcome of decoding the CSV rows `rows` as a lot table: no
/// lots without rows; the first missing column; the first unreadable field
/// of the first data row that has one; else one lot per data row.
pub open spec fn lots_decoded(rows: Seq<Seq<Seq<char>>>, r: Result<Vec<Lot>, LotReadError>) -> bool {
    if rows.len() == 0 {
        r is Ok && r->Ok_0@.len() == 0
    } else {
        match lot_layout(rows[0]) {
            Err(c) => r == Err::<Vec<Lot>, LotReadError>(LotReadError::MissingColumn(c)),
            Ok(cols) => match r {
                Ok(lots) => {
                    &&& lots@.len() == rows.len() - 1
                    &&& forall|i: int|
                        0 <= i < lots@.len() ==> lot_field_error(#[trigger] rows[i + 1], cols) is None
                            && lot_of_row(lots@[i], rows[i + 1], cols)
                },
                Err(e) => exists|k: int|
                    1 <= k < rows.len() && (forall|j: int|
                        1 <= j < k ==> lot_field_error(#[trigger] rows[j], cols) is None)
                        && #[trigger] lot_field_error(rows[k], cols) is Some && e
                        == LotReadError::InvalidField {
                        row: (k - 1) as usize,
                        column: lot_field_error(rows[k], cols)->0,
                    },
            },
        }
    }
}

/// Reads a lot table: a CSV header row naming the columns `account`, `time`
/// (a timestamp), `product` and `quantity` (a decimal), in any order, then one
/// row per lot.
pub fn parse_lots(csv_data: &[u8]) -> (r: Result<Vec<Lot>, LotReadError>)
    ensures
        match csv_rows(csv_data@, false) {
            None => r == Err::<Vec<Lot>, LotReadError>(LotReadError::CsvReadError),
            Some(rows) => lots_decoded(rows, r),
        },
        r is Ok ==> times_in_range(r->Ok_0@),
{
    let rows = match read_csv_rows(csv_data, false) {
        Ok(rows) => rows,
        Err(_) => {
            return Err(LotReadError::CsvReadError);
        },
    };
    let ghost view = rows_view(rows@);
    if rows.len() == 0 {
        return Ok(Vec::new());
    }
    let header = &rows[0];
    assert(view[0] == header@.map_values(|f: String| f@));
    let account = match find_column(header, LotColumn::Account.name()) {
        Some(i) => i,
        None => {
            return Err(LotReadError::MissingColumn(LotColumn::Account));
        },
    };
    let time = match find_column(header, LotColumn::Time.name()) {
        Some(i) => i,
        None => {
            return Err(LotReadError::MissingColumn(LotColumn::Time));
        },
    };
    let product = match find_column(header, LotColumn::Product.name()) {
        Some(i) => i,
        None => {
            return Err(LotReadError::MissingColumn(LotColumn::Product));
        },
    };
    let quantity = match find_column(header, LotColumn::Quantity.name()) {
        Some(i) => i,
        None => {
            return Err(LotReadError::MissingColumn(LotColumn::Quantity));
        },
    };
    let ghost cols = (account as int, time as int, product as int, quantity as int);
    assert(lot_layout(view[0]) == Ok::<(int, int, int, int), LotColumn>(cols));
    let mut lots: Vec<Lot> = Vec::new();
    let mut k: usize = 1;
    while k < rows.len()
        invariant
            1 <= k <= rows.len(),
            view == rows_view(rows@),
            cols == (account as int, time as int, product as int, quantity as int),
            csv_rows(csv_data@, false) == Some(view),
            lot_layout(view[0]) == Ok::<(int, int, int, int), LotColumn>(cols),
            lots@.len() == k - 1,
            times_in_range(lots@),
            forall|i: int|
                0 <= i < lots@.len() ==> lot_field_error(#[trigger] view[i + 1], cols) is None
                    && lot_of_row(lots@[i], view[i + 1], cols),
        decreases rows.len() - k,
    {
        let row = &rows[k];
        let ghost fields = view[k as int];
        assert(fields == row@.map_values(|f: String| f@));
        assert(fields.len() == row@.len());
        proof {
            assert forall|j: int| 1 <= j < k implies lot_field_error(#[trigger] view[j], cols) is None by {
                assert(view[(j - 1) + 1] == view[j]);
            }
            if time < row.len() {
                assert(fields[time as int] == row@[time as int]@);
            }
            if quantity < row.len() {
                assert(fields[quantity as int] == row@[quantity as int]@);
            }
        }
        if account >= row.len() {
            return Err(LotReadError::InvalidField { row: k - 1, column: LotColumn::Account });
        }
        let at = if time < row.len() {
            parse_instant(row[time].as_str())
        } else {
            None
        };
        let at = match at {
            Some(t) => t,
            None => {
                return Err(LotReadError::InvalidField { row: k - 1, column: LotColumn::Time });
            },
        };
        if product >= row.len() {
            return Err(LotReadError::InvalidField { row: k - 1, column: LotColumn::Product });
        }
        let amount = if quantity < row.len() {
            parse_quantity(row[quantity].as_str())
        } else {
            None
        };
        let amount = match amount {
            Some(q) => q,
            None => {
                return Err(LotReadError::InvalidField { row: k - 1, column: LotColumn::Quantity });
            },
        };
        let lot = Lot {
            account: row[account].clone(),
            time: at,
            product: row[product].clone(),
            quantity: amount,
        };
        proof {
            assert(fields[account as int] == row@[account as int]@);
            assert(fields[product as int] == row@[product as int]@);
            assert(lot_field_error(fields, cols) is None);
            assert(lot_of_row(lot, fields, cols));
        }
        lots.push(lot);
        k = k + 1;
    }
    Ok(lots)
}

} // verus!
