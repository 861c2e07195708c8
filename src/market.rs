use vstd::prelude::*;
use crate::instant::Instant;
use crate::amount::{as_i64, as_usize, count_value, decimal_ticks, parse_count, parse_quantity};
use crate::table::{csv_rows, rows_view, instant_value, parse_instant, first_index, find_column, read_csv_rows};
use crate::text::text_equal;

verus! {

/// Reference price of one unit of a security, in hundred-millionths, and the
/// instant at which it was quoted.
#[derive(Debug, Clone, Copy, PartialEq, Eq, Structural)]
pub struct SharePrice {
    pub price: i64,
    pub time: Instant,
}

/// A tradable security. Stocks and coins have a fixed supply; funds have none.
#[derive(Debug, Clone, PartialEq)]
pub enum Product {
    Stock { symbol: String, name: String, outstanding_shares: usize, share_price: SharePrice },
    Etf { symbol: String, name: String, share_price: SharePrice },
    Coin { symbol: String, name: String, total_supply: usize, share_price: SharePrice },
}

impl Product {
    /// The security's ticker symbol.
    pub open spec fn spec_symbol(&self) -> Seq<char> {
        match self {
            Product::Stock { symbol, .. } => symbol@,
            Product::Etf { symbol, .. } => symbol@,
            Product::Coin { symbol, .. } => symbol@,
        }
    }

    /// The security's display name.
    pub open spec fn spec_name(&self) -> Seq<char> {
        match self {
            Product::Stock { name, .. } => name@,
            Product::Etf { name, .. } => name@,
            Product::Coin { name, .. } => name@,
        }
    }

    /// Total units in existence; none for a fund.
    pub open spec fn spec_supply(&self) -> Option<usize> {
        match self {
            Product::Stock { outstanding_shares, .. } => Some(*outstanding_shares),
            Product::Etf { .. } => None,
            Product::Coin { total_supply, .. } => Some(*total_supply),
        }
    }

    /// The security's reference price.
    pub open spec fn spec_share_price(&self) -> SharePrice {
        match self {
            Product::Stock { share_price, .. } => *share_price,
            Product::Etf { share_price, .. } => *share_price,
            Product::Coin { share_price, .. } => *share_price,
        }
    }

    /// The security's ticker symbol.
    pub fn symbol(&self) -> (r: &str)
        ensures
            r@ == self.spec_symbol(),
    {
        match self {
            Product::Stock { symbol, .. } => symbol.as_str(),
            Product::Etf { symbol, .. } => symbol.as_str(),
            Product::Coin { symbol, .. } => symbol.as_str(),
        }
    }

    /// The security's display name.
    pub fn name(&self) -> (r: &str)
        ensures
            r@ == self.spec_name(),
    {
        match self {
            Product::Stock { name, .. } => name.as_str(),
            Product::Etf { name, .. } => name.as_str(),
            Product::Coin { name, .. } => name.as_str(),
        }
    }

    /// Total units in existence, when the security has a fixed supply.
    pub fn supply(&self) -> (r: Option<usize>)
        ensures
            r == self.spec_supply(),
    {
        match self {
            Product::Stock { outstanding_shares, .. } => Some(*outstanding_shares),
            Product::Etf { .. } => None,
            Product::Coin { total_supply, .. } => Some(*total_supply),
        }
    }

    /// The security's reference price.
    pub fn share_price(&self) -> (r: &SharePrice)
        ensures
            *r == self.spec_share_price(),
    {
        match self {
            Product::Stock { share_price, .. } => share_price,
            Product::Etf { share_price, .. } => share_price,
            Product::Coin { share_price, .. } => share_price,
        }
    }
}

/// The catalog entry for `symbol`: the last security of `products` listed
/// under it, if any.
pub open spec fn catalog_entry(products: Seq<Product>, symbol: Seq<char>) -> Option<Product>
    decreases products.len(),
{
    if products.len() == 0 {
        None
    } else if products.last().spec_symbol() == symbol {
        Some(products.last())
    } else {
        catalog_entry(products.drop_last(), symbol)
    }
}

/// Index of the catalog entry for `symbol` in `products`.
pub fn find_product(products: &Vec<Product>, symbol: &str) -> (r: Option<usize>)
    ensures
        match r {
            None => catalog_entry(products@, symbol@) is None,
            Some(i) => i < products.len() && catalog_entry(products@, symbol@) == Some(
                products@[i as int],
            ),
        },
{
    let mut i: usize = products.len();
    assert(products@.take(i as int) == products@);
    while i > 0
        invariant
            i <= products.len(),
            catalog_entry(products@, symbol@) == catalog_entry(products@.take(i as int), symbol@),
        decreases i,
    {
        let found = text_equal(products[i - 1].symbol(), symbol);
        assert(products@.take(i as int).drop_last() == products@.take(i - 1));
        assert(products@.take(i as int).last() == products@[i - 1]);
        if found {
            return Some(i - 1);
        }
        i = i - 1;
    }
    None
}

/// A column of the security table.
#[derive(Debug, Clone, Copy, PartialEq, Eq, Structural)]
pub enum ProductColumn {
    Type,
    Symbol,
    Name,
    OutstandingShares,
    SharePrice,
    SharePriceAsOf,
}

impl ProductColumn {
    /// The column's name in the header row.
    pub open spec fn spec_name(self) -> Seq<char> {
        match self {
            ProductColumn::Type => "type"@,
            ProductColumn::Symbol => "symbol"@,
            ProductColumn::Name => "name"@,
            ProductColumn::OutstandingShares => "outstanding_shares"@,
            ProductColumn::SharePrice => "share_price"@,
            ProductColumn::SharePriceAsOf => "share_price_as_of"@,
        }
    }

    /// The column's name in the header row.
    pub fn name(&self) -> (r: &'static str)
        ensures
            r@ == self.spec_name(),
    {
        match self {
            ProductColumn::Type => "type",
            ProductColumn::Symbol => "symbol",
            ProductColumn::Name => "name",
            ProductColumn::OutstandingShares => "outstanding_shares",
            ProductColumn::SharePrice => "share_price",
            ProductColumn::SharePriceAsOf => "share_price_as_of",
        }
    }
}

/// Why a security table could not be read.
#[derive(Debug, Clone, Copy, PartialEq, Eq, Structural)]
pub enum ProductReadError {
    /// The data is not well-formed CSV.
    CsvReadError,
    /// The header row lacks a required column.
    MissingColumn(ProductColumn),
    /// A field of a data row (counted from zero, header excluded) is absent,
    /// does not hold a value of the column's type, or (for `type`) names no
    /// known kind of security.
    InvalidField { row: usize, column: ProductColumn },
}

/// Kind of security named in the `type` column.
#[derive(Debug, Clone, Copy, PartialEq, Eq, Structural)]
pub enum ProductKind {
    Stock,
    Fund,
    Coin,
}

/// The kind named by a `type` field: `stock`, `fund` (also written `etf`) or
/// `coin`, in lower case.
pub open spec fn kind_of(text: Seq<char>) -> Option<ProductKind> {
    if text == "stock"@ {
        Some(ProductKind::Stock)
    } else if text == "fund"@ || text == "etf"@ {
        Some(ProductKind::Fund)
    } else if text == "coin"@ {
        Some(ProductKind::Coin)
    } else {
        None
    }
}

fn read_kind(text: &str) -> (r: Option<ProductKind>)
    ensures
        r == kind_of(text@),
{
    if text_equal(text, "stock") {
        Some(ProductKind::Stock)
    } else if text_equal(text, "fund") || text_equal(text, "etf") {
        Some(ProductKind::Fund)
    } else if text_equal(text, "coin") {
        Some(ProductKind::Coin)
    } else {
        None
    }
}

/// Positions of the type, symbol, name, supply (optional), price and price
/// time columns in a header row, or the first required one that it lacks.
pub open spec fn product_layout(header: Seq<Seq<char>>) -> Result<
    (int, int, int, Option<int>, int, int),
    ProductColumn,
> {
    let kind = first_index(header, ProductColumn::Type.spec_name());
    let symbol = first_index(header, ProductColumn::Symbol.spec_name());
    let name = first_index(header, ProductColumn::Name.spec_name());
    let supply = first_index(header, ProductColumn::OutstandingShares.spec_name());
    let price = first_index(header, ProductColumn::SharePrice.spec_name());
    let as_of = first_index(header, ProductColumn::SharePriceAsOf.spec_name());
    if kind is None {
        Err(ProductColumn::Type)
    } else if symbol is None {
        Err(ProductColumn::Symbol)
    } else if name is None {
        Err(ProductColumn::Name)
    } else if price is None {
        Err(ProductColumn::SharePrice)
    } else if as_of is None {
        Err(ProductColumn::SharePriceAsOf)
    } else {
        Ok((kind->0, symbol->0, name->0, supply, price->0, as_of->0))
    }
}

/// The field of `row` at position `col`, if the row has one there.
pub open spec fn field_at(row: Seq<Seq<char>>, col: int) -> Option<Seq<char>> {
    if 0 <= col < row.len() {
        Some(row[col])
    } else {
        None
    }
}

/// The supply of a row, read from the column at `col` if the header has one.
pub open spec fn supply_at(row: Seq<Seq<char>>, col: Option<int>) -> Option<usize> {
    match col {
        Some(c) => match field_at(row, c) {
            Some(text) => as_usize(count_value(text)),
            None => None,
        },
        None => None,
    }
}

/// The first column, in table order, whose field in `row` is absent or
/// unreadable. Funds need no supply.
pub open spec fn product_field_error(
    row: Seq<Seq<char>>,
    cols: (int, int, int, Option<int>, int, int),
) -> Option<ProductColumn> {
    let kind = match field_at(row, cols.0) {
        Some(text) => kind_of(text),
        None => None,
    };
    if kind is None {
        Some(ProductColumn::Type)
    } else if field_at(row, cols.1) is None {
        Some(ProductColumn::Symbol)
    } else if field_at(row, cols.2) is None {
        Some(ProductColumn::Name)
    } else if kind != Some(ProductKind::Fund) && supply_at(row, cols.3) is None {
        Some(ProductColumn::OutstandingShares)
    } else if field_at(row, cols.4) is None || as_i64(decimal_ticks(row[cols.4])) is None {
        Some(ProductColumn::SharePrice)
    } else if field_at(row, cols.5) is None || instant_value(row[cols.5]) is None {
        Some(ProductColumn::SharePriceAsOf)
    } else {
        None
    }
}

/// `p` holds the values of the readable data row `row`.
pub open spec fn product_of_row(
    p: Product,
    row: Seq<Seq<char>>,
    cols: (int, int, int, Option<int>, int, int),
) -> bool {
    let kind = kind_of(row[cols.0])->0;
    &&& (match kind {
        ProductKind::Stock => p is Stock,
        ProductKind::Fund => p is Etf,
        ProductKind::Coin => p is Coin,
    })
    &&& p.spec_symbol() == row[cols.1]
    &&& p.spec_name() == row[cols.2]
    &&& (kind != ProductKind::Fund ==> p.spec_supply() == supply_at(row, cols.3))
    &&& Some(p.spec_share_price().price) == as_i64(decimal_ticks(row[cols.4]))
    &&& Some(p.spec_share_price().time.nanos as int) == instant_value(row[cols.5])
}

/// `r` is the outcome of decoding the CSV rows `rows` as a security table: no
/// securities without rows; the first missing column; the first unreadable
/// field of the first data row that has one; else one security per data row.
pub open spec fn products_decoded(
    rows: Seq<Seq<Seq<char>>>,
    r: Result<Vec<Product>, ProductReadError>,
) -> bool {
    if rows.len() == 0 {
        r is Ok && r->Ok_0@.len() == 0
    } else {
        match product_layout(rows[0]) {
            Err(c) => r == Err::<Vec<Product>, ProductReadError>(ProductReadError::MissingColumn(c)),
            Ok(cols) => match r {
                Ok(products) => {
                    &&& products@.len() == rows.len() - 1
                    &&& forall|i: int|
                        0 <= i < products@.len() ==> product_field_error(#[trigger] rows[i + 1], cols)
                            is None && product_of_row(products@[i], rows[i + 1], cols)
                },
                Err(e) => exists|k: int|
                    1 <= k < rows.len() && (forall|j: int|
                        1 <= j < k ==> product_field_error(#[trigger] rows[j], cols) is None)
                        && #[trigger] product_field_error(rows[k], cols) is Some && e
                        == ProductReadError::InvalidField {
                        row: (k - 1) as usize,
                        column: product_field_error(rows[k], cols)->0,
                    },
            },
        }
    }
}

/// Reads a security table: a CSV header row naming the columns `type`,
/// `symbol`, `name`, `share_price` (a decimal), `share_price_as_of` (a
/// timestamp) and, for stocks and coins, `outstanding_shares` (a whole
/// number), in any order, then one row per security. Fields are trimmed of
/// surrounding whitespace.
pub fn parse_products(csv_data: &[u8]) -> (r: Result<Vec<Product>, ProductReadError>)
    ensures
        match csv_rows(csv_data@, true) {
            None => r == Err::<Vec<Product>, ProductReadError>(ProductReadError::CsvReadError),
            Some(rows) => products_decoded(rows, r),
        },
{
    let rows = match read_csv_rows(csv_data, true) {
        Ok(rows) => rows,
        Err(_) => {
            return Err(ProductReadError::CsvReadError);
        },
    };
    let ghost view = rows_view(rows@);
    if rows.len() == 0 {
        return Ok(Vec::new());
    }
    let header = &rows[0];
    assert(view[0] == header@.map_values(|f: String| f@));
    let kind_col = match find_column(header, ProductColumn::Type.name()) {
        Some(i) => i,
        None => {
            return Err(ProductReadError::MissingColumn(ProductColumn::Type));
        },
    };
    let symbol_col = match find_column(header, ProductColumn::Symbol.name()) {
        Some(i) => i,
        None => {
            return Err(ProductReadError::MissingColumn(ProductColumn::Symbol));
        },
    };
    let name_col = match find_column(header, ProductColumn::Name.name()) {
        Some(i) => i,
        None => {
            return Err(ProductReadError::MissingColumn(ProductColumn::Name));
        },
    };
    let supply_col = find_column(header, ProductColumn::OutstandingShares.name());
    let price_col = match find_column(header, ProductColumn::SharePrice.name()) {
        Some(i) => i,
        None => {
            return Err(ProductReadError::MissingColumn(ProductColumn::SharePrice));
        },
    };
    let as_of_col = match find_column(header, ProductColumn::SharePriceAsOf.name()) {
        Some(i) => i,
        None => {
            return Err(ProductReadError::MissingColumn(ProductColumn::SharePriceAsOf));
        },
    };
    let ghost cols = (
        kind_col as int,
        symbol_col as int,
        name_col as int,
        match supply_col {
            Some(c) => Some(c as int),
            None => None,
        },
        price_col as int,
        as_of_col as int,
    );
    assert(product_layout(view[0]) == Ok::<
        (int, int, int, Option<int>, int, int),
        ProductColumn,
    >(cols));
    let mut products: Vec<Product> = Vec::new();
    let mut k: usize = 1;
    while k < rows.len()
        invariant
            1 <= k <= rows.len(),
            view == rows_view(rows@),
            csv_rows(csv_data@, true) == Some(view),
            product_layout(view[0]) == Ok::<
                (int, int, int, Option<int>, int, int),
                ProductColumn,
            >(cols),
            cols == (
                kind_col as int,
                symbol_col as int,
                name_col as int,
                match supply_col {
                    Some(c) => Some(c as int),
                    None => None,
                },
                price_col as int,
                as_of_col as int,
            ),
            products@.len() == k - 1,
            forall|i: int|
                0 <= i < products@.len() ==> product_field_error(#[trigger] view[i + 1], cols) is None
                    && product_of_row(products@[i], view[i + 1], cols),
        decreases rows.len() - k,
    {
        let row = &rows[k];
        let ghost fields = view[k as int];
        assert(fields == row@.map_values(|f: String| f@));
        assert(fields.len() == row@.len());
        proof {
            assert forall|j: int| 1 <= j < k implies product_field_error(#[trigger] view[j], cols)
                is None by {
                assert(view[(j - 1) + 1] == view[j]);
            }
            assert forall|c: int| 0 <= c < row.len() implies fields[c] == (#[trigger] row@[c])@ by {}
        }
        let kind = if kind_col < row.len() {
            read_kind(row[kind_col].as_str())
        } else {
            None
        };
        let kind = match kind {
            Some(kind) => kind,
            None => {
                return Err(ProductReadError::InvalidField { row: k - 1, column: ProductColumn::Type });
            },
        };
        if symbol_col >= row.len() {
            return Err(ProductReadError::InvalidField { row: k - 1, column: ProductColumn::Symbol });
        }
        if name_col >= row.len() {
            return Err(ProductReadError::InvalidField { row: k - 1, column: ProductColumn::Name });
        }
        let supply = match supply_col {
            Some(c) => if c < row.len() {
                parse_count(row[c].as_str())
            } else {
                None
            },
            None => None,
        };
        if kind != ProductKind::Fund && supply.is_none() {
            return Err(
                ProductReadError::InvalidField { row: k - 1, column: ProductColumn::OutstandingShares },
            );
        }
        let price = if price_col < row.len() {
            parse_quantity(row[price_col].as_str())
        } else {
            None
        };
        let price = match price {
            Some(p) => p,
            None => {
                return Err(
                    ProductReadError::InvalidField { row: k - 1, column: ProductColumn::SharePrice },
                );
            },
        };
        let time = if as_of_col < row.len() {
            parse_instant(row[as_of_col].as_str())
        } else {
            None
        };
        let time = match time {
            Some(t) => t,
            None => {
                return Err(
                    ProductReadError::InvalidField { row: k - 1, column: ProductColumn::SharePriceAsOf },
                );
            },
        };
        let share_price = SharePrice { price, time };
        let symbol = row[symbol_col].clone();
        let name = row[name_col].clone();
        let product = match kind {
            ProductKind::Stock => Product::Stock {
                symbol,
                name,
                outstanding_shares: match supply {
                    Some(n) => n,
                    None => 0,
                },
                share_price,
            },
            ProductKind::Fund => Product::Etf { symbol, name, share_price },
            ProductKind::Coin => Product::Coin {
                symbol,
                name,
                total_supply: match supply {
                    Some(n) => n,
                    None => 0,
                },
                share_price,
            },
        };
        proof {
            assert(product_field_error(fields, cols) is None);
            assert(product_of_row(product, fields, cols));
        }
        products.push(product);
        k = k + 1;
    }
    Ok(products)
}

} // verus!
