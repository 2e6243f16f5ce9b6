//! The two reference tables: products by number and countries by code.

use crate::arith::{clamp_i64, clamp_int};
use crate::assoc::{assoc_map, assoc_map_last_occurrence, assoc_map_push, assoc_map_skip_tail};
use crate::rows::{csv_fields, slice_views, split_csv_line, split_lines, text_lines};
use crate::text::{
    ascii_lower, ascii_upper, is_blank, parse_i64, parse_int, same_bytes, to_ascii_lower,
    to_ascii_upper, trim, trimmed,
};
use std::collections::HashMap;
use vstd::prelude::*;
use vstd::slice::slice_to_vec;
use vstd::string::StringSliceAdditionalSpecFns;

verus! {

/// The label that stands in for a category or tier that is not known.
pub open spec fn unknown_label() -> Seq<u8> {
    "unknown".spec_bytes()
}

/// The lines of a table after its heading line.
pub open spec fn data_lines(text: Seq<u8>) -> Seq<Seq<u8>> {
    let lines = text_lines(text);
    if lines.len() == 0 {
        lines
    } else {
        lines.subrange(1, lines.len() as int)
    }
}

/// What is known of a product.
#[derive(Clone, Debug, PartialEq, Eq)]
pub struct ProductDim {
    /// Category in lower case.
    pub category: Vec<u8>,
    /// Margin in basis points, from 0 to 9500.
    pub margin_bps: i64,
    /// Weight in grams, from 1 to 20000.
    pub weight_grams: i64,
}

/// A product as plain values.
pub struct ProductModel {
    pub category: Seq<u8>,
    pub margin_bps: int,
    pub weight_grams: int,
}

impl View for ProductDim {
    type V = ProductModel;

    open spec fn view(&self) -> ProductModel {
        ProductModel {
            category: self.category@,
            margin_bps: self.margin_bps as int,
            weight_grams: self.weight_grams as int,
        }
    }
}

/// What is known of a country.
#[derive(Clone, Copy, Debug, PartialEq, Eq)]
pub struct CountryDim {
    /// Rate to the common currency in parts per million, from 1 to
    /// 2,500,000.
    pub fx_to_usd_ppm: i64,
    /// Risk in basis points, from 1 to 20000.
    pub risk_bps: i64,
    /// Tax in basis points, from 0 to 5000.
    pub tax_bps: i64,
}

/// The product used for a number that the table does not hold.
pub open spec fn fallback_product() -> ProductModel {
    ProductModel { category: unknown_label(), margin_bps: 2500, weight_grams: 500 }
}

/// The country used for a code that the table does not hold.
pub open spec fn fallback_country() -> CountryDim {
    CountryDim { fx_to_usd_ppm: 1_000_000, risk_bps: 10_000, tax_bps: 0 }
}

/// The product that stands for `id`: the one entered under it, or the
/// fallback product.
pub open spec fn product_for(products: Map<int, ProductModel>, id: int) -> ProductModel {
    if products.contains_key(id) {
        products[id]
    } else {
        fallback_product()
    }
}

/// The country that stands for `code`: the one entered under it, or the
/// fallback country.
pub open spec fn country_for(countries: Map<Seq<u8>, CountryDim>, code: Seq<u8>) -> CountryDim {
    if countries.contains_key(code) {
        countries[code]
    } else {
        fallback_country()
    }
}

/// The category that a field of the product table gives: trimmed, in
/// lower case, and the unknown label when nothing is left.
pub open spec fn category_of(field: Seq<u8>) -> Seq<u8> {
    let category = ascii_lower(trimmed(field));
    if category.len() == 0 {
        unknown_label()
    } else {
        category
    }
}

/// The product that a line of the product table describes, with its
/// number. A blank line, a line of fewer than four fields and a line whose
/// number is not positive describe none. Numbers are read permissively and
/// clamped to their ranges.
pub open spec fn product_row(line: Seq<u8>) -> Option<(int, ProductModel)> {
    let cols = csv_fields(line);
    if is_blank(line) || cols.len() < 4 || parse_int(cols[0]) <= 0 {
        None
    } else {
        Some(
            (
                parse_int(cols[0]),
                ProductModel {
                    category: category_of(cols[1]),
                    margin_bps: clamp_int(parse_int(cols[2]), 0, 9500),
                    weight_grams: clamp_int(parse_int(cols[3]), 1, 20_000),
                },
            ),
        )
    }
}

/// The products that a sequence of lines describes; a later line
/// overrides an earlier one with the same number.
pub open spec fn product_rows(lines: Seq<Seq<u8>>) -> Map<int, ProductModel>
    decreases lines.len(),
{
    if lines.len() == 0 {
        Map::empty()
    } else {
        match product_row(lines.last()) {
            Some((id, product)) => product_rows(lines.drop_last()).insert(id, product),
            None => product_rows(lines.drop_last()),
        }
    }
}

/// Every product read from a table has a positive number, a margin from 0
/// to 9500 and a weight from 1 to 20000.
pub proof fn product_rows_in_range(lines: Seq<Seq<u8>>, id: int)
    requires
        product_rows(lines).contains_key(id),
    ensures
        id > 0,
        0 <= product_rows(lines)[id].margin_bps <= 9500,
        1 <= product_rows(lines)[id].weight_grams <= 20_000,
    decreases lines.len(),
{
    if lines.len() > 0 {
        match product_row(lines.last()) {
            Some((row_id, _)) => {
                if row_id != id {
                    product_rows_in_range(lines.drop_last(), id);
                }
            },
            None => {
                product_rows_in_range(lines.drop_last(), id);
            },
        }
    }
}

/// The country that a line of the country table describes, with its code
/// in upper case. A blank line, a line of fewer than four fields and a
/// line whose code is empty describe none.
pub open spec fn country_row(line: Seq<u8>) -> Option<(Seq<u8>, CountryDim)> {
    let cols = csv_fields(line);
    if is_blank(line) || cols.len() < 4 || trimmed(cols[0]).len() == 0 {
        None
    } else {
        Some(
            (
                ascii_upper(trimmed(cols[0])),
                CountryDim {
                    fx_to_usd_ppm: clamp_int(parse_int(cols[1]), 1, 2_500_000) as i64,
                    risk_bps: clamp_int(parse_int(cols[2]), 1, 20_000) as i64,
                    tax_bps: clamp_int(parse_int(cols[3]), 0, 5_000) as i64,
                },
            ),
        )
    }
}

/// The countries that a sequence of lines describes; a later line
/// overrides an earlier one with the same code.
pub open spec fn country_rows(lines: Seq<Seq<u8>>) -> Map<Seq<u8>, CountryDim>
    decreases lines.len(),
{
    if lines.len() == 0 {
        Map::empty()
    } else {
        match country_row(lines.last()) {
            Some((code, country)) => country_rows(lines.drop_last()).insert(code, country),
            None => country_rows(lines.drop_last()),
        }
    }
}

/// Every country read from a table has a code that is not empty, a rate
/// from 1 to 2,500,000, a risk from 1 to 20000 and a tax from 0 to 5000.
pub proof fn country_rows_in_range(lines: Seq<Seq<u8>>, code: Seq<u8>)
    requires
        country_rows(lines).contains_key(code),
    ensures
        code.len() > 0,
        1 <= country_rows(lines)[code].fx_to_usd_ppm <= 2_500_000,
        1 <= country_rows(lines)[code].risk_bps <= 20_000,
        0 <= country_rows(lines)[code].tax_bps <= 5_000,
    decreases lines.len(),
{
    if lines.len() > 0 {
        match country_row(lines.last()) {
            Some((row_code, _)) => {
                if row_code != code {
                    country_rows_in_range(lines.drop_last(), code);
                }
            },
            None => {
                country_rows_in_range(lines.drop_last(), code);
            },
        }
    }
}

/// Products by number.
#[derive(Clone, Debug, PartialEq, Eq)]
pub struct ProductTable {
    pub entries: HashMap<i64, ProductDim>,
}

impl View for ProductTable {
    type V = Map<int, ProductModel>;

    open spec fn view(&self) -> Map<int, ProductModel> {
        Map::new(
            |id: int| i64::MIN <= id <= i64::MAX && self.entries@.contains_key(id as i64),
            |id: int| self.entries@[id as i64]@,
        )
    }
}

impl ProductTable {
    /// A table without products.
    pub fn new() -> (table: ProductTable)
        ensures
            table@ == Map::<int, ProductModel>::empty(),
    {
        let table = ProductTable { entries: HashMap::new() };
        assert(table@ =~= Map::<int, ProductModel>::empty());
        table
    }

    /// Enters a product under `id`, in place of any product entered under
    /// that number before.
    pub fn insert(&mut self, id: i64, product: ProductDim)
        ensures
            final(self)@ == old(self)@.insert(id as int, product@),
    {
        broadcast use vstd::std_specs::hash::group_hash_axioms;

        self.entries.insert(id, product);
        assert(self@ =~= old(self)@.insert(id as int, product@));
    }

    /// The product entered under `id`, or the fallback product when there
    /// is none.
    pub fn lookup(&self, id: i64) -> (product: ProductDim)
        ensures
            product@ == product_for(self@, id as int),
    {
        broadcast use vstd::std_specs::hash::group_hash_axioms;

        match self.entries.get(&id) {
            Some(found) => ProductDim {
                category: slice_to_vec(found.category.as_slice()),
                margin_bps: found.margin_bps,
                weight_grams: found.weight_grams,
            },
            None => ProductDim {
                category: "unknown".as_bytes_vec(),
                margin_bps: 2500,
                weight_grams: 500,
            },
        }
    }
}

/// One country of the table with its code.
#[derive(Clone, Debug, PartialEq, Eq)]
pub struct CountryEntry {
    pub code: Vec<u8>,
    pub country: CountryDim,
}

/// Countries by code. The entries are kept in the order in which they were
/// entered; of several entries with one code the last one counts.
#[derive(Clone, Debug, PartialEq, Eq)]
pub struct CountryTable {
    pub entries: Vec<CountryEntry>,
}

/// The entries of a country table as pairs of plain values.
pub open spec fn country_pairs(entries: Seq<CountryEntry>) -> Seq<(Seq<u8>, CountryDim)> {
    Seq::new(entries.len(), |i: int| (entries[i].code@, entries[i].country))
}

impl View for CountryTable {
    type V = Map<Seq<u8>, CountryDim>;

    open spec fn view(&self) -> Map<Seq<u8>, CountryDim> {
        assoc_map(country_pairs(self.entries@))
    }
}

impl CountryTable {
    /// A table without countries.
    pub fn new() -> (table: CountryTable)
        ensures
            table@ == Map::<Seq<u8>, CountryDim>::empty(),
    {
        let table = CountryTable { entries: Vec::new() };
        assert(country_pairs(table.entries@) =~= Seq::empty());
        table
    }

    /// Enters a country under `code`, in place of any country entered
    /// under that code before.
    pub fn insert(&mut self, code: Vec<u8>, country: CountryDim)
        ensures
            final(self)@ == old(self)@.insert(code@, country),
    {
        proof {
            assoc_map_push(country_pairs(self.entries@), code@, country);
            assert(country_pairs(self.entries@.push(CountryEntry { code, country }))
                =~= country_pairs(self.entries@).push((code@, country)));
        }
        self.entries.push(CountryEntry { code, country });
    }

    /// The country entered under `code`, or the fallback country when
    /// there is none.
    pub fn lookup(&self, code: &[u8]) -> (country: CountryDim)
        ensures
            country == country_for(self@, code@),
    {
        let ghost pairs = country_pairs(self.entries@);
        let mut i: usize = self.entries.len();
        while i > 0
            invariant
                i <= self.entries@.len(),
                pairs == country_pairs(self.entries@),
                forall|j: int| i <= j < pairs.len() ==> pairs[j].0 != code@,
            decreases i,
        {
            i = i - 1;
            if same_bytes(self.entries[i].code.as_slice(), code) {
                proof {
                    assoc_map_last_occurrence(pairs, i as int);
                }
                return self.entries[i].country;
            }
        }
        proof {
            assoc_map_skip_tail(pairs, 0, code@);
            assert(pairs.take(0) =~= Seq::empty());
        }
        CountryDim { fx_to_usd_ppm: 1_000_000, risk_bps: 10_000, tax_bps: 0 }
    }
}

fn parse_product_row(line: &[u8]) -> (row: Option<(i64, ProductDim)>)
    ensures
        match row {
            Some((id, product)) => product_row(line@) == Some((id as int, product@)),
            None => product_row(line@) is None,
        },
{
    if trim(line).len() == 0 {
        return None;
    }
    let cols: Vec<&[u8]> = split_csv_line(line);
    if cols.len() < 4 {
        return None;
    }
    let id: i64 = parse_i64(cols[0]);
    if id <= 0 {
        return None;
    }
    let lowered: Vec<u8> = to_ascii_lower(trim(cols[1]));
    let category: Vec<u8> = if lowered.len() == 0 {
        "unknown".as_bytes_vec()
    } else {
        lowered
    };
    let margin_bps: i64 = clamp_i64(parse_i64(cols[2]), 0, 9500);
    let weight_grams: i64 = clamp_i64(parse_i64(cols[3]), 1, 20_000);
    Some((id, ProductDim { category, margin_bps, weight_grams }))
}

fn parse_country_row(line: &[u8]) -> (row: Option<(Vec<u8>, CountryDim)>)
    ensures
        match row {
            Some((code, country)) => country_row(line@) == Some((code@, country)),
            None => country_row(line@) is None,
        },
{
    if trim(line).len() == 0 {
        return None;
    }
    let cols: Vec<&[u8]> = split_csv_line(line);
    if cols.len() < 4 {
        return None;
    }
    let code: Vec<u8> = to_ascii_upper(trim(cols[0]));
    if code.len() == 0 {
        return None;
    }
    let fx_to_usd_ppm: i64 = clamp_i64(parse_i64(cols[1]), 1, 2_500_000);
    let risk_bps: i64 = clamp_i64(parse_i64(cols[2]), 1, 20_000);
    let tax_bps: i64 = clamp_i64(parse_i64(cols[3]), 0, 5_000);
    Some((code, CountryDim { fx_to_usd_ppm, risk_bps, tax_bps }))
}

/// Reads the product table: a heading line followed by one product per line.
/// Lines that describe no product are passed over, and a later line
/// overrides an earlier one with the same number.
pub fn load_product_dim(text: &[u8]) -> (table: ProductTable)
    ensures
        table@ == product_rows(data_lines(text@)),
{
    let lines: Vec<&[u8]> = split_lines(text);
    let mut table: ProductTable = ProductTable::new();
    let ghost data = data_lines(text@);
    let mut idx: usize = 1;
    assert(data.take(0) =~= Seq::empty());
    while idx < lines.len()
        invariant
            1 <= idx,
            slice_views(lines@) == text_lines(text@),
            data == data_lines(text@),
            idx <= lines@.len() ==> table@ == product_rows(data.take(idx - 1)),
            idx > lines@.len() ==> table@ == product_rows(data),
        decreases lines@.len() - idx,
    {
        let row = parse_product_row(lines[idx]);
        proof {
            assert(data.take(idx as int).drop_last() =~= data.take(idx - 1));
            assert(data.take(idx as int).last() == lines@[idx as int]@);
        }
        match row {
            Some((id, product)) => {
                table.insert(id, product);
            },
            None => {},
        }
        idx = idx + 1;
    }
    proof {
        if lines@.len() >= 1 {
            assert(data.take(lines@.len() - 1) =~= data);
        } else {
            assert(data =~= Seq::empty());
        }
    }
    table
}

/// Reads the country table: a heading line followed by one country per line.
/// Lines that describe no country are passed over, and a later line
/// overrides an earlier one with the same code.
pub fn load_country_dim(text: &[u8]) -> (table: CountryTable)
    ensures
        table@ == country_rows(data_lines(text@)),
{
    let lines: Vec<&[u8]> = split_lines(text);
    let mut table: CountryTable = CountryTable::new();
    let ghost data = data_lines(text@);
    let mut idx: usize = 1;
    assert(data.take(0) =~= Seq::empty());
    while idx < lines.len()
        invariant
            1 <= idx,
            slice_views(lines@) == text_lines(text@),
            data == data_lines(text@),
            idx <= lines@.len() ==> table@ == country_rows(data.take(idx - 1)),
            idx > lines@.len() ==> table@ == country_rows(data),
        decreases lines@.len() - idx,
    {
        let row = parse_country_row(lines[idx]);
        proof {
            assert(data.take(idx as int).drop_last() =~= data.take(idx - 1));
            assert(data.take(idx as int).last() == lines@[idx as int]@);
        }
        match row {
            Some((code, country)) => {
                table.insert(code, country);
            },
            None => {},
        }
        idx = idx + 1;
    }
    proof {
        if lines@.len() >= 1 {
            assert(data.take(lines@.len() - 1) =~= data);
        } else {
            assert(data =~= Seq::empty());
        }
    }
    table
}

} // verus!
