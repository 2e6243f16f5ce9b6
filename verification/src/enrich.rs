//! From a surviving event to its derived record: the money amounts, the
//! time of day, the size of the order and the weight flag.

use crate::arith::{fits_i64, narrow, product_is_narrow, round_div_int, scale};
use crate::dims::{
    country_for, product_for, CountryDim, CountryTable, ProductDim, ProductModel, ProductTable,
};
use crate::events::{Candidate, CandidateModel, EventModel, EventRecord};
use crate::model::{views, views_push};
use crate::text::is_digit;
use vstd::prelude::*;
use vstd::slice::slice_to_vec;
use vstd::utf8::encode_utf8;

verus! {

/// The hour of day that a timestamp states, or -1. A timestamp states an
/// hour when it is at least thirteen bytes long, has the letter T at
/// position 10 and two decimal digits at positions 11 and 12, and the
/// number that the two digits write is at most 23. A timestamp of any
/// other shape states no hour.
pub open spec fn event_hour(ts: Seq<u8>) -> int {
    if ts.len() >= 13 && ts[10] == 0x54 && is_digit(ts[11]) && is_digit(ts[12]) && 10 * (ts[11]
        - 0x30) + (ts[12] - 0x30) <= 23 {
        10 * (ts[11] - 0x30) + (ts[12] - 0x30)
    } else {
        -1
    }
}

/// Reads the hour of day from a timestamp; see [`event_hour`].
pub fn parse_event_hour(event_ts: &[u8]) -> (hour: i64)
    ensures
        hour == event_hour(event_ts@),
{
    if event_ts.len() < 13 {
        return -1;
    }
    if event_ts[10] != 0x54 {
        return -1;
    }
    let tens: u8 = event_ts[11];
    let ones: u8 = event_ts[12];
    if tens < 0x30 || tens > 0x39 || ones < 0x30 || ones > 0x39 {
        return -1;
    }
    let hour: i64 = 10 * ((tens - 0x30) as i64) + ((ones - 0x30) as i64);
    if hour <= 23 {
        hour
    } else {
        -1
    }
}

/// The part of the day that an hour falls in.
pub open spec fn time_bucket_label(hour: int) -> Seq<char> {
    if 0 <= hour < 6 {
        "night"@
    } else if 6 <= hour < 12 {
        "morning"@
    } else if 12 <= hour < 18 {
        "afternoon"@
    } else if 18 <= hour < 24 {
        "evening"@
    } else {
        "unknown"@
    }
}

/// Names the part of the day that `hour` falls in; an hour outside 0 to
/// 23 is unknown.
pub fn time_bucket_from_hour(hour: i64) -> (label: String)
    ensures
        label@ == time_bucket_label(hour as int),
{
    if 0 <= hour && hour < 6 {
        "night".to_owned()
    } else if 6 <= hour && hour < 12 {
        "morning".to_owned()
    } else if 12 <= hour && hour < 18 {
        "afternoon".to_owned()
    } else if 18 <= hour && hour < 24 {
        "evening".to_owned()
    } else {
        "unknown".to_owned()
    }
}

/// The size class of an order of `quantity` items.
pub open spec fn order_size_label(quantity: int) -> Seq<char> {
    if quantity <= 1 {
        "single"@
    } else if quantity <= 3 {
        "small_multi"@
    } else {
        "bulk"@
    }
}

/// Names the size class of an order of `quantity` items.
pub fn order_size_bucket(quantity: i64) -> (label: String)
    ensures
        label@ == order_size_label(quantity as int),
{
    if quantity <= 1 {
        "single".to_owned()
    } else if quantity <= 3 {
        "small_multi".to_owned()
    } else {
        "bulk".to_owned()
    }
}

/// The money amounts of one event, in the order in which they are
/// derived.
pub struct Amounts {
    pub gross: int,
    pub discount: int,
    pub taxable: int,
    pub tax: int,
    pub net_local: int,
    pub net_common: int,
    pub cost: int,
    pub profit: int,
    pub risk_adjusted: int,
}

/// The amounts of an event for a product margin and a country. Every
/// division is a rounded division.
pub open spec fn amounts_of(event: EventModel, margin_bps: int, country: CountryDim) -> Amounts {
    let gross = event.amount_cents * event.quantity + event.shipping_cents;
    let discount = round_div_int(gross * event.discount_bps, 10_000);
    let taxable = if gross - discount > 0 {
        gross - discount
    } else {
        0
    };
    let tax = round_div_int(taxable * country.tax_bps, 10_000);
    let net_local = taxable + tax;
    let net_common = round_div_int(net_local * country.fx_to_usd_ppm, 1_000_000);
    let cost = round_div_int(net_common * (10_000 - margin_bps), 10_000);
    let profit = net_common - cost;
    let risk_adjusted = round_div_int(net_common * country.risk_bps, 10_000);
    Amounts {
        gross,
        discount,
        taxable,
        tax,
        net_local,
        net_common,
        cost,
        profit,
        risk_adjusted,
    }
}

/// Whether each of the amounts can be held in 64 bits.
pub open spec fn amounts_fit(a: Amounts) -> bool {
    &&& fits_i64(a.gross)
    &&& fits_i64(a.discount)
    &&& fits_i64(a.taxable)
    &&& fits_i64(a.tax)
    &&& fits_i64(a.net_local)
    &&& fits_i64(a.net_common)
    &&& fits_i64(a.cost)
    &&& fits_i64(a.profit)
    &&& fits_i64(a.risk_adjusted)
}

/// The amounts that a derived record keeps.
#[derive(Clone, Copy, Debug, PartialEq, Eq)]
pub struct KeptAmounts {
    pub net_usd_cents: i64,
    pub profit_usd_cents: i64,
    pub risk_adjusted_usd_cents: i64,
}

/// Derives the amounts of an event. The result is `None` exactly when one
/// of the amounts cannot be held in 64 bits.
pub fn derive_amounts(event: &EventRecord, margin_bps: i64, country: &CountryDim) -> (r: Option<
    KeptAmounts,
>)
    ensures
        r is Some <==> amounts_fit(amounts_of(event@, margin_bps as int, *country)),
        r matches Some(kept) ==> {
            let a = amounts_of(event@, margin_bps as int, *country);
            &&& kept.net_usd_cents == a.net_common
            &&& kept.profit_usd_cents == a.profit
            &&& kept.risk_adjusted_usd_cents == a.risk_adjusted
        },
{
    proof {
        product_is_narrow(event.amount_cents as int, event.quantity as int);
    }
    let gross: i64 = narrow(
        (event.amount_cents as i128) * (event.quantity as i128) + (event.shipping_cents as i128),
    )?;
    let discount: i64 = scale(gross, event.discount_bps as i128, 10_000)?;
    let taxable: i64 = if gross as i128 - discount as i128 > 0 {
        narrow(gross as i128 - discount as i128)?
    } else {
        0
    };
    let tax: i64 = scale(taxable, country.tax_bps as i128, 10_000)?;
    let net_local: i64 = narrow(taxable as i128 + tax as i128)?;
    let net_common: i64 = scale(net_local, country.fx_to_usd_ppm as i128, 1_000_000)?;
    let cost: i64 = scale(net_common, 10_000 - margin_bps as i128, 10_000)?;
    let profit: i64 = narrow(net_common as i128 - cost as i128)?;
    let risk_adjusted: i64 = scale(net_common, country.risk_bps as i128, 10_000)?;
    Some(
        KeptAmounts {
            net_usd_cents: net_common,
            profit_usd_cents: profit,
            risk_adjusted_usd_cents: risk_adjusted,
        },
    )
}

/// One enriched event.
#[derive(Clone, Debug, PartialEq, Eq)]
pub struct DerivedRecord {
    pub event_date: Vec<u8>,
    pub customer_id: i64,
    pub customer_tier: Vec<u8>,
    pub category: Vec<u8>,
    pub country: Vec<u8>,
    pub time_bucket: Vec<u8>,
    pub order_size_bucket: Vec<u8>,
    pub quantity: i64,
    pub net_usd_cents: i64,
    pub profit_usd_cents: i64,
    pub risk_adjusted_usd_cents: i64,
    pub heavy_item_order: i64,
}

/// A derived record as plain values.
pub struct DerivedModel {
    pub event_date: Seq<u8>,
    pub customer_id: int,
    pub customer_tier: Seq<u8>,
    pub category: Seq<u8>,
    pub country: Seq<u8>,
    pub time_bucket: Seq<u8>,
    pub order_size_bucket: Seq<u8>,
    pub quantity: int,
    pub net_usd_cents: int,
    pub profit_usd_cents: int,
    pub risk_adjusted_usd_cents: int,
    pub heavy_item_order: int,
}

impl View for DerivedRecord {
    type V = DerivedModel;

    open spec fn view(&self) -> DerivedModel {
        DerivedModel {
            event_date: self.event_date@,
            customer_id: self.customer_id as int,
            customer_tier: self.customer_tier@,
            category: self.category@,
            country: self.country@,
            time_bucket: self.time_bucket@,
            order_size_bucket: self.order_size_bucket@,
            quantity: self.quantity as int,
            net_usd_cents: self.net_usd_cents as int,
            profit_usd_cents: self.profit_usd_cents as int,
            risk_adjusted_usd_cents: self.risk_adjusted_usd_cents as int,
            heavy_item_order: self.heavy_item_order as int,
        }
    }
}

/// The derived record of an event for its product and its country. An
/// order is heavy when weight times quantity reaches 5000 grams.
pub open spec fn derived_of(event: EventModel, product: ProductModel, country: CountryDim)
    -> DerivedModel {
    let a = amounts_of(event, product.margin_bps, country);
    DerivedModel {
        event_date: event.event_date,
        customer_id: event.customer_id,
        customer_tier: event.customer_tier,
        category: product.category,
        country: event.country,
        time_bucket: encode_utf8(time_bucket_label(event_hour(event.event_ts))),
        order_size_bucket: encode_utf8(order_size_label(event.quantity)),
        quantity: event.quantity,
        net_usd_cents: a.net_common,
        profit_usd_cents: a.profit,
        risk_adjusted_usd_cents: a.risk_adjusted,
        heavy_item_order: if product.weight_grams * event.quantity >= 5000 {
            1
        } else {
            0
        },
    }
}

/// Enriches one event with its product and its country. The result is
/// `None` exactly when one of its amounts cannot be held in 64 bits.
pub fn enrich(event: &EventRecord, product: ProductDim, country: &CountryDim) -> (r: Option<
    DerivedRecord,
>)
    ensures
        r is Some <==> amounts_fit(amounts_of(event@, product@.margin_bps, *country)),
        r matches Some(derived) ==> derived@ == derived_of(event@, product@, *country),
{
    let kept: KeptAmounts = derive_amounts(event, product.margin_bps, country)?;
    let hour: i64 = parse_event_hour(event.event_ts.as_slice());
    let time_bucket: String = time_bucket_from_hour(hour);
    let size_bucket: String = order_size_bucket(event.quantity);
    proof {
        product_is_narrow(product.weight_grams as int, event.quantity as int);
    }
    let heavy_item_order: i64 = if (product.weight_grams as i128) * (event.quantity as i128)
        >= 5000 {
        1
    } else {
        0
    };
    Some(
        DerivedRecord {
            event_date: slice_to_vec(event.event_date.as_slice()),
            customer_id: event.customer_id,
            customer_tier: slice_to_vec(event.customer_tier.as_slice()),
            category: product.category,
            country: slice_to_vec(event.country.as_slice()),
            time_bucket: time_bucket.as_str().as_bytes_vec(),
            order_size_bucket: size_bucket.as_str().as_bytes_vec(),
            quantity: event.quantity,
            net_usd_cents: kept.net_usd_cents,
            profit_usd_cents: kept.profit_usd_cents,
            risk_adjusted_usd_cents: kept.risk_adjusted_usd_cents,
            heavy_item_order,
        },
    )
}

/// The derived record of a candidate, its product and country looked up
/// in the tables.
pub open spec fn derived_row(
    candidate: CandidateModel,
    products: Map<int, ProductModel>,
    countries: Map<Seq<u8>, CountryDim>,
) -> DerivedModel {
    derived_of(
        candidate.record,
        product_for(products, candidate.record.product_id),
        country_for(countries, candidate.record.country),
    )
}

/// Whether the amounts of a candidate can be held in 64 bits.
pub open spec fn row_fits(
    candidate: CandidateModel,
    products: Map<int, ProductModel>,
    countries: Map<Seq<u8>, CountryDim>,
) -> bool {
    amounts_fit(
        amounts_of(
            candidate.record,
            product_for(products, candidate.record.product_id).margin_bps,
            country_for(countries, candidate.record.country),
        ),
    )
}

/// The derived records of `candidates`, in their order.
pub open spec fn derived_rows(
    candidates: Seq<CandidateModel>,
    products: Map<int, ProductModel>,
    countries: Map<Seq<u8>, CountryDim>,
) -> Seq<DerivedModel> {
    Seq::new(candidates.len(), |i: int| derived_row(candidates[i], products, countries))
}

/// Whether the amounts of every candidate can be held in 64 bits.
pub open spec fn all_rows_fit(
    candidates: Seq<CandidateModel>,
    products: Map<int, ProductModel>,
    countries: Map<Seq<u8>, CountryDim>,
) -> bool {
    forall|i: int| 0 <= i < candidates.len() ==> row_fits(#[trigger] candidates[i], products, countries)
}

/// Enriches every candidate, in order. The result is `None` exactly when
/// an amount of some candidate cannot be held in 64 bits.
pub fn enrich_all(candidates: &Vec<Candidate>, products: &ProductTable, countries: &CountryTable)
    -> (r: Option<Vec<DerivedRecord>>)
    ensures
        r is Some <==> all_rows_fit(views(candidates@), products@, countries@),
        r matches Some(rows) ==> views(rows@) == derived_rows(
            views(candidates@),
            products@,
            countries@,
        ),
{
    let ghost models = views(candidates@);
    let mut rows: Vec<DerivedRecord> = Vec::new();
    let mut i: usize = 0;
    while i < candidates.len()
        invariant
            i <= candidates@.len(),
            models == views(candidates@),
            views(rows@) == derived_rows(models.take(i as int), products@, countries@),
            all_rows_fit(models.take(i as int), products@, countries@),
        decreases candidates@.len() - i,
    {
        let event: &EventRecord = &candidates[i].record;
        let product: ProductDim = products.lookup(event.product_id);
        let country: CountryDim = countries.lookup(event.country.as_slice());
        assert(models[i as int] == candidates@[i as int]@);
        match enrich(event, product, &country) {
            Some(derived) => {
                proof {
                    views_push(rows@, derived);
                    assert(models.take(i + 1) =~= models.take(i as int).push(models[i as int]));
                    assert(derived_rows(models.take(i + 1), products@, countries@)
                        =~= derived_rows(models.take(i as int), products@, countries@).push(
                        derived@,
                    ));
                    assert forall|k: int| 0 <= k < i + 1 implies row_fits(
                        #[trigger] models.take(i + 1)[k],
                        products@,
                        countries@,
                    ) by {
                        if k < i {
                            assert(models.take(i + 1)[k] == models.take(i as int)[k]);
                        }
                    }
                }
                rows.push(derived);
            },
            None => {
                assert(!row_fits(models[i as int], products@, countries@));
                return None;
            },
        }
        i = i + 1;
    }
    assert(models.take(i as int) =~= models);
    Some(rows)
}

} // verus!
