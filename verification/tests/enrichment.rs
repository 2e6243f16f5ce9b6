use event_etl::dims::{CountryDim, CountryTable, ProductDim, ProductTable};
use event_etl::enrich::{derive_amounts, enrich, enrich_all, KeptAmounts};
use event_etl::events::{Candidate, EventRecord};
use event_etl::{order_size_bucket, parse_event_hour, time_bucket_from_hour};

fn event(amount: i64, quantity: i64, discount: i64, shipping: i64) -> EventRecord {
    EventRecord {
        event_version: 1,
        event_ts: b"2024-01-05T14:30:00".to_vec(),
        event_date: b"2024-01-05".to_vec(),
        customer_id: 7,
        product_id: 3,
        amount_cents: amount,
        quantity,
        discount_bps: discount,
        shipping_cents: shipping,
        country: b"US".to_vec(),
        customer_tier: b"gold".to_vec(),
    }
}

fn us() -> CountryDim {
    CountryDim { fx_to_usd_ppm: 1_000_000, risk_bps: 300, tax_bps: 800 }
}

fn electronics() -> ProductDim {
    ProductDim { category: b"electronics".to_vec(), margin_bps: 2000, weight_grams: 600 }
}

#[test]
fn hour_of_a_well_formed_timestamp() {
    assert_eq!(parse_event_hour(b"2024-01-05T14:30:00"), 14);
    assert_eq!(parse_event_hour(b"2024-01-05T00:00:00"), 0);
    assert_eq!(parse_event_hour(b"2024-01-05T23:59:59"), 23);
    assert_eq!(parse_event_hour(b"2024-01-05T07"), 7);
}

#[test]
fn hour_of_a_malformed_timestamp() {
    assert_eq!(parse_event_hour(b""), -1);
    assert_eq!(parse_event_hour(b"2024-01-05T1"), -1);
    assert_eq!(parse_event_hour(b"2024-01-05 14:30:00"), -1);
    assert_eq!(parse_event_hour(b"2024-01-05t14:30:00"), -1);
    assert_eq!(parse_event_hour(b"2024-01-05T24:00:00"), -1);
    assert_eq!(parse_event_hour(b"2024-01-05T99:00:00"), -1);
    assert_eq!(parse_event_hour(b"2024-01-05T-5:00:00"), -1);
}

#[test]
fn hour_needs_two_digits() {
    assert_eq!(parse_event_hour(b"2024-01-05Txx:00:00"), -1);
    assert_eq!(parse_event_hour(b"2024-01-05T 7:00:00"), -1);
    assert_eq!(parse_event_hour(b"2024-01-05T7 :00:00"), -1);
    assert_eq!(parse_event_hour(b"2024-01-05T+9:00:00"), -1);
    assert_eq!(parse_event_hour(b"2024-01-05T-0:00:00"), -1);
    assert_eq!(parse_event_hour(b"2024-01-05T1:30:00"), -1);
    assert_eq!(parse_event_hour(b"2024-01-05T1x:30:00"), -1);
    assert_eq!(parse_event_hour(b"2024-01-05Tx1:30:00"), -1);
    assert_eq!(parse_event_hour("2024-01-05T\u{e9}:30:00".as_bytes()), -1);
    assert_eq!(parse_event_hour(b"2024-01-05T/9:30:00"), -1);
    assert_eq!(parse_event_hour(b"2024-01-05T1::30:00"), -1);
}

#[test]
fn every_hour_of_the_day_is_read() {
    let mut hour: i64 = 0;
    while hour < 100 {
        let text = format!("2024-01-05T{:02}:00:00", hour);
        let expected = if hour <= 23 { hour } else { -1 };
        assert_eq!(parse_event_hour(text.as_bytes()), expected);
        hour += 1;
    }
}

#[test]
fn a_record_with_hour_bytes_that_are_no_digits() {
    let mut odd = event(100, 1, 0, 0);
    odd.event_ts = b"2024-01-05Txx:00:00".to_vec();
    let derived = enrich(&odd, electronics(), &us()).unwrap();
    assert_eq!(derived.time_bucket, b"unknown".to_vec());
}

#[test]
fn hour_positions_are_byte_positions() {
    assert_eq!(parse_event_hour("\u{e9}024-01-0T12:00".as_bytes()), 12);
    assert_eq!(parse_event_hour("\u{e9}2024-01-05T12:00".as_bytes()), -1);
}

#[test]
fn time_buckets() {
    let cases: [(i64, &str); 14] = [
        (0, "night"),
        (5, "night"),
        (6, "morning"),
        (11, "morning"),
        (12, "afternoon"),
        (14, "afternoon"),
        (17, "afternoon"),
        (18, "evening"),
        (23, "evening"),
        (24, "unknown"),
        (-1, "unknown"),
        (100, "unknown"),
        (i64::MIN, "unknown"),
        (i64::MAX, "unknown"),
    ];
    for (hour, expected) in cases {
        assert_eq!(time_bucket_from_hour(hour), expected);
    }
}

#[test]
fn order_size_buckets() {
    let cases: [(i64, &str); 8] = [
        (i64::MIN, "single"),
        (0, "single"),
        (1, "single"),
        (2, "small_multi"),
        (3, "small_multi"),
        (4, "bulk"),
        (1000, "bulk"),
        (i64::MAX, "bulk"),
    ];
    for (quantity, expected) in cases {
        assert_eq!(order_size_bucket(quantity), expected);
    }
}

#[test]
fn amounts_of_the_worked_example() {
    let kept = derive_amounts(&event(10_000, 2, 100, 500), 2000, &us());
    assert_eq!(
        kept,
        Some(KeptAmounts { net_usd_cents: 21_919, profit_usd_cents: 4_384, risk_adjusted_usd_cents: 658 })
    );
}

#[test]
fn amounts_with_the_fallback_country() {
    let fallback = CountryDim { fx_to_usd_ppm: 1_000_000, risk_bps: 10_000, tax_bps: 0 };
    let kept = derive_amounts(&event(10_000, 2, 100, 500), 2000, &fallback);
    assert_eq!(
        kept,
        Some(KeptAmounts { net_usd_cents: 20_295, profit_usd_cents: 4_059, risk_adjusted_usd_cents: 20_295 })
    );
}

#[test]
fn amounts_are_converted_by_the_rate() {
    let country = CountryDim { fx_to_usd_ppm: 1_080_000, risk_bps: 250, tax_bps: 1900 };
    // gross 3000, no discount, tax 570, net local 3570, net common 3855.6 -> 3856,
    // cost at 90% 3470.4 -> 3470, risk 96.4 -> 96
    let kept = derive_amounts(&event(1000, 3, 0, 0), 1000, &country);
    assert_eq!(
        kept,
        Some(KeptAmounts { net_usd_cents: 3_856, profit_usd_cents: 386, risk_adjusted_usd_cents: 96 })
    );
}

#[test]
fn amounts_of_nothing_are_zero() {
    let kept = derive_amounts(&event(-5, 2, 100, 0), 2000, &us());
    assert_eq!(
        kept,
        Some(KeptAmounts { net_usd_cents: 0, profit_usd_cents: 0, risk_adjusted_usd_cents: 0 })
    );
}

#[test]
fn amounts_that_do_not_fit() {
    assert_eq!(derive_amounts(&event(i64::MAX, 2, 0, 0), 2000, &us()), None);
    assert_eq!(derive_amounts(&event(i64::MAX, 1, 0, 1), 2000, &us()), None);
    let dear = CountryDim { fx_to_usd_ppm: 2_500_000, risk_bps: 300, tax_bps: 0 };
    assert_eq!(derive_amounts(&event(i64::MAX / 2, 1, 0, 0), 2000, &dear), None);
    let risky = CountryDim { fx_to_usd_ppm: 1_000_000, risk_bps: 20_000, tax_bps: 0 };
    assert_eq!(derive_amounts(&event(i64::MAX / 2 + 10, 1, 0, 0), 2000, &risky), None);
    let taxed = CountryDim { fx_to_usd_ppm: 1, risk_bps: 1, tax_bps: 5000 };
    assert_eq!(derive_amounts(&event(i64::MAX - 10, 1, 0, 0), 2000, &taxed), None);
}

#[test]
fn amounts_at_the_edge_of_the_range() {
    let plain = CountryDim { fx_to_usd_ppm: 1_000_000, risk_bps: 10_000, tax_bps: 0 };
    let kept = derive_amounts(&event(i64::MAX, 1, 0, 0), 0, &plain);
    assert_eq!(
        kept,
        Some(KeptAmounts { net_usd_cents: i64::MAX, profit_usd_cents: 0, risk_adjusted_usd_cents: i64::MAX })
    );
}

#[test]
fn a_record_of_the_worked_example() {
    let derived = enrich(&event(10_000, 2, 100, 500), electronics(), &us()).unwrap();
    assert_eq!(derived.event_date, b"2024-01-05".to_vec());
    assert_eq!(derived.customer_id, 7);
    assert_eq!(derived.customer_tier, b"gold".to_vec());
    assert_eq!(derived.category, b"electronics".to_vec());
    assert_eq!(derived.country, b"US".to_vec());
    assert_eq!(derived.time_bucket, b"afternoon".to_vec());
    assert_eq!(derived.order_size_bucket, b"small_multi".to_vec());
    assert_eq!(derived.quantity, 2);
    assert_eq!(derived.net_usd_cents, 21_919);
    assert_eq!(derived.profit_usd_cents, 4_384);
    assert_eq!(derived.risk_adjusted_usd_cents, 658);
    assert_eq!(derived.heavy_item_order, 0);
}

#[test]
fn heavy_orders_reach_five_kilograms() {
    let light = ProductDim { category: b"a".to_vec(), margin_bps: 0, weight_grams: 2499 };
    let heavy = ProductDim { category: b"a".to_vec(), margin_bps: 0, weight_grams: 2500 };
    assert_eq!(enrich(&event(1, 2, 0, 0), light, &us()).unwrap().heavy_item_order, 0);
    assert_eq!(enrich(&event(1, 2, 0, 0), heavy, &us()).unwrap().heavy_item_order, 1);
    let feather = ProductDim { category: b"a".to_vec(), margin_bps: 0, weight_grams: 1 };
    assert_eq!(enrich(&event(1, 4999, 0, 0), feather.clone(), &us()).unwrap().heavy_item_order, 0);
    assert_eq!(enrich(&event(1, 5000, 0, 0), feather, &us()).unwrap().heavy_item_order, 1);
}

#[test]
fn a_record_with_an_unknown_hour() {
    let mut odd = event(100, 1, 0, 0);
    odd.event_ts = b"yesterday".to_vec();
    let derived = enrich(&odd, electronics(), &us()).unwrap();
    assert_eq!(derived.time_bucket, b"unknown".to_vec());
    assert_eq!(derived.order_size_bucket, b"single".to_vec());
}

#[test]
fn enriching_looks_up_the_tables() {
    let mut products = ProductTable::new();
    products.insert(3, electronics());
    let mut countries = CountryTable::new();
    countries.insert(b"US".to_vec(), us());
    let mut elsewhere = event(10_000, 2, 100, 500);
    elsewhere.country = b"ZZ".to_vec();
    elsewhere.product_id = 99;
    let candidates = vec![
        Candidate { event_id: b"E1".to_vec(), record: event(10_000, 2, 100, 500) },
        Candidate { event_id: b"E2".to_vec(), record: elsewhere },
    ];
    let rows = enrich_all(&candidates, &products, &countries).unwrap();
    assert_eq!(rows.len(), 2);
    assert_eq!(rows[0].category, b"electronics".to_vec());
    assert_eq!(rows[0].net_usd_cents, 21_919);
    assert_eq!(rows[1].category, b"unknown".to_vec());
    assert_eq!(rows[1].country, b"ZZ".to_vec());
    assert_eq!(rows[1].net_usd_cents, 20_295);
    // margin 2500: cost 15221.25 -> 15221
    assert_eq!(rows[1].profit_usd_cents, 5_074);
    assert_eq!(rows[1].risk_adjusted_usd_cents, 20_295);
    // weight 500 * 2 = 1000
    assert_eq!(rows[1].heavy_item_order, 0);
}

#[test]
fn enriching_stops_at_an_amount_that_does_not_fit() {
    let products = ProductTable::new();
    let countries = CountryTable::new();
    let candidates = vec![
        Candidate { event_id: b"E1".to_vec(), record: event(1, 1, 0, 0) },
        Candidate { event_id: b"E2".to_vec(), record: event(i64::MAX, i64::MAX, 0, 0) },
    ];
    assert_eq!(enrich_all(&candidates, &products, &countries), None);
    assert_eq!(enrich_all(&Vec::new(), &products, &countries), Some(Vec::new()));
}
