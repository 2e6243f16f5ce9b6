use event_etl::aggregate::{aggregate, compare_to_key, AggregateRecord, GroupKey, GroupRow};
use event_etl::enrich::DerivedRecord;
use event_etl::report::{push_line, render_report};
use event_etl::spend::{build_spend_index, SpendIndex};
use event_etl::text::Rank;

const HEADING: &str = "event_date,customer_tier,category,country,time_bucket,order_size_bucket,order_count,vip_customer_orders,total_quantity,total_net_usd_cents,total_profit_usd_cents,total_risk_adjusted_usd_cents,avg_item_price_usd_cents,heavy_item_orders\n";

fn row(date: &str, customer: i64, category: &str, quantity: i64, net: i64) -> DerivedRecord {
    DerivedRecord {
        event_date: date.as_bytes().to_vec(),
        customer_id: customer,
        customer_tier: b"gold".to_vec(),
        category: category.as_bytes().to_vec(),
        country: b"US".to_vec(),
        time_bucket: b"afternoon".to_vec(),
        order_size_bucket: b"single".to_vec(),
        quantity,
        net_usd_cents: net,
        profit_usd_cents: net / 10,
        risk_adjusted_usd_cents: net / 100,
        heavy_item_order: if quantity > 5 { 1 } else { 0 },
    }
}

fn key(parts: [&str; 6]) -> GroupKey {
    GroupKey {
        event_date: parts[0].as_bytes().to_vec(),
        customer_tier: parts[1].as_bytes().to_vec(),
        category: parts[2].as_bytes().to_vec(),
        country: parts[3].as_bytes().to_vec(),
        time_bucket: parts[4].as_bytes().to_vec(),
        order_size_bucket: parts[5].as_bytes().to_vec(),
    }
}

fn groups_of(rows: &Vec<DerivedRecord>) -> Vec<GroupRow> {
    let spend = build_spend_index(rows);
    aggregate(rows, &spend).unwrap()
}

#[test]
fn day_totals_are_summed_by_date_and_customer() {
    let rows = vec![
        row("2024-01-05", 7, "a", 1, 100),
        row("2024-01-05", 8, "a", 1, 20),
        row("2024-01-06", 7, "a", 1, 3),
        row("2024-01-05", 7, "b", 1, 4000),
    ];
    let spend = build_spend_index(&rows);
    assert_eq!(spend.total(b"2024-01-05", 7), 4100);
    assert_eq!(spend.total(b"2024-01-05", 8), 20);
    assert_eq!(spend.total(b"2024-01-06", 7), 3);
    assert_eq!(spend.total(b"2024-01-06", 8), 0);
    assert_eq!(spend.total(b"", 0), 0);
    assert_eq!(spend.entries.len(), 3);
}

#[test]
fn day_totals_may_pass_the_64_bit_range() {
    let rows = vec![row("d", 1, "a", 1, i64::MAX), row("d", 1, "b", 1, i64::MAX)];
    let spend = build_spend_index(&rows);
    assert_eq!(spend.total(b"d", 1), 2 * (i64::MAX as i128));
}

#[test]
fn a_spend_index_by_hand() {
    let mut spend = SpendIndex::new();
    assert_eq!(spend.total(b"d", 1), 0);
    spend.add(b"d", 1, 5);
    spend.add(b"d", 2, 7);
    spend.add(b"d", 1, -9);
    assert_eq!(spend.total(b"d", 1), -4);
    assert_eq!(spend.total(b"d", 2), 7);
}

#[test]
fn keys_are_compared_part_by_part() {
    let record = row("2024-01-05", 7, "b", 1, 1);
    let same = ["2024-01-05", "gold", "b", "US", "afternoon", "single"];
    assert_eq!(compare_to_key(&record, &key(same)), Rank::Same);
    let mut position = 0;
    while position < 6 {
        let mut greater = same;
        greater[position] = "zzzzzzzzzzz";
        assert_eq!(compare_to_key(&record, &key(greater)), Rank::Before);
        let mut smaller = same;
        smaller[position] = "";
        assert_eq!(compare_to_key(&record, &key(smaller)), Rank::After);
        position += 1;
    }
    let earlier_part_decides = ["2024-01-04", "zzz", "zzz", "zzz", "zzz", "zzz"];
    assert_eq!(compare_to_key(&record, &key(earlier_part_decides)), Rank::After);
}

#[test]
fn records_of_one_key_are_summed() {
    let groups = groups_of(&vec![
        row("2024-01-05", 7, "a", 2, 1000),
        row("2024-01-05", 8, "a", 6, 500),
        row("2024-01-05", 9, "a", 1, 30),
    ]);
    assert_eq!(groups.len(), 1);
    assert_eq!(groups[0].key, key(["2024-01-05", "gold", "a", "US", "afternoon", "single"]));
    assert_eq!(
        groups[0].totals,
        AggregateRecord {
            order_count: 3,
            vip_customer_orders: 0,
            total_quantity: 9,
            total_net_usd_cents: 1530,
            total_profit_usd_cents: 153,
            total_risk_adjusted_usd_cents: 15,
            total_items: 9,
            heavy_item_orders: 1,
        }
    );
}

#[test]
fn groups_come_in_the_order_of_their_keys() {
    let mut rows = vec![
        row("2024-01-06", 1, "b", 1, 1),
        row("2024-01-05", 1, "c", 1, 1),
        row("2024-01-06", 1, "a", 1, 1),
        row("2024-01-05", 1, "c", 1, 1),
        row("2024-01-05", 1, "", 1, 1),
        row("2024-01-07", 1, "a", 1, 1),
        row("2024-01-05", 1, "ca", 1, 1),
    ];
    rows[5].customer_tier = b"bronze".to_vec();
    let groups = groups_of(&rows);
    let keys: Vec<(Vec<u8>, Vec<u8>)> =
        groups.iter().map(|g| (g.key.event_date.clone(), g.key.category.clone())).collect();
    assert_eq!(
        keys,
        vec![
            (b"2024-01-05".to_vec(), b"".to_vec()),
            (b"2024-01-05".to_vec(), b"c".to_vec()),
            (b"2024-01-05".to_vec(), b"ca".to_vec()),
            (b"2024-01-06".to_vec(), b"a".to_vec()),
            (b"2024-01-06".to_vec(), b"b".to_vec()),
            (b"2024-01-07".to_vec(), b"a".to_vec()),
        ]
    );
    assert_eq!(groups[1].totals.order_count, 2);
    let mut position = 1;
    while position < groups.len() {
        let left = &groups[position - 1].key;
        let right = &groups[position].key;
        let left_parts = (&left.event_date, &left.customer_tier, &left.category, &left.country, &left.time_bucket, &left.order_size_bucket);
        let right_parts = (&right.event_date, &right.customer_tier, &right.category, &right.country, &right.time_bucket, &right.order_size_bucket);
        assert!(left_parts < right_parts);
        position += 1;
    }
}

#[test]
fn the_order_of_the_records_does_not_matter() {
    let forward = vec![
        row("2024-01-06", 1, "b", 1, 10),
        row("2024-01-05", 2, "c", 2, 20),
        row("2024-01-06", 1, "a", 3, 50_000),
        row("2024-01-05", 2, "c", 4, 40),
    ];
    let mut backward = forward.clone();
    backward.reverse();
    assert_eq!(groups_of(&forward), groups_of(&backward));
}

#[test]
fn vip_orders_start_at_fifty_thousand() {
    let below = groups_of(&vec![row("d", 1, "a", 1, 49_999)]);
    assert_eq!(below[0].totals.vip_customer_orders, 0);
    let at = groups_of(&vec![row("d", 1, "a", 1, 50_000)]);
    assert_eq!(at[0].totals.vip_customer_orders, 1);
}

#[test]
fn every_order_of_a_vip_day_is_counted() {
    let groups = groups_of(&vec![
        row("d", 1, "a", 1, 30_000),
        row("d", 1, "b", 1, 20_000),
        row("d", 2, "a", 1, 49_999),
        row("e", 1, "a", 1, 49_999),
        row("d", 1, "a", 1, 1),
    ]);
    assert_eq!(groups.len(), 3);
    // d/a: two orders of customer 1 and one of customer 2
    assert_eq!(groups[0].totals.order_count, 3);
    assert_eq!(groups[0].totals.vip_customer_orders, 2);
    // d/b: one order of customer 1
    assert_eq!(groups[1].totals.order_count, 1);
    assert_eq!(groups[1].totals.vip_customer_orders, 1);
    // e/a: customer 1 on another day
    assert_eq!(groups[2].totals.vip_customer_orders, 0);
}

#[test]
fn vip_orders_follow_the_given_day_totals() {
    let rows = vec![row("d", 1, "a", 1, 10)];
    let mut spend = SpendIndex::new();
    spend.add(b"d", 1, 50_000);
    assert_eq!(aggregate(&rows, &spend).unwrap()[0].totals.vip_customer_orders, 1);
    assert_eq!(aggregate(&rows, &SpendIndex::new()).unwrap()[0].totals.vip_customer_orders, 0);
}

#[test]
fn sums_that_do_not_fit() {
    let rows = vec![row("d", 1, "a", 1, i64::MAX), row("d", 2, "a", 1, 1)];
    let spend = build_spend_index(&rows);
    assert_eq!(aggregate(&rows, &spend), None);
    let quantities = vec![row("d", 1, "a", i64::MAX, 1), row("d", 2, "a", 1, 1)];
    assert_eq!(aggregate(&quantities, &build_spend_index(&quantities)), None);
    let apart = vec![row("d", 1, "a", 1, i64::MAX), row("d", 2, "b", 1, 1)];
    assert!(aggregate(&apart, &build_spend_index(&apart)).is_some());
}

#[test]
fn sums_may_come_back_into_range() {
    let rows = vec![row("d", 1, "a", 1, i64::MAX), row("d", 2, "a", 1, 5), row("d", 3, "a", 1, -5)];
    let groups = groups_of(&rows);
    assert_eq!(groups[0].totals.total_net_usd_cents, i64::MAX);
}

#[test]
fn no_records_no_groups() {
    assert_eq!(groups_of(&Vec::new()), Vec::new());
    assert_eq!(render_report(&Vec::new()), HEADING.as_bytes().to_vec());
}

#[test]
fn a_line_of_the_report() {
    let group = GroupRow {
        key: key(["2024-01-05", "gold", "electronics", "US", "afternoon", "small_multi"]),
        totals: AggregateRecord {
            order_count: 1,
            vip_customer_orders: 0,
            total_quantity: 2,
            total_net_usd_cents: 21_919,
            total_profit_usd_cents: 4_384,
            total_risk_adjusted_usd_cents: 658,
            total_items: 2,
            heavy_item_orders: 0,
        },
    };
    let mut out: Vec<u8> = b"before\n".to_vec();
    push_line(&mut out, &group);
    assert_eq!(
        String::from_utf8(out).unwrap(),
        "before\n2024-01-05,gold,electronics,US,afternoon,small_multi,1,0,2,21919,4384,658,10960,0\n"
    );
}

#[test]
fn the_average_is_rounded_at_writing() {
    let totals = AggregateRecord {
        order_count: 2,
        vip_customer_orders: 1,
        total_quantity: 3,
        total_net_usd_cents: 100,
        total_profit_usd_cents: -7,
        total_risk_adjusted_usd_cents: 0,
        total_items: 3,
        heavy_item_orders: 2,
    };
    let mut none = totals;
    none.total_items = 0;
    let groups = vec![
        GroupRow { key: key(["a", "b", "c", "d", "e", "f"]), totals },
        GroupRow { key: key(["", "", "", "", "", ""]), totals: none },
    ];
    let expected = format!("{}a,b,c,d,e,f,2,1,3,100,-7,0,33,2\n,,,,,,2,1,3,100,-7,0,0,2\n", HEADING);
    assert_eq!(String::from_utf8(render_report(&groups)).unwrap(), expected);
}
