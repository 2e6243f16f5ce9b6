//! Grouping the derived records by a six-part key and summing each group.
//!
//! The groups are kept in the order of their keys, so that the result is
//! the report in its final order.

use crate::arith::{fits_i64, narrow};
use crate::enrich::{DerivedModel, DerivedRecord};
use crate::model::{views, views_insert, views_push};
use crate::spend::{spend_of, SpendIndex};
use crate::text::{
    bytes_less, bytes_less_irreflexive, bytes_less_total, bytes_less_transitive, compare_bytes,
    Rank,
};
use vstd::prelude::*;
use vstd::slice::slice_to_vec;

verus! {

/// The six parts by which records are grouped.
#[derive(Clone, Debug, PartialEq, Eq)]
pub struct GroupKey {
    pub event_date: Vec<u8>,
    pub customer_tier: Vec<u8>,
    pub category: Vec<u8>,
    pub country: Vec<u8>,
    pub time_bucket: Vec<u8>,
    pub order_size_bucket: Vec<u8>,
}

/// A group key as plain values.
pub struct GroupKeyModel {
    pub event_date: Seq<u8>,
    pub customer_tier: Seq<u8>,
    pub category: Seq<u8>,
    pub country: Seq<u8>,
    pub time_bucket: Seq<u8>,
    pub order_size_bucket: Seq<u8>,
}

impl View for GroupKey {
    type V = GroupKeyModel;

    open spec fn view(&self) -> GroupKeyModel {
        GroupKeyModel {
            event_date: self.event_date@,
            customer_tier: self.customer_tier@,
            category: self.category@,
            country: self.country@,
            time_bucket: self.time_bucket@,
            order_size_bucket: self.order_size_bucket@,
        }
    }
}

/// The group that a record belongs to.
pub open spec fn key_of(row: DerivedModel) -> GroupKeyModel {
    GroupKeyModel {
        event_date: row.event_date,
        customer_tier: row.customer_tier,
        category: row.category,
        country: row.country,
        time_bucket: row.time_bucket,
        order_size_bucket: row.order_size_bucket,
    }
}

/// The order of the report: the first of the six parts in which two keys
/// differ decides, by the byte order of that part. The parts count in the
/// order date, tier, category, country, time of day, order size.
pub open spec fn key_less(a: GroupKeyModel, b: GroupKeyModel) -> bool {
    if a.event_date != b.event_date {
        bytes_less(a.event_date, b.event_date)
    } else if a.customer_tier != b.customer_tier {
        bytes_less(a.customer_tier, b.customer_tier)
    } else if a.category != b.category {
        bytes_less(a.category, b.category)
    } else if a.country != b.country {
        bytes_less(a.country, b.country)
    } else if a.time_bucket != b.time_bucket {
        bytes_less(a.time_bucket, b.time_bucket)
    } else {
        bytes_less(a.order_size_bucket, b.order_size_bucket)
    }
}

/// No key comes before itself.
pub proof fn key_less_irreflexive(a: GroupKeyModel)
    ensures
        !key_less(a, a),
{
    bytes_less_irreflexive(a.order_size_bucket);
}

/// The order of keys is transitive.
pub proof fn key_less_transitive(a: GroupKeyModel, b: GroupKeyModel, c: GroupKeyModel)
    ensures
        key_less(a, b) && key_less(b, c) ==> key_less(a, c),
{
    bytes_less_transitive(a.event_date, b.event_date, c.event_date);
    bytes_less_transitive(a.customer_tier, b.customer_tier, c.customer_tier);
    bytes_less_transitive(a.category, b.category, c.category);
    bytes_less_transitive(a.country, b.country, c.country);
    bytes_less_transitive(a.time_bucket, b.time_bucket, c.time_bucket);
    bytes_less_transitive(a.order_size_bucket, b.order_size_bucket, c.order_size_bucket);
    bytes_less_irreflexive(a.event_date);
    bytes_less_irreflexive(a.customer_tier);
    bytes_less_irreflexive(a.category);
    bytes_less_irreflexive(a.country);
    bytes_less_irreflexive(a.time_bucket);
    bytes_less_irreflexive(a.order_size_bucket);
}

/// Two different keys are ordered one way or the other.
pub proof fn key_less_total(a: GroupKeyModel, b: GroupKeyModel)
    ensures
        a == b || key_less(a, b) || key_less(b, a),
{
    bytes_less_total(a.event_date, b.event_date);
    bytes_less_total(a.customer_tier, b.customer_tier);
    bytes_less_total(a.category, b.category);
    bytes_less_total(a.country, b.country);
    bytes_less_total(a.time_bucket, b.time_bucket);
    bytes_less_total(a.order_size_bucket, b.order_size_bucket);
}

/// Each key comes before every later one.
pub open spec fn strictly_increasing(keys: Seq<GroupKeyModel>) -> bool {
    forall|i: int, j: int| 0 <= i < j < keys.len() ==> key_less(keys[i], keys[j])
}

/// First position at or after `from` whose key does not come before
/// `key`, or the length of `keys` when every key does.
pub open spec fn key_rank(keys: Seq<GroupKeyModel>, key: GroupKeyModel, from: int) -> int
    decreases keys.len() - from,
{
    if from >= keys.len() || !key_less(keys[from], key) {
        from
    } else {
        key_rank(keys, key, from + 1)
    }
}

/// The keys with `key` among them: `keys` itself when the key at the rank
/// of `key` is `key`, and otherwise `keys` with `key` put in at its rank.
pub open spec fn insert_key(keys: Seq<GroupKeyModel>, key: GroupKeyModel) -> Seq<GroupKeyModel> {
    let at = key_rank(keys, key, 0);
    if at < keys.len() && keys[at] == key {
        keys
    } else {
        keys.insert(at, key)
    }
}

/// The keys of the groups of `rows`: the key of each record, entered in
/// the order of the records.
pub open spec fn group_keys(rows: Seq<DerivedModel>) -> Seq<GroupKeyModel>
    decreases rows.len(),
{
    if rows.len() == 0 {
        Seq::empty()
    } else {
        insert_key(group_keys(rows.drop_last()), key_of(rows.last()))
    }
}

/// The sums of one group.
#[derive(Clone, Copy, Debug, PartialEq, Eq)]
pub struct AggregateRecord {
    pub order_count: i64,
    pub vip_customer_orders: i64,
    pub total_quantity: i64,
    pub total_net_usd_cents: i64,
    pub total_profit_usd_cents: i64,
    pub total_risk_adjusted_usd_cents: i64,
    pub total_items: i64,
    pub heavy_item_orders: i64,
}

/// The sums of one group as unbounded numbers.
pub struct AggregateModel {
    pub order_count: int,
    pub vip_customer_orders: int,
    pub total_quantity: int,
    pub total_net_usd_cents: int,
    pub total_profit_usd_cents: int,
    pub total_risk_adjusted_usd_cents: int,
    pub total_items: int,
    pub heavy_item_orders: int,
}

impl View for AggregateRecord {
    type V = AggregateModel;

    open spec fn view(&self) -> AggregateModel {
        AggregateModel {
            order_count: self.order_count as int,
            vip_customer_orders: self.vip_customer_orders as int,
            total_quantity: self.total_quantity as int,
            total_net_usd_cents: self.total_net_usd_cents as int,
            total_profit_usd_cents: self.total_profit_usd_cents as int,
            total_risk_adjusted_usd_cents: self.total_risk_adjusted_usd_cents as int,
            total_items: self.total_items as int,
            heavy_item_orders: self.heavy_item_orders as int,
        }
    }
}

/// The sums of a group without records.
pub open spec fn no_totals() -> AggregateModel {
    AggregateModel {
        order_count: 0,
        vip_customer_orders: 0,
        total_quantity: 0,
        total_net_usd_cents: 0,
        total_profit_usd_cents: 0,
        total_risk_adjusted_usd_cents: 0,
        total_items: 0,
        heavy_item_orders: 0,
    }
}

/// A record is a VIP order when its customer spent 50000 or more on its
/// day.
pub open spec fn is_vip(spend: Map<(Seq<u8>, int), int>, row: DerivedModel) -> bool {
    spend_of(spend, row.event_date, row.customer_id) >= 50_000
}

/// The sums of a group with one more record in it.
pub open spec fn with_row(totals: AggregateModel, row: DerivedModel, vip: bool) -> AggregateModel {
    AggregateModel {
        order_count: totals.order_count + 1,
        vip_customer_orders: totals.vip_customer_orders + if vip {
            1int
        } else {
            0int
        },
        total_quantity: totals.total_quantity + row.quantity,
        total_net_usd_cents: totals.total_net_usd_cents + row.net_usd_cents,
        total_profit_usd_cents: totals.total_profit_usd_cents + row.profit_usd_cents,
        total_risk_adjusted_usd_cents: totals.total_risk_adjusted_usd_cents
            + row.risk_adjusted_usd_cents,
        total_items: totals.total_items + row.quantity,
        heavy_item_orders: totals.heavy_item_orders + row.heavy_item_order,
    }
}

/// The sums over the records of `rows` whose key is `key`.
pub open spec fn group_totals(
    rows: Seq<DerivedModel>,
    spend: Map<(Seq<u8>, int), int>,
    key: GroupKeyModel,
) -> AggregateModel
    decreases rows.len(),
{
    if rows.len() == 0 {
        no_totals()
    } else if key_of(rows.last()) == key {
        with_row(group_totals(rows.drop_last(), spend, key), rows.last(), is_vip(spend, rows.last()))
    } else {
        group_totals(rows.drop_last(), spend, key)
    }
}

/// One row of the report: a group and its sums.
#[derive(Clone, Debug, PartialEq, Eq)]
pub struct GroupRow {
    pub key: GroupKey,
    pub totals: AggregateRecord,
}

/// A row of the report as plain values.
pub struct GroupModel {
    pub key: GroupKeyModel,
    pub totals: AggregateModel,
}

impl View for GroupRow {
    type V = GroupModel;

    open spec fn view(&self) -> GroupModel {
        GroupModel { key: self.key@, totals: self.totals@ }
    }
}

/// The report of `rows`: one row for each group, in the order of the
/// keys, with the sums of the group.
pub open spec fn report_rows(rows: Seq<DerivedModel>, spend: Map<(Seq<u8>, int), int>) -> Seq<
    GroupModel,
> {
    Seq::new(
        group_keys(rows).len(),
        |i: int|
            GroupModel {
                key: group_keys(rows)[i],
                totals: group_totals(rows, spend, group_keys(rows)[i]),
            },
    )
}

/// Whether each of the sums can be held in 64 bits.
pub open spec fn totals_fit(t: AggregateModel) -> bool {
    &&& fits_i64(t.order_count)
    &&& fits_i64(t.vip_customer_orders)
    &&& fits_i64(t.total_quantity)
    &&& fits_i64(t.total_net_usd_cents)
    &&& fits_i64(t.total_profit_usd_cents)
    &&& fits_i64(t.total_risk_adjusted_usd_cents)
    &&& fits_i64(t.total_items)
    &&& fits_i64(t.heavy_item_orders)
}

/// Whether the sums of every row can be held in 64 bits.
pub open spec fn all_totals_fit(groups: Seq<GroupModel>) -> bool {
    forall|i: int| 0 <= i < groups.len() ==> totals_fit((#[trigger] groups[i]).totals)
}

/// Where `key_rank` lands: every key passed over comes before `key`, and
/// the key landed on does not.
pub proof fn key_rank_bounds(keys: Seq<GroupKeyModel>, key: GroupKeyModel, from: int)
    requires
        0 <= from <= keys.len(),
    ensures
        from <= key_rank(keys, key, from) <= keys.len(),
        key_rank(keys, key, from) < keys.len() ==> !key_less(
            keys[key_rank(keys, key, from)],
            key,
        ),
        forall|k: int| from <= k < key_rank(keys, key, from) ==> key_less(keys[k], key),
    decreases keys.len() - from,
{
    if from < keys.len() && key_less(keys[from], key) {
        key_rank_bounds(keys, key, from + 1);
    }
}

/// In increasing keys, a key that is not found at its rank is nowhere.
pub proof fn rank_miss_means_absent(keys: Seq<GroupKeyModel>, key: GroupKeyModel)
    requires
        strictly_increasing(keys),
        !(key_rank(keys, key, 0) < keys.len() && keys[key_rank(keys, key, 0)] == key),
    ensures
        !keys.contains(key),
        forall|k: int| key_rank(keys, key, 0) <= k < keys.len() ==> key_less(key, keys[k]),
{
    let at = key_rank(keys, key, 0);
    key_rank_bounds(keys, key, 0);
    assert forall|k: int| at <= k < keys.len() implies key_less(key, keys[k]) by {
        key_less_total(key, keys[at]);
        key_less_transitive(key, keys[at], keys[k]);
    }
    assert forall|k: int| 0 <= k < keys.len() implies keys[k] != key by {
        key_less_irreflexive(key);
    }
}

/// Entering a key keeps the keys increasing.
pub proof fn insert_key_increasing(keys: Seq<GroupKeyModel>, key: GroupKeyModel)
    requires
        strictly_increasing(keys),
    ensures
        strictly_increasing(insert_key(keys, key)),
{
    let at = key_rank(keys, key, 0);
    key_rank_bounds(keys, key, 0);
    if !(at < keys.len() && keys[at] == key) {
        rank_miss_means_absent(keys, key);
        let out = keys.insert(at, key);
        keys.insert_ensures(at, key);
        assert forall|i: int, j: int| 0 <= i < j < out.len() implies key_less(out[i], out[j]) by {
            if j < at {
                assert(out[i] == keys[i] && out[j] == keys[j]);
            } else if j == at {
                assert(out[i] == keys[i]);
            } else if i < at {
                assert(out[i] == keys[i] && out[j] == keys[j - 1]);
            } else if i == at {
                assert(out[j] == keys[j - 1]);
            } else {
                assert(out[i] == keys[i - 1] && out[j] == keys[j - 1]);
            }
        }
    }
}

/// After a key was entered, it and every key from before are among the
/// keys.
pub proof fn insert_key_members(keys: Seq<GroupKeyModel>, key: GroupKeyModel)
    ensures
        insert_key(keys, key).contains(key),
        forall|other: GroupKeyModel| keys.contains(other) ==> insert_key(keys, key).contains(other),
{
    let at = key_rank(keys, key, 0);
    key_rank_bounds(keys, key, 0);
    let out = insert_key(keys, key);
    if at < keys.len() && keys[at] == key {
        assert(out[at] == key);
    } else {
        keys.insert_ensures(at, key);
        assert(out[at] == key);
        assert forall|other: GroupKeyModel| keys.contains(other) implies out.contains(other) by {
            let i = choose|i: int| 0 <= i < keys.len() && keys[i] == other;
            if i < at {
                assert(out[i] == other);
            } else {
                assert(out[i + 1] == other);
            }
        }
    }
}

/// The keys of the groups are increasing in the order of the report, so
/// no key occurs twice.
pub proof fn group_keys_increasing(rows: Seq<DerivedModel>)
    ensures
        strictly_increasing(group_keys(rows)),
    decreases rows.len(),
{
    if rows.len() > 0 {
        group_keys_increasing(rows.drop_last());
        insert_key_increasing(group_keys(rows.drop_last()), key_of(rows.last()));
    }
}

/// The key of every record is among the keys of the groups.
pub proof fn group_keys_cover(rows: Seq<DerivedModel>, i: int)
    requires
        0 <= i < rows.len(),
    ensures
        group_keys(rows).contains(key_of(rows[i])),
    decreases rows.len(),
{
    insert_key_members(group_keys(rows.drop_last()), key_of(rows.last()));
    if i < rows.len() - 1 {
        group_keys_cover(rows.drop_last(), i);
    }
}

/// Every key of the groups is the key of a record: the result is the
/// position of a record whose key is the key at `g`.
pub proof fn group_keys_come_from_rows(rows: Seq<DerivedModel>, g: int) -> (i: int)
    requires
        0 <= g < group_keys(rows).len(),
    ensures
        0 <= i < rows.len(),
        key_of(rows[i]) == group_keys(rows)[g],
    decreases rows.len(),
{
    let earlier = group_keys(rows.drop_last());
    let key = key_of(rows.last());
    let at = key_rank(earlier, key, 0);
    key_rank_bounds(earlier, key, 0);
    if group_keys(rows)[g] == key {
        rows.len() - 1
    } else {
        if at < earlier.len() && earlier[at] == key {
            group_keys_come_from_rows(rows.drop_last(), g)
        } else {
            earlier.insert_ensures(at, key);
            if g < at {
                group_keys_come_from_rows(rows.drop_last(), g)
            } else {
                group_keys_come_from_rows(rows.drop_last(), g - 1)
            }
        }
    }
}

/// A key that is not among the keys of the groups has no records.
pub proof fn absent_key_totals(
    rows: Seq<DerivedModel>,
    spend: Map<(Seq<u8>, int), int>,
    key: GroupKeyModel,
)
    requires
        !group_keys(rows).contains(key),
    ensures
        group_totals(rows, spend, key) == no_totals(),
    decreases rows.len(),
{
    if rows.len() > 0 {
        insert_key_members(group_keys(rows.drop_last()), key_of(rows.last()));
        absent_key_totals(rows.drop_last(), spend, key);
    }
}

/// The rows of the report are in increasing order of their keys.
pub proof fn report_is_sorted(rows: Seq<DerivedModel>, spend: Map<(Seq<u8>, int), int>)
    ensures
        forall|i: int, j: int|
            0 <= i < j < report_rows(rows, spend).len() ==> key_less(
                report_rows(rows, spend)[i].key,
                report_rows(rows, spend)[j].key,
            ),
        forall|i: int, j: int|
            0 <= i < j < report_rows(rows, spend).len() ==> report_rows(rows, spend)[i].key
                != report_rows(rows, spend)[j].key,
{
    group_keys_increasing(rows);
    let report = report_rows(rows, spend);
    assert forall|i: int, j: int| 0 <= i < j < report.len() implies report[i].key
        != report[j].key by {
        key_less_irreflexive(report[i].key);
    }
}

/// The count of VIP orders of a group is never negative, and it is at
/// least one when the record at `i` belongs to the group and is a VIP
/// order.
pub proof fn vip_count_lower(
    rows: Seq<DerivedModel>,
    spend: Map<(Seq<u8>, int), int>,
    key: GroupKeyModel,
    i: int,
)
    ensures
        group_totals(rows, spend, key).vip_customer_orders >= 0,
        0 <= i < rows.len() && key_of(rows[i]) == key && is_vip(spend, rows[i]) ==> group_totals(
            rows,
            spend,
            key,
        ).vip_customer_orders >= 1,
    decreases rows.len(),
{
    if rows.len() > 0 {
        vip_count_lower(rows.drop_last(), spend, key, i);
    }
}

/// When the records of a customer on a day sum to 50000 or more, the
/// group of each of these records has counted a VIP order: the result is
/// the position in the report of the group of the record at `i`.
pub proof fn vip_orders_are_counted(
    rows: Seq<DerivedModel>,
    spend: Map<(Seq<u8>, int), int>,
    i: int,
) -> (g: int)
    requires
        0 <= i < rows.len(),
        crate::spend::is_spend_of(spend, rows),
        crate::spend::day_spend(rows, rows[i].event_date, rows[i].customer_id) >= 50_000,
    ensures
        0 <= g < report_rows(rows, spend).len(),
        report_rows(rows, spend)[g].key == key_of(rows[i]),
        report_rows(rows, spend)[g].totals.vip_customer_orders >= 1,
{
    group_keys_cover(rows, i);
    let keys = group_keys(rows);
    let g = choose|g: int| 0 <= g < keys.len() && keys[g] == key_of(rows[i]);
    assert(spend_of(spend, rows[i].event_date, rows[i].customer_id) == crate::spend::day_spend(
        rows,
        rows[i].event_date,
        rows[i].customer_id,
    ));
    vip_count_lower(rows, spend, key_of(rows[i]), i);
    g
}

/// The sums of a group depend on the day totals only through the total
/// of each date and customer.
pub proof fn group_totals_same_spend(
    rows: Seq<DerivedModel>,
    first: Map<(Seq<u8>, int), int>,
    second: Map<(Seq<u8>, int), int>,
    key: GroupKeyModel,
)
    requires
        forall|date: Seq<u8>, customer: int| #[trigger]
            spend_of(first, date, customer) == spend_of(second, date, customer),
    ensures
        group_totals(rows, first, key) == group_totals(rows, second, key),
    decreases rows.len(),
{
    if rows.len() > 0 {
        group_totals_same_spend(rows.drop_last(), first, second, key);
        assert(spend_of(first, rows.last().event_date, rows.last().customer_id) == spend_of(
            second,
            rows.last().event_date,
            rows.last().customer_id,
        ));
    }
}

/// Two maps of day totals that hold the same total for every date and
/// customer give the same report.
pub proof fn report_rows_same_spend(
    rows: Seq<DerivedModel>,
    first: Map<(Seq<u8>, int), int>,
    second: Map<(Seq<u8>, int), int>,
)
    requires
        forall|date: Seq<u8>, customer: int| #[trigger]
            spend_of(first, date, customer) == spend_of(second, date, customer),
    ensures
        report_rows(rows, first) == report_rows(rows, second),
{
    assert forall|i: int| 0 <= i < group_keys(rows).len() implies group_totals(
        rows,
        first,
        group_keys(rows)[i],
    ) == group_totals(rows, second, group_keys(rows)[i]) by {
        group_totals_same_spend(rows, first, second, group_keys(rows)[i]);
    }
    assert(report_rows(rows, first) =~= report_rows(rows, second));
}

/// Whether each number of a record that enters the sums is a 64-bit
/// number.
pub open spec fn row_is_narrow(row: DerivedModel) -> bool {
    &&& fits_i64(row.quantity)
    &&& fits_i64(row.net_usd_cents)
    &&& fits_i64(row.profit_usd_cents)
    &&& fits_i64(row.risk_adjusted_usd_cents)
    &&& fits_i64(row.heavy_item_order)
}

/// Whether each of the sums lies between `-bound` and `bound`.
pub open spec fn totals_within(t: AggregateModel, bound: int) -> bool {
    &&& -bound <= t.order_count <= bound
    &&& -bound <= t.vip_customer_orders <= bound
    &&& -bound <= t.total_quantity <= bound
    &&& -bound <= t.total_net_usd_cents <= bound
    &&& -bound <= t.total_profit_usd_cents <= bound
    &&& -bound <= t.total_risk_adjusted_usd_cents <= bound
    &&& -bound <= t.total_items <= bound
    &&& -bound <= t.heavy_item_orders <= bound
}

/// The sums over records of 64-bit numbers are at most the number of
/// records times the largest such number.
pub proof fn group_totals_bounded(
    rows: Seq<DerivedModel>,
    spend: Map<(Seq<u8>, int), int>,
    key: GroupKeyModel,
)
    requires
        forall|i: int| 0 <= i < rows.len() ==> row_is_narrow(#[trigger] rows[i]),
    ensures
        totals_within(group_totals(rows, spend, key), rows.len() as int * 0x8000_0000_0000_0000),
    decreases rows.len(),
{
    if rows.len() > 0 {
        let front = rows.drop_last();
        assert forall|i: int| 0 <= i < front.len() implies row_is_narrow(#[trigger] front[i]) by {
            assert(front[i] == rows[i]);
        }
        group_totals_bounded(front, spend, key);
        assert(row_is_narrow(rows[rows.len() - 1]));
    }
}

/// Compares the key of a record with a key.
pub fn compare_to_key(row: &DerivedRecord, key: &GroupKey) -> (r: Rank)
    ensures
        r is Before <==> key_less(key_of(row@), key@),
        r is Same <==> key_of(row@) == key@,
        r is After <==> key_less(key@, key_of(row@)),
{
    match compare_bytes(row.event_date.as_slice(), key.event_date.as_slice()) {
        Rank::Same => {},
        other => {
            return other;
        },
    }
    match compare_bytes(row.customer_tier.as_slice(), key.customer_tier.as_slice()) {
        Rank::Same => {},
        other => {
            return other;
        },
    }
    match compare_bytes(row.category.as_slice(), key.category.as_slice()) {
        Rank::Same => {},
        other => {
            return other;
        },
    }
    match compare_bytes(row.country.as_slice(), key.country.as_slice()) {
        Rank::Same => {},
        other => {
            return other;
        },
    }
    match compare_bytes(row.time_bucket.as_slice(), key.time_bucket.as_slice()) {
        Rank::Same => {},
        other => {
            return other;
        },
    }
    compare_bytes(row.order_size_bucket.as_slice(), key.order_size_bucket.as_slice())
}

/// Sums of one group while records are still being added.
#[derive(Clone, Copy)]
struct WideTotals {
    order_count: i128,
    vip_customer_orders: i128,
    total_quantity: i128,
    total_net_usd_cents: i128,
    total_profit_usd_cents: i128,
    total_risk_adjusted_usd_cents: i128,
    total_items: i128,
    heavy_item_orders: i128,
}

impl View for WideTotals {
    type V = AggregateModel;

    closed spec fn view(&self) -> AggregateModel {
        AggregateModel {
            order_count: self.order_count as int,
            vip_customer_orders: self.vip_customer_orders as int,
            total_quantity: self.total_quantity as int,
            total_net_usd_cents: self.total_net_usd_cents as int,
            total_profit_usd_cents: self.total_profit_usd_cents as int,
            total_risk_adjusted_usd_cents: self.total_risk_adjusted_usd_cents as int,
            total_items: self.total_items as int,
            heavy_item_orders: self.heavy_item_orders as int,
        }
    }
}

fn empty_totals() -> (r: WideTotals)
    ensures
        r@ == no_totals(),
{
    WideTotals {
        order_count: 0,
        vip_customer_orders: 0,
        total_quantity: 0,
        total_net_usd_cents: 0,
        total_profit_usd_cents: 0,
        total_risk_adjusted_usd_cents: 0,
        total_items: 0,
        heavy_item_orders: 0,
    }
}

fn add_row(totals: WideTotals, row: &DerivedRecord, vip: bool) -> (r: WideTotals)
    requires
        totals_within(totals@, 0xffff_ffff_ffff_fffe * 0x8000_0000_0000_0000int),
    ensures
        r@ == with_row(totals@, row@, vip),
{
    WideTotals {
        order_count: totals.order_count + 1,
        vip_customer_orders: totals.vip_customer_orders + if vip {
            1i128
        } else {
            0i128
        },
        total_quantity: totals.total_quantity + row.quantity as i128,
        total_net_usd_cents: totals.total_net_usd_cents + row.net_usd_cents as i128,
        total_profit_usd_cents: totals.total_profit_usd_cents + row.profit_usd_cents as i128,
        total_risk_adjusted_usd_cents: totals.total_risk_adjusted_usd_cents
            + row.risk_adjusted_usd_cents as i128,
        total_items: totals.total_items + row.quantity as i128,
        heavy_item_orders: totals.heavy_item_orders + row.heavy_item_order as i128,
    }
}

fn narrow_totals(totals: &WideTotals) -> (r: Option<AggregateRecord>)
    ensures
        r is Some <==> totals_fit(totals@),
        r matches Some(record) ==> record@ == totals@,
{
    let order_count: i64 = narrow(totals.order_count)?;
    let vip_customer_orders: i64 = narrow(totals.vip_customer_orders)?;
    let total_quantity: i64 = narrow(totals.total_quantity)?;
    let total_net_usd_cents: i64 = narrow(totals.total_net_usd_cents)?;
    let total_profit_usd_cents: i64 = narrow(totals.total_profit_usd_cents)?;
    let total_risk_adjusted_usd_cents: i64 = narrow(totals.total_risk_adjusted_usd_cents)?;
    let total_items: i64 = narrow(totals.total_items)?;
    let heavy_item_orders: i64 = narrow(totals.heavy_item_orders)?;
    Some(
        AggregateRecord {
            order_count,
            vip_customer_orders,
            total_quantity,
            total_net_usd_cents,
            total_profit_usd_cents,
            total_risk_adjusted_usd_cents,
            total_items,
            heavy_item_orders,
        },
    )
}

fn key_from_row(row: &DerivedRecord) -> (key: GroupKey)
    ensures
        key@ == key_of(row@),
{
    GroupKey {
        event_date: slice_to_vec(row.event_date.as_slice()),
        customer_tier: slice_to_vec(row.customer_tier.as_slice()),
        category: slice_to_vec(row.category.as_slice()),
        country: slice_to_vec(row.country.as_slice()),
        time_bucket: slice_to_vec(row.time_bucket.as_slice()),
        order_size_bucket: slice_to_vec(row.order_size_bucket.as_slice()),
    }
}

fn copy_key(key: &GroupKey) -> (copy: GroupKey)
    ensures
        copy@ == key@,
{
    GroupKey {
        event_date: slice_to_vec(key.event_date.as_slice()),
        customer_tier: slice_to_vec(key.customer_tier.as_slice()),
        category: slice_to_vec(key.category.as_slice()),
        country: slice_to_vec(key.country.as_slice()),
        time_bucket: slice_to_vec(key.time_bucket.as_slice()),
        order_size_bucket: slice_to_vec(key.order_size_bucket.as_slice()),
    }
}

fn find_group(keys: &Vec<GroupKey>, row: &DerivedRecord) -> (r: (usize, bool))
    ensures
        r.0 == key_rank(views(keys@), key_of(row@), 0),
        r.0 <= keys@.len(),
        r.1 == (r.0 < keys@.len() && views(keys@)[r.0 as int] == key_of(row@)),
{
    let mut at: usize = 0;
    while at < keys.len()
        invariant
            at <= keys@.len(),
            key_rank(views(keys@), key_of(row@), 0) == key_rank(
                views(keys@),
                key_of(row@),
                at as int,
            ),
        decreases keys@.len() - at,
    {
        match compare_to_key(row, &keys[at]) {
            Rank::After => {
                at = at + 1;
            },
            Rank::Same => {
                return (at, true);
            },
            Rank::Before => {
                proof {
                    key_less_irreflexive(key_of(row@));
                }
                return (at, false);
            },
        }
    }
    (at, false)
}

/// Groups the records and sums each group, with the VIP orders counted
/// by the day totals of `spend`. The rows come in the order of the
/// report. The result is `None` exactly when a sum of some group cannot
/// be held in 64 bits.
pub fn aggregate(rows: &Vec<DerivedRecord>, spend: &SpendIndex) -> (r: Option<Vec<GroupRow>>)
    ensures
        r is Some <==> all_totals_fit(report_rows(views(rows@), spend@)),
        r matches Some(groups) ==> views(groups@) == report_rows(views(rows@), spend@),
        r matches Some(groups) ==> forall|i: int, j: int|
            0 <= i < j < groups@.len() ==> key_less(groups@[i].key@, groups@[j].key@),
{
    let ghost models = views(rows@);
    let mut keys: Vec<GroupKey> = Vec::new();
    let mut sums: Vec<WideTotals> = Vec::new();
    let mut n: usize = 0;
    assert(models.take(0) =~= Seq::empty());
    assert(views(keys@) =~= group_keys(models.take(0)));
    while n < rows.len()
        invariant
            n <= rows@.len(),
            models == views(rows@),
            keys@.len() == sums@.len(),
            views(keys@) == group_keys(models.take(n as int)),
            forall|i: int|
                0 <= i < sums@.len() ==> (#[trigger] sums@[i])@ == group_totals(
                    models.take(n as int),
                    spend@,
                    keys@[i]@,
                ),
        decreases rows@.len() - n,
    {
        let row: &DerivedRecord = &rows[n];
        let vip: bool = spend.total(row.event_date.as_slice(), row.customer_id) >= 50_000;
        let found = find_group(&keys, row);
        let at: usize = found.0;
        let ghost seen = models.take(n as int);
        let ghost next = models.take(n + 1);
        let ghost old_keys = views(keys@);
        let ghost old_sums = sums@;
        let ghost key = key_of(row@);
        proof {
            assert(next.drop_last() =~= seen);
            assert(next.last() == row@);
            assert(models[n as int] == row@);
            group_keys_increasing(seen);
            assert forall|i: int| 0 <= i < seen.len() implies row_is_narrow(#[trigger] seen[i]) by {
                assert(seen[i] == rows@[i]@);
            }
        }
        if found.1 {
            proof {
                group_totals_bounded(seen, spend@, key);
                assert(sums@[at as int]@ == group_totals(seen, spend@, keys@[at as int]@));
                assert(seen.len() * 0x8000_0000_0000_0000 <= 0xffff_ffff_ffff_fffe
                    * 0x8000_0000_0000_0000);
            }
            let updated: WideTotals = add_row(sums[at], row, vip);
            sums.set(at, updated);
            proof {
                assert forall|i: int| 0 <= i < sums@.len() implies (#[trigger] sums@[i])@
                    == group_totals(next, spend@, keys@[i]@) by {
                    if i != at {
                        assert(sums@[i] == old_sums[i]);
                        assert(old_keys[i] == keys@[i]@);
                        if i < at {
                            assert(key_less(old_keys[i], old_keys[at as int]));
                        } else {
                            assert(key_less(old_keys[at as int], old_keys[i]));
                        }
                        key_less_irreflexive(key);
                    }
                }
            }
        } else {
            let new_key: GroupKey = key_from_row(row);
            proof {
                rank_miss_means_absent(old_keys, key);
                absent_key_totals(seen, spend@, key);
                views_insert(keys@, at as int, new_key);
            }
            let fresh: WideTotals = add_row(empty_totals(), row, vip);
            let ghost kept_keys = keys@;
            keys.insert(at, new_key);
            sums.insert(at, fresh);
            proof {
                kept_keys.insert_ensures(at as int, new_key);
                old_sums.insert_ensures(at as int, fresh);
                assert forall|i: int| 0 <= i < sums@.len() implies (#[trigger] sums@[i])@
                    == group_totals(next, spend@, keys@[i]@) by {
                    if i < at {
                        assert(sums@[i] == old_sums[i]);
                        assert(keys@[i] == kept_keys[i]);
                        assert(old_keys[i] == kept_keys[i]@);
                        assert(old_keys.contains(old_keys[i]));
                    } else if i > at {
                        assert(sums@[i] == old_sums[i - 1]);
                        assert(keys@[i] == kept_keys[i - 1]);
                        assert(old_keys[i - 1] == kept_keys[i - 1]@);
                        assert(old_keys.contains(old_keys[i - 1]));
                    }
                }
            }
        }
        n = n + 1;
    }
    assert(models.take(n as int) =~= models);
    proof {
        group_keys_increasing(models);
    }
    let ghost report = report_rows(models, spend@);
    let mut groups: Vec<GroupRow> = Vec::new();
    let mut g: usize = 0;
    assert(views(groups@) =~= report.take(0));
    while g < keys.len()
        invariant
            g <= keys@.len(),
            keys@.len() == sums@.len(),
            models == views(rows@),
            strictly_increasing(group_keys(models)),
            report == report_rows(models, spend@),
            views(keys@) == group_keys(models),
            forall|i: int|
                0 <= i < sums@.len() ==> (#[trigger] sums@[i])@ == group_totals(
                    models,
                    spend@,
                    keys@[i]@,
                ),
            views(groups@) == report.take(g as int),
            all_totals_fit(report.take(g as int)),
        decreases keys@.len() - g,
    {
        assert(views(keys@)[g as int] == keys@[g as int]@);
        assert(sums@[g as int]@ == report[g as int].totals);
        match narrow_totals(&sums[g]) {
            Some(totals) => {
                let row = GroupRow { key: copy_key(&keys[g]), totals };
                proof {
                    views_push(groups@, row);
                    assert(report.take(g + 1) =~= report.take(g as int).push(row@));
                    assert forall|i: int| 0 <= i < g + 1 implies totals_fit(
                        (#[trigger] report.take(g + 1)[i]).totals,
                    ) by {
                        if i < g {
                            assert(report.take(g + 1)[i] == report.take(g as int)[i]);
                        }
                    }
                }
                groups.push(row);
            },
            None => {
                assert(!totals_fit(report[g as int].totals));
                return None;
            },
        }
        g = g + 1;
    }
    assert(report.take(g as int) =~= report);
    assert forall|i: int, j: int| 0 <= i < j < groups@.len() implies key_less(
        groups@[i].key@,
        groups@[j].key@,
    ) by {
        assert(views(groups@)[i].key == group_keys(models)[i]);
        assert(views(groups@)[j].key == group_keys(models)[j]);
    }
    Some(groups)
}

} // verus!
