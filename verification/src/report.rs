//! Writing the report: a heading line followed by one line for each group.

use crate::aggregate::{GroupModel, GroupRow};
use crate::arith::{round_div, round_div_int};
use crate::model::views;
use crate::text::{decimal_text, push_bytes, push_decimal};
use vstd::prelude::*;
use vstd::string::StringSliceAdditionalSpecFns;

verus! {

/// The heading line of the report, without its line feed.
pub open spec fn heading() -> Seq<u8> {
    "event_date,customer_tier,category,country,time_bucket,order_size_bucket,order_count,vip_customer_orders,total_quantity,total_net_usd_cents,total_profit_usd_cents,total_risk_adjusted_usd_cents,avg_item_price_usd_cents,heavy_item_orders".spec_bytes()
}

/// The average price of an item of a group: the net sum divided by the
/// number of items, rounded.
pub open spec fn average_item_price(group: GroupModel) -> int {
    round_div_int(group.totals.total_net_usd_cents, group.totals.total_items)
}

/// `out` followed by the line of `group`: the six parts of the key, the
/// order count, the VIP order count, the quantity, the net, profit and
/// risk-adjusted sums, the average item price and the heavy order count,
/// separated by commas and closed by a line feed. Nothing is quoted.
pub open spec fn with_line(out: Seq<u8>, group: GroupModel) -> Seq<u8> {
    out + group.key.event_date + seq![0x2cu8] + group.key.customer_tier + seq![0x2cu8]
        + group.key.category + seq![0x2cu8] + group.key.country + seq![0x2cu8]
        + group.key.time_bucket + seq![0x2cu8] + group.key.order_size_bucket + seq![0x2cu8]
        + decimal_text(group.totals.order_count) + seq![0x2cu8] + decimal_text(
        group.totals.vip_customer_orders,
    ) + seq![0x2cu8] + decimal_text(group.totals.total_quantity) + seq![0x2cu8] + decimal_text(
        group.totals.total_net_usd_cents,
    ) + seq![0x2cu8] + decimal_text(group.totals.total_profit_usd_cents) + seq![0x2cu8]
        + decimal_text(group.totals.total_risk_adjusted_usd_cents) + seq![0x2cu8] + decimal_text(
        average_item_price(group),
    ) + seq![0x2cu8] + decimal_text(group.totals.heavy_item_orders) + seq![0x0au8]
}

/// The text of the report for `groups`: the heading line followed by the line
/// of each group in order.
pub open spec fn report_text(groups: Seq<GroupModel>) -> Seq<u8>
    decreases groups.len(),
{
    if groups.len() == 0 {
        heading() + seq![0x0au8]
    } else {
        with_line(report_text(groups.drop_last()), groups.last())
    }
}

fn push_field(out: &mut Vec<u8>, field: &[u8])
    ensures
        final(out)@ == old(out)@ + field@ + seq![0x2cu8],
{
    push_bytes(out, field);
    out.push(0x2c);
    assert(final(out)@ =~= old(out)@ + field@ + seq![0x2cu8]);
}

fn push_number(out: &mut Vec<u8>, value: i64, closing: u8)
    ensures
        final(out)@ == old(out)@ + decimal_text(value as int) + seq![closing],
{
    push_decimal(out, value);
    out.push(closing);
    assert(final(out)@ =~= old(out)@ + decimal_text(value as int) + seq![closing]);
}

/// Appends the line of `group` to `out`.
pub fn push_line(out: &mut Vec<u8>, group: &GroupRow)
    ensures
        final(out)@ == with_line(old(out)@, group@),
{
    let average: i64 = round_div(group.totals.total_net_usd_cents, group.totals.total_items);
    push_field(out, group.key.event_date.as_slice());
    push_field(out, group.key.customer_tier.as_slice());
    push_field(out, group.key.category.as_slice());
    push_field(out, group.key.country.as_slice());
    push_field(out, group.key.time_bucket.as_slice());
    push_field(out, group.key.order_size_bucket.as_slice());
    push_number(out, group.totals.order_count, 0x2c);
    push_number(out, group.totals.vip_customer_orders, 0x2c);
    push_number(out, group.totals.total_quantity, 0x2c);
    push_number(out, group.totals.total_net_usd_cents, 0x2c);
    push_number(out, group.totals.total_profit_usd_cents, 0x2c);
    push_number(out, group.totals.total_risk_adjusted_usd_cents, 0x2c);
    push_number(out, average, 0x2c);
    push_number(out, group.totals.heavy_item_orders, 0x0a);
}

/// Writes the report for `groups`, which come in the order of the report.
pub fn render_report(groups: &Vec<GroupRow>) -> (out: Vec<u8>)
    ensures
        out@ == report_text(views(groups@)),
{
    let ghost models = views(groups@);
    let mut out: Vec<u8> =
        "event_date,customer_tier,category,country,time_bucket,order_size_bucket,order_count,vip_customer_orders,total_quantity,total_net_usd_cents,total_profit_usd_cents,total_risk_adjusted_usd_cents,avg_item_price_usd_cents,heavy_item_orders".as_bytes_vec();
    out.push(0x0a);
    assert(out@ =~= heading() + seq![0x0au8]);
    assert(models.take(0) =~= Seq::empty());
    let mut i: usize = 0;
    while i < groups.len()
        invariant
            i <= groups@.len(),
            models == views(groups@),
            out@ == report_text(models.take(i as int)),
        decreases groups@.len() - i,
    {
        assert(models.take(i + 1).drop_last() =~= models.take(i as int));
        assert(models.take(i + 1).last() == groups@[i as int]@);
        push_line(&mut out, &groups[i]);
        i = i + 1;
    }
    assert(models.take(i as int) =~= models);
    out
}

} // verus!
