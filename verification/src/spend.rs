//! What each customer spent on each day: the sum of the net amounts of
//! the derived records of that customer and day.

use crate::assoc::{assoc_map, assoc_map_last_occurrence, assoc_map_push, assoc_map_skip_tail, assoc_map_update};
use crate::enrich::{DerivedModel, DerivedRecord};
use crate::model::views;
use crate::text::same_bytes;
use vstd::prelude::*;
use vstd::slice::slice_to_vec;

verus! {

/// The sum of the net amounts of the records of `rows` with this date and
/// customer.
pub open spec fn day_spend(rows: Seq<DerivedModel>, date: Seq<u8>, customer: int) -> int
    decreases rows.len(),
{
    if rows.len() == 0 {
        0
    } else if rows.last().event_date == date && rows.last().customer_id == customer {
        day_spend(rows.drop_last(), date, customer) + rows.last().net_usd_cents
    } else {
        day_spend(rows.drop_last(), date, customer)
    }
}

/// The total that a map of totals holds for a date and customer; zero
/// when it holds none.
pub open spec fn spend_of(totals: Map<(Seq<u8>, int), int>, date: Seq<u8>, customer: int) -> int {
    if totals.contains_key((date, customer)) {
        totals[(date, customer)]
    } else {
        0
    }
}

/// Whether `totals` holds for every date and customer what that customer
/// spent on that day according to `rows`.
pub open spec fn is_spend_of(totals: Map<(Seq<u8>, int), int>, rows: Seq<DerivedModel>) -> bool {
    forall|date: Seq<u8>, customer: int| #[trigger]
        spend_of(totals, date, customer) == day_spend(rows, date, customer)
}

/// The day totals of `rows` as a map over every date and customer.
pub open spec fn day_totals(rows: Seq<DerivedModel>) -> Map<(Seq<u8>, int), int> {
    Map::total(|key: (Seq<u8>, int)| day_spend(rows, key.0, key.1))
}

/// A day total of records whose net amounts are 64-bit numbers is at most
/// that many times the largest such number.
pub proof fn day_spend_bound(rows: Seq<DerivedModel>, date: Seq<u8>, customer: int)
    requires
        forall|i: int|
            0 <= i < rows.len() ==> i64::MIN <= (#[trigger] rows[i]).net_usd_cents <= i64::MAX,
    ensures
        -rows.len() * 0x8000_0000_0000_0000 <= day_spend(rows, date, customer) <= rows.len()
            * 0x8000_0000_0000_0000,
    decreases rows.len(),
{
    if rows.len() > 0 {
        let front = rows.drop_last();
        assert forall|i: int| 0 <= i < front.len() implies i64::MIN <= (
        #[trigger] front[i]).net_usd_cents <= i64::MAX by {
            assert(front[i] == rows[i]);
        }
        day_spend_bound(front, date, customer);
        assert(i64::MIN <= rows[rows.len() - 1].net_usd_cents <= i64::MAX);
    }
}

/// The total of one customer on one day.
#[derive(Clone, Debug, PartialEq, Eq)]
pub struct SpendEntry {
    pub event_date: Vec<u8>,
    pub customer_id: i64,
    pub total: i128,
}

/// Day totals by date and customer. Of several entries with one date and
/// customer the last one counts.
#[derive(Clone, Debug, PartialEq, Eq)]
pub struct SpendIndex {
    pub entries: Vec<SpendEntry>,
}

/// The entries of a spend index as pairs of plain values.
pub open spec fn spend_pairs(entries: Seq<SpendEntry>) -> Seq<((Seq<u8>, int), int)> {
    Seq::new(
        entries.len(),
        |i: int| ((entries[i].event_date@, entries[i].customer_id as int), entries[i].total as int),
    )
}

impl View for SpendIndex {
    type V = Map<(Seq<u8>, int), int>;

    open spec fn view(&self) -> Map<(Seq<u8>, int), int> {
        assoc_map(spend_pairs(self.entries@))
    }
}

impl SpendIndex {
    /// An index without totals.
    pub fn new() -> (index: SpendIndex)
        ensures
            index@ == Map::<(Seq<u8>, int), int>::empty(),
    {
        let index = SpendIndex { entries: Vec::new() };
        assert(spend_pairs(index.entries@) =~= Seq::empty());
        index
    }

    /// Position of the last entry for this date and customer, or the
    /// number of entries when there is none.
    fn position(&self, date: &[u8], customer: i64) -> (at: usize)
        ensures
            at <= self.entries@.len(),
            at < self.entries@.len() ==> spend_pairs(self.entries@)[at as int].0 == (
                date@,
                customer as int,
            ),
            forall|j: int|
                at < j < self.entries@.len() ==> spend_pairs(self.entries@)[j].0 != (
                    date@,
                    customer as int,
                ),
            at == self.entries@.len() ==> forall|j: int|
                0 <= j < self.entries@.len() ==> spend_pairs(self.entries@)[j].0 != (
                    date@,
                    customer as int,
                ),
    {
        let n: usize = self.entries.len();
        let mut i: usize = n;
        while i > 0
            invariant
                n == self.entries@.len(),
                i <= n,
                forall|j: int|
                    i <= j < n ==> spend_pairs(self.entries@)[j].0 != (date@, customer as int),
            decreases i,
        {
            i = i - 1;
            if self.entries[i].customer_id == customer && same_bytes(
                self.entries[i].event_date.as_slice(),
                date,
            ) {
                return i;
            }
        }
        n
    }

    /// The total held for this date and customer; zero when none is held.
    pub fn total(&self, date: &[u8], customer: i64) -> (t: i128)
        ensures
            t == spend_of(self@, date@, customer as int),
    {
        let at: usize = self.position(date, customer);
        let ghost pairs = spend_pairs(self.entries@);
        if at < self.entries.len() {
            proof {
                assoc_map_last_occurrence(pairs, at as int);
            }
            self.entries[at].total
        } else {
            proof {
                assoc_map_skip_tail(pairs, 0, (date@, customer as int));
                assert(pairs.take(0) =~= Seq::empty());
            }
            0
        }
    }

    /// Adds `amount` to the total of this date and customer.
    pub fn add(&mut self, date: &[u8], customer: i64, amount: i64)
        requires
            i128::MIN <= spend_of(old(self)@, date@, customer as int) + amount <= i128::MAX,
        ensures
            final(self)@ == old(self)@.insert(
                (date@, customer as int),
                spend_of(old(self)@, date@, customer as int) + amount,
            ),
    {
        let at: usize = self.position(date, customer);
        let ghost pairs = spend_pairs(self.entries@);
        let ghost key = (date@, customer as int);
        if at < self.entries.len() {
            proof {
                assoc_map_last_occurrence(pairs, at as int);
            }
            let total: i128 = self.entries[at].total + amount as i128;
            proof {
                assoc_map_update(pairs, at as int, total as int);
            }
            let entry = SpendEntry { event_date: slice_to_vec(date), customer_id: customer, total };
            self.entries.set(at, entry);
            assert(spend_pairs(self.entries@) =~= pairs.update(at as int, (key, total as int)));
        } else {
            proof {
                assoc_map_skip_tail(pairs, 0, key);
                assert(pairs.take(0) =~= Seq::empty());
                assoc_map_push(pairs, key, amount as int);
            }
            let entry = SpendEntry {
                event_date: slice_to_vec(date),
                customer_id: customer,
                total: amount as i128,
            };
            self.entries.push(entry);
            assert(spend_pairs(self.entries@) =~= pairs.push((key, amount as int)));
        }
    }
}

/// Sums the net amounts of `rows` by date and customer.
pub fn build_spend_index(rows: &Vec<DerivedRecord>) -> (index: SpendIndex)
    ensures
        is_spend_of(index@, views(rows@)),
{
    let ghost models = views(rows@);
    let mut index: SpendIndex = SpendIndex::new();
    let mut i: usize = 0;
    assert(models.take(0) =~= Seq::empty());
    while i < rows.len()
        invariant
            i <= rows@.len(),
            models == views(rows@),
            is_spend_of(index@, models.take(i as int)),
        decreases rows@.len() - i,
    {
        let row: &DerivedRecord = &rows[i];
        let ghost before = index@;
        let ghost seen = models.take(i as int);
        proof {
            assert(spend_of(before, row.event_date@, row.customer_id as int) == day_spend(
                seen,
                row.event_date@,
                row.customer_id as int,
            ));
            assert forall|k: int| 0 <= k < seen.len() implies i64::MIN <= (
            #[trigger] seen[k]).net_usd_cents <= i64::MAX by {
                assert(seen[k] == rows@[k]@);
            }
            day_spend_bound(seen, row.event_date@, row.customer_id as int);
        }
        index.add(row.event_date.as_slice(), row.customer_id, row.net_usd_cents);
        proof {
            let next = models.take(i + 1);
            assert(next.drop_last() =~= seen);
            assert(next.last() == row@);
            assert forall|date: Seq<u8>, customer: int| #[trigger]
                spend_of(index@, date, customer) == day_spend(next, date, customer) by {
                assert(spend_of(before, date, customer) == day_spend(seen, date, customer));
            }
        }
        i = i + 1;
    }
    assert(models.take(i as int) =~= models);
    index
}

} // verus!
