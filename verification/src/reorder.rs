//! The order of the records does not matter: day totals, sums and the
//! report are the same for any two arrangements of the same records.

use crate::aggregate::{
    group_keys, group_keys_come_from_rows, group_keys_cover, group_keys_increasing, group_totals,
    is_vip, key_less, key_less_irreflexive, key_less_transitive, key_of, report_rows,
    strictly_increasing, with_row, GroupKeyModel,
};
use crate::dims::{CountryDim, ProductModel};
use crate::enrich::{derived_rows, DerivedModel};
use crate::events::CandidateModel;
use crate::spend::{day_spend, day_totals};
use vstd::prelude::*;
use vstd::seq_lib::to_multiset_remove;

verus! {

/// Two sequences hold the same records, each as often in one as in the
/// other.
pub open spec fn same_records(a: Seq<DerivedModel>, b: Seq<DerivedModel>) -> bool {
    a.to_multiset() == b.to_multiset()
}

/// A place in `b` for the last item of `a`, such that what is left of `a`
/// and of `b` again holds the same items.
proof fn place_of_last<T>(a: Seq<T>, b: Seq<T>) -> (j: int)
    requires
        a.to_multiset() == b.to_multiset(),
        a.len() > 0,
    ensures
        0 <= j < b.len(),
        b[j] == a.last(),
        a.drop_last().to_multiset() == b.remove(j).to_multiset(),
{
    a.to_multiset_ensures();
    b.to_multiset_ensures();
    assert(a.contains(a.last())) by {
        assert(a[a.len() - 1] == a.last());
    }
    assert(b.to_multiset().count(a.last()) > 0);
    assert(b.contains(a.last()));
    let j = choose|j: int| 0 <= j < b.len() && b[j] == a.last();
    assert(a.drop_last() =~= a.remove(a.len() - 1));
    to_multiset_remove(a, a.len() - 1);
    to_multiset_remove(b, j);
    j
}

/// Taking a record out of the rows takes its net amount out of the total
/// of its day and customer, and leaves every other day total as it is.
pub proof fn day_spend_without(rows: Seq<DerivedModel>, j: int, date: Seq<u8>, customer: int)
    requires
        0 <= j < rows.len(),
    ensures
        day_spend(rows, date, customer) == day_spend(rows.remove(j), date, customer) + (if rows[j].event_date
            == date && rows[j].customer_id == customer {
            rows[j].net_usd_cents
        } else {
            0
        }),
    decreases rows.len(),
{
    if j == rows.len() - 1 {
        assert(rows.remove(j) =~= rows.drop_last());
    } else {
        let front = rows.drop_last();
        assert(rows.remove(j).drop_last() =~= front.remove(j));
        assert(rows.remove(j).last() == rows.last());
        day_spend_without(front, j, date, customer);
    }
}

/// The day totals do not depend on the order of the records.
pub proof fn day_spend_ignores_order(
    a: Seq<DerivedModel>,
    b: Seq<DerivedModel>,
    date: Seq<u8>,
    customer: int,
)
    requires
        same_records(a, b),
    ensures
        day_spend(a, date, customer) == day_spend(b, date, customer),
    decreases a.len(),
{
    if a.len() == 0 {
        a.to_multiset_ensures();
        b.to_multiset_ensures();
        assert(b.len() == 0);
    } else {
        let j = place_of_last(a, b);
        day_spend_ignores_order(a.drop_last(), b.remove(j), date, customer);
        day_spend_without(b, j, date, customer);
    }
}

/// Taking a record out of the rows takes it out of the sums of its group,
/// and leaves the sums of every other group as they are.
pub proof fn group_totals_without(
    rows: Seq<DerivedModel>,
    spend: Map<(Seq<u8>, int), int>,
    key: GroupKeyModel,
    j: int,
)
    requires
        0 <= j < rows.len(),
    ensures
        group_totals(rows, spend, key) == (if key_of(rows[j]) == key {
            with_row(group_totals(rows.remove(j), spend, key), rows[j], is_vip(spend, rows[j]))
        } else {
            group_totals(rows.remove(j), spend, key)
        }),
    decreases rows.len(),
{
    if j == rows.len() - 1 {
        assert(rows.remove(j) =~= rows.drop_last());
    } else {
        let front = rows.drop_last();
        assert(rows.remove(j).drop_last() =~= front.remove(j));
        assert(rows.remove(j).last() == rows.last());
        group_totals_without(front, spend, key, j);
    }
}

/// The sums of a group do not depend on the order of the records.
pub proof fn group_totals_ignore_order(
    a: Seq<DerivedModel>,
    b: Seq<DerivedModel>,
    spend: Map<(Seq<u8>, int), int>,
    key: GroupKeyModel,
)
    requires
        same_records(a, b),
    ensures
        group_totals(a, spend, key) == group_totals(b, spend, key),
    decreases a.len(),
{
    if a.len() == 0 {
        a.to_multiset_ensures();
        b.to_multiset_ensures();
        assert(b.len() == 0);
    } else {
        let j = place_of_last(a, b);
        group_totals_ignore_order(a.drop_last(), b.remove(j), spend, key);
        group_totals_without(b, spend, key, j);
    }
}

/// Two increasing sequences of keys with the same members are the same
/// sequence.
pub proof fn increasing_keys_are_unique(s: Seq<GroupKeyModel>, t: Seq<GroupKeyModel>)
    requires
        strictly_increasing(s),
        strictly_increasing(t),
        forall|k: GroupKeyModel| s.contains(k) <==> t.contains(k),
    ensures
        s == t,
    decreases s.len(),
{
    if s.len() == 0 {
        if t.len() > 0 {
            assert(t.contains(t[0]));
        }
        assert(s =~= t);
    } else {
        let top = s.last();
        assert(s.contains(top)) by {
            assert(s[s.len() - 1] == top);
        }
        let i = choose|i: int| 0 <= i < t.len() && t[i] == top;
        let other = t.last();
        assert(t.contains(other)) by {
            assert(t[t.len() - 1] == other);
        }
        let j = choose|j: int| 0 <= j < s.len() && s[j] == other;
        key_less_transitive(top, other, top);
        key_less_irreflexive(top);
        assert(top == other) by {
            if i < t.len() - 1 && j < s.len() - 1 {
                assert(key_less(t[i], t[t.len() - 1]));
                assert(key_less(s[j], s[s.len() - 1]));
            }
        }
        let s1 = s.drop_last();
        let t1 = t.drop_last();
        assert forall|k: GroupKeyModel| s1.contains(k) <==> t1.contains(k) by {
            if s1.contains(k) {
                let p = choose|p: int| 0 <= p < s1.len() && s1[p] == k;
                assert(key_less(s[p], s[s.len() - 1]));
                assert(s.contains(k)) by {
                    assert(s[p] == k);
                }
                let q = choose|q: int| 0 <= q < t.len() && t[q] == k;
                assert(t1[q] == k);
            }
            if t1.contains(k) {
                let q = choose|q: int| 0 <= q < t1.len() && t1[q] == k;
                assert(key_less(t[q], t[t.len() - 1]));
                assert(t.contains(k)) by {
                    assert(t[q] == k);
                }
                let p = choose|p: int| 0 <= p < s.len() && s[p] == k;
                assert(s1[p] == k);
            }
        }
        increasing_keys_are_unique(s1, t1);
        assert(s =~= s1.push(top));
        assert(t =~= t1.push(other));
    }
}

/// The keys of the groups do not depend on the order of the records.
pub proof fn group_keys_ignore_order(a: Seq<DerivedModel>, b: Seq<DerivedModel>)
    requires
        same_records(a, b),
    ensures
        group_keys(a) == group_keys(b),
{
    group_keys_increasing(a);
    group_keys_increasing(b);
    assert forall|k: GroupKeyModel| group_keys(a).contains(k) <==> group_keys(b).contains(k) by {
        if group_keys(a).contains(k) {
            let g = choose|g: int| 0 <= g < group_keys(a).len() && group_keys(a)[g] == k;
            let i = group_keys_come_from_rows(a, g);
            a.to_multiset_ensures();
            b.to_multiset_ensures();
            assert(a.contains(a[i]));
            assert(b.to_multiset().count(a[i]) > 0);
            assert(b.contains(a[i]));
            let j = choose|j: int| 0 <= j < b.len() && b[j] == a[i];
            group_keys_cover(b, j);
        }
        if group_keys(b).contains(k) {
            let g = choose|g: int| 0 <= g < group_keys(b).len() && group_keys(b)[g] == k;
            let j = group_keys_come_from_rows(b, g);
            a.to_multiset_ensures();
            b.to_multiset_ensures();
            assert(b.contains(b[j]));
            assert(a.to_multiset().count(b[j]) > 0);
            assert(a.contains(b[j]));
            let i = choose|i: int| 0 <= i < a.len() && a[i] == b[j];
            group_keys_cover(a, i);
        }
    }
    increasing_keys_are_unique(group_keys(a), group_keys(b));
}

/// Enriching the same candidates in another order gives the same
/// records in another order.
pub proof fn records_ignore_order(
    a: Seq<CandidateModel>,
    b: Seq<CandidateModel>,
    products: Map<int, ProductModel>,
    countries: Map<Seq<u8>, CountryDim>,
)
    requires
        a.to_multiset() == b.to_multiset(),
    ensures
        same_records(derived_rows(a, products, countries), derived_rows(b, products, countries)),
    decreases a.len(),
{
    let da = derived_rows(a, products, countries);
    let db = derived_rows(b, products, countries);
    a.to_multiset_ensures();
    b.to_multiset_ensures();
    if a.len() == 0 {
        assert(b.len() == 0);
        assert(da =~= db);
    } else {
        let j = place_of_last(a, b);
        records_ignore_order(a.drop_last(), b.remove(j), products, countries);
        assert(da.drop_last() =~= derived_rows(a.drop_last(), products, countries));
        assert(db.remove(j) =~= derived_rows(b.remove(j), products, countries));
        assert(da =~= da.drop_last().push(da.last()));
        da.drop_last().to_multiset_ensures();
        to_multiset_remove(db, j);
        db.to_multiset_ensures();
        assert(db.contains(db[j]));
        assert(db.to_multiset() =~= db.remove(j).to_multiset().insert(db[j]));
    }
}

/// The report does not depend on the order of the records: two
/// arrangements of the same records give the same rows, with the VIP
/// orders counted by the day totals of the records themselves.
pub proof fn report_ignores_order(a: Seq<DerivedModel>, b: Seq<DerivedModel>)
    requires
        same_records(a, b),
    ensures
        report_rows(a, day_totals(a)) == report_rows(b, day_totals(b)),
{
    assert(day_totals(a) =~= day_totals(b)) by {
        assert forall|key: (Seq<u8>, int)| day_spend(a, key.0, key.1) == day_spend(
            b,
            key.0,
            key.1,
        ) by {
            day_spend_ignores_order(a, b, key.0, key.1);
        }
    }
    group_keys_ignore_order(a, b);
    assert forall|g: int| 0 <= g < group_keys(a).len() implies group_totals(
        a,
        day_totals(a),
        group_keys(a)[g],
    ) == group_totals(b, day_totals(b), group_keys(b)[g]) by {
        group_totals_ignore_order(a, b, day_totals(a), group_keys(a)[g]);
    }
    assert(report_rows(a, day_totals(a)) =~= report_rows(b, day_totals(b)));
}

} // verus!
