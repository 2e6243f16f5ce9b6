//! Reading a sequence of values as the sequence of their models.

use vstd::prelude::*;

verus! {

/// The model of each item of `items`, in order.
pub open spec fn views<T: View>(items: Seq<T>) -> Seq<T::V> {
    Seq::new(items.len(), |i: int| items[i]@)
}

/// Appending an item appends its model.
pub proof fn views_push<T: View>(items: Seq<T>, item: T)
    ensures
        views(items.push(item)) == views(items).push(item@),
{
    assert(views(items.push(item)) =~= views(items).push(item@));
}

/// Replacing an item replaces its model.
pub proof fn views_update<T: View>(items: Seq<T>, at: int, item: T)
    requires
        0 <= at < items.len(),
    ensures
        views(items.update(at, item)) == views(items).update(at, item@),
{
    assert(views(items.update(at, item)) =~= views(items).update(at, item@));
}

/// Inserting an item inserts its model.
pub proof fn views_insert<T: View>(items: Seq<T>, at: int, item: T)
    requires
        0 <= at <= items.len(),
    ensures
        views(items.insert(at, item)) == views(items).insert(at, item@),
{
    assert(views(items.insert(at, item)) =~= views(items).insert(at, item@));
}

} // verus!
