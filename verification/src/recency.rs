//! Ordering by start time, newest first.
//!
//! A start time may be missing; a missing one is older than any instant.
//! The order is stable: of two items that are equally old, the one that came
//! first stays first.

use vstd::prelude::*;

verus! {

/// `a` is strictly older than `b`.
pub open spec fn older(a: Option<i64>, b: Option<i64>) -> bool {
    match (a, b) {
        (None, Some(_)) => true,
        (Some(x), Some(y)) => x < y,
        _ => false,
    }
}

/// The first position at or after `from` that holds a date strictly older
/// than `date`, or the length where there is none.
pub open spec fn place_from(dates: Seq<Option<i64>>, date: Option<i64>, from: int) -> int
    decreases dates.len() - from,
{
    if from < 0 || from >= dates.len() {
        dates.len() as int
    } else if older(dates[from], date) {
        from
    } else {
        place_from(dates, date, from + 1)
    }
}

/// Where an item dated `date` goes among items dated `dates`, newest first:
/// behind every item that is as new or newer.
pub open spec fn place_of(dates: Seq<Option<i64>>, date: Option<i64>) -> int {
    place_from(dates, date, 0)
}

/// `items` ordered newest first by `dates`, which gives the date of each item
/// at the same position.
pub open spec fn newest_first<E>(items: Seq<E>, dates: Seq<Option<i64>>) -> Seq<E>
    recommends
        items.len() == dates.len(),
    decreases dates.len(),
{
    if items.len() == 0 || dates.len() == 0 {
        Seq::empty()
    } else {
        let before = newest_first(items.drop_last(), dates.drop_last());
        let dates_before = newest_first(dates.drop_last(), dates.drop_last());
        before.insert(place_of(dates_before, dates.last()), items.last())
    }
}

/// No date is followed by a newer one.
pub open spec fn is_newest_first(dates: Seq<Option<i64>>) -> bool {
    forall|i: int, j: int| 0 <= i < j < dates.len() ==> !older(dates[i], dates[j])
}

proof fn lemma_place_from(dates: Seq<Option<i64>>, date: Option<i64>, from: int)
    requires
        0 <= from <= dates.len(),
    ensures
        from <= place_from(dates, date, from) <= dates.len(),
        forall|k: int| from <= k < place_from(dates, date, from) ==> !older(dates[k], date),
        place_from(dates, date, from) < dates.len() ==> older(
            dates[place_from(dates, date, from)],
            date,
        ),
    decreases dates.len() - from,
{
    if from < dates.len() && !older(dates[from], date) {
        lemma_place_from(dates, date, from + 1);
    }
}

/// The place of an item lies within the sequence; nothing before it is
/// older than the item, and the item at it, if any, is older.
pub proof fn lemma_place_of(dates: Seq<Option<i64>>, date: Option<i64>)
    ensures
        0 <= place_of(dates, date) <= dates.len(),
        forall|k: int| 0 <= k < place_of(dates, date) ==> !older(dates[k], date),
        place_of(dates, date) < dates.len() ==> older(dates[place_of(dates, date)], date),
{
    lemma_place_from(dates, date, 0);
}

/// Ordering keeps the length.
pub proof fn lemma_newest_first_len<E>(items: Seq<E>, dates: Seq<Option<i64>>)
    requires
        items.len() == dates.len(),
    ensures
        newest_first(items, dates).len() == items.len(),
        newest_first(dates, dates).len() == items.len(),
    decreases dates.len(),
{
    if items.len() > 0 {
        lemma_newest_first_len(items.drop_last(), dates.drop_last());
        lemma_newest_first_len(dates.drop_last(), dates.drop_last());
        lemma_place_of(newest_first(dates.drop_last(), dates.drop_last()), dates.last());
    }
}

/// The ordered dates are newest first, and they are the dates that came in:
/// each as often as before.
pub proof fn lemma_newest_first_dates(dates: Seq<Option<i64>>)
    ensures
        is_newest_first(newest_first(dates, dates)),
        newest_first(dates, dates).to_multiset() == dates.to_multiset(),
    decreases dates.len(),
{
    if dates.len() == 0 {
        assert(newest_first(dates, dates) =~= dates);
    } else {
        let before = newest_first(dates.drop_last(), dates.drop_last());
        lemma_newest_first_dates(dates.drop_last());
        lemma_newest_first_len(dates.drop_last(), dates.drop_last());
        let date = dates.last();
        let at = place_of(before, date);
        lemma_place_of(before, date);
        let after = before.insert(at, date);
        assert(newest_first(dates, dates) == after);
        assert forall|i: int, j: int| 0 <= i < j < after.len() implies !older(after[i], after[j]) by {
            if j < at {
                assert(after[i] == before[i] && after[j] == before[j]);
            } else if j == at {
                assert(after[i] == before[i]);
            } else if i < at {
                assert(after[i] == before[i] && after[j] == before[j - 1]);
            } else if i == at {
                assert(after[j] == before[j - 1]);
                assert(older(before[at], date));
                assert(!older(before[at], before[j - 1]));
            } else {
                assert(after[i] == before[i - 1] && after[j] == before[j - 1]);
            }
        }
        assert(after.to_multiset() =~= before.to_multiset().insert(date)) by {
            assert(after.remove(at) =~= before);
            assert(after[at] == date);
            vstd::seq_lib::to_multiset_remove(after, at);
            vstd::seq_lib::to_multiset_contains(after, date);
        }
        vstd::seq_lib::to_multiset_build(dates.drop_last(), date);
        assert(dates =~= dates.drop_last().push(date));
    }
}

/// Ordering moves each item together with its date, and keeps every item:
/// each as often as before.
pub proof fn lemma_newest_first_items<E>(items: Seq<E>, dates: Seq<Option<i64>>)
    requires
        items.len() == dates.len(),
    ensures
        newest_first(items, dates).len() == items.len(),
        newest_first(dates, dates).len() == items.len(),
        newest_first(items, dates).to_multiset() == items.to_multiset(),
        forall|k: int|
            0 <= k < items.len() ==> exists|i: int|
                0 <= i < items.len() && #[trigger] newest_first(items, dates)[k] == items[i]
                    && newest_first(dates, dates)[k] == dates[i],
    decreases dates.len(),
{
    lemma_newest_first_len(items, dates);
    if dates.len() == 0 {
        assert(newest_first(items, dates) =~= items);
    } else {
        let before = newest_first(items.drop_last(), dates.drop_last());
        let dates_before = newest_first(dates.drop_last(), dates.drop_last());
        lemma_newest_first_items(items.drop_last(), dates.drop_last());
        let at = place_of(dates_before, dates.last());
        lemma_place_of(dates_before, dates.last());
        let after = before.insert(at, items.last());
        let dates_after = dates_before.insert(at, dates.last());
        assert(newest_first(items, dates) == after);
        assert(newest_first(dates, dates) == dates_after);
        assert forall|k: int| 0 <= k < items.len() implies exists|i: int|
            0 <= i < items.len() && #[trigger] after[k] == items[i] && dates_after[k]
                == dates[i] by {
            if k == at {
                assert(after[k] == items[items.len() - 1] && dates_after[k] == dates[items.len() - 1]);
            } else {
                let k0 = if k < at { k } else { k - 1 };
                assert(after[k] == before[k0] && dates_after[k] == dates_before[k0]);
                let i = choose|i: int|
                    0 <= i < items.len() - 1 && before[k0] == items.drop_last()[i]
                        && dates_before[k0] == dates.drop_last()[i];
                assert(after[k] == items[i] && dates_after[k] == dates[i]);
            }
        }
        assert(after.to_multiset() =~= before.to_multiset().insert(items.last())) by {
            assert(after.remove(at) =~= before);
            assert(after[at] == items.last());
            vstd::seq_lib::to_multiset_remove(after, at);
            vstd::seq_lib::to_multiset_contains(after, items.last());
        }
        vstd::seq_lib::to_multiset_build(items.drop_last(), items.last());
        assert(items =~= items.drop_last().push(items.last()));
    }
}

/// Puts `item`, dated `date`, at its place in `items`, whose dates `dates`
/// holds in the same order.
pub fn place<T>(items: &mut Vec<T>, dates: &mut Vec<Option<i64>>, item: T, date: Option<i64>)
    requires
        old(items).len() == old(dates).len(),
    ensures
        final(items)@ == old(items)@.insert(place_of(old(dates)@, date), item),
        final(dates)@ == old(dates)@.insert(place_of(old(dates)@, date), date),
        final(items).len() == final(dates).len(),
        0 <= place_of(old(dates)@, date) <= old(dates).len(),
{
    let mut at: usize = 0;
    while at < dates.len() && !is_older(dates[at], date)
        invariant
            0 <= at <= dates.len(),
            place_of(dates@, date) == place_from(dates@, date, at as int),
        decreases dates.len() - at,
    {
        at = at + 1;
    }
    items.insert(at, item);
    dates.insert(at, date);
}

/// Whether `a` is strictly older than `b`.
pub fn is_older(a: Option<i64>, b: Option<i64>) -> (r: bool)
    ensures
        r == older(a, b),
{
    match (a, b) {
        (None, Some(_)) => true,
        (Some(x), Some(y)) => x < y,
        _ => false,
    }
}

} // verus!
