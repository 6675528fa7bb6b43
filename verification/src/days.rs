//! A table of per-day values, keyed by day number (days since the start of the common era, as
//! chrono's `num_days_from_ce` counts them). The values are opaque to the table: the user card
//! keeps its daily message, voice and game totals in it.

use vstd::prelude::*;
use crate::seqs::{lemma_filter_insert, lemma_filter_none};

verus! {

/// Whether the table has an entry for day `d`.
pub open spec fn has_day<V>(t: Seq<(i32, V)>, d: i32) -> bool {
    exists|j: int| 0 <= j < t.len() && t[j].0 == d
}

/// Whether `i` is the index of the first entry for day `d`.
pub open spec fn is_first_day_index<V>(t: Seq<(i32, V)>, d: i32, i: int) -> bool {
    &&& 0 <= i < t.len()
    &&& t[i].0 == d
    &&& forall|j: int| 0 <= j < i ==> t[j].0 != d
}

/// Whether no day has two entries in the table.
pub open spec fn days_unique<V>(t: Seq<(i32, V)>) -> bool {
    forall|i: int, j: int| 0 <= i < j < t.len() ==> t[i].0 != t[j].0
}

/// Whether the entries are in ascending order of day.
pub open spec fn days_sorted<V>(t: Seq<(i32, V)>) -> bool {
    forall|i: int, j: int| 0 <= i < j < t.len() ==> t[i].0 <= t[j].0
}

/// Holds of the entries for day `d`.
pub open spec fn day_is<V>(d: i32) -> spec_fn((i32, V)) -> bool {
    |e: (i32, V)| e.0 == d
}

/// The entries for day `d`, in table order.
pub open spec fn entries_of_day<V>(t: Seq<(i32, V)>, d: i32) -> Seq<(i32, V)> {
    t.filter(day_is(d))
}

/// The value recorded for day `d`: that of its first entry, or `fresh` when the day has none.
pub open spec fn day_value<V>(t: Seq<(i32, V)>, d: i32, fresh: V) -> V {
    if has_day(t, d) {
        t[choose|i: int| is_first_day_index(t, d, i)].1
    } else {
        fresh
    }
}

proof fn lemma_first_index_unique<V>(t: Seq<(i32, V)>, d: i32, i: int, j: int)
    requires
        is_first_day_index(t, d, i),
        is_first_day_index(t, d, j),
    ensures
        i == j,
{
}

proof fn lemma_day_value_at<V>(t: Seq<(i32, V)>, d: i32, fresh: V, i: int)
    requires
        is_first_day_index(t, d, i),
    ensures
        day_value(t, d, fresh) == t[i].1,
{
    let c = choose|k: int| is_first_day_index(t, d, k);
    lemma_first_index_unique(t, d, i, c);
}

proof fn lemma_first_entry<V>(t: Seq<(i32, V)>, d: i32, fresh: V)
    ensures
        has_day(t, d) ==> exists|i: int| is_first_day_index(t, d, i),
        has_day(t, d) <==> entries_of_day(t, d).len() > 0,
        has_day(t, d) ==> day_value(t, d, fresh) == entries_of_day(t, d)[0].1,
    decreases t.len(),
{
    if t.len() == 0 {
        reveal(Seq::filter);
        assert(!has_day(t, d));
    } else {
        let rest = t.drop_first();
        assert(t =~= seq![t[0]] + rest);
        rest.lemma_filter_prepend(t[0], day_is(d));
        lemma_first_entry(rest, d, fresh);
        if t[0].0 == d {
            assert(is_first_day_index(t, d, 0));
            lemma_day_value_at(t, d, fresh, 0);
        } else {
            assert(entries_of_day(t, d) == entries_of_day(rest, d));
            if has_day(t, d) {
                let j = choose|j: int| 0 <= j < t.len() && t[j].0 == d;
                assert(rest[j - 1].0 == d);
                let k = choose|k: int| is_first_day_index(rest, d, k);
                assert(is_first_day_index(t, d, k + 1)) by {
                    assert forall|m: int| 0 <= m < k + 1 implies t[m].0 != d by {
                        if m > 0 {
                            assert(t[m] == rest[m - 1]);
                        }
                    }
                }
                lemma_day_value_at(t, d, fresh, k + 1);
                lemma_day_value_at(rest, d, fresh, k);
            }
            if has_day(rest, d) {
                let j = choose|j: int| 0 <= j < rest.len() && rest[j].0 == d;
                assert(t[j + 1].0 == d);
            }
        }
    }
}

proof fn lemma_push_new_day_keeps_values<V>(t: Seq<(i32, V)>, x: (i32, V), fresh: V, d: i32)
    requires
        !has_day(t, x.0),
        x.1 == fresh,
    ensures
        day_value(t.push(x), d, fresh) == day_value(t, d, fresh),
{
    let u = t.push(x);
    if d == x.0 {
        assert(is_first_day_index(u, d, t.len() as int));
        lemma_day_value_at(u, d, fresh, t.len() as int);
    } else if has_day(t, d) {
        lemma_first_entry(t, d, fresh);
        let i = choose|i: int| is_first_day_index(t, d, i);
        assert(is_first_day_index(u, d, i));
        lemma_day_value_at(u, d, fresh, i);
        lemma_day_value_at(t, d, fresh, i);
    } else {
        assert(!has_day(u, d)) by {
            if has_day(u, d) {
                let j = choose|j: int| 0 <= j < u.len() && u[j].0 == d;
                assert(j < t.len());
                assert(t[j].0 == d);
            }
        }
    }
}

/// Law: the value of a day depends only on the day's entries, in their order. Tables with
/// the same entries for every day (as `sort_days` gives back) give every day the same value,
/// so sorting the table changes nothing that `pick_day` or `pick_days` reads from it.
pub proof fn lemma_same_entries_same_values<V>(t: Seq<(i32, V)>, s: Seq<(i32, V)>, d: i32, fresh: V)
    requires
        forall|e: i32| #[trigger] entries_of_day(t, e) == entries_of_day(s, e),
    ensures
        day_value(t, d, fresh) == day_value(s, d, fresh),
{
    lemma_first_entry(t, d, fresh);
    lemma_first_entry(s, d, fresh);
    assert(entries_of_day(t, d) == entries_of_day(s, d));
}

/// The index of the first entry for day `date`, if the table has one (the search that
/// `Iterator::position` and `Iterator::find` make).
pub fn find_day<V>(all_data: &Vec<(i32, V)>, date: i32) -> (r: Option<usize>)
    ensures
        r is None <==> !has_day(all_data@, date),
        r matches Some(i) ==> is_first_day_index(all_data@, date, i as int),
{
    let mut i: usize = 0;
    while i < all_data.len()
        invariant
            i <= all_data@.len(),
            forall|j: int| 0 <= j < i ==> all_data@[j].0 != date,
        decreases all_data@.len() - i,
    {
        if all_data[i].0 == date {
            return Some(i);
        }
        i = i + 1;
    }
    None
}

/// The entry for day `date`: its index if the table has one, else the index of a new entry
/// `(date, fresh)` added at the end.
pub fn get_or_insert_day<V>(all_data: &mut Vec<(i32, V)>, date: i32, fresh: V) -> (idx: usize)
    ensures
        is_first_day_index(final(all_data)@, date, idx as int),
        has_day(old(all_data)@, date) ==> final(all_data)@ == old(all_data)@,
        !has_day(old(all_data)@, date) ==> final(all_data)@ == old(all_data)@.push((date, fresh))
            && idx == old(all_data)@.len(),
        days_unique(old(all_data)@) ==> days_unique(final(all_data)@),
{
    match find_day(all_data, date) {
        Some(i) => i,
        None => {
            let idx = all_data.len();
            all_data.push((date, fresh));
            idx
        },
    }
}

/// Law: a day has a single first entry. With the postconditions of `get_or_insert_day`
/// (a day already in the table leaves it unchanged), asking again for a day that it has just
/// given returns the same entry and changes nothing.
pub proof fn lemma_get_or_insert_idempotent<V>(t: Seq<(i32, V)>, d: i32, i: int, j: int)
    requires
        is_first_day_index(t, d, i),
        is_first_day_index(t, d, j),
    ensures
        has_day(t, d),
        i == j,
{
    lemma_first_index_unique(t, d, i, j);
}

/// The days of `dates` that the table `t` lacks, each once, in the order in which they first
/// appear in `dates`.
pub open spec fn new_days<V>(t: Seq<(i32, V)>, dates: Seq<i32>) -> Seq<i32>
    decreases dates.len(),
{
    if dates.len() == 0 {
        Seq::empty()
    } else {
        let earlier = dates.drop_last();
        let d = dates.last();
        if has_day(t, d) || earlier.contains(d) {
            new_days(t, earlier)
        } else {
            new_days(t, earlier).push(d)
        }
    }
}

/// Law: the days that filling in adds are the days of `dates` that the table lacks, each
/// once: every one comes from `dates` and is missing from the table, no day comes twice, and
/// no missing day of `dates` is left out. They come in the order of `dates`: a day listed
/// after another is never met in `dates` before the first meeting of that other.
pub proof fn lemma_new_days<V>(t: Seq<(i32, V)>, dates: Seq<i32>)
    ensures
        forall|i: int| 0 <= i < new_days(t, dates).len() ==> dates.contains(
            #[trigger] new_days(t, dates)[i],
        ) && !has_day(t, new_days(t, dates)[i]),
        forall|i: int, j: int| 0 <= i < j < new_days(t, dates).len() ==> new_days(t, dates)[i]
            != new_days(t, dates)[j],
        forall|k: int| 0 <= k < dates.len() && !has_day(t, dates[k]) ==> new_days(t, dates).contains(
            #[trigger] dates[k],
        ),
        forall|i: int, j: int, q: int|
            #![trigger dates.take(q).contains(new_days(t, dates)[i]), new_days(t, dates)[j]]
            0 <= i < j < new_days(t, dates).len() && 0 <= q < dates.len() && dates[q]
                == new_days(t, dates)[j] ==> dates.take(q).contains(new_days(t, dates)[i]),
    decreases dates.len(),
{
    if dates.len() > 0 {
        let e = dates.drop_last();
        let d = dates.last();
        let ne = new_days(t, e);
        let nd = new_days(t, dates);
        lemma_new_days(t, e);
        assert forall|i: int| 0 <= i < nd.len() implies dates.contains(#[trigger] nd[i]) && !has_day(t, nd[i]) by {
            if i < ne.len() {
                assert(nd[i] == ne[i]);
                let w = choose|w: int| 0 <= w < e.len() && e[w] == ne[i];
                assert(dates[w] == ne[i]);
            } else {
                assert(nd[i] == d);
                assert(dates[dates.len() - 1] == d);
            }
        }
        assert forall|i: int, j: int| 0 <= i < j < nd.len() implies nd[i] != nd[j] by {
            if j < ne.len() {
                assert(nd[i] == ne[i] && nd[j] == ne[j]);
            } else {
                assert(nd[j] == d);
                assert(nd[i] == ne[i]);
                assert(e.contains(ne[i]));
            }
        }
        assert forall|k: int| 0 <= k < dates.len() && !has_day(t, dates[k]) implies nd.contains(#[trigger] dates[k]) by {
            if k < e.len() {
                assert(e[k] == dates[k]);
                assert(ne.contains(e[k]));
                let w = choose|w: int| 0 <= w < ne.len() && ne[w] == e[k];
                assert(nd[w] == ne[w]);
            } else if e.contains(d) {
                let k2 = choose|k2: int| 0 <= k2 < e.len() && e[k2] == d;
                assert(ne.contains(e[k2]));
                let w = choose|w: int| 0 <= w < ne.len() && ne[w] == e[k2];
                assert(nd[w] == ne[w]);
            } else {
                assert(nd[ne.len() as int] == d);
            }
        }
        assert forall|i: int, j: int, q: int|
            #![trigger dates.take(q).contains(nd[i]), nd[j]]
            0 <= i < j < nd.len() && 0 <= q < dates.len() && dates[q] == nd[j]
                implies dates.take(q).contains(nd[i]) by {
            assert(nd[i] == ne[i]);
            if q < e.len() {
                assert(e[q] == dates[q]);
                assert(e.take(q) =~= dates.take(q));
                if j < ne.len() {
                    assert(nd[j] == ne[j]);
                    assert(e.take(q).contains(ne[i]));
                } else {
                    assert(nd[j] == d);
                    assert(e.contains(d));
                }
            } else {
                assert(dates.take(q) =~= e);
                assert(e.contains(ne[i]));
            }
        }
    }
}

/// Law: the value of a day is that of the day's first entry, and `fresh` for a day the table
/// lacks.
pub proof fn lemma_day_value_first_entry<V>(t: Seq<(i32, V)>, d: i32, fresh: V, i: int)
    ensures
        is_first_day_index(t, d, i) ==> day_value(t, d, fresh) == t[i].1,
        !has_day(t, d) ==> day_value(t, d, fresh) == fresh,
{
    if is_first_day_index(t, d, i) {
        lemma_day_value_at(t, d, fresh, i);
    }
}

/// An entry `(d, fresh)` for each day `d` of `days`, in order.
pub open spec fn fresh_entries<V>(days: Seq<i32>, fresh: V) -> Seq<(i32, V)> {
    days.map_values(|d: i32| (d, fresh))
}

/// The table followed by an entry `(d, fresh)` for each of `dates` that it lacks, each once,
/// in the order of `dates`; the entries already in the table are kept as they are.
pub fn add_missing_days<V: Copy>(all_data: &mut Vec<(i32, V)>, dates: &Vec<i32>, fresh: V)
    ensures
        final(all_data)@ == old(all_data)@ + fresh_entries(new_days(old(all_data)@, dates@), fresh),
        forall|d: i32| has_day(old(all_data)@, d) ==> has_day(final(all_data)@, d),
        forall|i: int| 0 <= i < dates@.len() ==> has_day(final(all_data)@, #[trigger] dates@[i]),
        forall|d: i32| has_day(final(all_data)@, d) ==> has_day(old(all_data)@, d) || dates@.contains(d),
        forall|j: int| 0 <= j < old(all_data)@.len() ==> final(all_data)@[j] == old(all_data)@[j],
        forall|j: int| old(all_data)@.len() <= j < final(all_data)@.len() ==> {
            &&& #[trigger] final(all_data)@[j].1 == fresh
            &&& !has_day(old(all_data)@, final(all_data)@[j].0)
        },
        days_unique(old(all_data)@) ==> days_unique(final(all_data)@),
        forall|d: i32| #[trigger] day_value(final(all_data)@, d, fresh) == day_value(old(all_data)@, d, fresh),
{
    let ghost start = all_data@;
    let mut i: usize = 0;
    while i < dates.len()
        invariant
            i <= dates@.len(),
            all_data@ == start + fresh_entries(new_days(start, dates@.take(i as int)), fresh),
            start.len() <= all_data@.len(),
            forall|j: int| 0 <= j < start.len() ==> all_data@[j] == start[j],
            forall|j: int| start.len() <= j < all_data@.len() ==> {
                &&& #[trigger] all_data@[j].1 == fresh
                &&& !has_day(start, all_data@[j].0)
            },
            forall|d: i32| has_day(start, d) ==> has_day(all_data@, d),
            forall|k: int| 0 <= k < i ==> has_day(all_data@, #[trigger] dates@[k]),
            forall|d: i32|
                has_day(all_data@, d) ==> has_day(start, d) || dates@.take(i as int).contains(d),
            days_unique(start) ==> days_unique(all_data@),
            forall|d: i32| #[trigger] day_value(all_data@, d, fresh) == day_value(start, d, fresh),
        decreases dates@.len() - i,
    {
        let ghost before = all_data@;
        get_or_insert_day(all_data, dates[i], fresh);
        proof {
            let d = dates@[i as int];
            let nd = new_days(start, dates@.take(i as int));
            assert(dates@.take(i + 1).drop_last() =~= dates@.take(i as int));
            assert(dates@.take(i + 1).last() == d);
            assert(has_day(before, d) <==> (has_day(start, d) || dates@.take(i as int).contains(d))) by {
                if dates@.take(i as int).contains(d) {
                    let k = choose|k: int| 0 <= k < dates@.take(i as int).len() && dates@.take(i as int)[k] == d;
                    assert(dates@[k] == d);
                }
            }
            if !has_day(before, d) {
                assert(new_days(start, dates@.take(i + 1)) == nd.push(d));
                assert(fresh_entries(nd.push(d), fresh) =~= fresh_entries(nd, fresh).push((d, fresh)));
                assert(all_data@ =~= start + fresh_entries(new_days(start, dates@.take(i + 1)), fresh));
            } else {
                assert(new_days(start, dates@.take(i + 1)) == nd);
            }
            if !has_day(before, dates@[i as int]) {
                assert forall|d: i32| #[trigger] day_value(all_data@, d, fresh) == day_value(start, d, fresh) by {
                    lemma_push_new_day_keeps_values(before, (dates@[i as int], fresh), fresh, d);
                }
            }
            assert(dates@.take(i + 1) =~= dates@.take(i as int).push(dates@[i as int]));
            assert forall|d: i32| has_day(start, d) implies has_day(all_data@, d) by {
                let j = choose|j: int| 0 <= j < before.len() && before[j].0 == d;
                assert(all_data@[j] == before[j]);
            }
            assert forall|k: int| 0 <= k < i + 1 implies has_day(all_data@, #[trigger] dates@[k]) by {
                if k < i {
                    let j = choose|j: int| 0 <= j < before.len() && before[j].0 == dates@[k];
                    assert(all_data@[j] == before[j]);
                }
            }
            assert forall|d: i32| has_day(all_data@, d) implies has_day(start, d)
                || dates@.take(i + 1).contains(d) by {
                let j = choose|j: int| 0 <= j < all_data@.len() && all_data@[j].0 == d;
                if j < before.len() {
                    assert(before[j] == all_data@[j]);
                    assert(has_day(before, d));
                    if !has_day(start, d) {
                        let w = choose|w: int| 0 <= w < dates@.take(i as int).len()
                            && dates@.take(i as int)[w] == d;
                        assert(dates@.take(i + 1)[w] == d);
                    }
                } else {
                    assert(d == dates@[i as int]);
                    assert(dates@.take(i + 1)[i as int] == d);
                }
            }
        }
        i = i + 1;
    }
    assert(dates@.take(dates@.len() as int) =~= dates@);
}

proof fn lemma_insert_keeps_days<V>(
    before: Seq<(i32, V)>,
    p: int,
    x: (i32, V),
    prefix: Seq<(i32, V)>,
)
    requires
        forall|d: i32| #[trigger] entries_of_day(before, d) == entries_of_day(prefix, d),
        days_sorted(before),
        0 <= p <= before.len(),
        forall|j: int| 0 <= j < p ==> before[j].0 <= x.0,
        p < before.len() ==> before[p].0 > x.0,
    ensures
        forall|d: i32| #[trigger]
            entries_of_day(before.insert(p, x), d) == entries_of_day(prefix.push(x), d),
{
    assert forall|d: i32| #[trigger]
        entries_of_day(before.insert(p, x), d) == entries_of_day(prefix.push(x), d) by {
        let pred = day_is::<V>(d);
        lemma_filter_insert(before, p, x, pred);
        prefix.lemma_filter_push(x, pred);
        assert(entries_of_day(before, d) == entries_of_day(prefix, d));
        let low = before.take(p).filter(pred);
        let high = before.skip(p).filter(pred);
        if d == x.0 {
            assert forall|j: int| 0 <= j < before.skip(p).len() implies !pred(
                #[trigger] before.skip(p)[j],
            ) by {
                assert(before.skip(p)[j] == before[p + j]);
                if j > 0 {
                    assert(before[p].0 <= before[p + j].0);
                }
            }
            lemma_filter_none(before.skip(p), pred);
            assert(low + seq![x] + high =~= (low + high).push(x));
        } else {
            assert(low + Seq::<(i32, V)>::empty() + high =~= low + high);
        }
    }
}

proof fn lemma_same_days_keeps_unique<V>(t: Seq<(i32, V)>, s: Seq<(i32, V)>)
    requires
        days_unique(s),
        days_sorted(t),
        forall|d: i32| #[trigger] entries_of_day(t, d) == entries_of_day(s, d),
    ensures
        days_unique(t),
{
    assert forall|i: int, j: int| 0 <= i < j < t.len() implies t[i].0 != t[j].0 by {
        if t[i].0 == t[j].0 {
            let d = t[i].0;
            let pred = day_is::<V>(d);
            let sub = t.subrange(i, j + 1);
            assert(t =~= t.take(i) + (sub + t.skip(j + 1)));
            Seq::filter_distributes_over_add(t.take(i), sub + t.skip(j + 1), pred);
            Seq::filter_distributes_over_add(sub, t.skip(j + 1), pred);
            assert(sub =~= seq![t[i]] + sub.drop_first());
            sub.drop_first().lemma_filter_prepend(t[i], pred);
            sub.drop_first().lemma_filter_contains(pred, j - i - 1);
            assert(sub.drop_first()[j - i - 1] == t[j]);
            assert(sub.filter(pred).len() >= 2) by {
                assert(sub.drop_first().filter(pred).contains(t[j]));
            }
            assert(entries_of_day(t, d).len() >= 2);
            assert(entries_of_day(s, d).len() >= 2);
            lemma_unique_has_one_entry(s, d);
        }
    }
}

proof fn lemma_unique_has_one_entry<V>(s: Seq<(i32, V)>, d: i32)
    requires
        days_unique(s),
    ensures
        entries_of_day(s, d).len() <= 1,
    decreases s.len(),
{
    reveal(Seq::filter);
    if s.len() > 0 {
        let rest = s.drop_last();
        assert(days_unique(rest));
        lemma_unique_has_one_entry(rest, d);
        if s.last().0 == d {
            assert forall|i: int| 0 <= i < rest.len() implies !day_is::<V>(d)(#[trigger] rest[i]) by {
                assert(s[i].0 != s[s.len() - 1].0);
            }
            lemma_filter_none(rest, day_is::<V>(d));
        }
    }
}

/// Law: a sorted table never lists a later day before an earlier one, and sorting keeps,
/// for each day, its entries and their order.
pub proof fn lemma_sorted_days_ascending<V>(r: Seq<(i32, V)>, s: Seq<(i32, V)>, i: int, j: int, d: i32)
    requires
        days_sorted(r),
        forall|e: i32| #[trigger] entries_of_day(r, e) == entries_of_day(s, e),
        0 <= i < j < r.len(),
    ensures
        r[i].0 <= r[j].0,
        r.filter(|x: (i32, V)| x.0 == d) == s.filter(|x: (i32, V)| x.0 == d),
{
    assert(entries_of_day(r, d) == entries_of_day(s, d));
    assert(day_is::<V>(d) =~= |x: (i32, V)| x.0 == d);
}

/// The table in ascending order of day; entries for the same day keep their order (a stable
/// sort, as `sort_by_key` is).
pub fn sort_days<V>(all_data: Vec<(i32, V)>) -> (r: Vec<(i32, V)>)
    ensures
        days_sorted(r@),
        r@.len() == all_data@.len(),
        forall|d: i32| #[trigger] entries_of_day(r@, d) == entries_of_day(all_data@, d),
        days_unique(all_data@) ==> days_unique(r@),
{
    let ghost orig = all_data@;
    let mut rest = all_data;
    let mut out: Vec<(i32, V)> = Vec::new();
    let n = rest.len();
    let mut i: usize = 0;
    while i < n
        invariant
            n == orig.len(),
            i <= n,
            rest@ =~= orig.skip(i as int),
            out@.len() == i,
            days_sorted(out@),
            forall|d: i32| #[trigger] entries_of_day(out@, d) == entries_of_day(orig.take(i as int), d),
        decreases n - i,
    {
        let x = rest.remove(0);
        let key = x.0;
        let mut p: usize = 0;
        while p < out.len() && out[p].0 <= key
            invariant
                p <= out@.len(),
                forall|j: int| 0 <= j < p ==> out@[j].0 <= key,
            decreases out@.len() - p,
        {
            p = p + 1;
        }
        let ghost before = out@;
        proof {
            assert(x == orig[i as int]);
            assert(orig.take(i as int + 1) =~= orig.take(i as int).push(x));
            lemma_insert_keeps_days(before, p as int, x, orig.take(i as int));
        }
        out.insert(p, x);
        proof {
            assert forall|a: int, b: int| 0 <= a < b < out@.len() implies out@[a].0
                <= out@[b].0 by {
                if b < p {
                } else if b == p {
                } else if a <= p {
                    assert(out@[b] == before[b - 1]);
                    assert(before[b - 1].0 >= key) by {
                        if (b - 1) > p {
                            assert(before[p as int].0 > key);
                        }
                    }
                } else {
                    assert(out@[a] == before[a - 1]);
                    assert(out@[b] == before[b - 1]);
                }
            }
            assert(rest@ =~= orig.skip(i as int + 1));
        }
        i = i + 1;
    }
    proof {
        assert(orig.take(n as int) =~= orig);
        if days_unique(orig) {
            lemma_same_days_keeps_unique(out@, orig);
        }
    }
    out
}

/// The value recorded for each of `dates`, in order: that of the day's first entry, or
/// `fresh` for a day the table lacks.
pub fn pick_days<V: Copy>(all_data: &Vec<(i32, V)>, dates: &Vec<i32>, fresh: V) -> (r: Vec<V>)
    ensures
        r@.len() == dates@.len(),
        forall|i: int| 0 <= i < dates@.len() ==> r@[i] == day_value(all_data@, #[trigger] dates@[i], fresh),
{
    let mut out: Vec<V> = Vec::new();
    let mut i: usize = 0;
    while i < dates.len()
        invariant
            i <= dates@.len(),
            out@.len() == i,
            forall|k: int| 0 <= k < i ==> out@[k] == day_value(all_data@, #[trigger] dates@[k], fresh),
        decreases dates@.len() - i,
    {
        let v = pick_day(all_data, dates[i], fresh);
        out.push(v);
        i = i + 1;
    }
    out
}

/// The value recorded for day `date`: that of its first entry, or `fresh` if it has none.
pub fn pick_day<V: Copy>(all_data: &Vec<(i32, V)>, date: i32, fresh: V) -> (r: V)
    ensures
        r == day_value(all_data@, date, fresh),
{
    match find_day(all_data, date) {
        Some(i) => {
            proof { lemma_day_value_at(all_data@, date, fresh, i as int); }
            all_data[i].1
        },
        None => fresh,
    }
}

} // verus!
