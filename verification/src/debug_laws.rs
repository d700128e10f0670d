//! What the log of events promises, and the order that lists are put into.

use crate::debug::{
    distinct, distinct_keeps_the_events, in_places, is_history, last_of, ring_after, times,
    EventModel,
};
use crate::order::is_stable_order;
use crate::text::{text_order_is_total, text_rank, Rank};
use vstd::prelude::*;
use vstd::set_lib::{lemma_int_range, lemma_subset_equality, set_int_range};

verus! {

/// An order holds every place once. The keys never go down along it, and equal keys stay as they
/// stood.
pub proof fn orders_hold_every_place(order: Seq<usize>, keys: Seq<Seq<char>>, i: int, j: int)
    requires
        is_stable_order(order, keys),
        keys.len() <= usize::MAX,
    ensures
        order.len() == keys.len(),
        order.no_duplicates(),
        forall|p: usize| p < keys.len() ==> #[trigger] order.contains(p),
        0 <= i < j < order.len() ==> {
            let a = order[i];
            let b = order[j];
            &&& a < keys.len() && b < keys.len()
            &&& text_rank(keys[a as int], keys[b as int]) != Rank::Greater
            &&& keys[a as int] == keys[b as int] ==> a < b
        },
{
    assert forall|x: int, y: int| 0 <= x < y < order.len() implies order[x] != order[y] && text_rank(
        keys[#[trigger] order[x] as int],
        keys[#[trigger] order[y] as int],
    ) != Rank::Greater by {
        text_order_is_total(keys[order[x] as int], keys[order[y] as int]);
        text_order_is_total(keys[order[x] as int], keys[order[x] as int]);
    }
    let n = keys.len() as int;
    let s = order.map_values(|p: usize| p as int);
    assert(s.no_duplicates()) by {
        assert forall|x: int, y: int| 0 <= x < s.len() && 0 <= y < s.len() && x != y implies s[x]
            != s[y] by {
            if x < y {
                assert(order[x] != order[y]);
            } else {
                assert(order[y] != order[x]);
            }
        }
    }
    assert(order.no_duplicates()) by {
        assert forall|x: int, y: int|
            0 <= x < order.len() && 0 <= y < order.len() && x != y implies order[x] != order[y] by {
            assert(s[x] != s[y]);
        }
    }
    s.unique_seq_to_set();
    let whole = set_int_range(0, n);
    lemma_int_range(0, n);
    assert(s.to_set().subset_of(whole)) by {
        assert forall|v: int| s.to_set().contains(v) implies whole.contains(v) by {
            let x = s.index_of(v);
            assert(s[x] == v);
            assert(0 <= order[x] < n);
        }
    }
    lemma_subset_equality(s.to_set(), whole);
    assert forall|p: usize| p < keys.len() implies #[trigger] order.contains(p) by {
        assert(whole.contains(p as int));
        assert(s.to_set().contains(p as int));
        let x = s.index_of(p as int);
        assert(s[x] == p as int);
        assert(order[x] == p);
    }
    if 0 <= i < j < order.len() {
        let a = keys[order[i] as int];
        let b = keys[order[j] as int];
        text_order_is_total(a, b);
        text_order_is_total(a, a);
    }
}

/// A ring with room keeps all its events. One that is full loses its oldest, and the others move
/// up; the new one always comes last.
pub proof fn full_rings_lose_their_oldest(events: Seq<EventModel>, max: nat, e: EventModel, i: int)
    ensures
        ring_after(events, max, e).len() > 0,
        ring_after(events, max, e).last() == e,
        events.len() < max ==> ring_after(events, max, e).len() == events.len() + 1,
        0 < events.len() && max <= events.len() ==> ring_after(events, max, e).len()
            == events.len(),
        0 <= i < events.len() < max ==> ring_after(events, max, e)[i] == events[i],
        max <= events.len() && 0 < i < events.len() ==> ring_after(events, max, e)[i - 1]
            == events[i],
{
}

/// Whether the times of a list never go down.
pub open spec fn by_time(s: Seq<EventModel>) -> bool {
    forall|i: int, j: int|
        0 <= i < j < s.len() ==> text_rank((#[trigger] s[i]).ts, (#[trigger] s[j]).ts)
            != Rank::Greater
}

proof fn lemma_distinct_by_time(s: Seq<EventModel>)
    requires
        by_time(s),
    ensures
        by_time(distinct(s)),
    decreases s.len(),
{
    if s.len() > 0 {
        let rest = s.drop_last();
        assert(by_time(rest)) by {
            assert forall|i: int, j: int| 0 <= i < j < rest.len() implies text_rank(
                (#[trigger] rest[i]).ts,
                (#[trigger] rest[j]).ts,
            ) != Rank::Greater by {
                assert(rest[i] == s[i] && rest[j] == s[j]);
            }
        }
        lemma_distinct_by_time(rest);
        let d = distinct(rest);
        distinct_keeps_the_events(rest);
        if !d.contains(s.last()) {
            let all = d.push(s.last());
            assert forall|i: int, j: int| 0 <= i < j < all.len() implies text_rank(
                (#[trigger] all[i]).ts,
                (#[trigger] all[j]).ts,
            ) != Rank::Greater by {
                if j < d.len() {
                    assert(text_rank(d[i].ts, d[j].ts) != Rank::Greater);
                } else {
                    assert(d.contains(d[i]));
                    let k = rest.index_of(d[i]);
                    assert(s[k] == d[i]);
                    assert(text_rank(s[k].ts, s[s.len() - 1].ts) != Rank::Greater);
                }
            }
        }
    }
}

/// A history shows events that were noted, each once, the oldest first, and no more than was asked
/// for. An event is left out only where as many as were asked for are shown, and none of these is
/// older.
pub proof fn histories_show_the_latest(
    all: Seq<EventModel>,
    limit: nat,
    r: Seq<EventModel>,
    e: EventModel,
    i: int,
)
    requires
        is_history(all, limit, r),
        all.len() <= usize::MAX,
    ensures
        r.len() <= limit,
        r.no_duplicates(),
        by_time(r),
        r.contains(e) ==> all.contains(e),
        all.contains(e) && !r.contains(e) ==> r.len() == limit,
        all.contains(e) && !r.contains(e) && 0 <= i < r.len() ==> text_rank(e.ts, r[i].ts)
            != Rank::Greater,
{
    let order = choose|order: Seq<usize>| #[trigger]
        is_stable_order(order, times(all)) && r == last_of(
            distinct(in_places(all, order)),
            limit,
        );
    let s = in_places(all, order);
    let d = distinct(s);
    orders_hold_every_place(order, times(all), 0, 0);
    assert(by_time(s)) by {
        assert forall|x: int, y: int| 0 <= x < y < s.len() implies text_rank(
            (#[trigger] s[x]).ts,
            (#[trigger] s[y]).ts,
        ) != Rank::Greater by {
            orders_hold_every_place(order, times(all), x, y);
        }
    }
    lemma_distinct_by_time(s);
    distinct_keeps_the_events(s);
    let cut = if d.len() > limit {
        d.len() - limit
    } else {
        0
    };
    assert(r =~= d.skip(cut));
    assert(by_time(r)) by {
        assert forall|x: int, y: int| 0 <= x < y < r.len() implies text_rank(
            (#[trigger] r[x]).ts,
            (#[trigger] r[y]).ts,
        ) != Rank::Greater by {
            assert(r[x] == d[x + cut] && r[y] == d[y + cut]);
        }
    }
    assert(r.no_duplicates()) by {
        assert forall|x: int, y: int|
            0 <= x < r.len() && 0 <= y < r.len() && x != y implies r[x] != r[y] by {
            assert(r[x] == d[x + cut] && r[y] == d[y + cut]);
        }
    }
    if r.contains(e) {
        let k = r.index_of(e);
        assert(d[k + cut] == e);
        assert(d.contains(e));
        assert(s.contains(e));
        let m = s.index_of(e);
        assert(all[order[m] as int] == e);
    }
    if all.contains(e) && !r.contains(e) {
        let p = all.index_of(e);
        assert(order.contains(p as usize));
        let m = order.index_of(p as usize);
        assert(s[m] == e);
        assert(s.contains(e));
        assert(d.contains(e));
        let k = d.index_of(e);
        if k >= cut {
            assert(r[k - cut] == e);
        }
        if 0 <= i < r.len() {
            assert(r[i] == d[i + cut]);
        }
    }
}

} // verus!
