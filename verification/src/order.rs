//! Stable sorting by text keys.

use crate::text::{rank_text, text_order_is_total, text_order_is_transitive, text_rank, texts, Rank};
use vstd::prelude::*;

verus! {

/// Whether place `a` comes before place `b`: by its key, or as it stood where the keys are equal.
pub open spec fn keyed_before(keys: Seq<Seq<char>>, a: int, b: int) -> bool {
    text_rank(keys[a], keys[b]) == Rank::Less || (keys[a] == keys[b] && a < b)
}

/// Whether a list holds places from `lo` up to `hi`, all of them, in order.
pub open spec fn lists_places(order: Seq<usize>, keys: Seq<Seq<char>>, lo: int, hi: int) -> bool {
    &&& order.len() == hi - lo
    &&& forall|i: int| 0 <= i < order.len() ==> lo <= #[trigger] order[i] < hi
    &&& forall|i: int, j: int|
        0 <= i < j < order.len() ==> keyed_before(
            keys,
            #[trigger] order[i] as int,
            #[trigger] order[j] as int,
        )
}

/// Whether a list is the stable order of the keys.
pub open spec fn is_stable_order(order: Seq<usize>, keys: Seq<Seq<char>>) -> bool {
    lists_places(order, keys, 0, keys.len() as int)
}

pub proof fn keyed_before_is_transitive(keys: Seq<Seq<char>>, a: int, b: int, c: int)
    requires
        keyed_before(keys, a, b),
        keyed_before(keys, b, c),
    ensures
        keyed_before(keys, a, c),
{
    if text_rank(keys[a], keys[b]) == Rank::Less && text_rank(keys[b], keys[c]) == Rank::Less {
        text_order_is_transitive(keys[a], keys[b], keys[c]);
    }
}

/// The stable order has no place twice.
pub proof fn stable_order_is_a_permutation(order: Seq<usize>, keys: Seq<Seq<char>>)
    requires
        is_stable_order(order, keys),
    ensures
        order.no_duplicates(),
        forall|i: int| 0 <= i < order.len() ==> #[trigger] order[i] < keys.len(),
{
    assert forall|i: int, j: int| 0 <= i < j < order.len() implies order[i] != order[j] by {
        text_order_is_total(keys[order[i] as int], keys[order[j] as int]);
        assert(keyed_before(keys, order[i] as int, order[j] as int));
    }
}

fn merge_places(
    keys: &Vec<String>,
    left: &Vec<usize>,
    right: &Vec<usize>,
    Ghost(lo): Ghost<int>,
    Ghost(mid): Ghost<int>,
    Ghost(hi): Ghost<int>,
) -> (r: Vec<usize>)
    requires
        0 <= lo <= mid <= hi <= keys@.len(),
        lists_places(left@, texts(keys@), lo, mid),
        lists_places(right@, texts(keys@), mid, hi),
    ensures
        lists_places(r@, texts(keys@), lo, hi),
{
    let ghost ks = texts(keys@);
    let n: usize = left.len();
    let m: usize = right.len();
    let mut out: Vec<usize> = Vec::new();
    let mut i: usize = 0;
    let mut j: usize = 0;
    while i < n || j < m
        invariant
            i <= n,
            j <= m,
            n == left@.len(),
            m == right@.len(),
            ks == texts(keys@),
            0 <= lo <= mid <= hi <= keys@.len(),
            lists_places(left@, ks, lo, mid),
            lists_places(right@, ks, mid, hi),
            out@.len() == i + j,
            forall|a: int| 0 <= a < out@.len() ==> lo <= #[trigger] out@[a] < hi,
            forall|a: int, b: int|
                0 <= a < b < out@.len() ==> keyed_before(
                    ks,
                    #[trigger] out@[a] as int,
                    #[trigger] out@[b] as int,
                ),
            forall|a: int, b: int|
                0 <= a < out@.len() && i <= b < n ==> keyed_before(
                    ks,
                    #[trigger] out@[a] as int,
                    #[trigger] left@[b] as int,
                ),
            forall|a: int, b: int|
                0 <= a < out@.len() && j <= b < m ==> keyed_before(
                    ks,
                    #[trigger] out@[a] as int,
                    #[trigger] right@[b] as int,
                ),
        decreases n - i + m - j,
    {
        let take_right = if i == n {
            true
        } else if j == m {
            false
        } else {
            matches!(
                rank_text(keys[right[j]].as_str(), keys[left[i]].as_str()),
                Rank::Less
            )
        };
        let ghost before = out@;
        if take_right {
            let x: usize = right[j];
            proof {
                assert(ks[x as int] == keys@[x as int]@);
                assert forall|b: int| i <= b < n implies keyed_before(
                    ks,
                    x as int,
                    #[trigger] left@[b] as int,
                ) by {
                    let first = left@[i as int] as int;
                    assert(ks[first] == keys@[first]@);
                    assert(keyed_before(ks, x as int, first));
                    if b > i {
                        keyed_before_is_transitive(ks, x as int, first, left@[b] as int);
                    }
                }
            }
            out.push(x);
            j += 1;
        } else {
            let x: usize = left[i];
            proof {
                assert(ks[x as int] == keys@[x as int]@);
                assert forall|b: int| j <= b < m implies keyed_before(
                    ks,
                    x as int,
                    #[trigger] right@[b] as int,
                ) by {
                    let first = right@[j as int] as int;
                    assert(ks[first] == keys@[first]@);
                    text_order_is_total(ks[first], ks[x as int]);
                    text_order_is_total(ks[x as int], ks[first]);
                    assert(keyed_before(ks, x as int, first));
                    if b > j {
                        keyed_before_is_transitive(ks, x as int, first, right@[b] as int);
                    }
                }
            }
            out.push(x);
            i += 1;
        }
    }
    out
}

fn sort_places(keys: &Vec<String>, lo: usize, hi: usize) -> (r: Vec<usize>)
    requires
        lo <= hi <= keys@.len(),
    ensures
        lists_places(r@, texts(keys@), lo as int, hi as int),
    decreases hi - lo,
{
    if hi - lo <= 1 {
        let mut out: Vec<usize> = Vec::new();
        if lo < hi {
            out.push(lo);
        }
        return out;
    }
    let mid: usize = lo + (hi - lo) / 2;
    let left = sort_places(keys, lo, mid);
    let right = sort_places(keys, mid, hi);
    merge_places(keys, &left, &right, Ghost(lo as int), Ghost(mid as int), Ghost(hi as int))
}

/// The places of the keys in their order; equal keys stay as they stood.
pub fn stable_order(keys: &Vec<String>) -> (r: Vec<usize>)
    ensures
        is_stable_order(r@, texts(keys@)),
{
    sort_places(keys, 0, keys.len())
}

} // verus!
