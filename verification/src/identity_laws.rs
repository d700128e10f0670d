//! What finding and grouping faces promises.

use crate::identity::{
    choose_detector, hex_char, hex_text, is_clustering, is_side, kept_apart, told, DetectorOrigin,
    LabelTally,
};
use crate::landmarks::{
    is_reverse, names_in_row, names_of, shape_list, shapes_fit, shown_shape, wanted_shape,
};
use crate::number::decimal;
use crate::text::{text_rank, Rank};
use vstd::prelude::*;

verus! {

/// Of faces that are listed best first, the best is kept. A face that overlaps it is not, and one
/// that overlaps no better face is.
pub proof fn better_faces_win<F: Fn(usize, usize) -> bool>(
    n: nat,
    overlaps: F,
    kept: Seq<usize>,
    p: usize,
)
    requires
        kept_apart(n, overlaps, kept),
        0 < n,
        p < n,
    ensures
        kept.len() > 0,
        kept[0] == 0,
        p > 0 && !told(overlaps, 0, p, false) ==> !kept.contains(p),
        (forall|b: usize| b < p ==> !#[trigger] told(overlaps, b, p, true)) ==> kept.contains(p),
        kept.len() <= n,
{
    if !kept.contains(0) {
        let i = choose|i: int|
            0 <= i < kept.len() && kept[i] < 0 && told(overlaps, #[trigger] kept[i], 0, true);
        assert(kept[i] < 0);
    }
    let z = kept.index_of(0);
    assert(kept[z] == 0);
    if z > 0 {
        assert(kept[0] < kept[z]);
    }
    if p > 0 && kept.contains(p) {
        let i = kept.index_of(p);
        assert(kept[i] == p);
        assert(told(overlaps, kept[0], kept[i], false));
    }
    if !kept.contains(p) {
        let i = choose|i: int|
            0 <= i < kept.len() && kept[i] < p && told(overlaps, #[trigger] kept[i], p, true);
        assert(told(overlaps, kept[i], p, true));
    }
    lemma_rising(kept, kept.len() - 1);
}

proof fn lemma_rising(kept: Seq<usize>, i: int)
    requires
        forall|a: int, b: int| 0 <= a < b < kept.len() ==> #[trigger] kept[a] < #[trigger] kept[b],
        -1 <= i < kept.len(),
    ensures
        i >= 0 ==> kept[i] >= i,
    decreases i + 1,
{
    if i > 0 {
        lemma_rising(kept, i - 1);
        assert(kept[i - 1] < kept[i]);
    }
}

/// The first face founds the first cluster, and a face that is like it joins it. Two faces of one
/// cluster are each like its founder, or are the founder. Faces that are like none before them
/// stand alone.
pub proof fn faces_join_those_they_are_like<F: Fn(usize, usize) -> bool>(
    alike: F,
    clusters: Seq<usize>,
    founders: Seq<usize>,
    i: usize,
    j: usize,
)
    requires
        is_clustering(alike, clusters, founders),
        i < j < clusters.len(),
    ensures
        clusters[0] == 0,
        founders[0] == 0,
        !told(alike, 0, j, false) ==> clusters[j as int] == 0,
        clusters[i as int] == clusters[j as int] ==> told(
            alike,
            founders[clusters[j as int] as int],
            j,
            true,
        ),
        (forall|a: usize| a < j ==> !#[trigger] told(alike, a, j, true)) ==> clusters[i as int]
            != clusters[j as int],
        clusters[i as int] != clusters[j as int] && founders[clusters[j as int] as int] == j ==> told(
            alike,
            founders[clusters[i as int] as int],
            j,
            false,
        ),
{
    let c = clusters[0];
    assert(founders[c as int] <= 0);
    if c > 0 {
        assert(founders[0] < founders[c as int]);
    }
    assert(founders[0] < clusters.len());
    let cj = clusters[j as int];
    let ci = clusters[i as int];
    if cj > 0 {
        assert(told(alike, founders[0], j, false));
    }
    if ci == cj {
        assert(founders[ci as int] <= i);
        assert(founders[cj as int] < j);
        assert(told(alike, founders[cj as int], j, true));
    } else if founders[cj as int] == j {
        assert(founders[ci as int] <= i);
        if ci > cj {
            assert(founders[cj as int] < founders[ci as int]);
        }
        assert(told(alike, founders[ci as int], j, false));
    }
}

/// Every byte is written as two digits, its high half first; a digit is `0` to `9` or `a` to `f`
/// by its value.
pub proof fn bytes_are_written_as_two_digits(bytes: Seq<u8>, i: int, d: int)
    requires
        0 <= i < bytes.len(),
        0 <= d < 16,
    ensures
        hex_text(bytes).len() == 2 * bytes.len(),
        hex_text(bytes)[2 * i] == hex_char(bytes[i] as int / 16),
        hex_text(bytes)[2 * i + 1] == hex_char(bytes[i] as int % 16),
        d < 10 ==> '0' <= hex_char(d) && hex_char(d) <= '9' && hex_char(d) as int - '0' as int == d,
        d >= 10 ==> 'a' <= hex_char(d) && hex_char(d) <= 'f' && hex_char(d) as int - 'a' as int + 10
            == d,
    decreases bytes.len(),
{
    let rest = bytes.drop_last();
    if i < rest.len() {
        bytes_are_written_as_two_digits(rest, i, d);
        assert(rest[i] == bytes[i]);
    } else if rest.len() > 0 {
        bytes_are_written_as_two_digits(rest, 0, d);
    } else {
        assert(hex_text(rest).len() == 0);
    }
}

/// No two origins of a detector are written with the same word.
pub proof fn origins_have_their_words(a: DetectorOrigin, b: DetectorOrigin)
    ensures
        a != b ==> a.word() != b.word(),
        a is Missing <==> a.word() == "none"@,
        a is Override <==> a.word() == "override"@,
        a is Bundled <==> a.word() == "bundled"@,
{
    reveal_strlit("override");
    reveal_strlit("bundled");
    reveal_strlit("bundled_fallback");
    reveal_strlit("none");
    assert("override"@.len() == 8 && "bundled"@.len() == 7 && "bundled_fallback"@.len() == 16
        && "none"@.len() == 4);
}

proof fn lemma_row(row: Seq<usize>, s: usize, t: usize, n: nat, a: usize, k: usize)
    requires
        n <= row.len() <= usize::MAX,
    ensures
        names_in_row(row, s, t, n).contains((a, k)) <==> a == s && k < n && row[k as int] == t,
        forall|i: int|
            0 <= i < names_in_row(row, s, t, n).len() ==> (#[trigger] names_in_row(
                row,
                s,
                t,
                n,
            )[i]).0 == s && names_in_row(row, s, t, n)[i].1 < n,
        forall|i: int, j: int|
            0 <= i < j < names_in_row(row, s, t, n).len() ==> (#[trigger] names_in_row(
                row,
                s,
                t,
                n,
            )[i]).1 < (#[trigger] names_in_row(row, s, t, n)[j]).1,
    decreases n,
{
    if n > 0 {
        let m = (n - 1) as nat;
        lemma_row(row, s, t, m, a, k);
        let before = names_in_row(row, s, t, m);
        let all = names_in_row(row, s, t, n);
        if row[n - 1] == t {
            let last = (s, (n - 1) as usize);
            assert(all == before.push(last));
            if before.contains((a, k)) {
                let i = before.index_of((a, k));
                assert(all[i] == (a, k));
            }
            if (a, k) == last {
                assert(all[before.len() as int] == (a, k));
            }
            if all.contains((a, k)) && (a, k) != last {
                let i = all.index_of((a, k));
                assert(before[i] == (a, k));
            }
        }
    }
}

/// Whether one place of a table comes before another: by its row, and by its slot in the row.
pub open spec fn place_before(a: (usize, usize), b: (usize, usize)) -> bool {
    a.0 < b.0 || a.0 == b.0 && a.1 < b.1
}

proof fn lemma_names(neighbors: Seq<Vec<usize>>, t: usize, n: nat, s: usize, k: usize)
    requires
        n <= neighbors.len() <= usize::MAX,
    ensures
        names_of(neighbors, t, n).contains((s, k)) <==> s < n && k < neighbors[s as int]@.len()
            && neighbors[s as int]@[k as int] == t,
        forall|i: int|
            0 <= i < names_of(neighbors, t, n).len() ==> (#[trigger] names_of(
                neighbors,
                t,
                n,
            )[i]).0 < n,
        forall|i: int, j: int|
            0 <= i < j < names_of(neighbors, t, n).len() ==> place_before(
                #[trigger] names_of(neighbors, t, n)[i],
                #[trigger] names_of(neighbors, t, n)[j],
            ),
    decreases n,
{
    if n > 0 {
        let m = (n - 1) as nat;
        lemma_names(neighbors, t, m, s, k);
        let before = names_of(neighbors, t, m);
        let row = neighbors[n - 1]@;
        assert(neighbors[n - 1].len() <= usize::MAX);
        lemma_row(row, (n - 1) as usize, t, row.len(), s, k);
        let here = names_in_row(row, (n - 1) as usize, t, row.len());
        let all = names_of(neighbors, t, n);
        assert(all == before + here);
        if before.contains((s, k)) {
            let i = before.index_of((s, k));
            assert(all[i] == (s, k));
        }
        if here.contains((s, k)) {
            let i = here.index_of((s, k));
            assert(all[before.len() + i] == (s, k));
        }
        if all.contains((s, k)) {
            let i = all.index_of((s, k));
            if i < before.len() {
                assert(before[i] == (s, k));
            } else {
                assert(here[i - before.len()] == (s, k));
            }
        }
        assert forall|i: int, j: int| 0 <= i < j < all.len() implies place_before(
            #[trigger] all[i],
            #[trigger] all[j],
        ) by {
            if j < before.len() {
                assert(place_before(before[i], before[j]));
            } else if i < before.len() {
                assert(all[i] == before[i]);
                assert(all[j] == here[j - before.len()]);
            } else {
                assert(all[i] == here[i - before.len()]);
                assert(all[j] == here[j - before.len()]);
            }
        }
    }
}

/// The reverse table holds, for a landmark, exactly the places where it is named, and these in
/// order.
pub proof fn reverse_tables_find_every_name(
    neighbors: Seq<Vec<usize>>,
    reverse: Seq<Vec<(usize, usize)>>,
    t: usize,
    s: usize,
    k: usize,
    i: int,
    j: int,
)
    requires
        is_reverse(neighbors, reverse),
        neighbors.len() <= usize::MAX,
        t < reverse.len(),
    ensures
        reverse[t as int]@.contains((s, k)) <==> s < neighbors.len() && k
            < neighbors[s as int]@.len() && neighbors[s as int]@[k as int] == t,
        0 <= i < j < reverse[t as int]@.len() ==> place_before(
            reverse[t as int]@[i],
            reverse[t as int]@[j],
        ),
{
    assert(names_of(neighbors, t, neighbors.len()) == reverse[t as int]@);
    lemma_names(neighbors, t, neighbors.len(), s, k);
}

/// A landmark model gives five outputs over a grid of eight by eight cells: a score and two offsets
/// for each of 98 landmarks, and two offsets for each of ten neighbours of each.
pub proof fn landmark_models_have_five_outputs(shapes: Seq<Vec<usize>>, i: int)
    requires
        0 <= i < 5,
    ensures
        wanted_shape(i).len() == 4,
        wanted_shape(i)[0] == 1,
        wanted_shape(i)[1] == 98 * (if i < 3 { 1int } else { 10int }),
        wanted_shape(i)[2] == 8,
        wanted_shape(i)[3] == 8,
        shapes_fit(shapes, 5) ==> shapes[i]@ == wanted_shape(i),
        shapes_fit(shapes, i + 1) <==> shapes_fit(shapes, i) && shapes[i]@ == wanted_shape(i),
{
}

/// A shape is shown in brackets, with a comma and a space before each number but the first.
pub proof fn shapes_are_shown_in_brackets(shape: Seq<usize>, n: usize)
    ensures
        shown_shape(Seq::empty()) == "["@ + "]"@,
        shown_shape(seq![n]) == "["@ + decimal(n as nat) + "]"@,
        shape.len() > 0 ==> shape_list(shape.push(n)) == shape_list(shape) + ", "@ + decimal(
            n as nat,
        ),
        shown_shape(shape) == "["@ + shape_list(shape) + "]"@,
{
    assert("["@ + Seq::<char>::empty() =~= "["@);
    assert(shape.push(n).drop_last() =~= shape);
    assert(shape.push(n).last() == n);
}

/// A configured detector that loads is used. Otherwise the one that comes with the program is, as a
/// fallback where one was configured; without either there is none, and the whole image is scaled.
pub proof fn detectors_are_chosen_in_order(
    configured: Option<bool>,
    bundled: bool,
    r: DetectorOrigin,
    method: &str,
)
    requires
        call_ensures(choose_detector, (configured, bundled), r),
        call_ensures(DetectorOrigin::align_method, (r,), method),
    ensures
        r is Override <==> configured == Some(true),
        r is Missing <==> configured != Some(true) && !bundled,
        r is BundledFallback <==> configured == Some(false) && bundled,
        r is Bundled <==> configured is None && bundled,
        r is Missing ==> method@ == "resize_112"@,
        !(r is Missing) ==> method@ == "yunet_112"@,
{
    if configured is Some {
        let loads = configured->0;
        assert(configured == Some(loads));
    }
}

/// A square grid has as many cells as its side times its side, and so one side.
pub proof fn grids_have_one_side(n: nat, a: nat, b: nat)
    ensures
        is_side(n, a) <==> a > 0 && a * a == n,
        is_side(n, a) && is_side(n, b) ==> a == b,
{
    if is_side(n, a) && is_side(n, b) {
        assert(a == b) by (nonlinear_arith)
            requires
                a * a == b * b,
                a > 0,
                b > 0,
        ;
    }
}

/// The dominant label was seen at least as often as every other, and comes last by name among those
/// that were seen as often.
pub proof fn dominant_labels_were_seen_most(tally: &LabelTally, label: String, count: u64, k: Seq<char>)
    requires
        call_ensures(LabelTally::dominant, (tally,), Some((label, count))),
        tally.counts@.contains_key(k),
    ensures
        tally.counts@.contains_key(label@),
        tally.counts@[label@] == count,
        tally.counts@[k] <= count,
        tally.counts@[k] == count ==> text_rank(label@, k) != Rank::Less,
{
}

} // verus!
