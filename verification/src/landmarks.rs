//! The layout of the landmark model and of its neighbour tables.

use crate::number::{decimal, decimal_text};
use crate::text::cat3;
use vstd::prelude::*;

verus! {

/// How many landmarks a face has.
pub const NUM_LMS: usize = 98;

/// How many neighbours a landmark has.
pub const NUM_NB: usize = 10;

/// The side of the grid of the model's output.
pub const GRID: usize = 8;

/// Whether a table tells, for each landmark, all the places where the neighbour table names it, in
/// order.
pub open spec fn is_reverse(neighbors: Seq<Vec<usize>>, reverse: Seq<Vec<(usize, usize)>>) -> bool {
    &&& reverse.len() == neighbors.len()
    &&& forall|t: int|
        0 <= t < reverse.len() ==> names_of(neighbors, t as usize, neighbors.len()) == (
        #[trigger] reverse[t])@
}

/// The places of one row that name a landmark.
pub open spec fn names_in_row(row: Seq<usize>, s: usize, t: usize, n: nat) -> Seq<(usize, usize)>
    decreases n,
{
    if n == 0 {
        Seq::empty()
    } else {
        let before = names_in_row(row, s, t, (n - 1) as nat);
        if row[n - 1] == t {
            before.push((s, (n - 1) as usize))
        } else {
            before
        }
    }
}

/// The places of the first `n` rows that name a landmark, in order.
pub open spec fn names_of(neighbors: Seq<Vec<usize>>, t: usize, n: nat) -> Seq<(usize, usize)>
    decreases n,
{
    if n == 0 {
        Seq::empty()
    } else {
        names_of(neighbors, t, (n - 1) as nat) + names_in_row(
            neighbors[n - 1]@,
            (n - 1) as usize,
            t,
            neighbors[n - 1]@.len(),
        )
    }
}

/// Turns the neighbour table round: for each landmark, the rows and slots that name it.
pub fn reverse_index(neighbors: &Vec<Vec<usize>>) -> (r: Vec<Vec<(usize, usize)>>)
    requires
        forall|s: int, k: int|
            0 <= s < neighbors@.len() && 0 <= k < neighbors@[s]@.len()
                ==> #[trigger] neighbors@[s]@[k] < neighbors@.len(),
    ensures
        is_reverse(neighbors@, r@),
{
    let n: usize = neighbors.len();
    let mut out: Vec<Vec<(usize, usize)>> = Vec::new();
    let mut t: usize = 0;
    while t < n
        invariant
            t <= n,
            n == neighbors@.len(),
            out@.len() == t,
            forall|x: int|
                0 <= x < t ==> names_of(neighbors@, x as usize, n as nat) == (#[trigger] out@[x])@,
        decreases n - t,
    {
        let mut list: Vec<(usize, usize)> = Vec::new();
        let mut s: usize = 0;
        assert(list@ =~= names_of(neighbors@, t, 0));
        while s < n
            invariant
                s <= n,
                n == neighbors@.len(),
                list@ == names_of(neighbors@, t, s as nat),
            decreases n - s,
        {
            let m: usize = neighbors[s].len();
            let ghost row = neighbors@[s as int]@;
            let ghost before = list@;
            let mut k: usize = 0;
            assert(list@ =~= before + names_in_row(row, s, t, 0));
            while k < m
                invariant
                    k <= m,
                    s < n,
                    n == neighbors@.len(),
                    row == neighbors@[s as int]@,
                    m == row.len(),
                    list@ == before + names_in_row(row, s, t, k as nat),
                decreases m - k,
            {
                if neighbors[s][k] == t {
                    list.push((s, k));
                    assert(list@ =~= before + names_in_row(row, s, t, (k + 1) as nat));
                }
                k += 1;
            }
            s += 1;
        }
        out.push(list);
        t += 1;
    }
    out
}

/// A shape as it is shown in messages.
pub open spec fn shown_shape(shape: Seq<usize>) -> Seq<char> {
    "["@ + shape_list(shape) + "]"@
}

pub open spec fn shape_list(shape: Seq<usize>) -> Seq<char>
    decreases shape.len(),
{
    if shape.len() == 0 {
        Seq::empty()
    } else if shape.len() == 1 {
        decimal(shape[0] as nat)
    } else {
        shape_list(shape.drop_last()) + ", "@ + decimal(shape.last() as nat)
    }
}

fn show_shape(shape: &Vec<usize>) -> (r: String)
    ensures
        r@ == shown_shape(shape@),
{
    let n: usize = shape.len();
    let mut s = String::new();
    let mut i: usize = 0;
    assert(shape@.take(0) =~= Seq::<usize>::empty());
    assert(s@ =~= shape_list(shape@.take(0)));
    while i < n
        invariant
            i <= n,
            n == shape@.len(),
            s@ == shape_list(shape@.take(i as int)),
        decreases n - i,
    {
        let ghost before = s@;
        let digits = decimal_text(shape[i] as u64);
        assert(shape@.take(i + 1).drop_last() =~= shape@.take(i as int));
        assert(shape@.take(i + 1).last() == shape@[i as int]);
        if i > 0 {
            s.append(", ");
        }
        s.append(digits.as_str());
        assert(s@ =~= shape_list(shape@.take(i + 1)));
        i += 1;
    }
    assert(shape@.take(n as int) =~= shape@);
    cat3("[", s.as_str(), "]")
}

/// The shape that output `i` of a landmark model has.
pub open spec fn wanted_shape(i: int) -> Seq<usize> {
    if i < 3 {
        seq![1usize, NUM_LMS, GRID, GRID]
    } else {
        seq![1usize, (NUM_LMS * NUM_NB) as usize, GRID, GRID]
    }
}

fn wanted(i: usize) -> (r: Vec<usize>)
    ensures
        r@ == wanted_shape(i as int),
{
    let mut v: Vec<usize> = Vec::new();
    v.push(1);
    if i < 3 {
        v.push(NUM_LMS);
    } else {
        v.push(NUM_LMS * NUM_NB);
    }
    v.push(GRID);
    v.push(GRID);
    assert(v@ =~= wanted_shape(i as int));
    v
}

fn same_shape(a: &Vec<usize>, b: &Vec<usize>) -> (r: bool)
    ensures
        r == (a@ == b@),
{
    if a.len() != b.len() {
        return false;
    }
    let n: usize = a.len();
    let mut i: usize = 0;
    while i < n
        invariant
            i <= n,
            n == a@.len(),
            n == b@.len(),
            forall|j: int| 0 <= j < i ==> a@[j] == b@[j],
        decreases n - i,
    {
        if a[i] != b[i] {
            return false;
        }
        i += 1;
    }
    assert(a@ =~= b@);
    true
}

/// Whether the first `n` outputs have the right shapes.
pub open spec fn shapes_fit(shapes: Seq<Vec<usize>>, n: int) -> bool {
    forall|i: int| 0 <= i < n ==> (#[trigger] shapes[i])@ == wanted_shape(i)
}

/// Checks that a landmark model has the outputs that are read.
pub fn check_landmark_outputs(shapes: &Vec<Vec<usize>>) -> (r: Result<(), String>)
    ensures
        match r {
            Ok(()) => shapes@.len() >= 5 && shapes_fit(shapes@, 5),
            Err(e) => if shapes@.len() < 5 {
                e@ == "landmark model emitted "@ + decimal(shapes@.len())
                    + " outputs, expected 5 (PIPNet cls/x/y/nb_x/nb_y)"@
            } else {
                exists|i: int|
                    {
                        &&& 0 <= i < 5
                        &&& shapes_fit(shapes@, i)
                        &&& (#[trigger] shapes@[i])@ != wanted_shape(i)
                        &&& e@ == "landmark output "@ + decimal(i as nat) + " has shape "@
                            + shown_shape(shapes@[i]@) + ", expected "@ + shown_shape(
                            wanted_shape(i),
                        ) + " (PIPNet WFLW 2023 export)"@
                    }
            },
        },
{
    let n: usize = shapes.len();
    if n < 5 {
        let digits = decimal_text(n as u64);
        return Err(
            cat3(
                "landmark model emitted ",
                digits.as_str(),
                " outputs, expected 5 (PIPNet cls/x/y/nb_x/nb_y)",
            ),
        );
    }
    let mut i: usize = 0;
    while i < 5
        invariant
            i <= 5,
            n >= 5,
            n == shapes@.len(),
            shapes_fit(shapes@, i as int),
        decreases 5 - i,
    {
        let expected = wanted(i);
        if !same_shape(&shapes[i], &expected) {
            let digits = decimal_text(i as u64);
            let found = show_shape(&shapes[i]);
            let want = show_shape(&expected);
            let mut e = cat3("landmark output ", digits.as_str(), " has shape ");
            e.append(found.as_str());
            e.append(", expected ");
            e.append(want.as_str());
            e.append(" (PIPNet WFLW 2023 export)");
            assert(shapes@[i as int]@ != wanted_shape(i as int));
            return Err(e);
        }
        i += 1;
    }
    Ok(())
}

} // verus!
