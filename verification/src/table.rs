//! A table of rows under text keys, kept in the order of the keys.

use crate::text::{
    rank_text, text_order_is_total, text_order_is_transitive, text_rank, texts, Rank,
};
use vstd::prelude::*;

verus! {

/// Rows under distinct keys, in the text order of the keys.
#[derive(Debug)]
pub struct Table<V> {
    rows: Vec<(String, V)>,
}

/// Strictly increasing in the text order.
pub open spec fn in_text_order(keys: Seq<Seq<char>>) -> bool {
    forall|i: int, j: int|
        0 <= i < j < keys.len() ==> text_rank(#[trigger] keys[i], #[trigger] keys[j]) == Rank::Less
}

spec fn row_keys<V>(rows: Seq<(String, V)>) -> Seq<Seq<char>> {
    rows.map_values(|r: (String, V)| r.0@)
}

spec fn row_map<V>(rows: Seq<(String, V)>) -> Map<Seq<char>, V> {
    Map::new(
        |k: Seq<char>| row_keys(rows).contains(k),
        |k: Seq<char>| rows[row_keys(rows).index_of(k)].1,
    )
}

impl<V> View for Table<V> {
    type V = Map<Seq<char>, V>;

    closed spec fn view(&self) -> Map<Seq<char>, V> {
        row_map(self.rows@)
    }
}

proof fn lemma_row<V>(rows: Seq<(String, V)>, i: int)
    requires
        in_text_order(row_keys(rows)),
        0 <= i < rows.len(),
    ensures
        row_map(rows).contains_key(rows[i].0@),
        row_map(rows)[rows[i].0@] == rows[i].1,
        forall|j: int| 0 <= j < rows.len() && (#[trigger] rows[j]).0@ == rows[i].0@ ==> j == i,
{
    let ks = row_keys(rows);
    let k = rows[i].0@;
    assert(ks[i] == k);
    let j = ks.index_of(k);
    assert(ks[j] == k);
    text_order_is_total(k, k);
    assert forall|j: int| 0 <= j < rows.len() && (#[trigger] rows[j]).0@ == k implies j == i by {
        assert(ks[j] == k);
        if j < i {
            assert(text_rank(ks[j], ks[i]) == Rank::Less);
        } else if i < j {
            assert(text_rank(ks[i], ks[j]) == Rank::Less);
        }
    }
    assert(rows[j].0@ == k);
}

proof fn lemma_absent<V>(rows: Seq<(String, V)>, p: int, k: Seq<char>)
    requires
        in_text_order(row_keys(rows)),
        0 <= p <= rows.len(),
        p > 0 ==> text_rank(rows[p - 1].0@, k) == Rank::Less,
        p < rows.len() ==> text_rank(rows[p].0@, k) == Rank::Greater,
    ensures
        !row_map(rows).contains_key(k),
{
    let ks = row_keys(rows);
    if ks.contains(k) {
        let j = ks.index_of(k);
        assert(ks[j] == k);
        text_order_is_total(k, k);
        if j < p - 1 {
            assert(text_rank(ks[j], ks[p - 1]) == Rank::Less);
            text_order_is_total(k, ks[p - 1]);
        } else if j > p {
            assert(text_rank(ks[p], ks[j]) == Rank::Less);
        }
    }
}

proof fn lemma_set_row<V>(rows: Seq<(String, V)>, i: int, row: (String, V))
    requires
        in_text_order(row_keys(rows)),
        0 <= i < rows.len(),
        row.0@ == rows[i].0@,
    ensures
        row_keys(rows.update(i, row)) == row_keys(rows),
        row_map(rows.update(i, row)) == row_map(rows).insert(row.0@, row.1),
{
    let after = rows.update(i, row);
    assert(row_keys(after) =~= row_keys(rows));
    lemma_row(rows, i);
    lemma_row(after, i);
    assert(row_map(after) =~= row_map(rows).insert(row.0@, row.1)) by {
        assert forall|k: Seq<char>| row_map(after).contains_key(k) && k != row.0@ implies row_map(
            after,
        )[k] == row_map(rows)[k] by {
            let j = row_keys(after).index_of(k);
            assert(row_keys(after)[j] == k);
            assert(j != i);
        }
    }
}

proof fn lemma_add_row<V>(rows: Seq<(String, V)>, p: int, row: (String, V))
    requires
        in_text_order(row_keys(rows)),
        0 <= p <= rows.len(),
        p > 0 ==> text_rank(rows[p - 1].0@, row.0@) == Rank::Less,
        p < rows.len() ==> text_rank(rows[p].0@, row.0@) == Rank::Greater,
    ensures
        in_text_order(row_keys(rows.insert(p, row))),
        row_map(rows.insert(p, row)) == row_map(rows).insert(row.0@, row.1),
{
    let after = rows.insert(p, row);
    let k = row.0@;
    let ks = row_keys(rows);
    let ka = row_keys(after);
    assert forall|j: int| 0 <= j < p implies text_rank(#[trigger] ks[j], k) == Rank::Less by {
        if j < p - 1 {
            assert(text_rank(ks[j], ks[p - 1]) == Rank::Less);
            text_order_is_transitive(ks[j], ks[p - 1], k);
        }
    }
    assert forall|j: int| p <= j < rows.len() implies text_rank(k, #[trigger] ks[j])
        == Rank::Less by {
        text_order_is_total(k, ks[p]);
        if j > p {
            assert(text_rank(ks[p], ks[j]) == Rank::Less);
            text_order_is_transitive(k, ks[p], ks[j]);
        }
    }
    assert forall|i: int, j: int| 0 <= i < j < ka.len() implies text_rank(
        #[trigger] ka[i],
        #[trigger] ka[j],
    ) == Rank::Less by {
        if i < p {
            assert(ka[i] == ks[i]);
        } else if i > p {
            assert(ka[i] == ks[i - 1]);
        }
        if j < p {
            assert(ka[j] == ks[j]);
        } else if j > p {
            assert(ka[j] == ks[j - 1]);
        }
    }
    assert(after[p] == row);
    lemma_row(after, p);
    assert(row_map(after) =~= row_map(rows).insert(k, row.1)) by {
        assert forall|x: Seq<char>| row_map(after).contains_key(x) <==> #[trigger]
            row_map(rows).insert(k, row.1).contains_key(x) by {
            if ks.contains(x) {
                let j = ks.index_of(x);
                assert(ks[j] == x);
                if j < p {
                    assert(ka[j] == x);
                } else {
                    assert(ka[j + 1] == x);
                }
            }
            if ka.contains(x) && x != k {
                let j = ka.index_of(x);
                assert(ka[j] == x);
                if j < p {
                    assert(ks[j] == x);
                } else {
                    assert(j != p);
                    assert(ks[j - 1] == x);
                }
            }
        }
        assert forall|x: Seq<char>| row_map(after).contains_key(x) && x != k implies row_map(
            after,
        )[x] == row_map(rows)[x] by {
            let j = ka.index_of(x);
            assert(ka[j] == x);
            if j < p {
                assert(ks[j] == x);
                lemma_row(rows, j);
            } else {
                assert(j != p);
                assert(ks[j - 1] == x);
                lemma_row(rows, j - 1);
            }
        }
    }
}

proof fn lemma_drop_row<V>(rows: Seq<(String, V)>, p: int)
    requires
        in_text_order(row_keys(rows)),
        0 <= p < rows.len(),
    ensures
        in_text_order(row_keys(rows.remove(p))),
        row_map(rows.remove(p)) == row_map(rows).remove(rows[p].0@),
{
    let after = rows.remove(p);
    let k = rows[p].0@;
    let ks = row_keys(rows);
    let ka = row_keys(after);
    assert forall|i: int, j: int| 0 <= i < j < ka.len() implies text_rank(
        #[trigger] ka[i],
        #[trigger] ka[j],
    ) == Rank::Less by {
        let a = if i < p {
            i
        } else {
            i + 1
        };
        let b = if j < p {
            j
        } else {
            j + 1
        };
        assert(ka[i] == ks[a]);
        assert(ka[j] == ks[b]);
    }
    lemma_row(rows, p);
    assert(row_map(after) =~= row_map(rows).remove(k)) by {
        assert forall|x: Seq<char>| row_map(after).contains_key(x) <==> #[trigger]
            row_map(rows).remove(k).contains_key(x) by {
            if ks.contains(x) && x != k {
                let j = ks.index_of(x);
                assert(ks[j] == x);
                if j < p {
                    assert(ka[j] == x);
                } else {
                    assert(ka[j - 1] == x);
                }
            }
            if ka.contains(x) {
                let j = ka.index_of(x);
                assert(ka[j] == x);
                let a = if j < p {
                    j
                } else {
                    j + 1
                };
                assert(ks[a] == x);
                assert(rows[a].0@ == x);
            }
        }
        assert forall|x: Seq<char>| row_map(after).contains_key(x) implies row_map(after)[x]
            == row_map(rows)[x] by {
            let j = ka.index_of(x);
            assert(ka[j] == x);
            let a = if j < p {
                j
            } else {
                j + 1
            };
            assert(ks[a] == x);
            lemma_row(rows, a);
        }
    }
}

impl<V> Table<V> {
    #[verifier::type_invariant]
    closed spec fn ordered(&self) -> bool {
        in_text_order(row_keys(self.rows@))
    }

    /// The keys in their order.
    pub closed spec fn keys(&self) -> Seq<Seq<char>> {
        row_keys(self.rows@)
    }

    pub fn new() -> (r: Self)
        ensures
            r@ == Map::<Seq<char>, V>::empty(),
            r.keys() == Seq::<Seq<char>>::empty(),
    {
        let r = Table { rows: Vec::new() };
        assert(r@ =~= Map::<Seq<char>, V>::empty());
        assert(r.keys() =~= Seq::<Seq<char>>::empty());
        r
    }

    /// The keys are in the text order, and they are the keys of the rows.
    pub fn check_order(&self)
        ensures
            in_text_order(self.keys()),
            forall|k: Seq<char>| #[trigger] self@.contains_key(k) <==> self.keys().contains(k),
    {
        proof {
            use_type_invariant(self);
        }
    }

    /// The place of a key, or the place where it belongs.
    fn find(&self, key: &str) -> (r: (usize, bool))
        ensures
            in_text_order(row_keys(self.rows@)),
            r.1 == self@.contains_key(key@),
            r.0 <= self.rows@.len(),
            r.1 ==> r.0 < self.rows@.len() && self.rows@[r.0 as int].0@ == key@,
            !r.1 && r.0 > 0 ==> text_rank(self.rows@[r.0 - 1].0@, key@) == Rank::Less,
            !r.1 && r.0 < self.rows@.len() ==> text_rank(self.rows@[r.0 as int].0@, key@)
                == Rank::Greater,
    {
        proof {
            use_type_invariant(self);
        }
        let mut lo: usize = 0;
        let mut hi: usize = self.rows.len();
        while lo < hi
            invariant
                lo <= hi <= self.rows@.len(),
                in_text_order(row_keys(self.rows@)),
                lo > 0 ==> text_rank(self.rows@[lo - 1].0@, key@) == Rank::Less,
                hi < self.rows@.len() ==> text_rank(self.rows@[hi as int].0@, key@)
                    == Rank::Greater,
            decreases hi - lo,
        {
            let mid: usize = lo + (hi - lo) / 2;
            match rank_text(self.rows[mid].0.as_str(), key) {
                Rank::Less => {
                    lo = mid + 1;
                },
                Rank::Equal => {
                    proof {
                        text_order_is_total(self.rows@[mid as int].0@, key@);
                        lemma_row(self.rows@, mid as int);
                    }
                    return (mid, true);
                },
                Rank::Greater => {
                    hi = mid;
                },
            }
        }
        proof {
            lemma_absent(self.rows@, lo as int, key@);
        }
        (lo, false)
    }

    pub fn contains_key(&self, key: &str) -> (r: bool)
        ensures
            r == self@.contains_key(key@),
    {
        self.find(key).1
    }

    pub fn get(&self, key: &str) -> (r: Option<&V>)
        ensures
            match r {
                Some(v) => self@.contains_key(key@) && *v == self@[key@],
                None => !self@.contains_key(key@),
            },
    {
        let (i, found) = self.find(key);
        if found {
            proof {
                lemma_row(self.rows@, i as int);
            }
            Some(&self.rows[i].1)
        } else {
            None
        }
    }

    /// Stores a row, in place of an earlier one under the same key.
    pub fn insert(&mut self, key: String, value: V)
        ensures
            final(self)@ == old(self)@.insert(key@, value),
    {
        let (i, found) = self.find(key.as_str());
        let ghost before = self.rows@;
        let mut rows: Vec<(String, V)> = Vec::new();
        std::mem::swap(&mut rows, &mut self.rows);
        if found {
            proof {
                lemma_set_row(before, i as int, (key, value));
            }
            rows.set(i, (key, value));
        } else {
            proof {
                lemma_add_row(before, i as int, (key, value));
            }
            rows.insert(i, (key, value));
        }
        self.rows = rows;
    }

    /// Removes the row under a key, if there is one.
    pub fn remove(&mut self, key: &str)
        ensures
            final(self)@ == old(self)@.remove(key@),
    {
        let (i, found) = self.find(key);
        if found {
            let ghost before = self.rows@;
            let mut rows: Vec<(String, V)> = Vec::new();
            std::mem::swap(&mut rows, &mut self.rows);
            proof {
                lemma_drop_row(before, i as int);
            }
            let _row = rows.remove(i);
            self.rows = rows;
        } else {
            assert(self@ =~= self@.remove(key@));
        }
    }

    pub fn len(&self) -> (r: usize)
        ensures
            r == self.keys().len(),
    {
        self.rows.len()
    }

    pub fn key_at(&self, i: usize) -> (r: &String)
        requires
            i < self.keys().len(),
        ensures
            r@ == self.keys()[i as int],
            self@.contains_key(r@),
    {
        proof {
            use_type_invariant(self);
            lemma_row(self.rows@, i as int);
        }
        &self.rows[i].0
    }

    pub fn value_at(&self, i: usize) -> (r: &V)
        requires
            i < self.keys().len(),
        ensures
            self@.contains_key(self.keys()[i as int]),
            *r == self@[self.keys()[i as int]],
    {
        proof {
            use_type_invariant(self);
            lemma_row(self.rows@, i as int);
        }
        &self.rows[i].1
    }
}

/// Keys in the text order are determined by the set of keys: two ordered lists of the same keys
/// are equal.
pub proof fn ordered_keys_are_unique(a: Seq<Seq<char>>, b: Seq<Seq<char>>)
    requires
        in_text_order(a),
        in_text_order(b),
        forall|k: Seq<char>| a.contains(k) <==> #[trigger] b.contains(k),
    ensures
        a == b,
    decreases a.len(),
{
    if a.len() == 0 {
        if b.len() > 0 {
            assert(b.contains(b[0]));
        }
        assert(a =~= b);
    } else if b.len() == 0 {
        assert(a.contains(a[0]));
        assert(b.contains(a[0]));
    } else {
        let x = a.last();
        let y = b.last();
        assert(a.contains(x));
        assert(b.contains(x));
        assert(b.contains(y));
        assert(a.contains(y));
        let i = b.index_of(x);
        let j = a.index_of(y);
        assert(b[i] == x && a[j] == y);
        text_order_is_total(x, y);
        if i < b.len() - 1 {
            assert(text_rank(b[i], b[b.len() - 1]) == Rank::Less);
            if j < a.len() - 1 {
                assert(text_rank(a[j], a[a.len() - 1]) == Rank::Less);
            }
        }
        assert(x == y);
        let a0 = a.drop_last();
        let b0 = b.drop_last();
        assert forall|k: Seq<char>| a0.contains(k) <==> #[trigger] b0.contains(k) by {
            text_order_is_total(x, x);
            if a0.contains(k) {
                let p = a0.index_of(k);
                assert(a[p] == k);
                assert(text_rank(a[p], a[a.len() - 1]) == Rank::Less);
                assert(a.contains(k));
                assert(b.contains(k));
                let q = b.index_of(k);
                assert(b[q] == k);
                assert(b0[q] == k);
            }
            if b0.contains(k) {
                let p = b0.index_of(k);
                assert(b[p] == k);
                assert(text_rank(b[p], b[b.len() - 1]) == Rank::Less);
                assert(b.contains(k));
                assert(a.contains(k));
                let q = a.index_of(k);
                assert(a[q] == k);
                assert(a0[q] == k);
            }
        }
        ordered_keys_are_unique(a0, b0);
        assert(a =~= a0.push(x));
        assert(b =~= b0.push(y));
    }
}

/// The texts of a list, in order, each once.
pub fn in_order(list: &Vec<String>) -> (r: Vec<String>)
    ensures
        in_text_order(texts(r@)),
        forall|k: Seq<char>| #[trigger] texts(r@).contains(k) <==> texts(list@).contains(k),
{
    let mut kept: Table<bool> = Table::new();
    let n: usize = list.len();
    let mut i: usize = 0;
    while i < n
        invariant
            i <= n,
            n == list@.len(),
            forall|k: Seq<char>| #[trigger]
                kept@.contains_key(k) <==> texts(list@).take(i as int).contains(k),
        decreases n - i,
    {
        let ghost before = kept@;
        let ghost name = list@[i as int]@;
        kept.insert(list[i].clone(), true);
        proof {
            let head = texts(list@).take(i as int);
            let next = texts(list@).take(i + 1);
            assert(texts(list@)[i as int] == name);
            assert(next =~= head.push(name));
            assert forall|k: Seq<char>| #[trigger] kept@.contains_key(k) <==> next.contains(k) by {
                assert(before.contains_key(k) <==> head.contains(k));
                if head.contains(k) {
                    assert(next[head.index_of(k)] == k);
                }
                if k == name {
                    assert(next[i as int] == k);
                }
                if next.contains(k) && k != name {
                    assert(head[next.index_of(k)] == k);
                }
            }
        }
        i += 1;
    }
    assert(texts(list@).take(n as int) =~= texts(list@));
    kept.check_order();
    let m: usize = kept.len();
    let mut out: Vec<String> = Vec::new();
    let mut j: usize = 0;
    assert(texts(out@) =~= kept.keys().take(0));
    while j < m
        invariant
            j <= m,
            m == kept.keys().len(),
            texts(out@) == kept.keys().take(j as int),
        decreases m - j,
    {
        let ghost before = texts(out@);
        let key = kept.key_at(j).clone();
        out.push(key);
        proof {
            assert(texts(out@) =~= before.push(key@));
            assert(kept.keys().take(j + 1) =~= kept.keys().take(j as int).push(
                kept.keys()[j as int],
            ));
        }
        j += 1;
    }
    proof {
        assert(texts(out@) =~= kept.keys());
        assert forall|k: Seq<char>| #[trigger]
            texts(out@).contains(k) <==> texts(list@).contains(k) by {
            assert(kept@.contains_key(k) <==> kept.keys().contains(k));
        }
    }
    out
}

} // verus!
