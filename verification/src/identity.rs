//! Decisions of the face engine that need no image: which detector is used, whether its output has
//! the right layout, which faces are kept apart, which belong together.

use crate::number::{decimal, decimal_text};
use crate::outside::{sha256, sha256_digest};
use crate::table::Table;
use crate::text::cat3;
use vstd::prelude::*;

verus! {

/// Where the detector comes from.
#[derive(Clone, Copy, Debug, PartialEq, Eq, Structural)]
pub enum DetectorOrigin {
    /// The configured one.
    Override,
    /// The one that comes with the program.
    Bundled,
    /// The one that comes with the program, since the configured one does not load.
    BundledFallback,
    /// There is none: faces are not aligned.
    Missing,
}

impl DetectorOrigin {
    pub open spec fn word(self) -> Seq<char> {
        match self {
            DetectorOrigin::Override => "override"@,
            DetectorOrigin::Bundled => "bundled"@,
            DetectorOrigin::BundledFallback => "bundled_fallback"@,
            DetectorOrigin::Missing => "none"@,
        }
    }

    pub fn as_str(self) -> (r: &'static str)
        ensures
            r@ == self.word(),
    {
        match self {
            DetectorOrigin::Override => "override",
            DetectorOrigin::Bundled => "bundled",
            DetectorOrigin::BundledFallback => "bundled_fallback",
            DetectorOrigin::Missing => "none",
        }
    }

    /// How faces are brought to their place: by a detector, or by scaling the whole image.
    pub fn align_method(self) -> (r: &'static str)
        ensures
            r@ == if self == DetectorOrigin::Missing {
                "resize_112"@
            } else {
                "yunet_112"@
            },
    {
        match self {
            DetectorOrigin::Missing => "resize_112",
            _ => "yunet_112",
        }
    }
}

/// Which detector is used. `configured` tells whether one is configured and then whether it loads;
/// `bundled_loads` whether the one that comes with the program does.
pub fn choose_detector(configured: Option<bool>, bundled_loads: bool) -> (r: DetectorOrigin)
    ensures
        r == if configured == Some(true) {
            DetectorOrigin::Override
        } else if !bundled_loads {
            DetectorOrigin::Missing
        } else if configured is Some {
            DetectorOrigin::BundledFallback
        } else {
            DetectorOrigin::Bundled
        },
{
    match configured {
        Some(true) => DetectorOrigin::Override,
        Some(false) => if bundled_loads {
            DetectorOrigin::BundledFallback
        } else {
            DetectorOrigin::Missing
        },
        None => if bundled_loads {
            DetectorOrigin::Bundled
        } else {
            DetectorOrigin::Missing
        },
    }
}

pub open spec fn hex_char(d: int) -> char {
    if d < 10 {
        (48 + d) as char
    } else {
        (87 + d) as char
    }
}

/// Bytes as hexadecimal digits, two for each.
pub open spec fn hex_text(bytes: Seq<u8>) -> Seq<char>
    decreases bytes.len(),
{
    if bytes.len() == 0 {
        Seq::empty()
    } else {
        hex_text(bytes.drop_last()).push(hex_char(bytes.last() as int / 16)).push(
            hex_char(bytes.last() as int % 16),
        )
    }
}

fn digit(d: u8) -> (r: char)
    requires
        d < 16,
    ensures
        r == hex_char(d as int),
{
    if d < 10 {
        (48 + d) as char
    } else {
        (87 + d) as char
    }
}

/// Bytes written in hexadecimal digits.
pub fn hex_of_bytes(bytes: &Vec<u8>) -> (r: String)
    ensures
        r@ == hex_text(bytes@),
        r@.len() == 2 * bytes@.len(),
{
    let n: usize = bytes.len();
    let mut s = String::new();
    let mut i: usize = 0;
    assert(bytes@.take(0) =~= Seq::<u8>::empty());
    assert(s@ =~= hex_text(bytes@.take(0)));
    while i < n
        invariant
            i <= n,
            n == bytes@.len(),
            s@ == hex_text(bytes@.take(i as int)),
            s@.len() == 2 * i,
        decreases n - i,
    {
        let b: u8 = bytes[i];
        assert(bytes@.take(i + 1).drop_last() =~= bytes@.take(i as int));
        assert(bytes@.take(i + 1).last() == b);
        s.push(digit(b / 16));
        s.push(digit(b % 16));
        i += 1;
    }
    assert(bytes@.take(n as int) =~= bytes@);
    s
}

/// The fingerprint of a model file: its SHA-256 digest in hexadecimal digits.
pub fn model_sha256(bytes: &Vec<u8>) -> (r: String)
    ensures
        r@ == hex_text(sha256_digest(bytes@)),
        r@.len() == 64,
{
    let digest = sha256(bytes.as_slice());
    hex_of_bytes(&digest)
}

/// How many outputs a detector has.
pub const DETECTOR_OUTPUTS: usize = 12;

/// Checks that a detector has as many outputs as are read.
pub fn check_detector_outputs(count: usize) -> (r: Result<(), String>)
    ensures
        match r {
            Ok(()) => count >= DETECTOR_OUTPUTS,
            Err(e) => count < DETECTOR_OUTPUTS && e@ == "detector output layout mismatch: "@
                + decimal(count as nat) + " outputs, expected >= 12 (YuNet 2023mar)"@,
        },
{
    if count < DETECTOR_OUTPUTS {
        let digits = decimal_text(count as u64);
        return Err(
            cat3(
                "detector output layout mismatch: ",
                digits.as_str(),
                " outputs, expected >= 12 (YuNet 2023mar)",
            ),
        );
    }
    Ok(())
}

/// The side of the square image that a detector looks at.
pub const DETECTOR_INPUT: usize = 640;

pub open spec fn squared(side: nat) -> nat {
    side * side
}

/// Whether a square grid of so many cells has this side.
pub open spec fn is_side(n: nat, side: nat) -> bool {
    side > 0 && squared(side) == n
}

/// The side of the grid of one scale of a detector: `None` where the cells make no square or the
/// outputs are too short for them.
pub fn detector_grid(scores: usize, objects: usize, boxes: usize, points: usize) -> (r: Option<usize>)
    ensures
        match r {
            Some(side) => {
                &&& is_side(scores as nat, side as nat)
                &&& objects >= scores
                &&& boxes >= scores * 4
                &&& points >= scores * 10
            },
            None => {
                ||| objects < scores
                ||| boxes < scores * 4
                ||| points < scores * 10
                ||| forall|side: nat| !#[trigger] is_side(scores as nat, side)
            },
        },
{
    if objects < scores || boxes / 4 < scores || points / 10 < scores {
        return None;
    }
    let mut side: usize = 1;
    while side <= scores && side < scores / side
        invariant
            1 <= side,
            side <= scores || side == 1,
            forall|k: nat| 0 < k < side ==> #[trigger] squared(k) < scores,
        decreases scores - side,
    {
        proof {
            let s = side as int;
            let n = scores as int;
            assert(s * s < n) by (nonlinear_arith)
                requires
                    s >= 1,
                    n >= 0,
                    s < n / s,
            ;
            assert(s < n) by (nonlinear_arith)
                requires
                    s >= 1,
                    s * s < n,
            ;
        }
        side += 1;
    }
    if side <= scores && scores / side == side && scores % side == 0 {
        proof {
            let s = side as int;
            let n = scores as int;
            assert(s * s == n) by (nonlinear_arith)
                requires
                    s >= 1,
                    n / s == s,
                    n % s == 0,
            ;
        }
        Some(side)
    } else {
        proof {
            assert forall|k: nat| !#[trigger] is_side(scores as nat, k) by {
                let s = side as int;
                let n = scores as int;
                let q = k as int;
                if is_side(scores as nat, k) {
                    assert(q >= s);
                    if s <= n {
                        assert(s >= n / s);
                        if q == s {
                            assert(n / s == s && n % s == 0) by (nonlinear_arith)
                                requires
                                    s >= 1,
                                    s * s == n,
                            ;
                        } else {
                            assert(n / s >= s + 1) by (nonlinear_arith)
                                requires
                                    s >= 1,
                                    q >= s + 1,
                                    q * q == n,
                            ;
                        }
                    } else {
                        assert(n == 0);
                        assert(q * q > 0) by (nonlinear_arith)
                            requires
                                q > 0,
                        ;
                    }
                }
            }
        }
        None
    }
}

/// Whether a question about two places was answered in the given way.
pub open spec fn told<F: Fn(usize, usize) -> bool>(ask: F, a: usize, b: usize, answer: bool) -> bool {
    call_ensures(ask, (a, b), answer)
}

/// Whether any two places may be asked for.
pub open spec fn tellable<F: Fn(usize, usize) -> bool>(ask: F) -> bool {
    forall|a: usize, b: usize| #[trigger] call_requires(ask, (a, b))
}

/// Whether the kept places are those that do not overlap one that is kept before them.
pub open spec fn kept_apart<F: Fn(usize, usize) -> bool>(n: nat, overlaps: F, kept: Seq<usize>) -> bool {
    &&& forall|i: int| 0 <= i < kept.len() ==> #[trigger] kept[i] < n
    &&& forall|i: int, j: int| 0 <= i < j < kept.len() ==> #[trigger] kept[i] < #[trigger] kept[j]
    &&& forall|i: int, j: int|
        0 <= i < j < kept.len() ==> told(overlaps, #[trigger] kept[i], #[trigger] kept[j], false)
    &&& forall|p: usize|
        p < n && !#[trigger] kept.contains(p) ==> exists|i: int|
            0 <= i < kept.len() && kept[i] < p && told(overlaps, #[trigger] kept[i], p, true)
}

/// Of `n` faces, the best first, those that do not overlap a better one that is kept.
pub fn nms<F: Fn(usize, usize) -> bool>(n: usize, overlaps: F) -> (r: Vec<usize>)
    requires
        tellable(overlaps),
    ensures
        kept_apart(n as nat, overlaps, r@),
{
    let mut kept: Vec<usize> = Vec::new();
    let mut p: usize = 0;
    while p < n
        invariant
            p <= n,
            tellable(overlaps),
            kept_apart(p as nat, overlaps, kept@),
        decreases n - p,
    {
        let m: usize = kept.len();
        let mut i: usize = 0;
        let mut clear: bool = true;
        while i < m && clear
            invariant
                i <= m,
                m == kept@.len(),
                tellable(overlaps),
                kept_apart(p as nat, overlaps, kept@),
                clear ==> forall|k: int|
                    0 <= k < i ==> told(overlaps, #[trigger] kept@[k], p, false),
                !clear ==> exists|k: int|
                    0 <= k < m && kept@[k] < p && told(overlaps, #[trigger] kept@[k], p, true),
            decreases m - i,
        {
            let q: usize = kept[i];
            if overlaps(q, p) {
                assert(told(overlaps, kept@[i as int], p, true));
                clear = false;
            }
            i += 1;
        }
        let ghost before = kept@;
        if clear {
            kept.push(p);
        }
        proof {
            assert forall|x: usize|
                x < p + 1 && !#[trigger] kept@.contains(x) implies exists|k: int|
                0 <= k < kept@.len() && kept@[k] < x && told(overlaps, #[trigger] kept@[k], x, true) by {
                if x < p {
                    if before.contains(x) {
                        assert(kept@[before.index_of(x)] == x);
                    }
                    let k = choose|k: int|
                        0 <= k < before.len() && before[k] < x && told(
                            overlaps,
                            #[trigger] before[k],
                            x,
                            true,
                        );
                    assert(kept@[k] == before[k]);
                } else if clear {
                    assert(kept@[before.len() as int] == x);
                }
            }
        }
        p += 1;
    }
    kept
}

/// Whether places were put into clusters, each into the first one whose founder is like it.
pub open spec fn is_clustering<F: Fn(usize, usize) -> bool>(
    alike: F,
    clusters: Seq<usize>,
    founders: Seq<usize>,
) -> bool {
    &&& forall|k: int|
        0 <= k < founders.len() ==> (#[trigger] founders[k]) < clusters.len()
            && clusters[founders[k] as int] == k
    &&& forall|i: int|
        0 <= i < clusters.len() ==> (#[trigger] clusters[i]) < founders.len()
            && founders[clusters[i] as int] <= i
    &&& forall|j: int, k: int|
        0 <= j < k < founders.len() ==> #[trigger] founders[j] < #[trigger] founders[k]
    &&& forall|i: int, k: int|
        0 <= i < clusters.len() && 0 <= k < #[trigger] clusters[i] ==> told(
            alike,
            #[trigger] founders[k],
            i as usize,
            false,
        )
    &&& forall|i: int|
        0 <= i < clusters.len() && founders[#[trigger] clusters[i] as int] < i ==> told(
            alike,
            founders[clusters[i] as int],
            i as usize,
            true,
        )
}

/// Puts `n` faces into clusters: each joins the first cluster whose founder is like it, or founds
/// one. The clusters are numbered as they are founded.
pub fn cluster_embeddings<F: Fn(usize, usize) -> bool>(n: usize, alike: F) -> (r: Vec<usize>)
    requires
        tellable(alike),
    ensures
        r@.len() == n,
        exists|founders: Seq<usize>| #[trigger] is_clustering(alike, r@, founders),
{
    let mut clusters: Vec<usize> = Vec::new();
    let mut founders: Vec<usize> = Vec::new();
    let mut i: usize = 0;
    while i < n
        invariant
            i <= n,
            clusters@.len() == i,
            tellable(alike),
            is_clustering(alike, clusters@, founders@),
        decreases n - i,
    {
        let m: usize = founders.len();
        let mut k: usize = 0;
        let mut found: bool = false;
        while k < m && !found
            invariant
                k <= m,
                m == founders@.len(),
                tellable(alike),
                forall|j: int| 0 <= j < k ==> told(alike, #[trigger] founders@[j], i, false),
                found ==> k < m && told(alike, founders@[k as int], i, true),
            decreases m - k, if found { 0int } else { 1int },
        {
            let f: usize = founders[k];
            if alike(f, i) {
                found = true;
            } else {
                k += 1;
            }
        }
        let ghost c0 = clusters@;
        let ghost f0 = founders@;
        clusters.push(k);
        if !found {
            founders.push(i);
        }
        proof {
            assert forall|j: int| 0 <= j < founders@.len() implies (#[trigger] founders@[j])
                < clusters@.len() && clusters@[founders@[j] as int] == j by {
                if j < f0.len() {
                    assert(founders@[j] == f0[j]);
                }
            }
            assert forall|p: int| 0 <= p < clusters@.len() implies (#[trigger] clusters@[p])
                < founders@.len() && founders@[clusters@[p] as int] <= p by {
                if p < c0.len() {
                    assert(clusters@[p] == c0[p]);
                    assert(founders@[c0[p] as int] == f0[c0[p] as int]);
                } else if found {
                    assert(f0[k as int] < c0.len());
                }
            }
            assert forall|p: int, j: int|
                0 <= p < clusters@.len() && 0 <= j < #[trigger] clusters@[p] implies told(
                alike,
                #[trigger] founders@[j],
                p as usize,
                false,
            ) by {
                if p < c0.len() {
                    assert(clusters@[p] == c0[p]);
                    assert(founders@[j] == f0[j]);
                } else {
                    assert(founders@[j] == f0[j]);
                }
            }
            assert forall|p: int|
                0 <= p < clusters@.len() && founders@[#[trigger] clusters@[p] as int] < p implies told(
                alike,
                founders@[clusters@[p] as int],
                p as usize,
                true,
            ) by {
                if p < c0.len() {
                    assert(clusters@[p] == c0[p]);
                    assert(founders@[c0[p] as int] == f0[c0[p] as int]);
                }
            }
        }
        i += 1;
    }
    clusters
}

/// How often each label was seen.
#[derive(Debug)]
pub struct LabelTally {
    pub counts: Table<u64>,
    pub total: u64,
}

impl LabelTally {
    pub fn new() -> (r: Self)
        ensures
            r.counts@ == Map::<Seq<char>, u64>::empty(),
            r.total == 0,
    {
        let counts: Table<u64> = Table::new();
        LabelTally { counts, total: 0 }
    }

    /// Counts a label.
    pub fn record(&mut self, label: &str)
        requires
            old(self).total < u64::MAX,
            forall|k: Seq<char>| #[trigger]
                old(self).counts@.contains_key(k) ==> old(self).counts@[k] <= old(self).total,
        ensures
            final(self).total == old(self).total + 1,
            final(self).counts@ == old(self).counts@.insert(
                label@,
                if old(self).counts@.contains_key(label@) {
                    (old(self).counts@[label@] + 1) as u64
                } else {
                    1
                },
            ),
            forall|k: Seq<char>| #[trigger]
                final(self).counts@.contains_key(k) ==> final(self).counts@[k]
                    <= final(self).total,
    {
        let n: u64 = match self.counts.get(label) {
            Some(n) => *n + 1,
            None => 1,
        };
        self.counts.insert(label.to_owned(), n);
        self.total = self.total + 1;
    }

    /// The label that was seen most often, the last in text order of equals, and how often.
    pub fn dominant(&self) -> (r: Option<(String, u64)>)
        ensures
            match r {
                Some((label, count)) => {
                    &&& self.counts@.contains_key(label@)
                    &&& self.counts@[label@] == count
                    &&& forall|k: Seq<char>| #[trigger]
                        self.counts@.contains_key(k) ==> self.counts@[k] < count
                            || self.counts@[k] == count && crate::text::text_rank(label@, k)
                            != crate::text::Rank::Less
                },
                None => forall|k: Seq<char>| !#[trigger] self.counts@.contains_key(k),
            },
    {
        self.counts.check_order();
        let n: usize = self.counts.len();
        let ghost keys = self.counts.keys();
        if n == 0 {
            assert(keys.len() == 0);
            return None;
        }
        let mut best: usize = 0;
        let mut i: usize = 1;
        while i < n
            invariant
                1 <= i <= n,
                best < i,
                n == keys.len(),
                keys == self.counts.keys(),
                forall|j: int|
                    0 <= j < i ==> self.counts@[#[trigger] keys[j]] < self.counts@[keys[best as int]]
                        || (self.counts@[keys[j]] == self.counts@[keys[best as int]] && j <= best),
            decreases n - i,
        {
            if *self.counts.value_at(i) >= *self.counts.value_at(best) {
                best = i;
            }
            i += 1;
        }
        let label = self.counts.key_at(best).clone();
        let count: u64 = *self.counts.value_at(best);
        proof {
            assert(keys.contains(keys[best as int]));
            assert forall|k: Seq<char>| #[trigger] self.counts@.contains_key(k) implies self.counts@[k]
                < count || self.counts@[k] == count && crate::text::text_rank(label@, k)
                != crate::text::Rank::Less by {
                let j = keys.index_of(k);
                assert(keys[j] == k);
                if j < best {
                    crate::text::text_order_is_total(k, label@);
                    crate::text::text_order_is_total(label@, k);
                } else if j == best {
                    crate::text::text_order_is_total(k, k);
                }
            }
        }
        Some((label, count))
    }
}

} // verus!
