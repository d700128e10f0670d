//! Search by meaning: which models are used, how text becomes tokens, which output of a model is
//! the embedding, and how embeddings are kept.

use crate::config::{nonblank, below};
use crate::media_db::MediaDb;
use crate::media_fs::{askable, said};
use crate::number::{decimal, decimal_text};
use crate::order::{is_stable_order, keyed_before, stable_order};
use crate::outside::{find_pieces, pattern_fault, pattern_pieces};
use crate::paths::{join_path, joined_path, PathStyle};
use crate::table::Table;
use crate::text::{
    cat, cat3, chars_of, contains, contains_text, is_white_space, join, joined, opt_text, rank_text,
    slice_of, split, split_char, split_of_joined_texts, str_eq, string_of, text_order_is_total,
    text_rank, texts, to_lowercase, trim, trimmed, unicode_lower, white_space, Rank,
};
use vstd::prelude::*;
use vstd::string::StringSliceAdditionalSpecFns;

verus! {

/// The usual length of an embedding.
pub const EMBED_DIM_EXPECTED: usize = 512;

/// How many tokens a text has.
pub const CONTEXT_LEN: usize = 77;

/// The token that begins a text.
pub const SOT: i64 = 49406;

/// The token that ends a text.
pub const EOT: i64 = 49407;

/// Where the models lie, or what is missing.
#[derive(Debug)]
pub struct ClipStatus {
    pub image_model: Option<String>,
    pub text_model: Option<String>,
    pub vocab: Option<String>,
    pub detail: String,
}

impl ClipStatus {
    pub open spec fn is_ready(&self) -> bool {
        self.image_model is Some && self.text_model is Some && self.vocab is Some
    }

    pub fn ready(&self) -> (r: bool)
        ensures
            r == self.is_ready(),
    {
        self.image_model.is_some() && self.text_model.is_some() && self.vocab.is_some()
    }
}

/// Whether a model was looked for in the environment and then in its usual place.
pub open spec fn looked_for<F: Fn(&str) -> bool>(
    exists_at: F,
    named: Option<Seq<char>>,
    usual: Seq<char>,
    r: Option<Seq<char>>,
) -> bool {
    ||| nonblank(named) is Some && said(exists_at, named->0, true) && r == named
    ||| (nonblank(named) is None || said(exists_at, named->0, false)) && {
        ||| said(exists_at, usual, true) && r == Some(usual)
        ||| said(exists_at, usual, false) && r is None
    }
}

fn look_for<F: Fn(&str) -> bool>(exists_at: &F, named: &Option<String>, usual: String) -> (r: Option<
    String,
>)
    requires
        askable(*exists_at),
    ensures
        looked_for(*exists_at, opt_text(*named), usual@, opt_text(r)),
{
    if let Some(n) = named {
        let tidy = trim(n.as_str());
        if !tidy.as_str().is_empty() {
            let there = exists_at(n.as_str());
            assert(said(*exists_at, n@, there));
            if there {
                return Some(n.clone());
            }
        }
    }
    let there = exists_at(usual.as_str());
    assert(said(*exists_at, usual@, there));
    if there {
        Some(usual)
    } else {
        None
    }
}

/// What is missing for a search by meaning.
pub open spec fn missing_parts(s: ClipStatus) -> Seq<Seq<char>> {
    (if s.image_model is None {
        seq!["clip-vit-b32-visual.onnx"@]
    } else {
        Seq::empty()
    }) + (if s.text_model is None {
        seq!["clip-vit-b32-textual.onnx"@]
    } else {
        Seq::empty()
    }) + (if s.vocab is None {
        seq!["assets/clip/bpe_simple_vocab_16e6.txt"@]
    } else {
        Seq::empty()
    })
}

pub open spec fn model_place(style: PathStyle, root: Seq<char>, name: Seq<char>) -> Seq<char> {
    joined_path(style, below(style, root, "product"@, "models"@), name)
}

pub open spec fn vocab_place(style: PathStyle, root: Seq<char>) -> Seq<char> {
    joined_path(
        style,
        joined_path(style, below(style, root, "product"@, "assets"@), "clip"@),
        "bpe_simple_vocab_16e6.txt"@,
    )
}

fn model_path(style: PathStyle, root: &str, name: &str) -> (r: String)
    ensures
        r@ == model_place(style, root@, name@),
{
    let a = join_path(style, root, "product");
    let b = join_path(style, a.as_str(), "models");
    join_path(style, b.as_str(), name)
}

/// Looks for the models: where the environment names them, or in their usual places.
pub fn resolve<F: Fn(&str) -> bool>(
    style: PathStyle,
    repo_root: &str,
    named_image: &Option<String>,
    named_text: &Option<String>,
    exists_at: F,
) -> (r: ClipStatus)
    requires
        askable(exists_at),
    ensures
        looked_for(
            exists_at,
            opt_text(*named_image),
            model_place(style, repo_root@, "clip-vit-b32-visual.onnx"@),
            opt_text(r.image_model),
        ),
        looked_for(
            exists_at,
            opt_text(*named_text),
            model_place(style, repo_root@, "clip-vit-b32-textual.onnx"@),
            opt_text(r.text_model),
        ),
        looked_for(exists_at, None, vocab_place(style, repo_root@), opt_text(r.vocab)),
        r.detail@ == if r.is_ready() {
            "clip models present"@
        } else {
            "semantic search: local fallback (missing "@ + joined(missing_parts(r), ", "@)
                + "; drop models into product/models/)"@
        },
{
    let image_model = look_for(
        &exists_at,
        named_image,
        model_path(style, repo_root, "clip-vit-b32-visual.onnx"),
    );
    let text_model = look_for(
        &exists_at,
        named_text,
        model_path(style, repo_root, "clip-vit-b32-textual.onnx"),
    );
    let a = join_path(style, repo_root, "product");
    let b = join_path(style, a.as_str(), "assets");
    let c = join_path(style, b.as_str(), "clip");
    let vocab = look_for(
        &exists_at,
        &None,
        join_path(style, c.as_str(), "bpe_simple_vocab_16e6.txt"),
    );
    let mut missing: Vec<String> = Vec::new();
    if image_model.is_none() {
        missing.push("clip-vit-b32-visual.onnx".to_owned());
    }
    if text_model.is_none() {
        missing.push("clip-vit-b32-textual.onnx".to_owned());
    }
    if vocab.is_none() {
        missing.push("assets/clip/bpe_simple_vocab_16e6.txt".to_owned());
    }
    let detail = if missing.len() == 0 {
        "clip models present".to_owned()
    } else {
        let list = join(&missing, ", ");
        cat3(
            "semantic search: local fallback (missing ",
            list.as_str(),
            "; drop models into product/models/)",
        )
    };
    let r = ClipStatus { image_model, text_model, vocab, detail };
    assert(texts(missing@) =~= missing_parts(r));
    r
}

/// The paths of the models where all are there, or else why not.
pub fn model_paths(status: &ClipStatus) -> (r: Result<(String, String, String), String>)
    ensures
        match r {
            Ok((image, text, vocab)) => {
                &&& opt_text(status.image_model) == Some(image@)
                &&& opt_text(status.text_model) == Some(text@)
                &&& opt_text(status.vocab) == Some(vocab@)
            },
            Err(e) => !status.is_ready() && e@ == status.detail@,
        },
{
    if let Some(image) = &status.image_model {
        if let Some(text) = &status.text_model {
            if let Some(vocab) = &status.vocab {
                return Ok((image.clone(), text.clone(), vocab.clone()));
            }
        }
    }
    Err(status.detail.clone())
}

/// Whether a byte stands for itself among the characters of the vocabulary.
pub open spec fn is_plain_byte(b: int) -> bool {
    0x21 <= b <= 0x7E || 0xA1 <= b <= 0xAC || 0xAE <= b <= 0xFF
}

/// How many bytes below one do not stand for themselves.
pub open spec fn moved_below(b: int) -> int
    decreases b,
{
    if b <= 0 {
        0
    } else if is_plain_byte(b - 1) {
        moved_below(b - 1)
    } else {
        moved_below(b - 1) + 1
    }
}

/// The character that stands for a byte in the vocabulary: itself, or one beyond all bytes, in
/// order.
pub open spec fn byte_char(b: int) -> char {
    if is_plain_byte(b) {
        b as char
    } else {
        (256 + moved_below(b)) as char
    }
}

/// The bytes in the order of the vocabulary: those that stand for themselves, then the others.
pub open spec fn plain_bytes(n: int) -> Seq<int>
    decreases n,
{
    if n <= 0 {
        Seq::empty()
    } else if is_plain_byte(n - 1) {
        plain_bytes(n - 1).push(n - 1)
    } else {
        plain_bytes(n - 1)
    }
}

pub open spec fn moved_bytes(n: int) -> Seq<int>
    decreases n,
{
    if n <= 0 {
        Seq::empty()
    } else if is_plain_byte(n - 1) {
        moved_bytes(n - 1)
    } else {
        moved_bytes(n - 1).push(n - 1)
    }
}

/// The characters of all bytes, in the order of the vocabulary.
pub open spec fn vocabulary_chars() -> Seq<char> {
    (plain_bytes(256) + moved_bytes(256)).map_values(|b: int| byte_char(b))
}

proof fn lemma_moved(b: int, c: int)
    requires
        0 <= b <= c <= 256,
    ensures
        0 <= moved_below(b) <= moved_below(c),
        moved_below(c) <= c,
        b < c && !is_plain_byte(b) ==> moved_below(b) < moved_below(c),
    decreases c,
{
    if c > 0 {
        if b < c {
            lemma_moved(b, c - 1);
        } else {
            lemma_moved(b - 1, c - 1);
        }
    }
}

/// No two bytes have one character.
pub proof fn byte_chars_are_distinct(a: int, b: int)
    requires
        0 <= a < 256,
        0 <= b < 256,
        byte_char(a) == byte_char(b),
    ensures
        a == b,
{
    if a <= b {
        lemma_moved(a, b);
    } else {
        lemma_moved(b, a);
    }
    lemma_moved(a, 256);
    lemma_moved(b, 256);
}

/// The characters of the bytes, and the same characters in the order of the vocabulary.
fn bytes_to_unicode() -> (r: (Vec<char>, Vec<char>))
    ensures
        r.0@.len() == 256,
        forall|b: int| 0 <= b < 256 ==> #[trigger] r.0@[b] == byte_char(b),
        r.1@ == vocabulary_chars(),
{
    let mut map: Vec<char> = Vec::new();
    let mut plain: Vec<char> = Vec::new();
    let mut moved: Vec<char> = Vec::new();
    let mut b: u32 = 0;
    let mut n: u32 = 0;
    let ghost f = |x: int| byte_char(x);
    assert(plain@ =~= plain_bytes(0).map_values(f));
    assert(moved@ =~= moved_bytes(0).map_values(f));
    while b < 256
        invariant
            b <= 256,
            n == moved_below(b as int),
            n <= b,
            f == (|x: int| byte_char(x)),
            map@.len() == b,
            forall|k: int| 0 <= k < b ==> #[trigger] map@[k] == byte_char(k),
            plain@ == plain_bytes(b as int).map_values(f),
            moved@ == moved_bytes(b as int).map_values(f),
        decreases 256 - b,
    {
        let is_plain = (0x21 <= b && b <= 0x7E) || (0xA1 <= b && b <= 0xAC) || (0xAE <= b && b
            <= 0xFF);
        let ghost p0 = plain@;
        let ghost m0 = moved@;
        if is_plain {
            let c: char = (b as u8) as char;
            assert(c == byte_char(b as int));
            map.push(c);
            plain.push(c);
            assert(plain@ =~= plain_bytes(b + 1).map_values(f));
            assert(moved@ =~= moved_bytes(b + 1).map_values(f));
        } else {
            let c: char = moved_char(n);
            assert(c == byte_char(b as int));
            map.push(c);
            moved.push(c);
            n += 1;
            assert(plain@ =~= plain_bytes(b + 1).map_values(f));
            assert(moved@ =~= moved_bytes(b + 1).map_values(f));
        }
        b += 1;
    }
    let ghost p = plain@;
    let ghost m = moved@;
    let mut ordered = plain;
    let total: usize = moved.len();
    let mut i: usize = 0;
    while i < total
        invariant
            i <= total,
            total == moved@.len(),
            m == moved@,
            ordered@ == p + m.take(i as int),
        decreases total - i,
    {
        let c: char = moved[i];
        ordered.push(c);
        assert(ordered@ =~= p + m.take(i + 1));
        i += 1;
    }
    proof {
        assert(m.take(total as int) =~= m);
        assert((plain_bytes(256) + moved_bytes(256)).map_values(f) =~= plain_bytes(256).map_values(f)
            + moved_bytes(256).map_values(f));
        assert(ordered@ =~= vocabulary_chars());
    }
    (map, ordered)
}

/// Calls `char::from_u32`, which gives the character of a code that is one.
#[verifier::external_body]
fn char_of_code(code: u32) -> (r: Option<char>)
    ensures
        code < 0xD800 ==> r == Some(code as char),
{
    char::from_u32(code)
}

fn moved_char(n: u32) -> (r: char)
    requires
        n <= 256,
    ensures
        r == (256 + n) as char,
{
    match char_of_code(256 + n) {
        Some(c) => c,
        None => ' ',
    }
}

/// The words of a line: the runs of characters between white space.
pub open spec fn words(s: Seq<char>) -> Seq<Seq<char>>
    decreases s.len(),
{
    if s.len() == 0 {
        Seq::empty()
    } else if is_white_space(s.last()) {
        words(s.drop_last())
    } else {
        let start = run_start(s, s.len());
        if start < s.len() {
            words(s.take(start as int)).push(s.skip(start as int))
        } else {
            Seq::empty()
        }
    }
}

/// Where the run of characters before `n` that are no white space begins.
pub open spec fn run_start(s: Seq<char>, n: nat) -> nat
    decreases n,
{
    if n == 0 || is_white_space(s[n - 1]) {
        n
    } else {
        run_start(s, (n - 1) as nat)
    }
}

proof fn lemma_run_start(s: Seq<char>, n: nat)
    requires
        n <= s.len(),
    ensures
        run_start(s, n) <= n,
        n > 0 && !is_white_space(s[n - 1]) ==> run_start(s, n) < n,
        forall|i: int| run_start(s, n) <= i < n ==> !is_white_space(#[trigger] s[i]),
    decreases n,
{
    if n > 0 && !is_white_space(s[n - 1]) {
        lemma_run_start(s, (n - 1) as nat);
    }
}

/// The first two words of a line, where it has them.
pub open spec fn first_two(line: Seq<char>) -> Option<(Seq<char>, Seq<char>)> {
    let w = words(line);
    if w.len() >= 2 {
        Some((w[0], w[1]))
    } else {
        None
    }
}

fn split_words(cs: &Vec<char>) -> (r: Vec<String>)
    ensures
        texts(r@) == words(cs@),
{
    let mut back: Vec<String> = Vec::new();
    let mut n: usize = cs.len();
    let ghost mut done: Seq<Seq<char>> = Seq::empty();
    assert(cs@.take(n as int) =~= cs@);
    assert(words(cs@) + done =~= words(cs@));
    assert(texts(back@) =~= done.reverse());
    while n > 0
        invariant
            n <= cs@.len(),
            words(cs@.take(n as int)) + done == words(cs@),
            texts(back@) == done.reverse(),
        decreases n,
    {
        let ghost s = cs@.take(n as int);
        let last: char = cs[n - 1];
        assert(s.last() == last);
        if white_space(last) {
            assert(s.drop_last() =~= cs@.take(n - 1));
            n -= 1;
        } else {
            let mut start: usize = n;
            while start > 0 && !white_space(cs[start - 1])
                invariant
                    start <= n <= cs@.len(),
                    s == cs@.take(n as int),
                    run_start(s, n as nat) == run_start(s, start as nat),
                decreases start,
            {
                start -= 1;
            }
            proof {
                lemma_run_start(s, n as nat);
                if start > 0 {
                    assert(s[start - 1] == cs@[start - 1]);
                }
                assert(run_start(s, n as nat) == start);
            }
            let word = string_of(slice_of(cs, start, n));
            let ghost w = word@;
            let ghost before = done;
            back.push(word);
            proof {
                assert(w =~= s.skip(start as int));
                assert(s.take(start as int) =~= cs@.take(start as int));
                done = seq![w] + before;
                assert(words(cs@.take(start as int)).push(w) + before =~= words(
                    cs@.take(start as int),
                ) + done);
                assert(texts(back@) =~= before.reverse().push(w));
                assert(done.reverse() =~= before.reverse().push(w));
            }
            n = start;
        }
    }
    assert(cs@.take(0) =~= Seq::<char>::empty());
    assert(Seq::<Seq<char>>::empty() + done =~= done);
    let mut out: Vec<String> = Vec::new();
    let total: usize = back.len();
    let mut i: usize = total;
    assert(texts(back@).len() == total);
    assert(texts(out@) =~= done.take(0));
    while i > 0
        invariant
            i <= total,
            total == back@.len(),
            total == done.len(),
            texts(back@) == done.reverse(),
            texts(out@) == done.take(total - i),
        decreases i,
    {
        i -= 1;
        let ghost before = texts(out@);
        let word = back[i].clone();
        let ghost w = word@;
        out.push(word);
        proof {
            assert(texts(back@)[i as int] == w);
            assert(done.reverse()[i as int] == done[total - 1 - i]);
            assert(texts(out@) =~= before.push(w));
            assert(done.take(total - i) =~= done.take(total - i - 1).push(w));
        }
    }
    assert(done.take(total as int) =~= done);
    out
}

/// How many lines of the vocabulary hold merges.
pub const MERGE_LINES: usize = 48894;

/// The merges of a vocabulary: the first two words of each line after the first.
pub open spec fn merges_of(lines: Seq<Seq<char>>, n: nat) -> Seq<(Seq<char>, Seq<char>)>
    decreases n,
{
    if n == 0 {
        Seq::empty()
    } else {
        let before = merges_of(lines, (n - 1) as nat);
        if n < lines.len() {
            match first_two(lines[n as int]) {
                Some(pair) => before.push(pair),
                None => before,
            }
        } else {
            before
        }
    }
}

/// The merges of a vocabulary text.
pub open spec fn merges_in(raw: Seq<char>) -> Seq<(Seq<char>, Seq<char>)> {
    merges_of(split(raw, '\n'), MERGE_LINES as nat)
}

pub open spec fn pairs_of(v: Seq<(String, String)>) -> Seq<(Seq<char>, Seq<char>)> {
    v.map_values(|p: (String, String)| (p.0@, p.1@))
}

/// The tokens of a vocabulary, by number: the characters, the characters at the end of a word, the
/// merges, the two frames.
pub open spec fn vocabulary(merges: Seq<(Seq<char>, Seq<char>)>) -> Seq<Seq<char>> {
    vocabulary_chars().map_values(|c: char| seq![c]) + vocabulary_chars().map_values(
        |c: char| seq![c] + "</w>"@,
    ) + merges.map_values(|p: (Seq<char>, Seq<char>)| p.0 + p.1) + seq![
        "<|startoftext|>"@,
        "<|endoftext|>"@,
    ]
}

/// The last place of a text in a list.
pub open spec fn last_place(list: Seq<Seq<char>>, t: Seq<char>) -> Option<nat>
    decreases list.len(),
{
    if list.len() == 0 {
        None
    } else if list.last() == t {
        Some((list.len() - 1) as nat)
    } else {
        last_place(list.drop_last(), t)
    }
}

proof fn lemma_last_place(list: Seq<Seq<char>>, t: Seq<char>, i: int)
    requires
        0 <= i < list.len(),
        list[i] == t,
        forall|j: int| i < j < list.len() ==> list[j] != t,
    ensures
        last_place(list, t) == Some(i as nat),
    decreases list.len(),
{
    if i < list.len() - 1 {
        assert(list.last() != t);
        lemma_last_place(list.drop_last(), t, i);
    }
}

proof fn lemma_no_place(list: Seq<Seq<char>>, t: Seq<char>)
    requires
        forall|j: int| 0 <= j < list.len() ==> list[j] != t,
    ensures
        last_place(list, t) is None,
    decreases list.len(),
{
    if list.len() > 0 {
        assert(list.last() != t);
        lemma_no_place(list.drop_last(), t);
    }
}

/// A list in which texts are found quickly.
#[derive(Debug)]
pub struct TextIndex {
    list: Vec<String>,
    order: Vec<usize>,
}

impl TextIndex {
    pub closed spec fn entries(&self) -> Seq<Seq<char>> {
        texts(self.list@)
    }

    #[verifier::type_invariant]
    spec fn in_order(self) -> bool {
        is_stable_order(self.order@, texts(self.list@))
    }

    pub fn new(list: Vec<String>) -> (r: Self)
        ensures
            r.entries() == texts(list@),
    {
        let order = stable_order(&list);
        TextIndex { list, order }
    }

    /// The last place of a text.
    pub fn find(&self, t: &str) -> (r: Option<usize>)
        ensures
            match r {
                Some(i) => last_place(self.entries(), t@) == Some(i as nat),
                None => last_place(self.entries(), t@) is None,
            },
    {
        proof {
            use_type_invariant(self);
        }
        let ghost all = texts(self.list@);
        let ghost order = self.order@;
        let mut lo: usize = 0;
        let mut hi: usize = self.order.len();
        while lo < hi
            invariant
                lo <= hi <= order.len(),
                order == self.order@,
                all == texts(self.list@),
                is_stable_order(order, all),
                forall|k: int|
                    0 <= k < lo ==> text_rank(all[#[trigger] order[k] as int], t@)
                        != Rank::Greater,
                forall|k: int|
                    hi <= k < order.len() ==> text_rank(all[#[trigger] order[k] as int], t@)
                        == Rank::Greater,
            decreases hi - lo,
        {
            let mid: usize = lo + (hi - lo) / 2;
            let at: usize = self.order[mid];
            assert(all[at as int] == self.list@[at as int]@);
            let ghost here = all[at as int];
            match rank_text(self.list[at].as_str(), t) {
                Rank::Greater => {
                    proof {
                        assert forall|k: int| mid <= k < order.len() implies text_rank(
                            all[#[trigger] order[k] as int],
                            t@,
                        ) == Rank::Greater by {
                            if k > mid {
                                assert(keyed_before(all, order[mid as int] as int, order[k] as int));
                                lemma_greater(here, all[order[k] as int], t@);
                            }
                        }
                    }
                    hi = mid;
                },
                _ => {
                    proof {
                        assert forall|k: int| 0 <= k <= mid implies text_rank(
                            all[#[trigger] order[k] as int],
                            t@,
                        ) != Rank::Greater by {
                            if k < mid {
                                assert(keyed_before(all, order[k] as int, order[mid as int] as int));
                                if text_rank(all[order[k] as int], t@) == Rank::Greater {
                                    lemma_greater(all[order[k] as int], here, t@);
                                }
                            }
                        }
                    }
                    lo = mid + 1;
                },
            }
        }
        proof {
            crate::order::stable_order_is_a_permutation(order, all);
        }
        if lo == 0 {
            proof {
                assert forall|j: int| 0 <= j < all.len() implies all[j] != t@ by {
                    let k = lemma_covers(order, all.len(), j);
                    text_order_is_total(all[j], t@);
                }
                lemma_no_place(all, t@);
            }
            return None;
        }
        let at: usize = self.order[lo - 1];
        assert(all[at as int] == self.list@[at as int]@);
        if str_eq(self.list[at].as_str(), t) {
            proof {
                assert forall|j: int| at < j < all.len() implies all[j] != t@ by {
                    let k = lemma_covers(order, all.len(), j);
                    if k < lo - 1 {
                        assert(keyed_before(all, order[k] as int, order[lo - 1] as int));
                        text_order_is_total(all[j], t@);
                    }
                    text_order_is_total(all[j], t@);
                }
                lemma_last_place(all, t@, at as int);
            }
            Some(at)
        } else {
            proof {
                assert forall|j: int| 0 <= j < all.len() implies all[j] != t@ by {
                    let k = lemma_covers(order, all.len(), j);
                    if k < lo - 1 && all[j] == t@ {
                        assert(keyed_before(all, order[k] as int, order[lo - 1] as int));
                        text_order_is_total(all[at as int], t@);
                        text_order_is_total(t@, all[at as int]);
                    }
                    text_order_is_total(all[j], t@);
                }
                lemma_no_place(all, t@);
            }
            None
        }
    }
}

proof fn lemma_greater(a: Seq<char>, b: Seq<char>, t: Seq<char>)
    requires
        text_rank(a, b) == Rank::Less || a == b,
        text_rank(a, t) == Rank::Greater,
    ensures
        text_rank(b, t) == Rank::Greater,
{
    text_order_is_total(a, t);
    text_order_is_total(t, a);
    if a != b {
        crate::text::text_order_is_transitive(t, a, b);
        text_order_is_total(t, b);
        text_order_is_total(b, t);
    }
}

/// A list of `n` distinct places below `n` holds every one of them.
proof fn lemma_covers(order: Seq<usize>, n: nat, j: int) -> (k: int)
    requires
        n <= usize::MAX,
        order.len() == n,
        order.no_duplicates(),
        forall|i: int| 0 <= i < order.len() ==> #[trigger] order[i] < n,
        0 <= j < n,
    ensures
        0 <= k < order.len(),
        order[k] == j,
{
    if !order.contains(j as usize) {
        let s = order.to_set();
        order.unique_seq_to_set();
        let all = Set::new(|x: usize| x < n);
        lemma_below(n);
        assert(s.subset_of(all.remove(j as usize)));
        vstd::set_lib::lemma_len_subset(s, all.remove(j as usize));
        assert(false);
    }
    order.index_of(j as usize)
}

proof fn lemma_below(n: nat)
    requires
        n <= usize::MAX,
    ensures
        Set::new(|x: usize| x < n).finite(),
        Set::new(|x: usize| x < n).len() == n,
    decreases n,
{
    let s = Set::new(|x: usize| x < n);
    if n == 0 {
        assert(s =~= Set::<usize>::empty());
    } else {
        let m = (n - 1) as nat;
        lemma_below(m);
        assert(s =~= Set::new(|x: usize| x < m).insert(m as usize));
    }
}

/// Whether a text has no space.
pub open spec fn unspaced(s: Seq<char>) -> bool {
    forall|i: int| 0 <= i < s.len() ==> #[trigger] s[i] != ' '
}

proof fn lemma_words_unspaced(s: Seq<char>)
    ensures
        forall|k: int| 0 <= k < words(s).len() ==> unspaced(#[trigger] words(s)[k]),
    decreases s.len(),
{
    if s.len() > 0 {
        if is_white_space(s.last()) {
            lemma_words_unspaced(s.drop_last());
            assert(words(s) == words(s.drop_last()));
        } else {
            lemma_run_start(s, s.len());
            let start = run_start(s, s.len()) as int;
            let head = words(s.take(start));
            lemma_words_unspaced(s.take(start));
            let w = s.skip(start);
            assert(words(s) == head.push(w));
            assert forall|i: int| 0 <= i < w.len() implies #[trigger] w[i] != ' ' by {
                assert(!is_white_space(s[start + i]));
                assert(is_white_space(' '));
            }
            assert forall|k: int| 0 <= k < words(s).len() implies unspaced(#[trigger] words(s)[k]) by {
                if k < head.len() {
                    assert(words(s)[k] == head[k]);
                } else {
                    assert(words(s)[k] == w);
                }
            }
        }
    }
}

pub open spec fn pair_key(x: Seq<char>, y: Seq<char>) -> Seq<char> {
    x.push(' ') + y
}

pub open spec fn pair_keys(merges: Seq<(Seq<char>, Seq<char>)>) -> Seq<Seq<char>> {
    merges.map_values(|p: (Seq<char>, Seq<char>)| pair_key(p.0, p.1))
}

pub open spec fn all_unspaced(merges: Seq<(Seq<char>, Seq<char>)>) -> bool {
    forall|i: int|
        0 <= i < merges.len() ==> unspaced((#[trigger] merges[i]).0) && unspaced(merges[i].1)
}

proof fn lemma_unsplit(s: Seq<char>)
    requires
        unspaced(s),
    ensures
        split(s, ' ') == seq![s],
{
    if s.contains(' ') {
        let i = s.index_of(' ');
        assert(s[i] == ' ');
    }
}

proof fn lemma_pair_keys_differ(a: Seq<char>, b: Seq<char>, x: Seq<char>, y: Seq<char>)
    requires
        unspaced(a),
        unspaced(b),
        unspaced(x),
        unspaced(y),
        pair_key(a, b) == pair_key(x, y),
    ensures
        a == x,
        b == y,
{
    split_of_joined_texts(a, b, ' ');
    split_of_joined_texts(x, y, ' ');
    lemma_unsplit(a);
    lemma_unsplit(b);
    lemma_unsplit(x);
    lemma_unsplit(y);
    let l = seq![a] + seq![b];
    let r = seq![x] + seq![y];
    assert(l[0] == r[0] && l[1] == r[1]);
}

/// The rank of a pair: its last place among the merges.
pub open spec fn pair_rank(merges: Seq<(Seq<char>, Seq<char>)>, x: Seq<char>, y: Seq<char>) -> Option<
    nat,
>
    decreases merges.len(),
{
    if merges.len() == 0 {
        None
    } else if merges.last() == (x, y) {
        Some((merges.len() - 1) as nat)
    } else {
        pair_rank(merges.drop_last(), x, y)
    }
}

proof fn lemma_pair_rank(merges: Seq<(Seq<char>, Seq<char>)>, x: Seq<char>, y: Seq<char>)
    requires
        all_unspaced(merges),
        unspaced(x),
        unspaced(y),
    ensures
        last_place(pair_keys(merges), pair_key(x, y)) == pair_rank(merges, x, y),
    decreases merges.len(),
{
    let keys = pair_keys(merges);
    if merges.len() > 0 {
        let p = merges.last();
        assert(keys.last() == pair_key(p.0, p.1));
        assert(keys.drop_last() =~= pair_keys(merges.drop_last()));
        assert(unspaced(merges[merges.len() - 1].0));
        if pair_key(p.0, p.1) == pair_key(x, y) {
            lemma_pair_keys_differ(p.0, p.1, x, y);
        }
        lemma_pair_rank(merges.drop_last(), x, y);
    }
}

/// The pieces that a token begins with: one for each byte, the last marked as the end of a word.
pub open spec fn byte_pieces(bytes: Seq<u8>) -> Seq<Seq<char>> {
    Seq::new(
        bytes.len(),
        |i: int|
            if i == bytes.len() - 1 {
                seq![byte_char(bytes[i] as int)] + "</w>"@
            } else {
                seq![byte_char(bytes[i] as int)]
            },
    )
}

/// The place, among the first `n`, of the neighbours with the best rank; the first of equals.
pub open spec fn best_pair(
    merges: Seq<(Seq<char>, Seq<char>)>,
    word: Seq<Seq<char>>,
    n: nat,
) -> Option<(nat, nat)>
    decreases n,
{
    if n == 0 {
        None
    } else {
        let before = best_pair(merges, word, (n - 1) as nat);
        match pair_rank(merges, word[n - 1], word[n as int]) {
            None => before,
            Some(rank) => match before {
                Some((best, at)) => if rank < best {
                    Some((rank, (n - 1) as nat))
                } else {
                    before
                },
                None => Some((rank, (n - 1) as nat)),
            },
        }
    }
}

proof fn lemma_best_pair(merges: Seq<(Seq<char>, Seq<char>)>, word: Seq<Seq<char>>, n: nat)
    ensures
        match best_pair(merges, word, n) {
            Some((rank, at)) => at < n,
            None => true,
        },
    decreases n,
{
    if n > 0 {
        lemma_best_pair(merges, word, (n - 1) as nat);
    }
}

/// A word with the neighbours at a place made one.
pub open spec fn joined_at(word: Seq<Seq<char>>, at: int) -> Seq<Seq<char>> {
    word.take(at).push(word[at] + word[at + 1]) + word.skip(at + 2)
}

/// A word after all merges, the best first.
pub open spec fn merged_word(merges: Seq<(Seq<char>, Seq<char>)>, word: Seq<Seq<char>>) -> Seq<
    Seq<char>,
>
    decreases word.len(),
{
    if word.len() < 2 {
        word
    } else {
        match best_pair(merges, word, (word.len() - 1) as nat) {
            None => word,
            Some((rank, at)) => if at + 1 < word.len() {
                merged_word(merges, joined_at(word, at as int))
            } else {
                word
            },
        }
    }
}

/// The pieces of a token.
pub open spec fn token_pieces(merges: Seq<(Seq<char>, Seq<char>)>, token: Seq<char>) -> Seq<
    Seq<char>,
> {
    merged_word(merges, byte_pieces(vstd::utf8::encode_utf8(token)))
}

/// The numbers of pieces; a piece that is not in the vocabulary has none.
pub open spec fn piece_ids(vocab: Seq<Seq<char>>, pieces: Seq<Seq<char>>) -> Seq<i64>
    decreases pieces.len(),
{
    if pieces.len() == 0 {
        Seq::empty()
    } else {
        let before = piece_ids(vocab, pieces.drop_last());
        match last_place(vocab, pieces.last()) {
            Some(i) => before.push(i as i64),
            None => before,
        }
    }
}

/// The numbers of the pieces of several tokens.
pub open spec fn token_ids(merges: Seq<(Seq<char>, Seq<char>)>, tokens: Seq<Seq<char>>) -> Seq<i64>
    decreases tokens.len(),
{
    if tokens.len() == 0 {
        Seq::empty()
    } else {
        token_ids(merges, tokens.drop_last()) + piece_ids(
            vocabulary(merges),
            token_pieces(merges, tokens.last()),
        )
    }
}

/// Numbers between the two frames, as many as fit.
pub open spec fn framed(ids: Seq<i64>) -> Seq<i64> {
    let all = seq![SOT] + ids;
    let n = if all.len() < CONTEXT_LEN - 1 {
        all.len() as int
    } else {
        CONTEXT_LEN - 1
    };
    all.take(n).push(EOT)
}

/// Numbers filled up with zeros.
pub open spec fn padded(ids: Seq<i64>) -> Seq<i64> {
    Seq::new(
        CONTEXT_LEN as nat,
        |i: int|
            if i < ids.len() {
                ids[i]
            } else {
                0i64
            },
    )
}

/// Ones for the places that hold numbers.
pub open spec fn attention(ids: Seq<i64>) -> Seq<i64> {
    Seq::new(
        CONTEXT_LEN as nat,
        |i: int|
            if i < ids.len() {
                1i64
            } else {
                0i64
            },
    )
}

/// The pattern of the tokens of a text: contractions, words, digits, and the rest.
pub const TOKEN_PATTERN: &'static str = r"(?i)<\|startoftext\|>|<\|endoftext\|>|'s|'t|'re|'ve|'m|'ll|'d|[\p{L}]+|[\p{N}]|[^\s\p{L}\p{N}]+";

/// The tokens of a text: without the white space around it and without case.
pub open spec fn text_tokens(text: Seq<char>) -> Seq<Seq<char>> {
    pattern_pieces(TOKEN_PATTERN@, unicode_lower(trimmed(text)))
}

/// The numbers of a text before they are filled up.
pub open spec fn text_ids(merges: Seq<(Seq<char>, Seq<char>)>, text: Seq<char>) -> Seq<i64> {
    framed(token_ids(merges, text_tokens(text)))
}

proof fn lemma_merges(lines: Seq<Seq<char>>, n: nat)
    ensures
        merges_of(lines, n).len() <= n,
        all_unspaced(merges_of(lines, n)),
    decreases n,
{
    if n > 0 {
        lemma_merges(lines, (n - 1) as nat);
        let before = merges_of(lines, (n - 1) as nat);
        if n < lines.len() {
            let line = lines[n as int];
            lemma_words_unspaced(line);
            if let Some(pair) = first_two(line) {
                assert(unspaced(words(line)[0]) && unspaced(words(line)[1]));
                let after = merges_of(lines, n);
                assert forall|i: int| 0 <= i < after.len() implies unspaced((#[trigger] after[i]).0)
                    && unspaced(after[i].1) by {
                    if i < before.len() {
                        assert(after[i] == before[i]);
                    }
                }
            }
        }
    }
}

fn read_merges(raw: &str) -> (r: Vec<(String, String)>)
    ensures
        pairs_of(r@) == merges_in(raw@),
{
    let lines = split_char(raw, '\n');
    let ghost all = split(raw@, '\n');
    let n: usize = lines.len();
    let mut out: Vec<(String, String)> = Vec::new();
    let mut i: usize = 0;
    assert(texts(lines@).len() == n);
    assert(pairs_of(out@) =~= merges_of(all, 0));
    while i < MERGE_LINES
        invariant
            i <= MERGE_LINES,
            n == lines@.len(),
            n == all.len(),
            all == texts(lines@),
            pairs_of(out@) == merges_of(all, i as nat),
        decreases MERGE_LINES - i,
    {
        let ghost before = pairs_of(out@);
        i += 1;
        if i < n {
            assert(all[i as int] == lines@[i as int]@);
            let cs = chars_of(lines[i].as_str());
            let w = split_words(&cs);
            assert(texts(w@).len() == w@.len());
            if w.len() >= 2 {
                assert(texts(w@)[0] == w@[0]@ && texts(w@)[1] == w@[1]@);
                let a = w[0].clone();
                let b = w[1].clone();
                let ghost pair = (a@, b@);
                out.push((a, b));
                assert(pairs_of(out@) =~= before.push(pair));
            }
        }
    }
    out
}

fn char_text(c: char) -> (r: String)
    ensures
        r@ == seq![c],
{
    let mut s = String::new();
    assert(s@ =~= Seq::<char>::empty());
    s.push(c);
    assert(s@ =~= seq![c]);
    s
}

fn build_vocabulary(ordered: &Vec<char>, merges: &Vec<(String, String)>) -> (r: Vec<String>)
    requires
        ordered@ == vocabulary_chars(),
    ensures
        texts(r@) == vocabulary(pairs_of(merges@)),
{
    let ghost chars = vocabulary_chars();
    let ghost first = chars.map_values(|c: char| seq![c]);
    let ghost second = chars.map_values(|c: char| seq![c] + "</w>"@);
    let ghost third = pairs_of(merges@).map_values(|p: (Seq<char>, Seq<char>)| p.0 + p.1);
    let n: usize = ordered.len();
    let m: usize = merges.len();
    let mut out: Vec<String> = Vec::new();
    let mut i: usize = 0;
    assert(texts(out@) =~= first.take(0));
    while i < n
        invariant
            i <= n,
            n == ordered@.len(),
            chars == ordered@,
            first == chars.map_values(|c: char| seq![c]),
            texts(out@) == first.take(i as int),
        decreases n - i,
    {
        let ghost before = texts(out@);
        let c: char = ordered[i];
        let t = char_text(c);
        let ghost tv = t@;
        out.push(t);
        assert(texts(out@) =~= before.push(tv));
        assert(first.take(i + 1) =~= first.take(i as int).push(tv));
        i += 1;
    }
    assert(first.take(n as int) =~= first);
    i = 0;
    assert(texts(out@) =~= first + second.take(0));
    while i < n
        invariant
            i <= n,
            n == ordered@.len(),
            chars == ordered@,
            second == chars.map_values(|c: char| seq![c] + "</w>"@),
            texts(out@) == first + second.take(i as int),
        decreases n - i,
    {
        let ghost before = texts(out@);
        let c: char = ordered[i];
        let one = char_text(c);
        let t = cat(one.as_str(), "</w>");
        let ghost tv = t@;
        out.push(t);
        assert(texts(out@) =~= before.push(tv));
        assert(first + second.take(i + 1) =~= (first + second.take(i as int)).push(tv));
        i += 1;
    }
    assert(second.take(n as int) =~= second);
    i = 0;
    assert(texts(out@) =~= first + second + third.take(0));
    while i < m
        invariant
            i <= m,
            m == merges@.len(),
            third == pairs_of(merges@).map_values(|p: (Seq<char>, Seq<char>)| p.0 + p.1),
            texts(out@) == first + second + third.take(i as int),
        decreases m - i,
    {
        let ghost before = texts(out@);
        let t = cat(merges[i].0.as_str(), merges[i].1.as_str());
        let ghost tv = t@;
        out.push(t);
        assert(texts(out@) =~= before.push(tv));
        assert(pairs_of(merges@)[i as int] == (merges@[i as int].0@, merges@[i as int].1@));
        assert(first + second + third.take(i + 1) =~= (first + second + third.take(i as int)).push(
            tv,
        ));
        i += 1;
    }
    assert(third.take(m as int) =~= third);
    let ghost before = texts(out@);
    out.push("<|startoftext|>".to_owned());
    out.push("<|endoftext|>".to_owned());
    assert(texts(out@) =~= before + seq!["<|startoftext|>"@, "<|endoftext|>"@]);
    out
}

/// Turns text into tokens of a vocabulary.
pub struct ClipTokenizer {
    tokens: TextIndex,
    pairs: TextIndex,
    byte_map: Vec<char>,
    merges: Ghost<Seq<(Seq<char>, Seq<char>)>>,
}

impl ClipTokenizer {
    /// The merges of the vocabulary, the best first.
    pub closed spec fn merge_list(&self) -> Seq<(Seq<char>, Seq<char>)> {
        self.merges@
    }

    #[verifier::type_invariant]
    spec fn is_consistent(self) -> bool {
        &&& self.tokens.entries() == vocabulary(self.merges@)
        &&& self.pairs.entries() == pair_keys(self.merges@)
        &&& all_unspaced(self.merges@)
        &&& self.merges@.len() <= MERGE_LINES
        &&& self.byte_map@.len() == 256
        &&& forall|b: int| 0 <= b < 256 ==> #[trigger] self.byte_map@[b] == byte_char(b)
        &&& pattern_fault(TOKEN_PATTERN@) is None
    }

    /// A tokenizer of a vocabulary text.
    pub fn load(raw: &str) -> (r: Result<Self, String>)
        ensures
            match r {
                Ok(t) => pattern_fault(TOKEN_PATTERN@) is None && t.merge_list() == merges_in(raw@),
                Err(e) => pattern_fault(TOKEN_PATTERN@) is Some && e@ == "clip tokenizer regex: "@
                    + pattern_fault(TOKEN_PATTERN@)->0,
            },
    {
        if let Err(e) = find_pieces(TOKEN_PATTERN, "") {
            return Err(cat("clip tokenizer regex: ", e.as_str()));
        }
        let merges = read_merges(raw);
        let ghost list = pairs_of(merges@);
        let (byte_map, ordered) = bytes_to_unicode();
        let vocab = build_vocabulary(&ordered, &merges);
        let mut keys: Vec<String> = Vec::new();
        let n: usize = merges.len();
        let mut i: usize = 0;
        while i < n
            invariant
                i <= n,
                n == merges@.len(),
                keys@.len() == i,
                forall|k: int|
                    0 <= k < i ==> (#[trigger] keys@[k])@ == pair_key(
                        merges@[k].0@,
                        merges@[k].1@,
                    ),
            decreases n - i,
        {
            let mut key = merges[i].0.clone();
            key.push(' ');
            key.append(merges[i].1.as_str());
            keys.push(key);
            i += 1;
        }
        proof {
            lemma_merges(split(raw@, '\n'), MERGE_LINES as nat);
            assert(texts(keys@) =~= pair_keys(list));
        }
        Ok(
            ClipTokenizer {
                tokens: TextIndex::new(vocab),
                pairs: TextIndex::new(keys),
                byte_map,
                merges: Ghost(list),
            },
        )
    }

    fn find_best(&self, word: &Vec<String>) -> (r: Option<usize>)
        requires
            word@.len() >= 2,
            forall|i: int| 0 <= i < word@.len() ==> unspaced((#[trigger] word@[i])@),
        ensures
            match best_pair(self.merge_list(), texts(word@), (word@.len() - 1) as nat) {
                Some((rank, at)) => r is Some && r->0 == at && at + 1 < word@.len(),
                None => r is None,
            },
    {
        proof {
            use_type_invariant(self);
        }
        let ghost all = texts(word@);
        let ghost merges = self.merges@;
        let n: usize = word.len() - 1;
        let mut best: Option<(usize, usize)> = None;
        let mut i: usize = 0;
        while i < n
            invariant
                i <= n,
                n + 1 == word@.len(),
                all == texts(word@),
                merges == self.merges@,
                all_unspaced(merges),
                self.pairs.entries() == pair_keys(merges),
                forall|k: int| 0 <= k < word@.len() ==> unspaced((#[trigger] word@[k])@),
                match best {
                    Some((rank, at)) => best_pair(merges, all, i as nat) == Some(
                        (rank as nat, at as nat),
                    ) && at < i,
                    None => best_pair(merges, all, i as nat) is None,
                },
            decreases n - i,
        {
            let mut key = word[i].clone();
            key.push(' ');
            key.append(word[i + 1].as_str());
            proof {
                assert(all[i as int] == word@[i as int]@ && all[i + 1] == word@[i + 1]@);
                assert(key@ =~= pair_key(all[i as int], all[i + 1]));
                lemma_pair_rank(merges, all[i as int], all[i + 1]);
            }
            if let Some(rank) = self.pairs.find(key.as_str()) {
                match best {
                    Some((b, _)) => if rank < b {
                        best = Some((rank, i));
                    },
                    None => {
                        best = Some((rank, i));
                    },
                }
            }
            i += 1;
        }
        match best {
            Some((_, at)) => Some(at),
            None => None,
        }
    }

    fn bpe(&self, token: &str) -> (r: Vec<String>)
        ensures
            texts(r@) == token_pieces(self.merge_list(), token@),
    {
        proof {
            use_type_invariant(self);
            reveal_strlit("</w>");
        }
        let bytes = token.as_bytes();
        let ghost goal = byte_pieces(bytes@);
        let n: usize = bytes.len();
        let mut word: Vec<String> = Vec::new();
        let mut i: usize = 0;
        assert(texts(word@) =~= goal.take(0));
        while i < n
            invariant
                i <= n,
                n == bytes@.len(),
                goal == byte_pieces(bytes@),
                self.byte_map@.len() == 256,
                forall|b: int| 0 <= b < 256 ==> #[trigger] self.byte_map@[b] == byte_char(b),
                texts(word@) == goal.take(i as int),
                forall|k: int| 0 <= k < word@.len() ==> unspaced((#[trigger] word@[k])@),
                "</w>"@ == seq!['<', '/', 'w', '>'],
            decreases n - i,
        {
            let ghost before = texts(word@);
            let c: char = self.byte_map[bytes[i] as usize];
            let mut piece = char_text(c);
            proof {
                lemma_moved(bytes@[i as int] as int, 256);
                assert(c == byte_char(bytes@[i as int] as int));
            }
            if i == n - 1 {
                piece.append("</w>");
            }
            let ghost pv = piece@;
            word.push(piece);
            assert(pv =~= goal[i as int]);
            assert(unspaced(pv));
            assert(texts(word@) =~= before.push(pv));
            assert(goal.take(i + 1) =~= goal.take(i as int).push(pv));
            i += 1;
        }
        assert(goal.take(n as int) =~= goal);
        let ghost merges = self.merge_list();
        let mut done: bool = false;
        while !done && word.len() >= 2
            invariant
                merges == self.merge_list(),
                forall|k: int| 0 <= k < word@.len() ==> unspaced((#[trigger] word@[k])@),
                merged_word(merges, texts(word@)) == merged_word(merges, goal),
                done ==> merged_word(merges, texts(word@)) == texts(word@),
            decreases word@.len(), if done { 0int } else { 1int },
        {
            let ghost all = texts(word@);
            let ghost w0 = word@;
            assert(all.len() == word@.len());
            match self.find_best(&word) {
                None => {
                    done = true;
                },
                Some(at) => {
                    let merged = cat(word[at].as_str(), word[at + 1].as_str());
                    let ghost mv = merged@;
                    word.set(at, merged);
                    let _ = word.remove(at + 1);
                    proof {
                        assert(all[at as int] == w0[at as int]@ && all[at + 1] == w0[at + 1]@);
                        assert(texts(word@) =~= joined_at(all, at as int));
                        assert forall|k: int| 0 <= k < word@.len() implies unspaced(
                            (#[trigger] word@[k])@,
                        ) by {
                            if k < at {
                                assert(word@[k] == w0[k]);
                            } else if k == at {
                                assert(unspaced(w0[at as int]@) && unspaced(w0[at + 1]@));
                                assert(word@[k]@ == mv);
                            } else {
                                assert(word@[k] == w0[k + 1]);
                            }
                        }
                    }
                },
            }
        }
        assert(texts(word@).len() == word@.len());
        word
    }

    /// The numbers of a text, framed and filled up to the fixed length, and ones for the places
    /// that hold them. What does not fit is cut.
    pub fn encode(&self, text: &str) -> (r: (Vec<i64>, Vec<i64>))
        ensures
            r.0@ == padded(text_ids(self.merge_list(), text@)),
            r.1@ == attention(text_ids(self.merge_list(), text@)),
    {
        proof {
            use_type_invariant(self);
        }
        let tidy = trim(text);
        let cleaned = to_lowercase(tidy.as_str());
        let tokens = match find_pieces(TOKEN_PATTERN, cleaned.as_str()) {
            Ok(t) => t,
            Err(_) => {
                assert(false);
                Vec::new()
            },
        };
        self.encode_tokens(&tokens)
    }

    /// The numbers of the words that a text was cut into, framed and filled up to the fixed
    /// length, and ones for the places that hold them.
    pub fn encode_tokens(&self, tokens: &Vec<String>) -> (r: (Vec<i64>, Vec<i64>))
        ensures
            r.0@ == padded(framed(token_ids(self.merge_list(), texts(tokens@)))),
            r.1@ == attention(framed(token_ids(self.merge_list(), texts(tokens@)))),
    {
        proof {
            use_type_invariant(self);
        }
        let ghost merges = self.merge_list();
        let ghost vocab = vocabulary(merges);
        let ghost all = texts(tokens@);
        let ghost full = token_ids(merges, all);
        let n: usize = tokens.len();
        let mut ids: Vec<i64> = Vec::new();
        ids.push(SOT);
        let mut i: usize = 0;
        proof {
            assert(texts(tokens@).len() == n);
            assert(all.take(0) =~= Seq::<Seq<char>>::empty());
            assert(ids@ =~= seq![SOT] + token_ids(merges, all.take(0)));
        }
        while i < n && ids.len() < CONTEXT_LEN - 1
            invariant
                i <= n,
                n == tokens@.len(),
                n == all.len(),
                all == texts(tokens@),
                merges == self.merge_list(),
                vocab == vocabulary(merges),
                self.tokens.entries() == vocab,
                merges.len() <= MERGE_LINES,
                ids@ == seq![SOT] + token_ids(merges, all.take(i as int)),
            decreases n - i,
        {
            assert(all[i as int] == tokens@[i as int]@);
            let pieces = self.bpe(tokens[i].as_str());
            let ghost start = ids@;
            let ghost ps = texts(pieces@);
            let m: usize = pieces.len();
            let mut j: usize = 0;
            proof {
                assert(ps.len() == m);
                assert(ps.take(0) =~= Seq::<Seq<char>>::empty());
                assert(ids@ =~= start + piece_ids(vocab, ps.take(0)));
            }
            while j < m
                invariant
                    j <= m,
                    m == pieces@.len(),
                    m == ps.len(),
                    ps == texts(pieces@),
                    vocab == vocabulary(merges),
                    self.tokens.entries() == vocab,
                    merges.len() <= MERGE_LINES,
                    ids@ == start + piece_ids(vocab, ps.take(j as int)),
                decreases m - j,
            {
                let ghost before = ids@;
                proof {
                    assert(ps.take(j + 1).drop_last() =~= ps.take(j as int));
                    assert(ps.take(j + 1).last() == pieces@[j as int]@);
                }
                if let Some(id) = self.tokens.find(pieces[j].as_str()) {
                    proof {
                        lemma_vocabulary_len(merges);
                        lemma_place_bound(vocab, pieces@[j as int]@);
                    }
                    ids.push(id as i64);
                    assert(ids@ =~= start + piece_ids(vocab, ps.take(j + 1)));
                }
                j += 1;
            }
            proof {
                assert(ps.take(m as int) =~= ps);
                assert(all.take(i + 1).drop_last() =~= all.take(i as int));
                assert(all.take(i + 1).last() == tokens@[i as int]@);
                assert(ids@ =~= seq![SOT] + token_ids(merges, all.take(i + 1)));
            }
            i += 1;
        }
        proof {
            lemma_ids_grow(merges, all, i as int);
            assert(all.take(n as int) =~= all);
        }
        let len: usize = if ids.len() < CONTEXT_LEN - 1 {
            ids.len()
        } else {
            CONTEXT_LEN - 1
        };
        let ghost body = seq![SOT] + full;
        let ghost goal = framed(full);
        proof {
            assert(ids@.take(len as int) =~= goal.drop_last()) by {
                let part = token_ids(merges, all.take(i as int));
                assert(full.take(part.len() as int) == part);
                if i < n {
                    assert(ids@.len() >= CONTEXT_LEN - 1);
                    assert(body.take(ids@.len() as int) =~= ids@);
                    assert(body.take(len as int) =~= ids@.take(len as int));
                } else {
                    assert(ids@ =~= body);
                }
                assert(goal.drop_last() =~= body.take(len as int));
            }
            assert(goal.len() == len + 1);
        }
        let mut out: Vec<i64> = Vec::new();
        let mut attn: Vec<i64> = Vec::new();
        let mut k: usize = 0;
        while k < CONTEXT_LEN
            invariant
                k <= CONTEXT_LEN,
                len <= ids@.len(),
                len <= CONTEXT_LEN - 1,
                goal.len() == len + 1,
                goal.last() == EOT,
                ids@.take(len as int) == goal.drop_last(),
                out@.len() == k,
                attn@.len() == k,
                forall|p: int| 0 <= p < k ==> #[trigger] out@[p] == padded(goal)[p],
                forall|p: int| 0 <= p < k ==> #[trigger] attn@[p] == attention(goal)[p],
            decreases CONTEXT_LEN - k,
        {
            if k < len {
                assert(goal.drop_last()[k as int] == ids@.take(len as int)[k as int]);
                out.push(ids[k]);
                attn.push(1);
            } else if k == len {
                out.push(EOT);
                attn.push(1);
            } else {
                out.push(0);
                attn.push(0);
            }
            k += 1;
        }
        proof {
            assert(out@ =~= padded(goal));
            assert(attn@ =~= attention(goal));
        }
        (out, attn)
    }
}

proof fn lemma_vocabulary_len(merges: Seq<(Seq<char>, Seq<char>)>)
    ensures
        vocabulary(merges).len() <= 2 * 512 + merges.len() + 2,
{
    lemma_bytes_len(256);
}

proof fn lemma_bytes_len(n: int)
    requires
        0 <= n <= 256,
    ensures
        plain_bytes(n).len() <= n,
        moved_bytes(n).len() <= n,
    decreases n,
{
    if n > 0 {
        lemma_bytes_len(n - 1);
    }
}

proof fn lemma_place_bound(list: Seq<Seq<char>>, t: Seq<char>)
    ensures
        match last_place(list, t) {
            Some(i) => i < list.len(),
            None => true,
        },
    decreases list.len(),
{
    if list.len() > 0 {
        lemma_place_bound(list.drop_last(), t);
    }
}

proof fn lemma_ids_grow(merges: Seq<(Seq<char>, Seq<char>)>, tokens: Seq<Seq<char>>, i: int)
    requires
        0 <= i <= tokens.len(),
    ensures
        ({
            let part = token_ids(merges, tokens.take(i));
            let full = token_ids(merges, tokens);
            part.len() <= full.len() && full.take(part.len() as int) == part
        }),
    decreases tokens.len(),
{
    let part = token_ids(merges, tokens.take(i));
    let full = token_ids(merges, tokens);
    if i == tokens.len() {
        assert(tokens.take(i) =~= tokens);
        assert(full.take(full.len() as int) =~= full);
    } else {
        let shorter = tokens.drop_last();
        lemma_ids_grow(merges, shorter, i);
        assert(shorter.take(i) =~= tokens.take(i));
        let most = token_ids(merges, shorter);
        assert(full.take(part.len() as int) =~= most.take(part.len() as int));
    }
}

/// The case of a text and the white space around it do not matter for its numbers.
pub proof fn encoding_ignores_case(
    merges: Seq<(Seq<char>, Seq<char>)>,
    a: Seq<char>,
    b: Seq<char>,
)
    requires
        unicode_lower(trimmed(a)) == unicode_lower(trimmed(b)),
    ensures
        text_ids(merges, a) == text_ids(merges, b),
{
}

/// The numbers of a text begin and end with the frames and fit the fixed length.
pub proof fn encoding_is_framed(merges: Seq<(Seq<char>, Seq<char>)>, text: Seq<char>)
    ensures
        2 <= text_ids(merges, text).len() <= CONTEXT_LEN,
        text_ids(merges, text)[0] == SOT,
        text_ids(merges, text).last() == EOT,
        padded(text_ids(merges, text)).len() == CONTEXT_LEN,
{
}

/// The second input of a text model.
#[derive(Clone, Copy, PartialEq, Eq, Debug, Structural)]
pub enum TextSecondInput {
    Absent,
    Mask,
    Positions,
}

/// What the second input of a text model is, by its name. One of an unknown name is taken for a
/// mask.
pub fn second_input(names: &Vec<String>) -> (r: TextSecondInput)
    ensures
        r == if names@.len() < 2 {
            TextSecondInput::Absent
        } else if contains_text(unicode_lower(names@[1]@), "position"@) {
            TextSecondInput::Positions
        } else {
            TextSecondInput::Mask
        },
{
    if names.len() < 2 {
        return TextSecondInput::Absent;
    }
    let lower = to_lowercase(names[1].as_str());
    if contains(lower.as_str(), "position") {
        TextSecondInput::Positions
    } else {
        TextSecondInput::Mask
    }
}

/// Whether an output is named as an embedding.
pub open spec fn named_embedding(label: Seq<char>) -> bool {
    contains_text(unicode_lower(label), "embeds"@)
}

/// The first output that is named as an embedding.
pub fn preferred_output(labels: &Vec<String>) -> (r: Option<usize>)
    ensures
        match r {
            Some(i) => i < labels@.len() && named_embedding(labels@[i as int]@) && forall|j: int|
                0 <= j < i ==> !named_embedding((#[trigger] labels@[j])@),
            None => forall|j: int|
                0 <= j < labels@.len() ==> !named_embedding((#[trigger] labels@[j])@),
        },
{
    let n: usize = labels.len();
    let mut i: usize = 0;
    while i < n
        invariant
            i <= n,
            n == labels@.len(),
            forall|j: int| 0 <= j < i ==> !named_embedding((#[trigger] labels@[j])@),
        decreases n - i,
    {
        let lower = to_lowercase(labels[i].as_str());
        if contains(lower.as_str(), "embeds") {
            return Some(i);
        }
        i += 1;
    }
    None
}

pub open spec fn product(shape: Seq<usize>) -> nat
    decreases shape.len(),
{
    if shape.len() == 0 {
        1
    } else {
        product(shape.drop_last()) * (shape.last() as nat)
    }
}

/// Whether an output of this shape can be an embedding: one row of a likely length.
pub open spec fn is_plausible(shape: Seq<usize>) -> bool {
    &&& 64 <= product(shape) <= 4096
    &&& shape.len() > 0
    &&& shape[0] == 1
    &&& shape.len() <= 2
}

fn plausible(shape: &Vec<usize>) -> (r: bool)
    ensures
        r == is_plausible(shape@),
{
    let n: usize = shape.len();
    if n == 0 || n > 2 || shape[0] != 1 {
        return false;
    }
    proof {
        reveal_with_fuel(product, 3);
    }
    if n == 1 {
        assert(shape@.drop_last() =~= Seq::<usize>::empty());
        assert(product(shape@) == 1);
        return false;
    }
    let len: usize = shape[1];
    proof {
        let first = shape@.drop_last();
        let none = first.drop_last();
        assert(none =~= Seq::<usize>::empty());
        assert(first.last() == 1);
        assert(product(first) == product(none) * 1);
        assert(product(shape@) == product(first) * (len as nat));
        assert(product(first) * (len as nat) == len) by (nonlinear_arith)
            requires
                product(first) == 1,
        ;
    }
    64 <= len && len <= 4096
}

/// Which output is the embedding: the preferred one where it can be one, or else the last that can.
pub fn pick_output(shapes: &Vec<Vec<usize>>, preferred: Option<usize>) -> (r: Result<usize, String>)
    ensures
        match r {
            Ok(i) => {
                &&& i < shapes@.len()
                &&& is_plausible(shapes@[i as int]@)
                &&& if preferred is Some && preferred->0 < shapes@.len() && is_plausible(
                    shapes@[preferred->0 as int]@,
                ) {
                    preferred == Some(i)
                } else {
                    forall|j: int|
                        i < j < shapes@.len() ==> !is_plausible((#[trigger] shapes@[j])@)
                }
            },
            Err(e) => {
                &&& forall|j: int|
                    0 <= j < shapes@.len() ==> !is_plausible((#[trigger] shapes@[j])@)
                &&& e@
                    == "clip output: no [1, D] embedding tensor found (wrong export — use the projection-head models)"@
            },
        },
{
    let n: usize = shapes.len();
    if let Some(p) = preferred {
        if p < n && plausible(&shapes[p]) {
            return Ok(p);
        }
    }
    let mut i: usize = n;
    while i > 0
        invariant
            i <= n,
            n == shapes@.len(),
            preferred is Some && preferred->0 < n ==> !is_plausible(shapes@[preferred->0 as int]@),
            forall|j: int| i <= j < n ==> !is_plausible((#[trigger] shapes@[j])@),
        decreases i,
    {
        i -= 1;
        if plausible(&shapes[i]) {
            return Ok(i);
        }
    }
    Err(
        "clip output: no [1, D] embedding tensor found (wrong export — use the projection-head models)".to_owned(),
    )
}

/// The length of the embeddings of two models that belong together, or why they do not.
pub fn check_dims(text_dim: usize, image_dim: usize) -> (r: Result<usize, String>)
    ensures
        if text_dim < 64 {
            r is Err && r->Err_0@ == "clip text encoder produced "@ + decimal(text_dim as nat)
                + " dims (expected ~512); wrong export?"@
        } else if image_dim != text_dim {
            r is Err && r->Err_0@ == "clip encoder dim mismatch: text "@ + decimal(text_dim as nat)
                + " vs image "@ + decimal(image_dim as nat) + " — mixed exports?"@
        } else {
            r == Ok::<usize, String>(text_dim)
        },
{
    let t = decimal_text(text_dim as u64);
    if text_dim < 64 {
        return Err(
            cat3(
                "clip text encoder produced ",
                t.as_str(),
                " dims (expected ~512); wrong export?",
            ),
        );
    }
    if image_dim != text_dim {
        let m = decimal_text(image_dim as u64);
        let mut e = cat3("clip encoder dim mismatch: text ", t.as_str(), " vs image ");
        e.append(m.as_str());
        e.append(" — mixed exports?");
        return Err(e);
    }
    Ok(text_dim)
}

/// The label of an output, or its number where it has none.
pub open spec fn output_label(labels: Seq<Seq<char>>, i: int) -> Seq<char> {
    if 0 <= i < labels.len() {
        labels[i]
    } else {
        "out"@ + decimal(i as nat)
    }
}

fn label_of(labels: &Vec<String>, i: usize) -> (r: String)
    ensures
        r@ == output_label(texts(labels@), i as int),
{
    assert(texts(labels@).len() == labels@.len());
    if i < labels.len() {
        assert(texts(labels@)[i as int] == labels@[i as int]@);
        labels[i].clone()
    } else {
        let digits = decimal_text(i as u64);
        cat("out", digits.as_str())
    }
}

/// What was picked of the models, to be shown.
pub fn describe_picks(
    text_labels: &Vec<String>,
    text_pick: usize,
    second: TextSecondInput,
    image_labels: &Vec<String>,
    image_pick: usize,
) -> (r: String)
    ensures
        r@ == "text→"@ + output_label(texts(text_labels@), text_pick as int) + " ("@ + (
        match second {
            TextSecondInput::Absent => "ids-only"@,
            TextSecondInput::Mask => "mask"@,
            TextSecondInput::Positions => "position_ids"@,
        }) + "), image→"@ + output_label(texts(image_labels@), image_pick as int),
{
    let a = label_of(text_labels, text_pick);
    let b = label_of(image_labels, image_pick);
    let word = match second {
        TextSecondInput::Absent => "ids-only",
        TextSecondInput::Mask => "mask",
        TextSecondInput::Positions => "position_ids",
    };
    let mut s = cat3("text→", a.as_str(), " (");
    s.append(word);
    s.append("), image→");
    s.append(b.as_str());
    s
}

/// The bytes of a number, the lowest first.
pub open spec fn le_bytes(n: nat, width: nat) -> Seq<u8>
    decreases width,
{
    if width == 0 {
        Seq::empty()
    } else {
        seq![(n % 256) as u8] + le_bytes(n / 256, (width - 1) as nat)
    }
}

/// The number of bytes, the lowest first.
pub open spec fn le_value(s: Seq<u8>) -> nat
    decreases s.len(),
{
    if s.len() == 0 {
        0
    } else {
        s[0] as nat + 256 * le_value(s.drop_first())
    }
}

pub open spec fn power256(n: nat) -> nat
    decreases n,
{
    if n == 0 {
        1
    } else {
        256 * power256((n - 1) as nat)
    }
}

/// A number reads back from its bytes.
pub proof fn numbers_read_back(n: nat, width: nat)
    requires
        n < power256(width),
    ensures
        le_bytes(n, width).len() == width,
        le_value(le_bytes(n, width)) == n,
    decreases width,
{
    if width > 0 {
        numbers_read_back(n / 256, (width - 1) as nat);
        let s = le_bytes(n, width);
        assert(s.drop_first() =~= le_bytes(n / 256, (width - 1) as nat));
    }
}

proof fn lemma_value_bound(s: Seq<u8>)
    ensures
        le_value(s) < power256(s.len()),
    decreases s.len(),
{
    if s.len() > 0 {
        lemma_value_bound(s.drop_first());
    }
}

proof fn lemma_powers()
    ensures
        power256(4) == 0x1_0000_0000,
        power256(8) == 0x1_0000_0000_0000_0000,
{
    reveal_with_fuel(power256, 9);
}

/// The bytes of several numbers of four bytes.
pub open spec fn word_bytes(words: Seq<u32>) -> Seq<u8>
    decreases words.len(),
{
    if words.len() == 0 {
        Seq::empty()
    } else {
        word_bytes(words.drop_last()) + le_bytes(words.last() as nat, 4)
    }
}

/// A stored embedding: the time and the size of its file, its length, its values bit for bit.
pub open spec fn row_bytes(mtime: u64, size: u64, values: Seq<u32>) -> Seq<u8> {
    le_bytes(mtime as nat, 8) + le_bytes(size as nat, 8) + le_bytes(values.len(), 4) + word_bytes(
        values,
    )
}

fn push_le(out: &mut Vec<u8>, n: u64, width: u8)
    ensures
        final(out)@ == old(out)@ + le_bytes(n as nat, width as nat),
    decreases width,
{
    if width > 0 {
        let ghost before = out@;
        out.push((n % 256) as u8);
        push_le(out, n / 256, width - 1);
        assert(before.push((n % 256) as u8) + le_bytes((n / 256) as nat, (width - 1) as nat)
            =~= before + le_bytes(n as nat, width as nat));
    } else {
        assert(out@ + Seq::<u8>::empty() =~= out@);
    }
}

/// The stored form of an embedding. The values are given by their bits.
pub fn encode_row(mtime: u64, size: u64, values: &Vec<u32>) -> (r: Vec<u8>)
    requires
        values@.len() <= u32::MAX,
    ensures
        r@ == row_bytes(mtime, size, values@),
{
    let mut out: Vec<u8> = Vec::new();
    assert(out@ =~= Seq::<u8>::empty());
    push_le(&mut out, mtime, 8);
    push_le(&mut out, size, 8);
    let n: usize = values.len();
    push_le(&mut out, n as u64, 4);
    let ghost head = le_bytes(mtime as nat, 8) + le_bytes(size as nat, 8) + le_bytes(n as nat, 4);
    assert(out@ =~= head);
    let mut i: usize = 0;
    assert(values@.take(0) =~= Seq::<u32>::empty());
    assert(out@ =~= head + word_bytes(values@.take(0)));
    while i < n
        invariant
            i <= n,
            n == values@.len(),
            out@ == head + word_bytes(values@.take(i as int)),
        decreases n - i,
    {
        let ghost before = out@;
        push_le(&mut out, values[i] as u64, 4);
        proof {
            assert(values@.take(i + 1).drop_last() =~= values@.take(i as int));
            assert(out@ =~= head + word_bytes(values@.take(i + 1)));
        }
        i += 1;
    }
    assert(values@.take(n as int) =~= values@);
    out
}

/// The values of stored bytes from place `from` on.
pub open spec fn words_at(raw: Seq<u8>, from: int, n: nat) -> Seq<u32>
    decreases n,
{
    if n == 0 {
        Seq::empty()
    } else {
        words_at(raw, from, (n - 1) as nat).push(
            le_value(raw.subrange(from + (n - 1) * 4, from + (n - 1) * 4 + 4)) as u32,
        )
    }
}

/// What stored bytes hold: nothing where their length does not fit.
pub open spec fn row_of(raw: Seq<u8>) -> Option<(nat, nat, Seq<u32>)> {
    if raw.len() < 20 {
        None
    } else {
        let n = le_value(raw.subrange(16, 20));
        if raw.len() != 20 + n * 4 {
            None
        } else {
            Some(
                (
                    le_value(raw.subrange(0, 8)),
                    le_value(raw.subrange(8, 16)),
                    words_at(raw, 20, n),
                ),
            )
        }
    }
}

fn read_le(raw: &Vec<u8>, from: usize, width: usize) -> (r: u64)
    requires
        width <= 8,
        from + width <= raw@.len(),
    ensures
        r == le_value(raw@.subrange(from as int, from + width)),
        r < power256(width as nat),
    decreases width,
{
    let ghost s = raw@.subrange(from as int, from + width);
    proof {
        lemma_value_bound(s);
        lemma_powers();
    }
    if width == 0 {
        return 0;
    }
    let total: usize = raw.len();
    assert(from < total);
    let rest: u64 = read_le(raw, from + 1, width - 1);
    proof {
        assert(s.drop_first() =~= raw@.subrange(from + 1, from + width));
        lemma_power_grows(width as nat);
    }
    raw[from] as u64 + 256 * rest
}

proof fn lemma_power_grows(n: nat)
    requires
        n <= 8,
    ensures
        power256(n) <= 0x1_0000_0000_0000_0000,
{
    reveal_with_fuel(power256, 9);
}

/// What stored bytes hold: the time and the size of the file, and the bits of the values.
pub fn decode_row(raw: &Vec<u8>) -> (r: Option<(u64, u64, Vec<u32>)>)
    ensures
        match r {
            Some((mtime, size, values)) => row_of(raw@) == Some(
                (mtime as nat, size as nat, values@),
            ),
            None => row_of(raw@) is None,
        },
{
    if raw.len() < 20 {
        return None;
    }
    let mtime: u64 = read_le(raw, 0, 8);
    let size: u64 = read_le(raw, 8, 8);
    let n: u64 = read_le(raw, 16, 4);
    proof {
        lemma_powers();
    }
    let len: usize = raw.len();
    let total: u64 = len as u64;
    if total != 20 + n * 4 {
        return None;
    }
    let mut values: Vec<u32> = Vec::new();
    let mut i: u64 = 0;
    while i < n
        invariant
            i <= n,
            n < 0x1_0000_0000,
            len == raw@.len(),
            raw@.len() == 20 + n * 4,
            values@ == words_at(raw@, 20, i as nat),
        decreases n - i,
    {
        let at: usize = (20 + i * 4) as usize;
        let v: u64 = read_le(raw, at, 4);
        proof {
            lemma_powers();
        }
        values.push(v as u32);
        i += 1;
    }
    Some((mtime, size, values))
}

proof fn lemma_word_bytes(words: Seq<u32>, i: int)
    requires
        0 <= i < words.len(),
    ensures
        word_bytes(words).len() == words.len() * 4,
        word_bytes(words).subrange(i * 4, i * 4 + 4) == le_bytes(words[i] as nat, 4),
    decreases words.len(),
{
    let shorter = words.drop_last();
    let head = word_bytes(shorter);
    lemma_word_len(shorter);
    lemma_powers();
    numbers_read_back(words.last() as nat, 4);
    if i < words.len() - 1 {
        lemma_word_bytes(shorter, i);
        assert(word_bytes(words).subrange(i * 4, i * 4 + 4) =~= head.subrange(i * 4, i * 4 + 4));
    } else {
        assert(word_bytes(words).subrange(i * 4, i * 4 + 4) =~= le_bytes(words[i] as nat, 4));
    }
}

proof fn lemma_word_len(words: Seq<u32>)
    ensures
        word_bytes(words).len() == words.len() * 4,
    decreases words.len(),
{
    if words.len() > 0 {
        lemma_word_len(words.drop_last());
        lemma_powers();
        numbers_read_back(words.last() as nat, 4);
    }
}

proof fn lemma_words_at(raw: Seq<u8>, words: Seq<u32>, n: nat)
    requires
        n <= words.len(),
        raw.len() == 20 + words.len() * 4,
        raw.skip(20) == word_bytes(words),
    ensures
        words_at(raw, 20, n) == words.take(n as int),
    decreases n,
{
    if n > 0 {
        let i = n - 1;
        lemma_words_at(raw, words, i as nat);
        lemma_word_bytes(words, i);
        lemma_powers();
        numbers_read_back(words[i] as nat, 4);
        assert(raw.subrange(20 + i * 4, 20 + i * 4 + 4) =~= raw.skip(20).subrange(
            i * 4,
            i * 4 + 4,
        ));
        assert(words_at(raw, 20, n) =~= words.take(n as int));
    } else {
        assert(words_at(raw, 20, 0) =~= words.take(0));
    }
}

/// A stored embedding reads back as it was.
pub proof fn rows_read_back(mtime: u64, size: u64, values: Seq<u32>)
    requires
        values.len() <= u32::MAX,
    ensures
        row_of(row_bytes(mtime, size, values)) == Some((mtime as nat, size as nat, values)),
{
    let raw = row_bytes(mtime, size, values);
    lemma_powers();
    numbers_read_back(mtime as nat, 8);
    numbers_read_back(size as nat, 8);
    numbers_read_back(values.len(), 4);
    lemma_word_len(values);
    assert(raw.subrange(0, 8) =~= le_bytes(mtime as nat, 8));
    assert(raw.subrange(8, 16) =~= le_bytes(size as nat, 8));
    assert(raw.subrange(16, 20) =~= le_bytes(values.len(), 4));
    assert(raw.skip(20) =~= word_bytes(values));
    lemma_words_at(raw, values, values.len());
    assert(values.take(values.len() as int) =~= values);
}

/// The embeddings that are kept, by the key of the file.
#[derive(Debug)]
pub struct ClipIndex {
    pub rows: Table<Vec<u8>>,
}

/// What an index holds for a file as it is now: nothing where the file has changed since.
pub open spec fn cached(
    rows: Map<Seq<char>, Vec<u8>>,
    key: Seq<char>,
    mtime: u64,
    size: u64,
) -> Option<Seq<u32>> {
    if !rows.contains_key(key) {
        None
    } else {
        match row_of(rows[key]@) {
            Some((m, s, values)) => if m == mtime && s == size {
                Some(values)
            } else {
                None
            },
            None => None,
        }
    }
}

impl ClipIndex {
    /// Where the index lies.
    pub fn index_path(style: PathStyle, workspace_root: &str) -> (r: String)
        ensures
            r@ == crate::media_db::database_file(style, workspace_root@),
    {
        MediaDb::db_path(style, workspace_root)
    }

    pub fn open(rows: Table<Vec<u8>>) -> (r: Self)
        ensures
            r.rows == rows,
    {
        ClipIndex { rows }
    }

    /// The embedding of a file, as bits, where the file has not changed since it was kept.
    pub fn get(&self, key: &str, mtime: u64, size: u64) -> (r: Option<Vec<u32>>)
        ensures
            match r {
                Some(v) => cached(self.rows@, key@, mtime, size) == Some(v@),
                None => cached(self.rows@, key@, mtime, size) is None,
            },
    {
        match self.rows.get(key) {
            None => None,
            Some(raw) => match decode_row(raw) {
                None => None,
                Some((m, s, values)) => if m == mtime && s == size {
                    Some(values)
                } else {
                    None
                },
            },
        }
    }

    /// Keeps the embedding of a file.
    pub fn put(&mut self, key: &str, mtime: u64, size: u64, values: &Vec<u32>)
        requires
            values@.len() <= u32::MAX,
        ensures
            final(self).rows@.dom() == old(self).rows@.dom().insert(key@),
            final(self).rows@[key@]@ == row_bytes(mtime, size, values@),
            final(self).rows@ == old(self).rows@.insert(key@, final(self).rows@[key@]),
            cached(final(self).rows@, key@, mtime, size) == Some(values@),
    {
        let row = encode_row(mtime, size, values);
        self.rows.insert(key.to_owned(), row);
        proof {
            rows_read_back(mtime, size, values@);
        }
    }

    /// How many embeddings are kept.
    pub fn len(&self) -> (r: usize)
        ensures
            r == self.rows.keys().len(),
    {
        self.rows.len()
    }

    pub fn is_empty(&self) -> (r: bool)
        ensures
            r == (self.rows.keys().len() == 0),
    {
        self.rows.len() == 0
    }
}

/// A file that has changed has no embedding until it is kept anew.
pub proof fn changed_files_are_stale(
    rows: Map<Seq<char>, Vec<u8>>,
    key: Seq<char>,
    row: Vec<u8>,
    mtime: u64,
    size: u64,
    values: Seq<u32>,
    mtime_now: u64,
    size_now: u64,
)
    requires
        values.len() <= u32::MAX,
        row@ == row_bytes(mtime, size, values),
        mtime_now != mtime || size_now != size,
    ensures
        cached(rows.insert(key, row), key, mtime_now, size_now) is None,
{
    rows_read_back(mtime, size, values);
}

} // verus!
