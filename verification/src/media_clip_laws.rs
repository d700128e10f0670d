//! What cutting a text into numbered pieces promises, and what a stored embedding holds.

use crate::media_clip::{
    attention, best_pair, byte_char, byte_pieces, cached, check_dims, framed, is_plausible,
    joined_at, last_place, le_bytes, looked_for, merged_word, merges_of, missing_parts, model_paths,
    moved_below, moved_bytes, named_embedding, padded, pair_rank, pick_output, piece_ids,
    plain_bytes, preferred_output, row_bytes, run_start, second_input, text_ids, token_ids,
    token_pieces, vocabulary, vocabulary_chars, words, ClipStatus, TextSecondInput,
};
use crate::media_fs::said;
use crate::text::{contains_text, is_white_space, joined, trimmed, unicode_lower};
use vstd::prelude::*;

verus! {

/// The rank of a pair is a place where the vocabulary lists it, the last one where it is listed
/// more than once; a pair that is not listed has none.
pub proof fn ranks_are_places_in_the_list(
    merges: Seq<(Seq<char>, Seq<char>)>,
    x: Seq<char>,
    y: Seq<char>,
)
    ensures
        match pair_rank(merges, x, y) {
            Some(rank) => {
                &&& rank < merges.len()
                &&& merges[rank as int] == (x, y)
                &&& forall|i: int|
                    0 <= i < merges.len() && #[trigger] merges[i] == (x, y) ==> i <= rank
            },
            None => forall|i: int| 0 <= i < merges.len() ==> #[trigger] merges[i] != (x, y),
        },
    decreases merges.len(),
{
    if merges.len() > 0 {
        ranks_are_places_in_the_list(merges.drop_last(), x, y);
        if merges.last() != (x, y) {
            let front = merges.drop_last();
            assert forall|i: int| 0 <= i < merges.len() && #[trigger] merges[i] == (x, y) implies i
                < front.len() && front[i] == (x, y) by {}
        }
    }
}

/// The neighbours that are joined next are those that the vocabulary lists first, and of equals
/// those that stand first in the word; there are none only where no neighbours are listed.
pub proof fn the_first_listed_pair_is_best(
    merges: Seq<(Seq<char>, Seq<char>)>,
    word: Seq<Seq<char>>,
    n: nat,
)
    ensures
        match best_pair(merges, word, n) {
            Some((rank, at)) => {
                &&& at < n
                &&& pair_rank(merges, word[at as int], word[at as int + 1]) == Some(rank)
                &&& forall|i: int|
                    0 <= i < n ==> match #[trigger] pair_rank(merges, word[i], word[i + 1]) {
                        Some(q) => rank < q || (rank == q && at <= i),
                        None => true,
                    }
            },
            None => forall|i: int|
                0 <= i < n ==> #[trigger] pair_rank(merges, word[i], word[i + 1]) is None,
        },
    decreases n,
{
    if n > 0 {
        the_first_listed_pair_is_best(merges, word, (n - 1) as nat);
        let last = n - 1;
        assert(pair_rank(merges, word[last], word[last + 1]) == pair_rank(
            merges,
            word[n - 1],
            word[n as int],
        ));
    }
}

/// The text of pieces, one after the other.
pub open spec fn together(pieces: Seq<Seq<char>>) -> Seq<char>
    decreases pieces.len(),
{
    if pieces.len() == 0 {
        Seq::empty()
    } else {
        together(pieces.drop_last()) + pieces.last()
    }
}

proof fn lemma_together_of_lists(a: Seq<Seq<char>>, b: Seq<Seq<char>>)
    ensures
        together(a + b) == together(a) + together(b),
    decreases b.len(),
{
    if b.len() == 0 {
        assert(a + b =~= a);
        assert(together(a) + together(b) =~= together(a));
    } else {
        assert((a + b).drop_last() =~= a + b.drop_last());
        lemma_together_of_lists(a, b.drop_last());
        assert(together(a + b) =~= together(a) + together(b));
    }
}

/// Joining two neighbours keeps the text.
proof fn lemma_joining_keeps_text(word: Seq<Seq<char>>, at: int)
    requires
        0 <= at,
        at + 1 < word.len(),
    ensures
        together(joined_at(word, at)) == together(word),
{
    let a = word.take(at);
    let b = word.skip(at + 2);
    let two = seq![word[at], word[at + 1]];
    let one = seq![word[at] + word[at + 1]];
    assert(word =~= a + two + b);
    assert(joined_at(word, at) =~= a + one + b);
    lemma_together_of_lists(a + two, b);
    lemma_together_of_lists(a, two);
    lemma_together_of_lists(a + one, b);
    lemma_together_of_lists(a, one);
    assert(two.drop_last() =~= seq![word[at]]);
    assert(seq![word[at]].drop_last() =~= Seq::<Seq<char>>::empty());
    assert(one.drop_last() =~= Seq::<Seq<char>>::empty());
    reveal_with_fuel(together, 3);
    assert(together(two) =~= together(one));
}

/// Merging loses no character and adds none, and goes on until no neighbours are listed.
pub proof fn merging_goes_on_to_the_end(
    merges: Seq<(Seq<char>, Seq<char>)>,
    word: Seq<Seq<char>>,
)
    ensures
        together(merged_word(merges, word)) == together(word),
        merged_word(merges, word).len() <= word.len(),
        word.len() > 0 ==> merged_word(merges, word).len() > 0,
        forall|i: int|
            0 <= i < merged_word(merges, word).len() - 1 ==> #[trigger] pair_rank(
                merges,
                merged_word(merges, word)[i],
                merged_word(merges, word)[i + 1],
            ) is None,
    decreases word.len(),
{
    if word.len() >= 2 {
        let n = (word.len() - 1) as nat;
        the_first_listed_pair_is_best(merges, word, n);
        match best_pair(merges, word, n) {
            None => {},
            Some((rank, at)) => {
                lemma_joining_keeps_text(word, at as int);
                merging_goes_on_to_the_end(merges, joined_at(word, at as int));
            },
        }
    }
}

/// One step of merging: of all neighbours that the vocabulary lists, those that it lists first, and
/// of equals the first in the word, become one; every other piece stays where it is.
pub proof fn merging_takes_one_step(
    merges: Seq<(Seq<char>, Seq<char>)>,
    word: Seq<Seq<char>>,
    next: Seq<Seq<char>>,
    at: int,
    rank: nat,
)
    requires
        0 <= at,
        at + 1 < word.len(),
        pair_rank(merges, word[at], word[at + 1]) == Some(rank),
        forall|i: int|
            0 <= i < word.len() - 1 ==> match #[trigger] pair_rank(merges, word[i], word[i + 1]) {
                Some(q) => rank < q || (rank == q && at <= i),
                None => true,
            },
        next.len() == word.len() - 1,
        next[at] == word[at] + word[at + 1],
        forall|i: int| 0 <= i < at ==> #[trigger] next[i] == word[i],
        forall|i: int| at < i < next.len() ==> #[trigger] next[i] == word[i + 1],
    ensures
        merged_word(merges, word) == merged_word(merges, next),
{
    let n = (word.len() - 1) as nat;
    the_first_listed_pair_is_best(merges, word, n);
    assert(best_pair(merges, word, n) is Some);
    let b = best_pair(merges, word, n)->0;
    assert(pair_rank(merges, word[b.1 as int], word[b.1 as int + 1]) == Some(b.0));
    assert(b.1 == at);
    assert(next =~= joined_at(word, at));
}

/// A token begins as one piece for each of its bytes, each with the character of its byte; the last
/// one, and only it, is marked as the end of a word. Merging keeps that text.
pub proof fn tokens_keep_their_bytes(
    merges: Seq<(Seq<char>, Seq<char>)>,
    token: Seq<char>,
)
    ensures
        ({
            let bytes = vstd::utf8::encode_utf8(token);
            let p = byte_pieces(bytes);
            &&& p.len() == bytes.len()
            &&& forall|i: int|
                0 <= i < p.len() - 1 ==> #[trigger] p[i] == seq![byte_char(bytes[i] as int)]
            &&& p.len() > 0 ==> p.last() == seq![byte_char(bytes.last() as int), '<', '/', 'w', '>']
            &&& together(token_pieces(merges, token)) == together(p)
            &&& forall|i: int|
                0 <= i < token_pieces(merges, token).len() - 1 ==> #[trigger] pair_rank(
                    merges,
                    token_pieces(merges, token)[i],
                    token_pieces(merges, token)[i + 1],
                ) is None
        }),
{
    let bytes = vstd::utf8::encode_utf8(token);
    let p = byte_pieces(bytes);
    reveal_strlit("</w>");
    if p.len() > 0 {
        assert(p.last() =~= seq![byte_char(bytes.last() as int), '<', '/', 'w', '>']);
    }
    merging_goes_on_to_the_end(merges, p);
}

/// The printable bytes stand for themselves; the others stand for the characters from 256 on, in
/// their order.
pub proof fn bytes_have_their_characters(b: int, c: int)
    requires
        0 <= b < 256,
        0 <= c < 256,
    ensures
        (33 <= b <= 126 || 161 <= b <= 172 || 174 <= b <= 255) ==> byte_char(b) as int == b,
        !(33 <= b <= 126 || 161 <= b <= 172 || 174 <= b <= 255) ==> 256 <= byte_char(b) as int
            <= 256 + b,
        0 <= b <= 32 ==> byte_char(b) as int == 256 + b,
        127 <= b <= 160 ==> byte_char(b) as int == 256 + 33 + (b - 127),
        b == 173 ==> byte_char(b) as int == 256 + 67,
{
    lemma_moved_exact(b);
}

proof fn lemma_moved_exact(b: int)
    requires
        0 <= b < 256,
    ensures
        b <= 33 ==> moved_below(b) == b,
        33 <= b <= 127 ==> moved_below(b) == 33,
        127 <= b <= 161 ==> moved_below(b) == 33 + (b - 127),
        161 <= b <= 173 ==> moved_below(b) == 67,
        174 <= b ==> moved_below(b) == 68,
    decreases b,
{
    if b > 0 {
        lemma_moved_exact(b - 1);
    }
}

/// The number of a token of the vocabulary: first come the characters, then the characters at the
/// end of a word in the same order, then the merges in the order of the list.
pub proof fn tokens_are_numbered_in_order(merges: Seq<(Seq<char>, Seq<char>)>, i: int)
    ensures
        ({
            let v = vocabulary(merges);
            let c = vocabulary_chars();
            &&& c.len() == 256
            &&& v.len() == 514 + merges.len()
            &&& 0 <= i < 256 ==> v[i] == seq![c[i]] && v[256 + i] == seq![c[i], '<', '/', 'w', '>']
            &&& 0 <= i < merges.len() ==> v[512 + i] == merges[i].0 + merges[i].1
        }),
{
    lemma_bytes_listed(256);
    reveal_strlit("</w>");
    let v = vocabulary(merges);
    let c = vocabulary_chars();
    if 0 <= i < 256 {
        assert(v[i] =~= seq![c[i]]);
        assert(v[256 + i] =~= seq![c[i], '<', '/', 'w', '>']);
    }
}

/// The characters of the vocabulary: those of the printable bytes first, then the others, each in
/// the order of the characters.
pub proof fn vocabulary_characters_are_in_order(i: int, j: int)
    requires
        0 <= i < j < 256,
    ensures
        j < 188 ==> vocabulary_chars()[i] as int <= 255 && (vocabulary_chars()[i] as int) < (
        vocabulary_chars()[j] as int),
        188 <= j ==> vocabulary_chars()[j] as int == 256 + (j - 188),
{
    lemma_bytes_listed(256);
    let p = plain_bytes(256);
    let m = moved_bytes(256);
    if j < 188 {
        lemma_plain_sorted(256, i, j);
        bytes_have_their_characters(p[i], p[j]);
        bytes_have_their_characters(p[j], p[i]);
    } else {
        lemma_moved_at(256, j - 188);
        let b = m[j - 188];
        assert(vocabulary_chars()[j] == byte_char(b));
    }
}

proof fn lemma_bytes_listed(n: int)
    requires
        0 <= n <= 256,
    ensures
        plain_bytes(n).len() == n - moved_below_any(n),
        moved_bytes(n).len() == moved_below_any(n),
        forall|i: int|
            0 <= i < plain_bytes(n).len() ==> 0 <= #[trigger] plain_bytes(n)[i] < n
                && crate::media_clip::is_plain_byte(plain_bytes(n)[i]),
        n == 256 ==> plain_bytes(n).len() == 188 && moved_bytes(n).len() == 68,
    decreases n,
{
    if n > 0 {
        lemma_bytes_listed(n - 1);
        lemma_moved_exact(n - 1);
    }
}

spec fn moved_below_any(n: int) -> int {
    if n <= 33 {
        n
    } else if n <= 127 {
        33
    } else if n <= 161 {
        33 + (n - 127)
    } else if n <= 173 {
        67
    } else {
        68
    }
}

proof fn lemma_plain_sorted(n: int, i: int, j: int)
    requires
        0 <= n <= 256,
        0 <= i < j < plain_bytes(n).len(),
    ensures
        plain_bytes(n)[i] < plain_bytes(n)[j] < n,
    decreases n,
{
    if n > 0 {
        lemma_bytes_listed(n - 1);
        if j < plain_bytes(n - 1).len() {
            lemma_plain_sorted(n - 1, i, j);
        }
    }
}

proof fn lemma_moved_at(n: int, i: int)
    requires
        0 <= n <= 256,
        0 <= i < moved_bytes(n).len(),
    ensures
        0 <= moved_bytes(n)[i] < n,
        !crate::media_clip::is_plain_byte(moved_bytes(n)[i]),
        moved_below(moved_bytes(n)[i]) == i,
    decreases n,
{
    if n > 0 {
        lemma_bytes_listed(n - 1);
        lemma_moved_exact(n - 1);
        if i < moved_bytes(n - 1).len() {
            lemma_moved_at(n - 1, i);
        }
    }
}

/// Where the vocabulary has every piece of a token, the pieces have one number each, in order, and
/// the number is the place of the piece in the vocabulary, the last one of several.
pub proof fn pieces_have_their_numbers(vocab: Seq<Seq<char>>, pieces: Seq<Seq<char>>)
    requires
        forall|i: int| 0 <= i < pieces.len() ==> vocab.contains(#[trigger] pieces[i]),
        vocab.len() <= i64::MAX,
    ensures
        piece_ids(vocab, pieces).len() == pieces.len(),
        forall|i: int|
            0 <= i < pieces.len() ==> {
                let id = #[trigger] piece_ids(vocab, pieces)[i];
                &&& 0 <= id < vocab.len()
                &&& vocab[id as int] == pieces[i]
                &&& forall|j: int| id < j < vocab.len() ==> #[trigger] vocab[j] != pieces[i]
            },
    decreases pieces.len(),
{
    if pieces.len() > 0 {
        let front = pieces.drop_last();
        assert forall|i: int| 0 <= i < front.len() implies vocab.contains(#[trigger] front[i]) by {
            assert(front[i] == pieces[i]);
        }
        pieces_have_their_numbers(vocab, front);
        assert(vocab.contains(pieces[pieces.len() - 1]));
        last_places_are_last(vocab, pieces.last());
    }
}

/// The last place of a text in a list is a place of it, and none comes after.
pub proof fn last_places_are_last(list: Seq<Seq<char>>, t: Seq<char>)
    ensures
        match last_place(list, t) {
            Some(i) => i < list.len() && list[i as int] == t && forall|j: int|
                i < j < list.len() ==> #[trigger] list[j] != t,
            None => !list.contains(t),
        },
    decreases list.len(),
{
    if list.len() > 0 {
        let front = list.drop_last();
        last_places_are_last(front, t);
        if list.last() != t {
            assert forall|j: int| 0 <= j < list.len() && #[trigger] list[j] == t implies j
                < front.len() && front[j] == t by {}
            if list.contains(t) {
                let j = list.index_of(t);
                assert(front[j] == t);
            }
        }
    }
}

/// The numbers of several tokens are those of each, one after the other.
pub proof fn tokens_follow_each_other(
    merges: Seq<(Seq<char>, Seq<char>)>,
    first: Seq<Seq<char>>,
    second: Seq<Seq<char>>,
)
    ensures
        token_ids(merges, first + second) == token_ids(merges, first) + token_ids(merges, second),
        first.len() == 1 ==> token_ids(merges, first) == piece_ids(
            vocabulary(merges),
            token_pieces(merges, first[0]),
        ),
    decreases second.len(),
{
    if first.len() == 1 {
        assert(first.drop_last() =~= Seq::<Seq<char>>::empty());
        reveal_with_fuel(token_ids, 2);
        let one = piece_ids(vocabulary(merges), token_pieces(merges, first[0]));
        assert(Seq::<i64>::empty() + one =~= one);
    }
    if second.len() == 0 {
        assert(first + second =~= first);
        assert(token_ids(merges, first) + Seq::<i64>::empty() =~= token_ids(merges, first));
    } else {
        assert((first + second).drop_last() =~= first + second.drop_last());
        tokens_follow_each_other(merges, first, second.drop_last());
        let x = piece_ids(vocabulary(merges), token_pieces(merges, second.last()));
        assert(token_ids(merges, first) + token_ids(merges, second.drop_last()) + x =~= token_ids(
            merges,
            first,
        ) + (token_ids(merges, second.drop_last()) + x));
    }
}

/// The numbers that a model gets: the mark of the beginning, the numbers of the text in order as far
/// as they fit before the mark of the end, that mark, and zeros; the attention is one exactly where
/// one of these stands.
pub proof fn encodings_hold_the_numbers(ids: Seq<i64>, i: int)
    requires
        0 <= i < 77,
    ensures
        ({
            let p = padded(framed(ids));
            let a = attention(framed(ids));
            let n = if ids.len() <= 75 {
                ids.len() as int
            } else {
                75
            };
            &&& p.len() == 77 && a.len() == 77
            &&& p[0] == 49406
            &&& 1 <= i <= n ==> p[i] == ids[i - 1]
            &&& i == n + 1 ==> p[i] == 49407
            &&& i > n + 1 ==> p[i] == 0
            &&& a[i] == (if i <= n + 1 {
                1i64
            } else {
                0i64
            })
        }),
{
}

/// A text is cut without regard to the white space around it.
pub proof fn surrounding_space_does_not_matter(
    merges: Seq<(Seq<char>, Seq<char>)>,
    a: Seq<char>,
    b: Seq<char>,
)
    requires
        crate::text::trimmed(a) == crate::text::trimmed(b),
    ensures
        text_ids(merges, a) == text_ids(merges, b),
{
}

/// The bytes of a number, the lowest first: each byte is that digit of the number to the base 256.
pub proof fn numbers_are_written_lowest_byte_first(n: nat, width: nat, i: int)
    requires
        0 <= i < width,
    ensures
        le_bytes(n, width).len() == width,
        le_bytes(n, width)[0] == n % 256,
        i > 0 ==> le_bytes(n, width)[i] == le_bytes(n / 256, (width - 1) as nat)[i - 1],
    decreases width,
{
    lemma_le_len(n, width);
}

proof fn lemma_le_len(n: nat, width: nat)
    ensures
        le_bytes(n, width).len() == width,
    decreases width,
{
    if width > 0 {
        lemma_le_len(n / 256, (width - 1) as nat);
    }
}

/// A stored embedding is the time of its file, its size, the number of values and the values, in
/// this order, of eight, eight, four and four bytes.
pub proof fn rows_have_their_layout(mtime: u64, size: u64, values: Seq<u32>, i: int)
    requires
        values.len() <= u32::MAX,
        0 <= i < values.len(),
    ensures
        ({
            let r = row_bytes(mtime, size, values);
            &&& r.len() == 20 + 4 * values.len()
            &&& r.subrange(0, 8) == le_bytes(mtime as nat, 8)
            &&& r.subrange(8, 16) == le_bytes(size as nat, 8)
            &&& r.subrange(16, 20) == le_bytes(values.len(), 4)
            &&& r.subrange(20 + 4 * i, 24 + 4 * i) == le_bytes(values[i] as nat, 4)
        }),
{
    lemma_le_len(mtime as nat, 8);
    lemma_le_len(size as nat, 8);
    lemma_le_len(values.len(), 4);
    lemma_words(values, i);
    let r = row_bytes(mtime, size, values);
    let w = crate::media_clip::word_bytes(values);
    assert(r.subrange(0, 8) =~= le_bytes(mtime as nat, 8));
    assert(r.subrange(8, 16) =~= le_bytes(size as nat, 8));
    assert(r.subrange(16, 20) =~= le_bytes(values.len(), 4));
    assert(r.subrange(20 + 4 * i, 24 + 4 * i) =~= w.subrange(4 * i, 4 * i + 4));
}

proof fn lemma_words(values: Seq<u32>, i: int)
    requires
        0 <= i < values.len(),
    ensures
        crate::media_clip::word_bytes(values).len() == 4 * values.len(),
        crate::media_clip::word_bytes(values).subrange(4 * i, 4 * i + 4) == le_bytes(
            values[i] as nat,
            4,
        ),
    decreases values.len(),
{
    let front = values.drop_last();
    lemma_le_len(values.last() as nat, 4);
    let w = crate::media_clip::word_bytes(values);
    if front.len() == 0 {
        assert(crate::media_clip::word_bytes(front) =~= Seq::<u8>::empty());
        assert(w.subrange(0, 4) =~= le_bytes(values[0] as nat, 4));
    } else {
        lemma_words(front, if i < front.len() { i } else { 0 });
        if i < front.len() {
            assert(w.subrange(4 * i, 4 * i + 4) =~= crate::media_clip::word_bytes(front).subrange(
                4 * i,
                4 * i + 4,
            ));
        } else {
            assert(w.subrange(4 * i, 4 * i + 4) =~= le_bytes(values[i] as nat, 4));
        }
    }
}

/// What is kept for a file is given out for that file as long as neither its time nor its size has
/// changed, and for no other file.
pub proof fn embeddings_belong_to_their_file(
    rows: Map<Seq<char>, Vec<u8>>,
    key: Seq<char>,
    other: Seq<char>,
    row: Vec<u8>,
    mtime: u64,
    size: u64,
    values: Seq<u32>,
    m: u64,
    s: u64,
)
    requires
        values.len() <= u32::MAX,
        row@ == row_bytes(mtime, size, values),
        other != key,
    ensures
        cached(rows.insert(key, row), key, mtime, size) == Some(values),
        cached(rows.insert(key, row), key, m, s) is Some ==> m == mtime && s == size,
        cached(rows.insert(key, row), other, m, s) == cached(rows, other, m, s),
        cached(rows.remove(key), key, m, s) is None,
{
    crate::media_clip::rows_read_back(mtime, size, values);
}

/// An output can be an embedding exactly where it is one row of between 64 and 4096 values.
pub proof fn embeddings_are_single_rows(shape: Seq<usize>)
    ensures
        is_plausible(shape) <==> shape.len() == 2 && shape[0] == 1 && 64 <= shape[1] <= 4096,
{
    reveal_with_fuel(crate::media_clip::product, 3);
    if shape.len() == 1 {
        assert(shape.drop_last() =~= Seq::<usize>::empty());
        assert(crate::media_clip::product(shape) == 1 * shape[0]);
    } else if shape.len() == 2 {
        let first = shape.drop_last();
        assert(first.drop_last() =~= Seq::<usize>::empty());
        assert(crate::media_clip::product(first) == 1 * shape[0]);
        assert(crate::media_clip::product(shape) == crate::media_clip::product(first) * shape[1]);
        if shape[0] == 1 {
            assert(crate::media_clip::product(shape) == shape[1]) by (nonlinear_arith)
                requires
                    crate::media_clip::product(shape) == crate::media_clip::product(first)
                        * shape[1],
                    crate::media_clip::product(first) == 1,
            ;
        }
    }
}

/// The output that is named as the embedding is taken where its shape is that of one, and otherwise
/// the last output that has such a shape.
pub proof fn embeddings_are_picked_by_name_and_shape(
    shapes: &Vec<Vec<usize>>,
    preferred: Option<usize>,
    r: usize,
    j: int,
)
    requires
        call_ensures(pick_output, (shapes, preferred), Ok::<usize, String>(r)),
        0 <= j < shapes@.len(),
    ensures
        ({
            let s = shapes@[j]@;
            let fits = s.len() == 2 && s[0] == 1 && 64 <= s[1] <= 4096;
            &&& r < shapes@.len()
            &&& r == j ==> fits
            &&& fits && preferred is Some && preferred->0 == j ==> r == j
            &&& fits && preferred is None ==> r >= j
        }),
{
    embeddings_are_single_rows(shapes@[j]@);
    assert(r == j ==> is_plausible(shapes@[j]@));
    if preferred is Some {
        assert(preferred == Some(preferred->0));
    }
}

/// The first output whose name speaks of embeddings is preferred.
pub proof fn named_embeddings_are_preferred(labels: &Vec<String>, r: usize, j: int)
    requires
        call_ensures(preferred_output, (labels,), Some(r)),
        0 <= j < labels@.len(),
    ensures
        ({
            let speaks = contains_text(unicode_lower(labels@[j]@), "embeds"@);
            &&& speaks ==> r <= j
            &&& r == j ==> speaks
            &&& r < labels@.len()
        }),
{
    assert(named_embedding(labels@[r as int]@));
    assert(j < r ==> !named_embedding(labels@[j]@));
}

/// Both encoders give vectors of one length, of at least 64 numbers.
pub proof fn encoders_agree_on_the_length(text: usize, image: usize, r: Result<usize, String>)
    requires
        call_ensures(check_dims, (text, image), r),
    ensures
        r is Ok <==> text == image && text >= 64,
        r is Ok ==> r->Ok_0 == text,
{
}

/// A second input of the text encoder is one for positions where its name says so, and a mask
/// otherwise.
pub proof fn second_inputs_are_told_by_their_name(names: &Vec<String>, r: TextSecondInput)
    requires
        call_ensures(second_input, (names,), r),
    ensures
        r == TextSecondInput::Absent <==> names@.len() < 2,
        r == TextSecondInput::Positions <==> names@.len() >= 2 && contains_text(
            unicode_lower(names@[1]@),
            "position"@,
        ),
{
}

/// The models are ready where all three files were found. Each is found where it was named and
/// stands, or else at its usual place; what is missing is told.
pub proof fn models_are_ready_when_all_are_found(
    status: &ClipStatus,
    r: Result<(String, String, String), String>,
)
    requires
        call_ensures(model_paths, (status,), r),
    ensures
        r is Ok ==> status.image_model is Some && status.text_model is Some && status.vocab is Some,
        r is Ok ==> status.image_model->0@ == r->Ok_0.0@ && status.text_model->0@ == r->Ok_0.1@
            && status.vocab->0@ == r->Ok_0.2@,
        r is Err ==> status.image_model is None || status.text_model is None || status.vocab
            is None,
        missing_parts(*status).len() == 0 <==> status.is_ready(),
        status.image_model is None <==> missing_parts(*status).contains(
            "clip-vit-b32-visual.onnx"@,
        ),
        status.text_model is None <==> missing_parts(*status).contains(
            "clip-vit-b32-textual.onnx"@,
        ),
{
    reveal_strlit("clip-vit-b32-visual.onnx");
    reveal_strlit("clip-vit-b32-textual.onnx");
    reveal_strlit("assets/clip/bpe_simple_vocab_16e6.txt");
    assert("clip-vit-b32-visual.onnx"@.len() == 24);
    assert("clip-vit-b32-textual.onnx"@.len() == 25);
    assert("assets/clip/bpe_simple_vocab_16e6.txt"@.len() == 37);
    let m = missing_parts(*status);
    if status.image_model is None {
        assert(m[0] == "clip-vit-b32-visual.onnx"@);
    }
    if status.text_model is None {
        let k: int = if status.image_model is None {
            1
        } else {
            0
        };
        assert(m[k] == "clip-vit-b32-textual.onnx"@);
    }
    assert forall|i: int| 0 <= i < m.len() implies #[trigger] m[i].len() == 24 && status.image_model
        is None || m[i].len() == 25 && status.text_model is None || m[i].len() == 37 by {
    }
}

/// A file that is looked for is the one that was named, where it stands, and otherwise the one at
/// the usual place, where that stands.
pub proof fn named_files_come_first<F: Fn(&str) -> bool>(
    exists_at: F,
    named: Option<Seq<char>>,
    usual: Seq<char>,
    r: Option<Seq<char>>,
)
    requires
        looked_for(exists_at, named, usual, r),
    ensures
        r is Some ==> said(exists_at, r->0, true) && (r == named || r->0 == usual),
        r is None ==> said(exists_at, usual, false),
        named is Some && trimmed(named->0).len() > 0 && r != named ==> said(
            exists_at,
            named->0,
            false,
        ),
        named is Some && trimmed(named->0).len() == 0 && r is Some ==> r->0 == usual,
{
}

/// The first line of a vocabulary is passed over, and so is what follows the lines that count. Every
/// other line with two words or more gives the pair of its first two.
pub proof fn vocabularies_are_read_line_by_line(lines: Seq<Seq<char>>, n: nat, at: int, first: Seq<char>)
    requires
        0 < lines.len(),
    ensures
        merges_of(lines, n) == merges_of(lines.update(0, first), n),
        merges_of(lines, n).len() <= n,
        lines.len() <= n + 1 ==> merges_of(lines, n) == merges_of(lines, (lines.len() - 1) as nat),
        0 < at <= n && at < lines.len() && words(lines[at]).len() >= 2 ==> merges_of(
            lines,
            n,
        ).contains((words(lines[at])[0], words(lines[at])[1])),
        n > 0 && n < lines.len() && words(lines[n as int]).len() < 2 ==> merges_of(lines, n)
            == merges_of(lines, (n - 1) as nat),
    decreases n,
{
    if n > 0 {
        vocabularies_are_read_line_by_line(lines, (n - 1) as nat, at, first);
        let other = lines.update(0, first);
        if n < lines.len() {
            assert(other[n as int] == lines[n as int]);
        }
        let before = merges_of(lines, (n - 1) as nat);
        let all = merges_of(lines, n);
        if 0 < at <= n && at < lines.len() && words(lines[at]).len() >= 2 {
            let pair = (words(lines[at])[0], words(lines[at])[1]);
            if at == n {
                assert(all == before.push(pair));
                assert(all[before.len() as int] == pair);
            } else {
                let k = before.index_of(pair);
                assert(all[k] == pair);
            }
        }
    }
}

/// The words of a line are what white space parts: a word behind white space is the next one, and
/// white space at the end adds nothing.
pub proof fn words_are_parted_by_white_space(line: Seq<char>, space: char, word: Seq<char>)
    requires
        is_white_space(space),
        word.len() > 0,
        forall|i: int| 0 <= i < word.len() ==> !is_white_space(#[trigger] word[i]),
    ensures
        words(Seq::empty()).len() == 0,
        words(word) == seq![word],
        words(line.push(space)) == words(line),
        words(line.push(space) + word) == words(line).push(word),
{
    assert(line.push(space).drop_last() =~= line);
    let all = line.push(space) + word;
    let n = line.len() + 1;
    assert(!is_white_space(word[word.len() - 1]));
    assert(all.last() == word.last());
    assert forall|i: int| n <= i < all.len() implies !is_white_space(#[trigger] all[i]) by {
        assert(all[i] == word[i - n]);
    }
    assert(is_white_space(all[n - 1]));
    lemma_run(all, n, all.len());
    assert(all.take(n as int) =~= line.push(space));
    assert(all.skip(n as int) =~= word);
    lemma_run(word, 0, word.len());
    assert(word.take(0) =~= Seq::<char>::empty());
    assert(word.skip(0) =~= word);
    assert(words(Seq::empty()) =~= Seq::<Seq<char>>::empty());
    assert(words(word) =~= seq![word]);
}

proof fn lemma_run(s: Seq<char>, from: nat, n: nat)
    requires
        from <= n <= s.len(),
        forall|i: int| from <= i < n ==> !is_white_space(#[trigger] s[i]),
        from == 0 || is_white_space(s[from - 1]),
    ensures
        run_start(s, n) == from,
    decreases n,
{
    if n > from {
        assert(!is_white_space(s[n - 1]));
        lemma_run(s, from, (n - 1) as nat);
    }
}

} // verus!
