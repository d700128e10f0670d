//! Character-level text operations with exact specifications.

use vstd::prelude::*;
use vstd::utf8::encode_utf8;

verus! {

broadcast use vstd::string::group_string_axioms;

/// `String::push` appends one character to the end of the string.
pub assume_specification[ String::push ](s: &mut String, c: char)
    ensures
        final(s)@ == old(s)@.push(c),
;

/// The characters of `s`, in order.
pub fn chars_of(s: &str) -> (cs: Vec<char>)
    ensures
        cs@ == s@,
{
    let mut cs: Vec<char> = Vec::new();
    for c in it: s.chars()
        invariant
            it.seq() == s@,
            cs@ == s@.take(it.index() as int),
    {
        cs.push(c);
        assert(s@.take(it.index() as int + 1) =~= s@.take(it.index() as int).push(c));
    }
    assert(s@.take(s@.len() as int) =~= s@);
    cs
}

/// The string made of the given characters.
pub fn string_of(cs: &[char]) -> (s: String)
    ensures
        s@ == cs@,
{
    let mut s = String::new();
    let n: usize = cs.len();
    let mut i: usize = 0;
    while i < n
        invariant
            i <= n,
            n == cs@.len(),
            s@ == cs@.take(i as int),
        decreases n - i,
    {
        s.push(cs[i]);
        proof {
            assert(cs@.take(i + 1) =~= cs@.take(i as int).push(cs@[i as int]));
        }
        i += 1;
    }
    assert(cs@.take(n as int) =~= cs@);
    s
}

/// Whether two strings hold the same characters.
pub fn str_eq(a: &str, b: &str) -> (r: bool)
    ensures
        r == (a@ == b@),
{
    proof {
        vstd::utf8::encode_utf8_decode_utf8(a@);
        vstd::utf8::encode_utf8_decode_utf8(b@);
    }
    let x: &[u8] = a.as_bytes();
    let y: &[u8] = b.as_bytes();
    let n: usize = x.len();
    if n != y.len() {
        return false;
    }
    let mut i: usize = 0;
    while i < n
        invariant
            i <= n,
            n == x@.len(),
            n == y@.len(),
            x@ == encode_utf8(a@),
            y@ == encode_utf8(b@),
            forall|k: int| 0 <= k < i ==> x@[k] == y@[k],
        decreases n - i,
    {
        if x[i] != y[i] {
            return false;
        }
        i += 1;
    }
    assert(x@ =~= y@);
    true
}


/// The characters of each string.
pub open spec fn texts(v: Seq<String>) -> Seq<Seq<char>> {
    v.map_values(|s: String| s@)
}

/// Whether the optional string holds exactly the optional text.
pub open spec fn opt_text(o: Option<String>) -> Option<Seq<char>> {
    match o {
        Some(s) => Some(s@),
        None => None,
    }
}

/// The characters with the Unicode White_Space property.
pub open spec fn is_white_space(c: char) -> bool {
    let n = c as int;
    9 <= n <= 13 || n == 32 || n == 0x85 || n == 0xA0 || n == 0x1680 || 0x2000 <= n <= 0x200A || n
        == 0x2028 || n == 0x2029 || n == 0x202F || n == 0x205F || n == 0x3000
}

pub fn white_space(c: char) -> (r: bool)
    ensures
        r == is_white_space(c),
{
    let n: u32 = c as u32;
    (9 <= n && n <= 13) || n == 32 || n == 0x85 || n == 0xA0 || n == 0x1680 || (0x2000 <= n && n
        <= 0x200A) || n == 0x2028 || n == 0x2029 || n == 0x202F || n == 0x205F || n == 0x3000
}

/// `s` without its leading white space.
pub open spec fn trim_start(s: Seq<char>) -> Seq<char>
    decreases s.len(),
{
    if s.len() > 0 && is_white_space(s[0]) {
        trim_start(s.drop_first())
    } else {
        s
    }
}

/// `s` without its trailing white space.
pub open spec fn trim_end(s: Seq<char>) -> Seq<char>
    decreases s.len(),
{
    if s.len() > 0 && is_white_space(s.last()) {
        trim_end(s.drop_last())
    } else {
        s
    }
}

/// `s` without the white space at both ends.
pub open spec fn trimmed(s: Seq<char>) -> Seq<char> {
    trim_end(trim_start(s))
}

pub fn trim(s: &str) -> (r: String)
    ensures
        r@ == trimmed(s@),
{
    let cs = chars_of(s);
    let mut a: usize = 0;
    let n: usize = cs.len();
    assert(cs@.subrange(0, n as int) =~= cs@);
    while a < n && white_space(cs[a])
        invariant
            a <= n,
            n == cs@.len(),
            trim_start(s@) == trim_start(cs@.subrange(a as int, n as int)),
        decreases n - a,
    {
        assert(cs@.subrange(a as int, n as int).drop_first() =~= cs@.subrange(a + 1, n as int));
        a += 1;
    }
    assert(trim_start(s@) == cs@.subrange(a as int, n as int));
    let mut b: usize = n;
    while b > a && white_space(cs[b - 1])
        invariant
            a <= b <= n,
            n == cs@.len(),
            trimmed(s@) == trim_end(cs@.subrange(a as int, b as int)),
        decreases b,
    {
        assert(cs@.subrange(a as int, b as int).drop_last() =~= cs@.subrange(a as int, b - 1));
        b -= 1;
    }
    string_of(slice_of(&cs, a, b))
}

/// The characters from position `from` up to position `to`.
pub fn slice_of(cs: &Vec<char>, from: usize, to: usize) -> (r: &[char])
    requires
        from <= to <= cs@.len(),
    ensures
        r@ == cs@.subrange(from as int, to as int),
{
    vstd::slice::slice_subrange(cs.as_slice(), from, to)
}

pub open spec fn ascii_lower_char(c: char) -> char {
    if 'A' <= c && c <= 'Z' {
        (c as u32 + 32) as char
    } else {
        c
    }
}

pub open spec fn ascii_upper_char(c: char) -> char {
    if 'a' <= c && c <= 'z' {
        (c as u32 - 32) as char
    } else {
        c
    }
}

/// ASCII letters in lower case, everything else unchanged.
pub open spec fn ascii_lower(s: Seq<char>) -> Seq<char> {
    s.map_values(|c: char| ascii_lower_char(c))
}

/// ASCII letters in upper case, everything else unchanged.
pub open spec fn ascii_upper(s: Seq<char>) -> Seq<char> {
    s.map_values(|c: char| ascii_upper_char(c))
}

pub fn lower_char(c: char) -> (r: char)
    ensures
        r == ascii_lower_char(c),
{
    if 'A' <= c && c <= 'Z' {
        ((c as u8) + 32) as char
    } else {
        c
    }
}

pub fn upper_char(c: char) -> (r: char)
    ensures
        r == ascii_upper_char(c),
{
    if 'a' <= c && c <= 'z' {
        ((c as u8) - 32) as char
    } else {
        c
    }
}

pub fn to_ascii_lowercase(s: &str) -> (r: String)
    ensures
        r@ == ascii_lower(s@),
{
    let cs = chars_of(s);
    let n: usize = cs.len();
    let mut out = String::new();
    let mut i: usize = 0;
    while i < n
        invariant
            i <= n,
            n == cs@.len(),
            out@ == ascii_lower(cs@.take(i as int)),
        decreases n - i,
    {
        out.push(lower_char(cs[i]));
        assert(ascii_lower(cs@.take(i + 1)) =~= ascii_lower(cs@.take(i as int)).push(
            ascii_lower_char(cs@[i as int]),
        ));
        i += 1;
    }
    assert(cs@.take(n as int) =~= cs@);
    out
}

pub fn to_ascii_uppercase(s: &str) -> (r: String)
    ensures
        r@ == ascii_upper(s@),
{
    let cs = chars_of(s);
    let n: usize = cs.len();
    let mut out = String::new();
    let mut i: usize = 0;
    while i < n
        invariant
            i <= n,
            n == cs@.len(),
            out@ == ascii_upper(cs@.take(i as int)),
        decreases n - i,
    {
        out.push(upper_char(cs[i]));
        assert(ascii_upper(cs@.take(i + 1)) =~= ascii_upper(cs@.take(i as int)).push(
            ascii_upper_char(cs@[i as int]),
        ));
        i += 1;
    }
    assert(cs@.take(n as int) =~= cs@);
    out
}

/// Whether two strings are equal when ASCII letters are compared without case.
pub fn eq_ignore_ascii_case(a: &str, b: &str) -> (r: bool)
    ensures
        r == (ascii_lower(a@) == ascii_lower(b@)),
{
    let x = to_ascii_lowercase(a);
    let y = to_ascii_lowercase(b);
    str_eq(x.as_str(), y.as_str())
}

/// The lower case of a whole text under the Unicode case mapping.
pub uninterp spec fn unicode_lower(s: Seq<char>) -> Seq<char>;

/// Calls `str::to_lowercase`, whose result depends on the text alone. On ASCII text the Unicode
/// mapping is the ASCII one.
#[verifier::external_body]
pub(crate) fn to_lowercase(s: &str) -> (r: String)
    ensures
        r@ == unicode_lower(s@),
        vstd::utf8::is_ascii_chars(s@) ==> r@ == ascii_lower(s@),
{
    s.to_lowercase()
}

/// `s` with every `from` written as `to`.
pub open spec fn replaced(s: Seq<char>, from: char, to: char) -> Seq<char> {
    s.map_values(|c: char| if c == from { to } else { c })
}

pub fn replace_char(s: &str, from: char, to: char) -> (r: String)
    ensures
        r@ == replaced(s@, from, to),
{
    let cs = chars_of(s);
    let n: usize = cs.len();
    let mut out = String::new();
    let mut i: usize = 0;
    while i < n
        invariant
            i <= n,
            n == cs@.len(),
            out@ == replaced(cs@.take(i as int), from, to),
        decreases n - i,
    {
        let c = cs[i];
        out.push(if c == from { to } else { c });
        assert(replaced(cs@.take(i + 1), from, to) =~= replaced(cs@.take(i as int), from, to).push(
            if c == from { to } else { c },
        ));
        i += 1;
    }
    assert(cs@.take(n as int) =~= cs@);
    out
}

/// Whether `s` begins with `p`.
pub open spec fn begins(s: Seq<char>, p: Seq<char>) -> bool {
    p.len() <= s.len() && s.take(p.len() as int) == p
}

/// Whether `s` ends with `p`.
pub open spec fn ends(s: Seq<char>, p: Seq<char>) -> bool {
    p.len() <= s.len() && s.skip(s.len() - p.len()) == p
}

/// Whether `p` stands in `s` at position `at`.
pub open spec fn stands_at(s: Seq<char>, p: Seq<char>, at: int) -> bool {
    0 <= at && at + p.len() <= s.len() && s.subrange(at, at + p.len()) == p
}

/// Whether `p` stands somewhere in `s`.
pub open spec fn contains_text(s: Seq<char>, p: Seq<char>) -> bool {
    exists|at: int| stands_at(s, p, at)
}

/// Whether `p` stands in `s` at position `at`.
pub fn matches_at(s: &Vec<char>, p: &Vec<char>, at: usize) -> (r: bool)
    requires
        at <= s@.len(),
    ensures
        r == stands_at(s@, p@, at as int),
{
    let m: usize = s.len();
    let n: usize = p.len();
    if m - at < n {
        return false;
    }
    let mut i: usize = 0;
    while i < n
        invariant
            i <= n,
            n == p@.len(),
            m == s@.len(),
            at + n <= m,
            forall|k: int| 0 <= k < i ==> s@[at + k] == p@[k],
        decreases n - i,
    {
        if s[at + i] != p[i] {
            assert(s@.subrange(at as int, at + n)[i as int] != p@[i as int]);
            return false;
        }
        i += 1;
    }
    assert(s@.subrange(at as int, at + n) =~= p@);
    true
}

pub fn starts_with(s: &str, p: &str) -> (r: bool)
    ensures
        r == begins(s@, p@),
{
    let x = chars_of(s);
    let y = chars_of(p);
    if y.len() <= x.len() {
        assert(x@.subrange(0, y@.len() as int) =~= x@.take(y@.len() as int));
    }
    matches_at(&x, &y, 0)
}

pub fn ends_with(s: &str, p: &str) -> (r: bool)
    ensures
        r == ends(s@, p@),
{
    let x = chars_of(s);
    let y = chars_of(p);
    if y.len() > x.len() {
        return false;
    }
    let at: usize = x.len() - y.len();
    assert(x@.subrange(at as int, x@.len() as int) =~= x@.skip(at as int));
    matches_at(&x, &y, at)
}

pub fn contains(s: &str, p: &str) -> (r: bool)
    ensures
        r == contains_text(s@, p@),
{
    let x = chars_of(s);
    let y = chars_of(p);
    if y.len() > x.len() {
        return false;
    }
    let last: usize = x.len() - y.len();
    let mut at: usize = 0;
    while at <= last
        invariant
            at <= last + 1,
            last + y@.len() == x@.len(),
            x@ == s@,
            y@ == p@,
            forall|k: int| 0 <= k < at ==> !stands_at(x@, y@, k),
        decreases last + 1 - at,
    {
        if matches_at(&x, &y, at) {
            return true;
        }
        if at == last {
            assert forall|k: int| !stands_at(s@, p@, k) by {
                if k < 0 || k > last {
                } else {
                    assert(k <= at);
                }
            }
            return false;
        }
        at += 1;
    }
    false
}

/// The pieces of `s` between the occurrences of `sep`.
pub open spec fn split(s: Seq<char>, sep: char) -> Seq<Seq<char>>
    decreases s.len(),
{
    if !s.contains(sep) {
        seq![s]
    } else {
        proof {
            s.index_of_first_ensures(sep);
        }
        let at = s.index_of_first(sep)->0;
        seq![s.take(at)] + split(s.skip(at + 1), sep)
    }
}

/// `head` followed by the pieces of `rest`, where `head` runs into the first of them.
pub open spec fn lead(head: Seq<char>, pieces: Seq<Seq<char>>) -> Seq<Seq<char>> {
    pieces.update(0, head + pieces[0])
}

/// Splitting one character at a time.
pub proof fn lemma_split_first(s: Seq<char>, sep: char)
    requires
        s.len() > 0,
    ensures
        split(s, sep).len() > 0,
        s[0] == sep ==> split(s, sep) == seq![Seq::<char>::empty()] + split(s.drop_first(), sep),
        s[0] != sep ==> split(s, sep) == lead(seq![s[0]], split(s.drop_first(), sep)),
    decreases s.len(),
{
    broadcast use vstd::seq_lib::group_seq_properties;
    s.index_of_first_ensures(sep);
    let t = s.drop_first();
    t.index_of_first_ensures(sep);
    if s[0] == sep {
        assert(s.contains(sep));
        let at = s.index_of_first(sep)->0;
        assert(at == 0);
        assert(s.take(0) =~= Seq::<char>::empty());
        assert(s.skip(1) =~= t);
    } else if s.contains(sep) {
        let at = s.index_of_first(sep)->0;
        assert(t[at - 1] == sep);
        assert(t.contains(sep));
        let bt = t.index_of_first(sep)->0;
        assert(bt == at - 1) by {
            if bt < at - 1 {
                assert(s[bt + 1] == sep);
            }
        }
        assert(s.take(at) =~= seq![s[0]] + t.take(bt));
        assert(s.skip(at + 1) =~= t.skip(bt + 1));
        assert(split(s, sep) =~= lead(seq![s[0]], split(t, sep)));
    } else {
        assert(!t.contains(sep)) by {
            if t.contains(sep) {
                let k = choose|k: int| 0 <= k < t.len() && t[k] == sep;
                assert(s[k + 1] == sep);
            }
        }
        assert(s =~= seq![s[0]] + t);
        assert(split(s, sep) =~= lead(seq![s[0]], split(t, sep)));
    }
}

pub fn split_char(s: &str, sep: char) -> (r: Vec<String>)
    ensures
        texts(r@) == split(s@, sep),
{
    let cs = chars_of(s);
    let n: usize = cs.len();
    let mut out: Vec<String> = Vec::new();
    let mut cur = String::new();
    let mut i: usize = 0;
    assert(cs@.skip(0) =~= cs@);
    proof {
        lemma_lead_empty(split(s@, sep), s@, sep);
        assert(texts(out@) + lead(cur@, split(cs@.skip(0), sep)) =~= split(s@, sep));
    }
    while i < n
        invariant
            i <= n,
            n == cs@.len(),
            texts(out@) + lead(cur@, split(cs@.skip(i as int), sep)) == split(s@, sep),
        decreases n - i,
    {
        let c = cs[i];
        let ghost rest = cs@.skip(i as int);
        let ghost before = texts(out@);
        let ghost cur0 = cur@;
        proof {
            lemma_split_first(rest, sep);
            assert(rest.drop_first() =~= cs@.skip(i + 1));
            lemma_lead_empty(split(cs@.skip(i + 1), sep), cs@.skip(i + 1), sep);
        }
        if c == sep {
            out.push(cur);
            cur = String::new();
            proof {
                assert(texts(out@) =~= before.push(cur0));
                assert(lead(cur0, split(rest, sep)) =~= seq![cur0] + split(cs@.skip(i + 1), sep));
                assert(texts(out@) + lead(cur@, split(cs@.skip(i + 1), sep)) =~= before + lead(
                    cur0,
                    split(rest, sep),
                ));
            }
        } else {
            cur.push(c);
            proof {
                let pieces = split(cs@.skip(i + 1), sep);
                assert(cur@ + pieces[0] =~= cur0 + (seq![c] + pieces[0]));
                assert(lead(cur@, pieces) =~= lead(cur0, lead(seq![c], pieces)));
            }
        }
        i += 1;
    }
    let ghost before = texts(out@);
    let ghost last = cur@;
    out.push(cur);
    proof {
        assert(cs@.skip(n as int) =~= Seq::<char>::empty());
        assert(split(Seq::<char>::empty(), sep) == seq![Seq::<char>::empty()]);
        assert(lead(last, seq![Seq::<char>::empty()]) =~= seq![last]);
        assert(texts(out@) =~= before + seq![last]);
    }
    out
}

proof fn lemma_lead_empty(pieces: Seq<Seq<char>>, s: Seq<char>, sep: char)
    requires
        pieces == split(s, sep),
    ensures
        pieces.len() > 0,
        lead(Seq::<char>::empty(), pieces) == pieces,
{
    assert(Seq::<char>::empty() + pieces[0] =~= pieces[0]);
    assert(lead(Seq::<char>::empty(), pieces) =~= pieces);
}

/// `a` followed by `b`.
pub fn cat(a: &str, b: &str) -> (r: String)
    ensures
        r@ == a@ + b@,
{
    let mut r = a.to_owned();
    r.append(b);
    r
}

/// `a`, `b` and `c` one after the other.
pub fn cat3(a: &str, b: &str, c: &str) -> (r: String)
    ensures
        r@ == a@ + b@ + c@,
{
    let mut r = a.to_owned();
    r.append(b);
    r.append(c);
    r
}

/// The pieces in order with `sep` between each two.
pub open spec fn joined(pieces: Seq<Seq<char>>, sep: Seq<char>) -> Seq<char>
    decreases pieces.len(),
{
    if pieces.len() == 0 {
        Seq::empty()
    } else if pieces.len() == 1 {
        pieces[0]
    } else {
        joined(pieces.drop_last(), sep) + sep + pieces.last()
    }
}

pub fn join(pieces: &Vec<String>, sep: &str) -> (r: String)
    ensures
        r@ == joined(texts(pieces@), sep@),
{
    let n: usize = pieces.len();
    let mut out = String::new();
    let mut i: usize = 0;
    assert(texts(pieces@.take(0)) =~= Seq::<Seq<char>>::empty());
    while i < n
        invariant
            i <= n,
            n == pieces@.len(),
            out@ == joined(texts(pieces@.take(i as int)), sep@),
        decreases n - i,
    {
        let ghost prev = texts(pieces@.take(i as int));
        if i > 0 {
            out.append(sep);
        }
        out.append(pieces[i].as_str());
        proof {
            let next = texts(pieces@.take(i + 1));
            assert(next.drop_last() =~= prev);
            assert(next.last() == pieces@[i as int]@);
            assert(out@ =~= joined(next, sep@));
        }
        i += 1;
    }
    assert(pieces@.take(n as int) =~= pieces@);
    out
}

/// How one value stands to another in an order.
#[derive(Clone, Copy, Debug, PartialEq, Eq, Structural)]
pub enum Rank {
    Less,
    Equal,
    Greater,
}

/// The order of two texts by their first differing character; a prefix comes first.
pub open spec fn text_rank(a: Seq<char>, b: Seq<char>) -> Rank
    decreases a.len(),
{
    if a.len() == 0 {
        if b.len() == 0 {
            Rank::Equal
        } else {
            Rank::Less
        }
    } else if b.len() == 0 {
        Rank::Greater
    } else if a[0] < b[0] {
        Rank::Less
    } else if a[0] > b[0] {
        Rank::Greater
    } else {
        text_rank(a.drop_first(), b.drop_first())
    }
}

/// The text order is a total order: equal texts and no others rank as equal, swapping the texts
/// swaps the rank.
pub proof fn text_order_is_total(a: Seq<char>, b: Seq<char>)
    ensures
        text_rank(a, b) == Rank::Equal <==> a == b,
        text_rank(a, b) == Rank::Less <==> text_rank(b, a) == Rank::Greater,
    decreases a.len(),
{
    if a.len() > 0 && b.len() > 0 {
        text_order_is_total(a.drop_first(), b.drop_first());
        if a[0] == b[0] && a.drop_first() == b.drop_first() {
            assert(a =~= seq![a[0]] + a.drop_first());
            assert(b =~= seq![b[0]] + b.drop_first());
        }
    } else {
        if a.len() == 0 && b.len() == 0 {
            assert(a =~= b);
        }
    }
}

/// The text order is transitive.
pub proof fn text_order_is_transitive(a: Seq<char>, b: Seq<char>, c: Seq<char>)
    requires
        text_rank(a, b) == Rank::Less,
        text_rank(b, c) == Rank::Less,
    ensures
        text_rank(a, c) == Rank::Less,
    decreases a.len(),
{
    if a.len() > 0 && b.len() > 0 && c.len() > 0 && a[0] == b[0] && b[0] == c[0] {
        text_order_is_transitive(a.drop_first(), b.drop_first(), c.drop_first());
    }
}

pub fn rank_chars(a: &Vec<char>, b: &Vec<char>) -> (r: Rank)
    ensures
        r == text_rank(a@, b@),
{
    let m: usize = a.len();
    let n: usize = b.len();
    let mut i: usize = 0;
    assert(a@.skip(0) =~= a@);
    assert(b@.skip(0) =~= b@);
    while i < m && i < n
        invariant
            i <= m,
            i <= n,
            m == a@.len(),
            n == b@.len(),
            text_rank(a@, b@) == text_rank(a@.skip(i as int), b@.skip(i as int)),
        decreases m - i,
    {
        let x = a[i];
        let y = b[i];
        if x < y {
            return Rank::Less;
        }
        if x > y {
            return Rank::Greater;
        }
        assert(a@.skip(i as int).drop_first() =~= a@.skip(i + 1));
        assert(b@.skip(i as int).drop_first() =~= b@.skip(i + 1));
        i += 1;
    }
    if m < n {
        Rank::Less
    } else if m > n {
        Rank::Greater
    } else {
        Rank::Equal
    }
}

pub fn rank_text(a: &str, b: &str) -> (r: Rank)
    ensures
        r == text_rank(a@, b@),
{
    let x = chars_of(a);
    let y = chars_of(b);
    rank_chars(&x, &y)
}

/// Changing characters one for one, white space staying white space, commutes with trimming.
pub proof fn trim_commutes(s: Seq<char>, f: spec_fn(char) -> char)
    requires
        forall|c: char| is_white_space(#[trigger] f(c)) == is_white_space(c),
    ensures
        trim_start(s.map_values(f)) == trim_start(s).map_values(f),
        trim_end(s.map_values(f)) == trim_end(s).map_values(f),
        trimmed(s.map_values(f)) == trimmed(s).map_values(f),
{
    lemma_trim_start_commutes(s, f);
    lemma_trim_end_commutes(s, f);
    lemma_trim_end_commutes(trim_start(s), f);
}

proof fn lemma_trim_start_commutes(s: Seq<char>, f: spec_fn(char) -> char)
    requires
        forall|c: char| is_white_space(#[trigger] f(c)) == is_white_space(c),
    ensures
        trim_start(s.map_values(f)) == trim_start(s).map_values(f),
    decreases s.len(),
{
    if s.len() > 0 && is_white_space(s[0]) {
        assert(s.map_values(f)[0] == f(s[0]));
        assert(s.map_values(f).drop_first() =~= s.drop_first().map_values(f));
        lemma_trim_start_commutes(s.drop_first(), f);
    } else if s.len() > 0 {
        assert(s.map_values(f)[0] == f(s[0]));
    }
}

proof fn lemma_trim_end_commutes(s: Seq<char>, f: spec_fn(char) -> char)
    requires
        forall|c: char| is_white_space(#[trigger] f(c)) == is_white_space(c),
    ensures
        trim_end(s.map_values(f)) == trim_end(s).map_values(f),
    decreases s.len(),
{
    if s.len() > 0 && is_white_space(s.last()) {
        assert(s.map_values(f).last() == f(s.last()));
        assert(s.map_values(f).drop_last() =~= s.drop_last().map_values(f));
        lemma_trim_end_commutes(s.drop_last(), f);
    } else if s.len() > 0 {
        assert(s.map_values(f).last() == f(s.last()));
    }
}

/// A text that trimming leaves alone neither begins nor ends with white space.
pub proof fn lemma_trimmed_ends(s: Seq<char>)
    requires
        trimmed(s) == s,
        s.len() > 0,
    ensures
        !is_white_space(s[0]),
        !is_white_space(s.last()),
{
    lemma_trim_shrinks(s);
    lemma_trim_shrinks(trim_start(s));
    if is_white_space(s[0]) {
        lemma_trim_shrinks(s.drop_first());
    }
    assert(trim_start(s) == s);
    if is_white_space(s.last()) {
        lemma_trim_shrinks(s.drop_last());
    }
}

proof fn lemma_trim_shrinks(s: Seq<char>)
    ensures
        trim_start(s).len() <= s.len(),
        trim_end(s).len() <= s.len(),
        trim_start(s).len() == s.len() ==> trim_start(s) == s,
    decreases s.len(),
{
    if s.len() > 0 {
        lemma_trim_shrinks(s.drop_first());
        lemma_trim_shrinks(s.drop_last());
    }
}

/// The pieces of two texts with the separator between them are those of the one and those of the
/// other.
pub proof fn split_of_joined_texts(a: Seq<char>, b: Seq<char>, sep: char)
    ensures
        split(a.push(sep) + b, sep) == split(a, sep) + split(b, sep),
    decreases a.len(),
{
    let s = a.push(sep) + b;
    lemma_split_first(s, sep);
    if a.len() == 0 {
        assert(s.drop_first() =~= b);
        assert(a =~= Seq::<char>::empty());
        assert(split(a, sep) =~= seq![Seq::<char>::empty()]);
    } else {
        let t = a.drop_first();
        assert(s.drop_first() =~= t.push(sep) + b);
        split_of_joined_texts(t, b, sep);
        lemma_split_first(a, sep);
        lemma_lead_empty(split(t, sep), t, sep);
        if a[0] == sep {
            assert(split(s, sep) =~= split(a, sep) + split(b, sep));
        } else {
            assert(split(s, sep) =~= split(a, sep) + split(b, sep));
        }
    }
}

/// Joining two lists of pieces.
pub proof fn joined_of_lists(a: Seq<Seq<char>>, b: Seq<Seq<char>>, sep: Seq<char>)
    requires
        a.len() > 0,
        b.len() > 0,
    ensures
        joined(a + b, sep) == joined(a, sep) + sep + joined(b, sep),
    decreases b.len(),
{
    assert((a + b).drop_last() =~= a + b.drop_last());
    assert((a + b).last() == b.last());
    if b.len() == 1 {
        assert(a + b.drop_last() =~= a);
    } else {
        joined_of_lists(a, b.drop_last(), sep);
        assert(joined(a + b, sep) =~= joined(a, sep) + sep + joined(b, sep));
    }
}

/// Joining the pieces of a text with its separator gives the text back.
pub proof fn join_undoes_split(s: Seq<char>, sep: char)
    ensures
        joined(split(s, sep), seq![sep]) == s,
        split(s, sep).len() > 0,
    decreases s.len(),
{
    if s.len() == 0 {
        assert(split(s, sep) =~= seq![s]);
        assert(joined(split(s, sep), seq![sep]) =~= s);
    } else {
        let t = s.drop_first();
        join_undoes_split(t, sep);
        lemma_split_first(s, sep);
        let pieces = split(t, sep);
        if s[0] == sep {
            joined_of_lists(seq![Seq::<char>::empty()], pieces, seq![sep]);
            assert(s =~= seq![sep] + t);
            assert(joined(split(s, sep), seq![sep]) =~= s);
        } else {
            lemma_joined_lead(seq![s[0]], pieces, seq![sep]);
            assert(s =~= seq![s[0]] + t);
        }
    }
}

proof fn lemma_joined_lead(head: Seq<char>, pieces: Seq<Seq<char>>, sep: Seq<char>)
    requires
        pieces.len() > 0,
    ensures
        joined(lead(head, pieces), sep) == head + joined(pieces, sep),
    decreases pieces.len(),
{
    if pieces.len() > 1 {
        lemma_joined_lead(head, pieces.drop_last(), sep);
        assert(lead(head, pieces).drop_last() =~= lead(head, pieces.drop_last()));
        assert(joined(lead(head, pieces), sep) =~= head + joined(pieces, sep));
    }
}

/// Lowering ASCII case commutes with splitting at a character that has no case.
pub proof fn split_commutes_with_lower(s: Seq<char>, sep: char)
    requires
        !('A' <= sep && sep <= 'Z') && !('a' <= sep && sep <= 'z'),
    ensures
        split(ascii_lower(s), sep) == split(s, sep).map_values(|t: Seq<char>| ascii_lower(t)),
        split(s, sep).len() > 0,
    decreases s.len(),
{
    let low = |t: Seq<char>| ascii_lower(t);
    if s.len() == 0 {
        assert(ascii_lower(s) =~= s);
        assert(split(s, sep) =~= seq![s]);
        assert(split(s, sep).map_values(low) =~= seq![s]);
    } else {
        let t = s.drop_first();
        split_commutes_with_lower(t, sep);
        lemma_split_first(s, sep);
        lemma_split_first(ascii_lower(s), sep);
        assert(ascii_lower(s).drop_first() =~= ascii_lower(t));
        assert(ascii_lower(s)[0] == ascii_lower_char(s[0]));
        let pieces = split(t, sep);
        if s[0] == sep {
            assert(ascii_lower(Seq::<char>::empty()) =~= Seq::<char>::empty());
            assert((seq![Seq::<char>::empty()] + pieces).map_values(low) =~= seq![
                Seq::<char>::empty(),
            ] + pieces.map_values(low));
        } else {
            assert(ascii_lower(seq![s[0]] + pieces[0]) =~= seq![ascii_lower_char(s[0])]
                + ascii_lower(pieces[0]));
            assert(lead(seq![s[0]], pieces).map_values(low) =~= lead(
                seq![ascii_lower_char(s[0])],
                pieces.map_values(low),
            ));
        }
    }
}

/// Lowering ASCII case commutes with joining by a separator that has no case.
pub proof fn join_commutes_with_lower(pieces: Seq<Seq<char>>, sep: Seq<char>)
    requires
        ascii_lower(sep) == sep,
    ensures
        joined(pieces.map_values(|t: Seq<char>| ascii_lower(t)), sep) == ascii_lower(
            joined(pieces, sep),
        ),
    decreases pieces.len(),
{
    let low = |t: Seq<char>| ascii_lower(t);
    let lowered = pieces.map_values(low);
    if pieces.len() == 0 {
        assert(ascii_lower(joined(pieces, sep)) =~= Seq::<char>::empty());
    } else if pieces.len() > 1 {
        join_commutes_with_lower(pieces.drop_last(), sep);
        assert(lowered.drop_last() =~= pieces.drop_last().map_values(low));
        assert(lowered.last() == ascii_lower(pieces.last()));
        assert(ascii_lower(joined(pieces, sep)) =~= ascii_lower(joined(pieces.drop_last(), sep))
            + ascii_lower(sep) + ascii_lower(pieces.last()));
    }
}

} // verus!
