//! What the operations on texts, numbers and written paths promise.

use crate::number::{
    after_sign, all_digits, decimal, digit_run, digits_value, is_decimal_number, is_digit,
    is_exponent, is_float_text, signed_value, unsigned_value,
};
use crate::paths::{dot_place, extension_of_name, is_letter, joined_path, stem_of_name, PathStyle};
use crate::text::{
    ascii_lower, ascii_lower_char, ascii_upper, ascii_upper_char, begins, contains_text, ends,
    is_white_space, joined, replaced, split, stands_at, text_rank, trim_end, trim_start, trimmed,
    Rank,
};
use vstd::prelude::*;

verus! {

/// Of the ASCII characters, the space and those from tab to carriage return are white space.
pub proof fn spaces_and_line_ends_are_white_space(c: char)
    ensures
        (c as int) < 128 ==> (is_white_space(c) <==> c == ' ' || 9 <= c as int <= 13),
        is_white_space('\u{a0}') && is_white_space('\u{3000}'),
{
}

/// Trimming takes the white space at both ends and nothing else.
pub proof fn trimming_takes_white_space_only(s: Seq<char>) -> (r: (int, int))
    ensures
        0 <= r.0 <= r.1 <= s.len(),
        trimmed(s) == s.subrange(r.0, r.1),
        forall|i: int| 0 <= i < r.0 || r.1 <= i < s.len() ==> is_white_space(#[trigger] s[i]),
        r.0 < r.1 ==> !is_white_space(s[r.0]) && !is_white_space(s[r.1 - 1]),
{
    let a = lemma_trim_start(s);
    let t = trim_start(s);
    let b = lemma_trim_end(t);
    assert(trimmed(s) =~= s.subrange(a, a + b));
    assert forall|i: int| 0 <= i < a || a + b <= i < s.len() implies is_white_space(
        #[trigger] s[i],
    ) by {
        if i >= a {
            assert(t[i - a] == s[i]);
        }
    }
    if 0 < b {
        assert(t[0] == s[a]);
        assert(t[b - 1] == s[a + b - 1]);
    }
    (a, a + b)
}

proof fn lemma_trim_start(s: Seq<char>) -> (a: int)
    ensures
        0 <= a <= s.len(),
        trim_start(s) == s.skip(a),
        forall|i: int| 0 <= i < a ==> is_white_space(#[trigger] s[i]),
        a < s.len() ==> !is_white_space(s[a]),
    decreases s.len(),
{
    if s.len() > 0 && is_white_space(s[0]) {
        let t = s.drop_first();
        let a = lemma_trim_start(t);
        assert(t.skip(a) =~= s.skip(a + 1));
        assert forall|i: int| 0 <= i < a + 1 implies is_white_space(#[trigger] s[i]) by {
            if i > 0 {
                assert(t[i - 1] == s[i]);
            }
        }
        if a < t.len() {
            assert(t[a] == s[a + 1]);
        }
        a + 1
    } else {
        assert(s.skip(0) =~= s);
        0
    }
}

proof fn lemma_trim_end(s: Seq<char>) -> (b: int)
    ensures
        0 <= b <= s.len(),
        trim_end(s) == s.take(b),
        forall|i: int| b <= i < s.len() ==> is_white_space(#[trigger] s[i]),
        b > 0 ==> !is_white_space(s[b - 1]),
    decreases s.len(),
{
    if s.len() > 0 && is_white_space(s.last()) {
        let t = s.drop_last();
        let b = lemma_trim_end(t);
        assert(t.take(b) =~= s.take(b));
        assert forall|i: int| b <= i < s.len() implies is_white_space(#[trigger] s[i]) by {
            if i < t.len() {
                assert(t[i] == s[i]);
            }
        }
        if b > 0 {
            assert(t[b - 1] == s[b - 1]);
        }
        b
    } else {
        assert(s.take(s.len() as int) =~= s);
        s.len() as int
    }
}

/// Lowering and raising change the letters of ASCII and nothing else, and undo each other on them.
pub proof fn cases_are_those_of_ascii(c: char, s: Seq<char>, i: int)
    requires
        0 <= i < s.len(),
    ensures
        65 <= c as int <= 90 ==> ascii_lower_char(c) as int == c as int + 32,
        !(65 <= c as int <= 90) ==> ascii_lower_char(c) == c,
        97 <= c as int <= 122 ==> ascii_upper_char(c) as int == c as int - 32,
        !(97 <= c as int <= 122) ==> ascii_upper_char(c) == c,
        ascii_lower(s).len() == s.len() && ascii_lower(s)[i] == ascii_lower_char(s[i]),
        ascii_upper(s).len() == s.len() && ascii_upper(s)[i] == ascii_upper_char(s[i]),
        ascii_lower(ascii_lower(s)) == ascii_lower(s),
        ascii_lower(ascii_upper(s)) == ascii_lower(s),
{
    assert(ascii_lower(ascii_lower(s)) =~= ascii_lower(s));
    assert(ascii_lower(ascii_upper(s)) =~= ascii_lower(s)) by {
        assert forall|k: int| 0 <= k < s.len() implies ascii_lower(ascii_upper(s))[k]
            == ascii_lower(s)[k] by {}
    }
}

/// A text begins with its first part and ends with its last, and any part stands in it.
pub proof fn parts_stand_where_they_are(a: Seq<char>, b: Seq<char>, c: Seq<char>)
    ensures
        begins(a + b, a),
        ends(a + b, b),
        stands_at(a + b + c, b, a.len() as int),
        contains_text(a + b + c, b),
        begins(a, b) ==> a == b + a.skip(b.len() as int),
        ends(a, b) ==> a == a.take(a.len() - b.len()) + b,
        stands_at(a, b, c.len() as int) ==> a == a.take(c.len() as int) + b + a.skip(
            (c.len() + b.len()) as int,
        ),
{
    assert((a + b).take(a.len() as int) =~= a);
    assert((a + b).skip((a + b).len() - b.len()) =~= b);
    assert((a + b + c).subrange(a.len() as int, (a.len() + b.len()) as int) =~= b);
    assert(stands_at(a + b + c, b, a.len() as int));
    if begins(a, b) {
        assert(a =~= b + a.skip(b.len() as int));
    }
    if ends(a, b) {
        assert(a =~= a.take(a.len() - b.len()) + b);
    }
    if stands_at(a, b, c.len() as int) {
        assert(a =~= a.take(c.len() as int) + b + a.skip((c.len() + b.len()) as int));
    }
}

/// Replacing changes every place of a character and no other.
pub proof fn replacing_changes_one_character(s: Seq<char>, from: char, to: char, i: int)
    requires
        0 <= i < s.len(),
    ensures
        replaced(s, from, to).len() == s.len(),
        s[i] == from ==> replaced(s, from, to)[i] == to,
        s[i] != from ==> replaced(s, from, to)[i] == s[i],
{
}

/// The pieces of a text hold no separator, and with the separator between them they are the text.
pub proof fn pieces_are_what_separators_part(s: Seq<char>, sep: char, i: int)
    requires
        0 <= i < split(s, sep).len(),
    ensures
        !split(s, sep)[i].contains(sep),
        split(s, sep).len() >= 1,
        joined(split(s, sep), seq![sep]) == s,
        !s.contains(sep) ==> split(s, sep) == seq![s],
    decreases s.len(),
{
    crate::text::join_undoes_split(s, sep);
    if s.contains(sep) {
        s.index_of_first_ensures(sep);
        let at = s.index_of_first(sep)->0;
        let head = s.take(at);
        if i == 0 {
            if head.contains(sep) {
                let k = head.index_of(sep);
                assert(s[k] == sep);
            }
        } else {
            pieces_are_what_separators_part(s.skip(at + 1), sep, i - 1);
        }
    }
}

/// Joining puts the separator between the pieces and nowhere else.
pub proof fn joining_puts_the_separator_between(
    pieces: Seq<Seq<char>>,
    last: Seq<char>,
    sep: Seq<char>,
)
    ensures
        joined(Seq::empty(), sep).len() == 0,
        joined(seq![last], sep) == last,
        pieces.len() > 0 ==> joined(pieces.push(last), sep) == joined(pieces, sep) + sep + last,
{
    assert(pieces.push(last).drop_last() =~= pieces);
}

/// Texts stand in the order of their first different characters; of two that do not differ where
/// both have characters, the shorter comes first.
pub proof fn texts_are_ordered_by_their_first_difference(a: Seq<char>, b: Seq<char>, n: int)
    requires
        0 <= n <= a.len(),
        n <= b.len(),
        forall|i: int| 0 <= i < n ==> #[trigger] a[i] == b[i],
    ensures
        n < a.len() && n < b.len() && a[n] < b[n] ==> text_rank(a, b) == Rank::Less,
        n < a.len() && n < b.len() && a[n] > b[n] ==> text_rank(a, b) == Rank::Greater,
        n == a.len() && n < b.len() ==> text_rank(a, b) == Rank::Less,
        n == b.len() && n < a.len() ==> text_rank(a, b) == Rank::Greater,
        n == a.len() && n == b.len() ==> text_rank(a, b) == Rank::Equal,
    decreases n,
{
    if n > 0 {
        assert(a[0] == b[0]);
        let x = a.drop_first();
        let y = b.drop_first();
        assert forall|i: int| 0 <= i < n - 1 implies #[trigger] x[i] == y[i] by {
            assert(a[i + 1] == b[i + 1]);
        }
        texts_are_ordered_by_their_first_difference(x, y, n - 1);
        if n < a.len() {
            assert(x[n - 1] == a[n]);
        }
        if n < b.len() {
            assert(y[n - 1] == b[n]);
        }
    }
}

/// Numbers are written and read to the base ten, the highest digit first and without a zero in
/// front.
pub proof fn numbers_are_decimal(n: nat, d: nat, s: Seq<char>)
    requires
        d < 10,
    ensures
        decimal(d) == seq![(48 + d) as char],
        n > 0 ==> decimal(10 * n + d) == decimal(n).push((48 + d) as char),
        digits_value(s.push((48 + d) as char)) == 10 * digits_value(s) + d,
        digits_value(Seq::empty()) == 0,
        n > 0 ==> decimal(n)[0] != '0',
        decimal(n).len() > 0,
        all_digits(decimal(n)),
    decreases n,
{
    if n > 0 {
        assert((10 * n + d) / 10 == n && (10 * n + d) % 10 == d);
    }
    assert(s.push((48 + d) as char).drop_last() =~= s);
    if n >= 10 {
        numbers_are_decimal(n / 10, n % 10, s);
        assert(decimal(n) == decimal(n / 10).push(crate::number::digit_char(n % 10)));
    }
}

/// A number may have a plus sign, has at least one digit and nothing but digits, and is at most as
/// great as may be.
pub proof fn unsigned_numbers_are_digits(n: nat, max: nat, s: Seq<char>)
    ensures
        n <= max ==> unsigned_value(decimal(n), max) == Some(n),
        n <= max ==> unsigned_value(seq!['+'] + decimal(n), max) == Some(n),
        n > max ==> unsigned_value(decimal(n), max) is None,
        unsigned_value(Seq::empty(), max) is None,
        unsigned_value(s, max) is Some ==> unsigned_value(s, max)->0 <= max,
        (exists|i: int|
            0 < i < s.len() && !('0' <= #[trigger] s[i] && s[i] <= '9')) ==> unsigned_value(s, max)
            is None,
{
    crate::number::decimal_round_trip(n);
    numbers_are_decimal(n, 0, s);
    let d = decimal(n);
    assert(crate::number::is_digit(d[0]));
    let p = seq!['+'] + d;
    assert(p.drop_first() =~= d);
    if exists|i: int| 0 < i < s.len() && !('0' <= #[trigger] s[i] && s[i] <= '9') {
        let i = choose|i: int| 0 < i < s.len() && !('0' <= #[trigger] s[i] && s[i] <= '9');
        let t = crate::number::after_plus(s);
        if t == s {
            assert(!crate::number::is_digit(t[i]));
        } else {
            assert(t[i - 1] == s[i]);
            assert(!crate::number::is_digit(t[i - 1]));
        }
    }
}

/// A minus sign makes a number negative; without one it is read as any other.
pub proof fn signed_numbers_have_their_sign(n: nat)
    ensures
        n <= i64::MAX ==> signed_value(decimal(n)) == Some(n as int),
        n <= i64::MAX + 1 ==> signed_value(seq!['-'] + decimal(n)) == Some(-(n as int)),
        n > i64::MAX ==> signed_value(decimal(n)) is None,
        n > i64::MAX + 1 ==> signed_value(seq!['-'] + decimal(n)) is None,
{
    crate::number::decimal_round_trip(n);
    numbers_are_decimal(n, 0, Seq::empty());
    let d = decimal(n);
    assert(crate::number::is_digit(d[0]));
    unsigned_numbers_are_digits(n, i64::MAX as nat, d);
    let m = seq!['-'] + d;
    assert(m[0] == '-');
    assert(m.drop_first() =~= d);
}

/// A path that stands for itself is taken as it is; any other is put behind the folder, with the
/// separator of the platform between them where the folder does not end in one.
pub proof fn paths_are_joined_with_a_separator(a: Seq<char>, b: Seq<char>)
    ensures
        b.len() > 0 && b[0] == '/' ==> joined_path(PathStyle::Unix, a, b) == b,
        b.len() == 0 || b[0] != '/' ==> {
            &&& a.len() == 0 ==> joined_path(PathStyle::Unix, a, b) == b
            &&& a.len() > 0 && a.last() == '/' ==> joined_path(PathStyle::Unix, a, b) == a + b
            &&& a.len() > 0 && a.last() != '/' ==> joined_path(PathStyle::Unix, a, b) == a.push('/')
                + b
        },
        b.len() > 0 && b[0] != '/' && b[0] != '\\' && (b.len() < 2 || b[1] != ':') ==> {
            &&& a.len() == 0 ==> joined_path(PathStyle::Windows, a, b) == b
            &&& a.len() > 0 && (a.last() == '/' || a.last() == '\\') ==> joined_path(
                PathStyle::Windows,
                a,
                b,
            ) == a + b
            &&& a.len() > 2 && a.last() != '/' && a.last() != '\\' ==> joined_path(
                PathStyle::Windows,
                a,
                b,
            ) == a.push('\\') + b
            &&& a.len() == 2 && is_letter(a[0]) && a[1] == ':' ==> joined_path(
                PathStyle::Windows,
                a,
                b,
            ) == a + b
        },
        b.len() > 2 && is_letter(b[0]) && b[1] == ':' ==> joined_path(PathStyle::Windows, a, b)
            == b,
{
    if a.len() == 0 {
        assert(a + b =~= b);
    }
}

/// The extension of a name is what follows its last dot, and its stem is what comes before; a name
/// without a dot, or with one in front alone, has no extension.
pub proof fn extensions_follow_the_last_dot(stem: Seq<char>, ext: Seq<char>, plain: Seq<char>)
    requires
        stem.len() > 0,
        !ext.contains('.'),
        !plain.contains('.'),
    ensures
        extension_of_name(stem.push('.') + ext) == Some(ext),
        stem_of_name(stem.push('.') + ext) == stem,
        extension_of_name(plain) is None,
        stem_of_name(plain) == plain,
        extension_of_name(seq!['.'] + plain) is None,
        stem_of_name(seq!['.'] + plain) == seq!['.'] + plain,
{
    let name = stem.push('.') + ext;
    lemma_dot(name, stem.len() as int, name.len());
    assert(name.take(stem.len() as int) =~= stem);
    assert(name.skip(stem.len() as int + 1) =~= ext);
    lemma_no_dot(plain, plain.len());
    let hidden = seq!['.'] + plain;
    lemma_dot(hidden, 0, hidden.len());
}

proof fn lemma_dot(name: Seq<char>, at: int, n: nat)
    requires
        0 <= at < n <= name.len(),
        name[at] == '.',
        forall|i: int| at < i < name.len() ==> !name.skip(at + 1).contains(#[trigger] name[i])
            || name[i] != '.',
        !name.skip(at + 1).contains('.'),
    ensures
        dot_place(name, n) == at,
    decreases n,
{
    if n - 1 > at {
        let t = name.skip(at + 1);
        assert(t[n - 1 - at - 1] == name[n - 1]);
        assert(name[n - 1] != '.');
        lemma_dot(name, at, (n - 1) as nat);
    }
}

proof fn lemma_no_dot(name: Seq<char>, n: nat)
    requires
        n <= name.len(),
        !name.contains('.'),
    ensures
        dot_place(name, n) == 0,
    decreases n,
{
    if n > 0 {
        assert(name.contains(name[n - 1]));
        lemma_no_dot(name, (n - 1) as nat);
    }
}

proof fn lemma_digit_run(a: Seq<char>, rest: Seq<char>)
    requires
        all_digits(a),
        rest.len() == 0 || !is_digit(rest[0]),
    ensures
        digit_run(a + rest) == a.len(),
        (a + rest).skip(a.len() as int) == rest,
    decreases a.len(),
{
    let s = a + rest;
    assert(s.skip(a.len() as int) =~= rest);
    if a.len() > 0 {
        assert(is_digit(a[0]));
        assert(s[0] == a[0]);
        assert(s.drop_first() =~= a.drop_first() + rest);
        assert(all_digits(a.drop_first())) by {
            assert forall|i: int| 0 <= i < a.drop_first().len() implies is_digit(
                #[trigger] a.drop_first()[i],
            ) by {
                assert(a.drop_first()[i] == a[i + 1]);
            }
        }
        lemma_digit_run(a.drop_first(), rest);
    } else {
        assert(s =~= rest);
    }
}

proof fn lemma_decimal_number(a: Seq<char>, b: Seq<char>, end: Seq<char>)
    requires
        all_digits(a),
        all_digits(b),
        end.len() == 0 || !is_digit(end[0]) && end[0] != '.',
        is_exponent(end),
    ensures
        a.len() + b.len() > 0 ==> is_decimal_number(a + (seq!['.'] + (b + end))),
        a.len() > 0 ==> is_decimal_number(a + end),
{
    let tail = seq!['.'] + (b + end);
    assert(tail[0] == '.');
    lemma_digit_run(a, tail);
    assert(tail.drop_first() =~= b + end);
    lemma_digit_run(b, end);
    lemma_digit_run(a, end);
}

/// A fraction is written with digits before or behind a point, or without a point; a sign may stand
/// before it, and an exponent of digits, with a sign or without, behind it.
pub proof fn fractions_are_written_with_a_point(
    a: Seq<char>,
    b: Seq<char>,
    e: Seq<char>,
    sign: char,
    mark: char,
)
    requires
        all_digits(a),
        all_digits(b),
        all_digits(e),
        e.len() > 0,
        sign == '+' || sign == '-',
        mark == 'e' || mark == 'E',
    ensures
        ({
            let end = seq![mark] + e;
            let signed = seq![mark, sign] + e;
            let whole = a + (seq!['.'] + b);
            &&& a.len() > 0 ==> is_float_text(a) && is_float_text(a + end)
            &&& a.len() + b.len() > 0 ==> {
                &&& is_float_text(whole)
                &&& is_float_text(seq![sign] + whole)
                &&& is_float_text(a + (seq!['.'] + (b + end)))
                &&& is_float_text(a + (seq!['.'] + (b + signed)))
            }
        }),
{
    let none = Seq::<char>::empty();
    let end = seq![mark] + e;
    let signed = seq![mark, sign] + e;
    let whole = a + (seq!['.'] + b);
    assert(end[0] == mark && signed[0] == mark);
    assert(is_digit(e[0]));
    assert(end.drop_first() =~= e);
    assert(signed.drop_first() =~= seq![sign] + e);
    assert((seq![sign] + e).drop_first() =~= e);
    assert((seq![sign] + e)[0] == sign);
    lemma_decimal_number(a, b, none);
    lemma_decimal_number(a, b, end);
    lemma_decimal_number(a, b, signed);
    assert(b + none =~= b);
    assert(a + none =~= a);
    assert((seq![sign] + whole).drop_first() =~= whole);
    if a.len() > 0 {
        assert(is_digit(a[0]));
        assert(whole[0] == a[0] && (a + end)[0] == a[0]);
        assert((a + (seq!['.'] + (b + end)))[0] == a[0]);
        assert((a + (seq!['.'] + (b + signed)))[0] == a[0]);
    } else {
        assert(whole[0] == '.');
        assert((a + (seq!['.'] + (b + end)))[0] == '.');
        assert((a + (seq!['.'] + (b + signed)))[0] == '.');
    }
}

/// Neither nothing nor a sign alone is a fraction, and one begins with a sign, a digit, a point or
/// one of the letters of infinity and of what is no number.
pub proof fn fractions_begin_as_they_should(s: Seq<char>)
    requires
        is_float_text(s),
    ensures
        s.len() > 0,
        s.len() == 1 ==> is_digit(s[0]),
        s[0] == '+' || s[0] == '-' || s[0] == '.' || is_digit(s[0]) || s[0] == 'i' || s[0] == 'I'
            || s[0] == 'n' || s[0] == 'N',
{
    reveal_strlit("inf");
    reveal_strlit("infinity");
    reveal_strlit("nan");
    let t = after_sign(s);
    let l = ascii_lower(t);
    assert(l.len() == t.len());
    if t.len() > 0 {
        assert(l[0] == ascii_lower_char(t[0]));
    }
    assert("inf"@[0] == 'i' && "infinity"@[0] == 'i' && "nan"@[0] == 'n');
    assert("inf"@.len() == 3 && "infinity"@.len() == 8 && "nan"@.len() == 3);
    if t.len() == 0 {
        assert(t.skip(0) =~= t);
    } else {
        assert(t.skip(0) =~= t);
        if t.len() == 1 && !is_digit(t[0]) {
            assert(digit_run(t) == 0);
            if t[0] == '.' {
                assert(t.drop_first().len() == 0);
            }
        }
    }
}

} // verus!
