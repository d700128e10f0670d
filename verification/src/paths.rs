//! Lexical paths: what the pieces of a written path are, without touching a filesystem.

use crate::text::{
    ascii_upper, cat, chars_of, replace_char, replaced, slice_of, str_eq, string_of, texts,
    to_ascii_uppercase,
};
use vstd::prelude::*;

verus! {

/// How a platform writes its paths.
#[derive(Clone, Copy, Debug, PartialEq, Eq, Structural)]
pub enum PathStyle {
    /// Slashes separate the names; a leading slash is the root.
    Unix,
    /// Slashes and backslashes separate the names; a path may begin with a drive (`D:`) or with a
    /// server and a share (`\\server\share`).
    Windows,
}

impl PathStyle {
    pub open spec fn separates(self, c: char) -> bool {
        c == '/' || (self == PathStyle::Windows && c == '\\')
    }

    pub fn is_separator(self, c: char) -> (r: bool)
        ensures
            r == self.separates(c),
    {
        match self {
            PathStyle::Unix => c == '/',
            PathStyle::Windows => c == '/' || c == '\\',
        }
    }

    /// The separator that joins two pieces.
    pub open spec fn glue(self) -> char {
        match self {
            PathStyle::Unix => '/',
            PathStyle::Windows => '\\',
        }
    }
}

pub open spec fn is_letter(c: char) -> bool {
    ('a' <= c && c <= 'z') || ('A' <= c && c <= 'Z')
}

/// The end of the name that starts at `from`.
pub open spec fn name_end(style: PathStyle, s: Seq<char>, from: nat) -> nat
    decreases s.len() - from,
{
    if from < s.len() && !style.separates(s[from as int]) {
        name_end(style, s, from + 1)
    } else {
        from
    }
}

/// The length of the drive or of the server and share that `s` begins with.
pub open spec fn prefix_len(style: PathStyle, s: Seq<char>) -> nat {
    if style == PathStyle::Unix {
        0
    } else if s.len() >= 2 && is_letter(s[0]) && s[1] == ':' {
        2
    } else if s.len() >= 2 && style.separates(s[0]) && style.separates(s[1]) {
        let server = name_end(style, s, 2);
        let share = name_end(style, s, server + 1);
        if server > 2 && server < s.len() && share > server + 1 {
            share
        } else {
            0
        }
    } else {
        0
    }
}

/// Where the names of `s` begin: after the prefix and the root.
pub open spec fn base_len(style: PathStyle, s: Seq<char>) -> nat {
    let p = prefix_len(style, s);
    if p < s.len() && style.separates(s[p as int]) {
        p + 1
    } else {
        p
    }
}

/// Whether `s` begins at a root.
pub open spec fn is_rooted(style: PathStyle, s: Seq<char>) -> bool {
    base_len(style, s) > prefix_len(style, s) || prefix_len(style, s) > 2
}

/// The end of the last name in the first `n` characters: trailing separators and `.` names do not
/// count, but for a `.` that a relative path begins with.
pub open spec fn last_end(style: PathStyle, s: Seq<char>, n: nat) -> nat
    decreases n,
{
    let base = base_len(style, s);
    if n <= base {
        n
    } else if style.separates(s[n - 1]) {
        last_end(style, s, (n - 1) as nat)
    } else if s[n - 1] == '.' && (if n - 1 == base {
        is_rooted(style, s)
    } else {
        style.separates(s[n - 2])
    }) {
        last_end(style, s, (n - 1) as nat)
    } else {
        n
    }
}

/// Where the name that ends at `n` begins.
pub open spec fn last_start(style: PathStyle, s: Seq<char>, n: nat) -> nat
    decreases n,
{
    if n <= base_len(style, s) || style.separates(s[n - 1]) {
        n
    } else {
        last_start(style, s, (n - 1) as nat)
    }
}

/// The last name of a path, unless it is `.` or `..`.
pub open spec fn file_name_of(style: PathStyle, s: Seq<char>) -> Option<Seq<char>> {
    let n = last_end(style, s, s.len());
    let name = s.subrange(last_start(style, s, n) as int, n as int);
    if n <= base_len(style, s) || name == "."@ || name == ".."@ {
        None
    } else {
        Some(name)
    }
}

/// The path without its last name; a root alone has none.
pub open spec fn parent_of(style: PathStyle, s: Seq<char>) -> Option<Seq<char>> {
    let n = last_end(style, s, s.len());
    if n <= base_len(style, s) {
        None
    } else {
        Some(s.take(last_end(style, s, last_start(style, s, n)) as int))
    }
}

/// `b` inside `a`: a rooted `b` stands on its own, otherwise it follows `a`.
pub open spec fn joined_path(style: PathStyle, a: Seq<char>, b: Seq<char>) -> Seq<char> {
    if prefix_len(style, b) > 0 || (style == PathStyle::Unix && base_len(style, b) > 0) {
        b
    } else if base_len(style, b) > 0 {
        a.take(prefix_len(style, a) as int) + b
    } else if a.len() == 0 || style.separates(a.last()) || (prefix_len(style, a) == 2 && a.len()
        == 2) {
        a + b
    } else {
        a.push(style.glue()) + b
    }
}

/// The place of the last dot of a name that is not its first character.
pub open spec fn dot_place(name: Seq<char>, n: nat) -> nat
    decreases n,
{
    if n == 0 {
        0
    } else if name[n - 1] == '.' {
        (n - 1) as nat
    } else {
        dot_place(name, (n - 1) as nat)
    }
}

/// What a file name holds before its extension.
pub open spec fn stem_of_name(name: Seq<char>) -> Seq<char> {
    let d = dot_place(name, name.len());
    if d == 0 {
        name
    } else {
        name.take(d as int)
    }
}

/// The extension of a file name: what follows its last dot, unless that is its first character.
pub open spec fn extension_of_name(name: Seq<char>) -> Option<Seq<char>> {
    let d = dot_place(name, name.len());
    if d == 0 {
        None
    } else {
        Some(name.skip(d as int + 1))
    }
}

pub open spec fn extension_of(style: PathStyle, s: Seq<char>) -> Option<Seq<char>> {
    match file_name_of(style, s) {
        Some(name) => extension_of_name(name),
        None => None,
    }
}

proof fn lemma_name_end(style: PathStyle, s: Seq<char>, from: nat)
    requires
        from <= s.len(),
    ensures
        from <= name_end(style, s, from) <= s.len(),
    decreases s.len() - from,
{
    if from < s.len() && !style.separates(s[from as int]) {
        lemma_name_end(style, s, from + 1);
    }
}

pub proof fn lemma_last_end(style: PathStyle, s: Seq<char>, n: nat)
    ensures
        last_end(style, s, n) <= n,
        base_len(style, s) <= n ==> base_len(style, s) <= last_end(style, s, n),
    decreases n,
{
    if n > base_len(style, s) {
        lemma_last_end(style, s, (n - 1) as nat);
    }
}

pub proof fn lemma_last_start(style: PathStyle, s: Seq<char>, n: nat)
    ensures
        last_start(style, s, n) <= n,
        base_len(style, s) <= n ==> base_len(style, s) <= last_start(style, s, n),
    decreases n,
{
    if n > base_len(style, s) && !style.separates(s[n - 1]) {
        lemma_last_start(style, s, (n - 1) as nat);
    }
}

fn find_name_end(style: PathStyle, cs: &Vec<char>, from: usize) -> (r: usize)
    requires
        from <= cs@.len(),
    ensures
        r == name_end(style, cs@, from as nat),
        from <= r <= cs@.len(),
{
    let n: usize = cs.len();
    let mut i: usize = from;
    while i < n && !style.is_separator(cs[i])
        invariant
            from <= i <= n,
            n == cs@.len(),
            name_end(style, cs@, from as nat) == name_end(style, cs@, i as nat),
        decreases n - i,
    {
        i += 1;
    }
    i
}

fn find_prefix(style: PathStyle, cs: &Vec<char>) -> (r: usize)
    ensures
        r == prefix_len(style, cs@),
        r <= cs@.len(),
{
    match style {
        PathStyle::Unix => 0,
        PathStyle::Windows => {
            let n: usize = cs.len();
            if n < 2 {
                return 0;
            }
            let c = cs[0];
            if (('a' <= c && c <= 'z') || ('A' <= c && c <= 'Z')) && cs[1] == ':' {
                return 2;
            }
            if style.is_separator(cs[0]) && style.is_separator(cs[1]) {
                let server: usize = find_name_end(style, cs, 2);
                if server > 2 && server < n {
                    let share: usize = find_name_end(style, cs, server + 1);
                    if share > server + 1 {
                        return share;
                    }
                }
            }
            0
        },
    }
}

fn find_base(style: PathStyle, cs: &Vec<char>) -> (r: usize)
    ensures
        r == base_len(style, cs@),
        r <= cs@.len(),
{
    let p: usize = find_prefix(style, cs);
    if p < cs.len() && style.is_separator(cs[p]) {
        p + 1
    } else {
        p
    }
}

fn find_last_end(style: PathStyle, cs: &Vec<char>, n: usize) -> (r: usize)
    requires
        n <= cs@.len(),
    ensures
        r == last_end(style, cs@, n as nat),
        r <= n,
{
    let base: usize = find_base(style, cs);
    let prefix: usize = find_prefix(style, cs);
    let rooted = base > prefix || prefix > 2;
    let mut i: usize = n;
    while i > base
        invariant_except_break
            i <= n <= cs@.len(),
            base == base_len(style, cs@),
            rooted == is_rooted(style, cs@),
            last_end(style, cs@, n as nat) == last_end(style, cs@, i as nat),
        ensures
            i <= n,
            last_end(style, cs@, n as nat) == i,
        decreases i,
    {
        let c = cs[i - 1];
        if style.is_separator(c) {
            i -= 1;
        } else if c == '.' && (if i - 1 == base {
            rooted
        } else {
            style.is_separator(cs[i - 2])
        }) {
            i -= 1;
        } else {
            break;
        }
    }
    i
}

fn find_last_start(style: PathStyle, cs: &Vec<char>, n: usize) -> (r: usize)
    requires
        n <= cs@.len(),
    ensures
        r == last_start(style, cs@, n as nat),
        r <= n,
{
    let base: usize = find_base(style, cs);
    let mut i: usize = n;
    while i > base && !style.is_separator(cs[i - 1])
        invariant
            i <= n <= cs@.len(),
            base == base_len(style, cs@),
            last_start(style, cs@, n as nat) == last_start(style, cs@, i as nat),
        decreases i,
    {
        i -= 1;
    }
    i
}

/// The last name of a path.
pub fn file_name(style: PathStyle, path: &str) -> (r: Option<String>)
    ensures
        match r {
            Some(name) => file_name_of(style, path@) == Some(name@),
            None => file_name_of(style, path@) is None,
        },
{
    let cs = chars_of(path);
    let n: usize = find_last_end(style, &cs, cs.len());
    let base: usize = find_base(style, &cs);
    if n <= base {
        return None;
    }
    let m: usize = find_last_start(style, &cs, n);
    let name = string_of(slice_of(&cs, m, n));
    if str_eq(name.as_str(), ".") || str_eq(name.as_str(), "..") {
        None
    } else {
        Some(name)
    }
}

/// The path without its last name.
pub fn parent(style: PathStyle, path: &str) -> (r: Option<String>)
    ensures
        match r {
            Some(p) => parent_of(style, path@) == Some(p@),
            None => parent_of(style, path@) is None,
        },
{
    let cs = chars_of(path);
    let n: usize = find_last_end(style, &cs, cs.len());
    let base: usize = find_base(style, &cs);
    if n <= base {
        return None;
    }
    let m: usize = find_last_start(style, &cs, n);
    let k: usize = find_last_end(style, &cs, m);
    assert(cs@.subrange(0, k as int) =~= cs@.take(k as int));
    Some(string_of(slice_of(&cs, 0, k)))
}

/// `b` inside `a`.
pub fn join_path(style: PathStyle, a: &str, b: &str) -> (r: String)
    ensures
        r@ == joined_path(style, a@, b@),
{
    let x = chars_of(a);
    let y = chars_of(b);
    let n: usize = x.len();
    let prefix_b: usize = find_prefix(style, &y);
    let base_b: usize = find_base(style, &y);
    let unix = match style {
        PathStyle::Unix => true,
        PathStyle::Windows => false,
    };
    if prefix_b > 0 || (unix && base_b > 0) {
        return b.to_owned();
    }
    let prefix_a: usize = find_prefix(style, &x);
    if base_b > 0 {
        assert(x@.subrange(0, prefix_a as int) =~= x@.take(prefix_a as int));
        let kept = string_of(slice_of(&x, 0, prefix_a));
        return cat(kept.as_str(), b);
    }
    if n == 0 || style.is_separator(x[n - 1]) || (prefix_a == 2 && n == 2) {
        return cat(a, b);
    }
    let mut r = a.to_owned();
    r.push(if unix {
        '/'
    } else {
        '\\'
    });
    r.append(b);
    r
}

fn find_dot(cs: &Vec<char>) -> (r: usize)
    ensures
        r == dot_place(cs@, cs@.len()),
        r == 0 || r < cs@.len(),
{
    let n: usize = cs.len();
    let mut i: usize = n;
    while i > 0
        invariant
            i <= n,
            n == cs@.len(),
            dot_place(cs@, n as nat) == dot_place(cs@, i as nat),
        decreases i,
    {
        if cs[i - 1] == '.' {
            return i - 1;
        }
        i -= 1;
    }
    0
}

/// What a file name holds before its extension.
pub fn name_stem(name: &str) -> (r: String)
    ensures
        r@ == stem_of_name(name@),
{
    let cs = chars_of(name);
    let d: usize = find_dot(&cs);
    if d == 0 {
        name.to_owned()
    } else {
        assert(cs@.subrange(0, d as int) =~= cs@.take(d as int));
        string_of(slice_of(&cs, 0, d))
    }
}

/// The extension of a file name.
pub fn name_extension(name: &str) -> (r: Option<String>)
    ensures
        match r {
            Some(e) => extension_of_name(name@) == Some(e@),
            None => extension_of_name(name@) is None,
        },
{
    let cs = chars_of(name);
    let d: usize = find_dot(&cs);
    if d == 0 {
        None
    } else {
        let n: usize = cs.len();
        assert(cs@.subrange(d + 1, n as int) =~= cs@.skip(d + 1));
        Some(string_of(slice_of(&cs, d + 1, n)))
    }
}

/// The extension of the last name of a path.
pub fn extension(style: PathStyle, path: &str) -> (r: Option<String>)
    ensures
        match r {
            Some(e) => extension_of(style, path@) == Some(e@),
            None => extension_of(style, path@) is None,
        },
{
    match file_name(style, path) {
        Some(name) => name_extension(name.as_str()),
        None => None,
    }
}

/// A plain name joined to a directory is the file name of the result.
pub proof fn joined_name_is_the_file_name(dir: Seq<char>, name: Seq<char>)
    requires
        name.len() > 0,
        forall|i: int| 0 <= i < name.len() ==> #[trigger] name[i] != '/',
        name != "."@,
        name != ".."@,
    ensures
        file_name_of(PathStyle::Unix, joined_path(PathStyle::Unix, dir, name)) == Some(name),
{
    let style = PathStyle::Unix;
    let s = joined_path(style, dir, name);
    let n = s.len();
    let m = (n - name.len()) as nat;
    assert(s.skip(m as int) =~= name);
    assert(forall|i: int| m <= i < n ==> s[i] == #[trigger] name[i - m]);
    reveal_strlit(".");
    assert(s[n - 1] == name[name.len() - 1]);
    assert(last_end(style, s, n) == n) by {
        if s[n - 1] == '.' {
            if name.len() == 1 {
                assert(name =~= "."@);
            } else {
                assert(s[n - 2] == name[name.len() - 2]);
            }
        }
    }
    lemma_start_runs_back(s, m, n);
    assert(s.subrange(m as int, n as int) =~= name);
}

proof fn lemma_start_runs_back(s: Seq<char>, m: nat, n: nat)
    requires
        m <= n <= s.len(),
        m >= base_len(PathStyle::Unix, s),
        m == base_len(PathStyle::Unix, s) || s[m - 1] == '/',
        forall|i: int| m <= i < n ==> #[trigger] s[i] != '/',
    ensures
        last_start(PathStyle::Unix, s, n) == m,
    decreases n,
{
    if n > m {
        assert(s[n - 1] != '/');
        lemma_start_runs_back(s, m, (n - 1) as nat);
    }
}

/// The names of a path from a place on: empty ones and `.` do not count, but for a `.` that a
/// relative path begins with.
pub open spec fn names_from(style: PathStyle, s: Seq<char>, from: nat) -> Seq<Seq<char>>
    decreases s.len() - from,
{
    if from >= s.len() {
        Seq::empty()
    } else {
        let e = name_end(style, s, from);
        let name = s.subrange(from as int, e as int);
        let rest = if from <= e < s.len() {
            names_from(style, s, e + 1)
        } else {
            Seq::empty()
        };
        if name.len() == 0 || (name == "."@ && !(from == base_len(style, s) && !is_rooted(style, s))) {
            rest
        } else {
            seq![name] + rest
        }
    }
}

/// The drive or share that a path begins with, in one spelling.
pub open spec fn prefix_text(style: PathStyle, s: Seq<char>) -> Seq<char> {
    let p = s.take(prefix_len(style, s) as int);
    if p.len() == 2 {
        ascii_upper(p)
    } else {
        replaced(p, '/', style.glue())
    }
}

/// The parts of a path: its drive or share, its root, its names.
pub open spec fn components_of(style: PathStyle, s: Seq<char>) -> Seq<Seq<char>> {
    let prefix = if prefix_len(style, s) > 0 {
        seq![prefix_text(style, s)]
    } else {
        Seq::empty()
    };
    let root = if is_rooted(style, s) {
        seq!["/"@]
    } else {
        Seq::empty()
    };
    prefix + root + names_from(style, s, base_len(style, s))
}

/// Whether the parts of `base` are the first parts of `path`.
pub open spec fn lies_under(style: PathStyle, path: Seq<char>, base: Seq<char>) -> bool {
    let a = components_of(style, path);
    let b = components_of(style, base);
    b.len() <= a.len() && a.take(b.len() as int) == b
}

/// The parts of a path.
pub fn components(style: PathStyle, path: &str) -> (r: Vec<String>)
    ensures
        texts(r@) == components_of(style, path@),
{
    let cs = chars_of(path);
    let n: usize = cs.len();
    let p: usize = find_prefix(style, &cs);
    let base: usize = find_base(style, &cs);
    let rooted = base > p || p > 2;
    let mut out: Vec<String> = Vec::new();
    assert(texts(out@) =~= Seq::<Seq<char>>::empty());
    if p > 0 {
        let raw = string_of(slice_of(&cs, 0, p));
        assert(raw@ =~= path@.take(p as int));
        let text = if p == 2 {
            to_ascii_uppercase(raw.as_str())
        } else {
            match style {
                PathStyle::Unix => replace_char(raw.as_str(), '/', '/'),
                PathStyle::Windows => replace_char(raw.as_str(), '/', '\\'),
            }
        };
        out.push(text);
        assert(texts(out@) =~= seq![prefix_text(style, path@)]);
    }
    let ghost before = texts(out@);
    if rooted {
        out.push("/".to_owned());
        assert(texts(out@) =~= before + seq!["/"@]);
    }
    let mut i: usize = base;
    assert(texts(out@) + names_from(style, path@, i as nat) =~= components_of(style, path@));
    while i < n
        invariant
            base <= i,
            n == cs@.len(),
            cs@ == path@,
            base == base_len(style, path@),
            rooted == is_rooted(style, path@),
            texts(out@) + names_from(style, path@, i as nat) == components_of(style, path@),
        decreases n - i,
    {
        let e: usize = find_name_end(style, &cs, i);
        let name = string_of(slice_of(&cs, i, e));
        let ghost so_far = texts(out@);
        let ghost rest = if e < n {
            names_from(style, path@, (e + 1) as nat)
        } else {
            Seq::empty()
        };
        if e > i && !(str_eq(name.as_str(), ".") && !(i == base && !rooted)) {
            let ghost kept = name@;
            out.push(name);
            assert(texts(out@) =~= so_far.push(kept));
            assert(so_far.push(kept) + rest =~= so_far + (seq![kept] + rest));
        }
        if e < n {
            i = e + 1;
        } else {
            assert(names_from(style, path@, n as nat) =~= Seq::<Seq<char>>::empty());
            i = n;
        }
    }
    assert(texts(out@) =~= components_of(style, path@));
    out
}

/// Whether `path` is `base` or lies inside it.
pub fn path_starts_with(style: PathStyle, path: &str, base: &str) -> (r: bool)
    ensures
        r == lies_under(style, path@, base@),
{
    let a = components(style, path);
    let b = components(style, base);
    assert(texts(a@).len() == a@.len() && texts(b@).len() == b@.len());
    if b.len() > a.len() {
        return false;
    }
    let n: usize = b.len();
    let mut i: usize = 0;
    while i < n
        invariant
            i <= n,
            n == b@.len(),
            n <= a@.len(),
            texts(a@) == components_of(style, path@),
            texts(b@) == components_of(style, base@),
            forall|j: int| 0 <= j < i ==> (#[trigger] a@[j])@ == b@[j]@,
        decreases n - i,
    {
        if !str_eq(a[i].as_str(), b[i].as_str()) {
            assert(texts(a@).take(n as int)[i as int] != texts(b@)[i as int]);
            return false;
        }
        i += 1;
    }
    assert forall|j: int| 0 <= j < n implies texts(a@).take(n as int)[j] == texts(b@)[j] by {
        assert(a@[j]@ == b@[j]@);
    }
    assert(texts(a@).take(n as int) =~= texts(b@));
    true
}

/// A path lies under itself, and what lies under something that lies under a third lies under
/// that too.
pub proof fn lying_under_is_an_order(style: PathStyle, a: Seq<char>, b: Seq<char>, c: Seq<char>)
    ensures
        lies_under(style, a, a),
        lies_under(style, a, b) && lies_under(style, b, c) ==> lies_under(style, a, c),
{
    let x = components_of(style, a);
    let y = components_of(style, b);
    let z = components_of(style, c);
    assert(x.take(x.len() as int) =~= x);
    if lies_under(style, a, b) && lies_under(style, b, c) {
        assert(x.take(z.len() as int) =~= x.take(y.len() as int).take(z.len() as int));
    }
}

} // verus!
