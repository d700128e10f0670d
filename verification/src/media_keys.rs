//! Storage keys of media paths.
//!
//! A path under the workspace root is keyed relative to it, so that metadata survives moving the
//! whole workspace; any other path is keyed in full. Separators, `.` and `..` segments and the
//! verbatim prefix are normalized away, and keys are in lower case, so that one file has one key
//! however it is written.

use crate::paths::{join_path, joined_path, PathStyle};
use crate::text::{
    ascii_lower, begins, cat, chars_of, eq_ignore_ascii_case, join, joined, replace_char, replaced,
    slice_of, split, split_char, starts_with, str_eq, string_of, texts, to_ascii_lowercase,
    to_lowercase, trim, trimmed, unicode_lower,
};
use vstd::prelude::*;
use vstd::utf8::is_ascii_chars;

verus! {

/// `s` without a verbatim prefix; a verbatim share path, in any casing of its `UNC`, becomes a
/// plain one.
pub open spec fn without_verbatim(s: Seq<char>, prefix: Seq<char>) -> Seq<char> {
    if begins(s, prefix) {
        let rest = s.skip(prefix.len() as int);
        if begins(ascii_lower(rest), "unc/"@) {
            "//"@ + rest.skip(4)
        } else {
            rest
        }
    } else {
        s
    }
}

/// A path with slashes only, without white space around it and without a verbatim prefix.
pub open spec fn slashed(path: Seq<char>) -> Seq<char> {
    without_verbatim(
        without_verbatim(replaced(trimmed(path), '\\', '/'), "//?/"@),
        "//./"@,
    )
}

/// Whether `s` begins with a drive letter, or at least with one character and a colon.
pub open spec fn has_drive(s: Seq<char>) -> bool {
    s.len() >= 2 && (s[0] as int) < 128 && s[1] == ':'
}

/// One more segment: empty ones and `.` add nothing; `..` takes the last name back, unless there
/// is none or it belongs to the drive or the share.
pub open spec fn resolve_step(
    parts: Seq<Seq<char>>,
    segment: Seq<char>,
    unc: bool,
    drive: bool,
) -> Seq<Seq<char>> {
    if segment.len() == 0 || segment == "."@ {
        parts
    } else if segment == ".."@ {
        let anchored = (parts.len() == 1 && drive) || (unc && parts.len() <= 2);
        if parts.len() > 0 && parts.last() != ".."@ && !anchored {
            parts.drop_last()
        } else {
            parts.push(".."@)
        }
    } else {
        parts.push(segment)
    }
}

/// What is left of the segments once `.` and `..` are resolved.
pub open spec fn resolved(segments: Seq<Seq<char>>, unc: bool, drive: bool) -> Seq<Seq<char>>
    decreases segments.len(),
{
    if segments.len() == 0 {
        Seq::empty()
    } else {
        resolve_step(resolved(segments.drop_last(), unc, drive), segments.last(), unc, drive)
    }
}

/// The beginning of a path: the double slash of a share, the slash of a root, or nothing.
pub open spec fn lead_in(s: Seq<char>) -> Seq<char> {
    if begins(s, "//"@) {
        "//"@
    } else if begins(s, "/"@) {
        "/"@
    } else {
        Seq::empty()
    }
}

/// A bare drive with its root slash.
pub open spec fn rooted_drive(s: Seq<char>) -> Seq<char> {
    if s.len() == 2 && has_drive(s) {
        s.push('/')
    } else {
        s
    }
}

/// The normal form of a slashed path.
pub open spec fn normal_form(s: Seq<char>) -> Seq<char> {
    rooted_drive(
        lead_in(s) + joined(resolved(split(s, '/'), begins(s, "//"@), has_drive(s)), "/"@),
    )
}

/// The normal form of a path.
pub open spec fn slash_form(path: Seq<char>) -> Seq<char> {
    normal_form(slashed(path))
}

fn strip_verbatim(s: &str, prefix: &str) -> (r: String)
    ensures
        r@ == without_verbatim(s@, prefix@),
{
    if !starts_with(s, prefix) {
        return s.to_owned();
    }
    let cs = chars_of(s);
    let n: usize = cs.len();
    let p: usize = chars_of(prefix).len();
    assert(cs@.subrange(p as int, n as int) =~= s@.skip(p as int));
    let rest = string_of(slice_of(&cs, p, n));
    let low = to_ascii_lowercase(rest.as_str());
    if starts_with(low.as_str(), "unc/") {
        proof {
            reveal_strlit("unc/");
            assert(ascii_lower(rest@).len() == rest@.len());
        }
        assert(cs@.subrange(p + 4, n as int) =~= rest@.skip(4));
        let tail = string_of(slice_of(&cs, p + 4, n));
        cat("//", tail.as_str())
    } else {
        rest
    }
}

fn second_is_colon(s: &str) -> (r: bool)
    ensures
        r == has_drive(s@),
{
    let cs = chars_of(s);
    if cs.len() < 2 {
        return false;
    }
    let first: char = cs[0];
    first <= '\u{7f}' && cs[1] == ':'
}

/// Normalizes a written path without touching the filesystem.
pub fn slashify(path: &str) -> (r: String)
    ensures
        r@ == slash_form(path@),
{
    let tidy = trim(path);
    let slashes = replace_char(tidy.as_str(), '\\', '/');
    let s1 = strip_verbatim(slashes.as_str(), "//?/");
    let s = strip_verbatim(s1.as_str(), "//./");
    let unc = starts_with(s.as_str(), "//");
    let drive = second_is_colon(s.as_str());
    let leading = starts_with(s.as_str(), "/");
    let segments = split_char(s.as_str(), '/');
    let n: usize = segments.len();
    let mut parts: Vec<String> = Vec::new();
    let mut i: usize = 0;
    let ghost all = split(s@, '/');
    assert(texts(parts@) =~= Seq::<Seq<char>>::empty());
    while i < n
        invariant
            i <= n,
            n == segments@.len(),
            all == texts(segments@),
            texts(parts@) == resolved(all.take(i as int), unc, drive),
        decreases n - i,
    {
        let segment = &segments[i];
        let ghost before = texts(parts@);
        proof {
            assert(all.take(i + 1).drop_last() =~= all.take(i as int));
            assert(all.take(i + 1).last() == segment@);
            assert(before.len() == parts@.len());
        }
        if segment.as_str().is_empty() || str_eq(segment.as_str(), ".") {
        } else if str_eq(segment.as_str(), "..") {
            let k: usize = parts.len();
            let anchored = (k == 1 && drive) || (unc && k <= 2);
            let back = k > 0 && !anchored && !str_eq(parts[k - 1].as_str(), "..");
            assert(k > 0 ==> before.last() == parts@[k - 1]@);
            if back {
                let _last = parts.pop();
                assert(texts(parts@) =~= before.drop_last());
            } else {
                parts.push("..".to_owned());
                assert(texts(parts@) =~= before.push(".."@));
            }
        } else {
            parts.push(segment.clone());
            assert(texts(parts@) =~= before.push(segment@));
        }
        i += 1;
    }
    assert(all.take(n as int) =~= all);
    let body = join(&parts, "/");
    let mut out = if unc {
        cat("//", body.as_str())
    } else if leading {
        cat("/", body.as_str())
    } else {
        assert(Seq::<char>::empty() + body@ =~= body@);
        body
    };
    if second_is_colon(out.as_str()) && chars_of(out.as_str()).len() == 2 {
        out.push('/');
    }
    out
}

/// `s` without the slashes at its end.
pub open spec fn without_end_slash(s: Seq<char>) -> Seq<char>
    decreases s.len(),
{
    if s.len() > 0 && s.last() == '/' {
        without_end_slash(s.drop_last())
    } else {
        s
    }
}

fn trim_end_slash(s: &str) -> (r: String)
    ensures
        r@ == without_end_slash(s@),
{
    let cs = chars_of(s);
    let mut n: usize = cs.len();
    assert(cs@.subrange(0, n as int) =~= cs@);
    while n > 0 && cs[n - 1] == '/'
        invariant
            n <= cs@.len(),
            without_end_slash(s@) == without_end_slash(cs@.subrange(0, n as int)),
        decreases n,
    {
        assert(cs@.subrange(0, n as int).drop_last() =~= cs@.subrange(0, n - 1));
        n -= 1;
    }
    string_of(slice_of(&cs, 0, n))
}

/// The prefix of every path inside a root in normal form.
pub open spec fn root_prefix(root: Seq<char>) -> Seq<char> {
    without_end_slash(root).push('/')
}

/// Whether a path in normal form lies inside a root in normal form, ASCII case aside.
pub open spec fn is_inside(abs: Seq<char>, root: Seq<char>) -> bool {
    let p = root_prefix(root);
    p.len() <= abs.len() && ascii_lower(abs.take(p.len() as int)) == ascii_lower(p)
}

/// The part of a path that its key is made of: relative to the root where it lies inside, the
/// whole path otherwise.
pub open spec fn key_text(root: Seq<char>, path: Seq<char>) -> Seq<char> {
    let abs = slash_form(path);
    let r = slash_form(root);
    if r.len() > 0 && is_inside(abs, r) {
        abs.skip(root_prefix(r).len() as int)
    } else {
        abs
    }
}

/// The storage key of a path.
pub open spec fn key_of(root: Seq<char>, path: Seq<char>) -> Seq<char> {
    if slash_form(path).len() == 0 {
        Seq::empty()
    } else {
        unicode_lower(key_text(root, path))
    }
}

/// The key that a path has when it is not taken relative to any root.
pub open spec fn absolute_key(path: Seq<char>) -> Seq<char> {
    unicode_lower(slash_form(path))
}

/// The storage key of a path: relative to the workspace where it lies inside, in lower case.
pub fn key_for_root(workspace_root: &str, path: &str) -> (r: String)
    ensures
        r@ == key_of(workspace_root@, path@),
        is_ascii_chars(path@) ==> r@ == ascii_lower(key_text(workspace_root@, path@)),
{
    let abs = slashify(path);
    proof {
        if is_ascii_chars(path@) {
            lemma_ascii_slash_form(path@);
        }
    }
    let root = slashify(workspace_root);
    if abs.as_str().is_empty() {
        proof {
            let p = root_prefix(root@);
            assert(abs@ =~= Seq::<char>::empty());
            assert(ascii_lower(abs@) =~= abs@);
            assert(p.len() > 0);
        }
        return abs;
    }
    if root.as_str().is_empty() {
        return to_lowercase(abs.as_str());
    }
    let mut prefix = trim_end_slash(root.as_str());
    prefix.push('/');
    let a = chars_of(abs.as_str());
    let p = chars_of(prefix.as_str());
    let n: usize = a.len();
    let m: usize = p.len();
    if m <= n {
        assert(a@.subrange(0, m as int) =~= a@.take(m as int));
        let head = string_of(slice_of(&a, 0, m));
        if eq_ignore_ascii_case(head.as_str(), prefix.as_str()) {
            assert(a@.subrange(m as int, n as int) =~= a@.skip(m as int));
            let tail = string_of(slice_of(&a, m, n));
            return to_lowercase(tail.as_str());
        }
    }
    to_lowercase(abs.as_str())
}

/// The storage key of a path, for workers that key rows without opening the database.
pub fn canonical_key(workspace_root: &str, path: &str) -> (r: String)
    ensures
        r@ == key_of(workspace_root@, path@),
        is_ascii_chars(path@) ==> r@ == ascii_lower(key_text(workspace_root@, path@)),
{
    key_for_root(workspace_root, path)
}

/// The identity of a root as it is written.
pub fn lexical_media_root_identity(root: &str) -> (r: String)
    ensures
        r@ == absolute_key(root@),
{
    let s = slashify(root);
    to_lowercase(s.as_str())
}

/// The identity of a media path: that of the share path where the system has confirmed one for
/// its drive, that of the path as it is written otherwise.
pub fn stable_media_path_identity(path: &str, universal: Option<&str>) -> (r: String)
    ensures
        r@ == match universal {
            Some(u) => absolute_key(u@),
            None => absolute_key(path@),
        },
{
    let s = match universal {
        Some(u) => slashify(u),
        None => slashify(path),
    };
    to_lowercase(s.as_str())
}

/// The identity of a configured media root.
pub fn stable_media_root_identity(root: &str, universal: Option<&str>) -> (r: String)
    ensures
        r@ == match universal {
            Some(u) => absolute_key(u@),
            None => absolute_key(root@),
        },
{
    stable_media_path_identity(root, universal)
}

pub open spec fn is_drive_path(s: Seq<char>) -> bool {
    has_drive(s) && crate::paths::is_letter(s[0])
}

/// The root of the drive that a path lies on, to ask the system for its share.
pub fn drive_root_of(path: &str) -> (r: Option<String>)
    ensures
        match r {
            Some(d) => is_drive_path(slash_form(path@)) && d@ == seq![
                crate::text::ascii_upper_char(slash_form(path@)[0]),
                ':',
                '\\',
            ],
            None => !is_drive_path(slash_form(path@)),
        },
{
    let s = slashify(path);
    let cs = chars_of(s.as_str());
    if cs.len() < 2 {
        return None;
    }
    let c = cs[0];
    if cs[1] != ':' || !(('a' <= c && c <= 'z') || ('A' <= c && c <= 'Z')) {
        return None;
    }
    let mut d = String::new();
    d.push(crate::text::upper_char(c));
    d.push(':');
    d.push('\\');
    assert(d@ =~= seq![crate::text::ascii_upper_char(c), ':', '\\']);
    Some(d)
}

/// `s` without the slashes at its beginning.
pub open spec fn without_start_slash(s: Seq<char>) -> Seq<char>
    decreases s.len(),
{
    if s.len() > 0 && s[0] == '/' {
        without_start_slash(s.drop_first())
    } else {
        s
    }
}

/// `s` without the slashes and backslashes at its end.
pub open spec fn without_end_separators(s: Seq<char>) -> Seq<char>
    decreases s.len(),
{
    if s.len() > 0 && (s.last() == '/' || s.last() == '\\') {
        without_end_separators(s.drop_last())
    } else {
        s
    }
}

/// The path on the share that the drive of `path` stands for.
pub open spec fn share_path(path: Seq<char>, mapped_root: Seq<char>) -> Seq<char> {
    let suffix = without_start_slash(slash_form(path).skip(2));
    if suffix.len() == 0 {
        mapped_root
    } else {
        without_end_separators(mapped_root) + "/"@ + suffix
    }
}

/// Writes a path on a drive as a path on the share that the drive stands for.
pub fn mapped_path(path: &str, mapped_root: &str) -> (r: String)
    requires
        is_drive_path(slash_form(path@)),
    ensures
        r@ == share_path(path@, mapped_root@),
{
    let s = slashify(path);
    let cs = chars_of(s.as_str());
    let n: usize = cs.len();
    let mut a: usize = 2;
    assert(cs@.subrange(2, n as int) =~= s@.skip(2));
    while a < n && cs[a] == '/'
        invariant
            2 <= a <= n,
            n == cs@.len(),
            without_start_slash(s@.skip(2)) == without_start_slash(cs@.subrange(a as int, n as int)),
        decreases n - a,
    {
        assert(cs@.subrange(a as int, n as int).drop_first() =~= cs@.subrange(a + 1, n as int));
        a += 1;
    }
    if a == n {
        return mapped_root.to_owned();
    }
    let suffix = string_of(slice_of(&cs, a, n));
    let ms = chars_of(mapped_root);
    let mut e: usize = ms.len();
    assert(ms@.subrange(0, e as int) =~= ms@);
    while e > 0 && (ms[e - 1] == '/' || ms[e - 1] == '\\')
        invariant
            e <= ms@.len(),
            without_end_separators(mapped_root@) == without_end_separators(
                ms@.subrange(0, e as int),
            ),
        decreases e,
    {
        assert(ms@.subrange(0, e as int).drop_last() =~= ms@.subrange(0, e - 1));
        e -= 1;
    }
    let mut out = string_of(slice_of(&ms, 0, e));
    out.append("/");
    out.append(suffix.as_str());
    out
}

/// How a path is compared with a root: without ASCII case where the platform has none.
pub open spec fn compare_form(style: PathStyle, s: Seq<char>) -> Seq<char> {
    if style == PathStyle::Windows {
        ascii_lower(s)
    } else {
        s
    }
}

/// The part of `file` below `root`: empty for the root itself, `None` for a file outside.
pub open spec fn part_below(style: PathStyle, file: Seq<char>, root: Seq<char>) -> Option<
    Seq<char>,
> {
    let f = slash_form(file);
    let r = without_end_slash(slash_form(root));
    if compare_form(style, f) == compare_form(style, r) {
        Some(Seq::empty())
    } else if begins(compare_form(style, f), compare_form(style, r)) && f.len() > r.len()
        && f[r.len() as int] == '/' {
        Some(f.skip(r.len() as int + 1))
    } else {
        None
    }
}

/// A stored file below one root, written below another.
pub open spec fn rebased(
    style: PathStyle,
    file: Seq<char>,
    stored_root: Seq<char>,
    requested_root: Seq<char>,
) -> Option<Seq<char>> {
    match part_below(style, file, stored_root) {
        Some(rest) => Some(joined_path(style, requested_root, rest)),
        None => None,
    }
}

fn comparable(style: PathStyle, s: &str) -> (r: String)
    ensures
        r@ == compare_form(style, s@),
{
    match style {
        PathStyle::Windows => to_ascii_lowercase(s),
        PathStyle::Unix => s.to_owned(),
    }
}

fn rebase_file(style: PathStyle, file: &str, stored_root: &str, requested_root: &str) -> (r: Option<
    String,
>)
    ensures
        crate::text::opt_text(r) == rebased(style, file@, stored_root@, requested_root@),
{
    let f = slashify(file);
    let whole = slashify(stored_root);
    let root = trim_end_slash(whole.as_str());
    let fk = comparable(style, f.as_str());
    let rk = comparable(style, root.as_str());
    let fc = chars_of(f.as_str());
    let n: usize = fc.len();
    let m: usize = chars_of(root.as_str()).len();
    assert(fk@.len() == f@.len());
    assert(rk@.len() == root@.len());
    let rest = if str_eq(fk.as_str(), rk.as_str()) {
        String::new()
    } else if starts_with(fk.as_str(), rk.as_str()) && n > m && fc[m] == '/' {
        assert(fc@.subrange(m + 1, n as int) =~= f@.skip(m + 1));
        string_of(slice_of(&fc, m + 1, n))
    } else {
        return None;
    };
    assert(part_below(style, file@, stored_root@) == Some(rest@));
    Some(join_path(style, requested_root, rest.as_str()))
}

/// Writes the files below one root as files below another; `None` if any of them lies outside.
pub fn rebase_inventory_files(
    style: PathStyle,
    files: &Vec<String>,
    stored_root: &str,
    requested_root: &str,
) -> (r: Option<Vec<String>>)
    ensures
        match r {
            Some(out) => {
                &&& out@.len() == files@.len()
                &&& forall|i: int|
                    0 <= i < files@.len() ==> rebased(
                        style,
                        (#[trigger] files@[i])@,
                        stored_root@,
                        requested_root@,
                    ) == Some(out@[i]@)
            },
            None => exists|i: int|
                0 <= i < files@.len() && rebased(
                    style,
                    (#[trigger] files@[i])@,
                    stored_root@,
                    requested_root@,
                ) is None,
        },
{
    let n: usize = files.len();
    let mut out: Vec<String> = Vec::new();
    let mut i: usize = 0;
    while i < n
        invariant
            i <= n,
            n == files@.len(),
            out@.len() == i,
            forall|k: int|
                0 <= k < i ==> rebased(
                    style,
                    (#[trigger] files@[k])@,
                    stored_root@,
                    requested_root@,
                ) == Some(out@[k]@),
        decreases n - i,
    {
        match rebase_file(style, files[i].as_str(), stored_root, requested_root) {
            Some(file) => out.push(file),
            None => {
                assert(rebased(style, files@[i as int]@, stored_root@, requested_root@) is None);
                return None;
            },
        }
        i += 1;
    }
    Some(out)
}

/// However the separators of a path are written, its normal form and its key are the same.
pub proof fn separators_do_not_matter(root: Seq<char>, path: Seq<char>)
    ensures
        slash_form(replaced(path, '\\', '/')) == slash_form(path),
        key_of(root, replaced(path, '\\', '/')) == key_of(root, path),
{
    let f = |c: char| if c == '\\' { '/' } else { c };
    crate::text::trim_commutes(path, f);
    assert(replaced(path, '\\', '/') == path.map_values(f));
    let t = trimmed(path);
    assert(replaced(t.map_values(f), '\\', '/') =~= replaced(t, '\\', '/'));
}

/// Lowering ASCII case commutes with taking a verbatim prefix away.
proof fn lemma_verbatim_lower(s: Seq<char>, prefix: Seq<char>)
    requires
        prefix.len() == 4,
        prefix[0] == '/',
        prefix[1] == '/',
        prefix[2] == '?' || prefix[2] == '.',
        prefix[3] == '/',
    ensures
        without_verbatim(ascii_lower(s), prefix) == ascii_lower(without_verbatim(s, prefix)),
{
    let l = ascii_lower(s);
    if s.len() >= 4 {
        assert(forall|i: int| 0 <= i < 4 ==> l[i] == #[trigger] l.take(4)[i]);
        assert(forall|i: int| 0 <= i < 4 ==> s[i] == #[trigger] s.take(4)[i]);
        if begins(l, prefix) {
            assert(s.take(4) =~= prefix);
        }
        if begins(s, prefix) {
            assert(l.take(4) =~= prefix);
        }
        let rest = l.skip(4);
        assert(rest =~= ascii_lower(s.skip(4)));
        assert(ascii_lower(rest) =~= rest);
        reveal_strlit("unc/");
        reveal_strlit("//");
        if begins(s, prefix) && begins(rest, "unc/"@) {
            assert("//"@ + rest.skip(4) =~= ascii_lower("//"@ + s.skip(4).skip(4)));
        }
    }
}

proof fn lemma_lower_literals()
    ensures
        ascii_lower("/"@) == "/"@,
        ascii_lower("//"@) == "//"@,
        ascii_lower("."@) == "."@,
        ascii_lower(".."@) == ".."@,
        forall|s: Seq<char>|
            #![trigger ascii_lower(s)]
            {
                &&& ascii_lower(s).len() == s.len()
                &&& (ascii_lower(s) == "."@ <==> s == "."@)
                &&& (ascii_lower(s) == ".."@ <==> s == ".."@)
                &&& (begins(ascii_lower(s), "/"@) <==> begins(s, "/"@))
                &&& (begins(ascii_lower(s), "//"@) <==> begins(s, "//"@))
                &&& has_drive(ascii_lower(s)) == has_drive(s)
            },
{
    reveal_strlit("/");
    reveal_strlit("//");
    reveal_strlit(".");
    reveal_strlit("..");
    assert(ascii_lower("/"@) =~= "/"@);
    assert(ascii_lower("//"@) =~= "//"@);
    assert(ascii_lower("."@) =~= "."@);
    assert(ascii_lower(".."@) =~= ".."@);
    assert forall|s: Seq<char>|
        #![trigger ascii_lower(s)]
        {
            &&& ascii_lower(s).len() == s.len()
            &&& (ascii_lower(s) == "."@ <==> s == "."@)
            &&& (ascii_lower(s) == ".."@ <==> s == ".."@)
            &&& (begins(ascii_lower(s), "/"@) <==> begins(s, "/"@))
            &&& (begins(ascii_lower(s), "//"@) <==> begins(s, "//"@))
            &&& has_drive(ascii_lower(s)) == has_drive(s)
        } by {
        let l = ascii_lower(s);
        if s.len() == 1 {
            assert(l[0] == crate::text::ascii_lower_char(s[0]));
            assert(s =~= "."@ <==> s[0] == '.');
            assert(l =~= "."@ <==> l[0] == '.');
        }
        if s.len() == 2 {
            assert(l[0] == crate::text::ascii_lower_char(s[0]));
            assert(l[1] == crate::text::ascii_lower_char(s[1]));
            assert(s =~= ".."@ <==> s[0] == '.' && s[1] == '.');
            assert(l =~= ".."@ <==> l[0] == '.' && l[1] == '.');
        }
        if s.len() >= 1 {
            assert(l[0] == crate::text::ascii_lower_char(s[0]));
            assert(s.take(1)[0] == s[0]);
            assert(l.take(1)[0] == l[0]);
            assert(s.take(1) =~= "/"@ <==> s[0] == '/');
            assert(l.take(1) =~= "/"@ <==> l[0] == '/');
        }
        if s.len() >= 2 {
            assert(l[1] == crate::text::ascii_lower_char(s[1]));
            assert(s.take(2)[0] == s[0] && s.take(2)[1] == s[1]);
            assert(l.take(2)[0] == l[0] && l.take(2)[1] == l[1]);
            assert(s.take(2) =~= "//"@ <==> s[0] == '/' && s[1] == '/');
            assert(l.take(2) =~= "//"@ <==> l[0] == '/' && l[1] == '/');
        }
    }
}

proof fn lemma_resolved_lower(segments: Seq<Seq<char>>, unc: bool, drive: bool)
    ensures
        resolved(segments.map_values(|t: Seq<char>| ascii_lower(t)), unc, drive) == resolved(
            segments,
            unc,
            drive,
        ).map_values(|t: Seq<char>| ascii_lower(t)),
    decreases segments.len(),
{
    lemma_lower_literals();
    let low = |t: Seq<char>| ascii_lower(t);
    let lowered = segments.map_values(low);
    if segments.len() == 0 {
        assert(resolved(segments, unc, drive).map_values(low) =~= Seq::<Seq<char>>::empty());
    } else {
        lemma_resolved_lower(segments.drop_last(), unc, drive);
        assert(lowered.drop_last() =~= segments.drop_last().map_values(low));
        let parts = resolved(segments.drop_last(), unc, drive);
        let lparts = parts.map_values(low);
        let seg = segments.last();
        assert(lowered.last() == ascii_lower(seg));
        if parts.len() > 0 {
            assert(lparts.last() == ascii_lower(parts.last()));
            assert(lparts.drop_last() =~= parts.drop_last().map_values(low));
        }
        assert(parts.push(seg).map_values(low) =~= lparts.push(ascii_lower(seg)));
        assert(parts.push(".."@).map_values(low) =~= lparts.push(".."@));
    }
}

/// Lowering ASCII case commutes with normalizing a path.
pub proof fn normal_form_commutes_with_case(path: Seq<char>)
    ensures
        slash_form(ascii_lower(path)) == ascii_lower(slash_form(path)),
{
    lemma_lower_literals();
    let low = |c: char| crate::text::ascii_lower_char(c);
    assert(ascii_lower(path) =~= path.map_values(low));
    crate::text::trim_commutes(path, low);
    let t = trimmed(path);
    let s = replaced(t, '\\', '/');
    let ls = replaced(trimmed(ascii_lower(path)), '\\', '/');
    assert(ls =~= ascii_lower(s));
    reveal_strlit("//?/");
    reveal_strlit("//./");
    lemma_verbatim_lower(s, "//?/"@);
    lemma_verbatim_lower(without_verbatim(s, "//?/"@), "//./"@);
    let s = slashed(path);
    assert(slashed(ascii_lower(path)) == ascii_lower(s));
    crate::text::split_commutes_with_lower(s, '/');
    let unc = begins(s, "//"@);
    let drive = has_drive(s);
    lemma_resolved_lower(split(s, '/'), unc, drive);
    let parts = resolved(split(s, '/'), unc, drive);
    crate::text::join_commutes_with_lower(parts, "/"@);
    let body = lead_in(s) + joined(parts, "/"@);
    assert(ascii_lower(Seq::<char>::empty()) =~= Seq::<char>::empty());
    assert(ascii_lower(body) =~= ascii_lower(lead_in(s)) + ascii_lower(joined(parts, "/"@)));
    assert(ascii_lower(body.push('/')) =~= ascii_lower(body).push('/'));
    assert(has_drive(ascii_lower(body)) == has_drive(body));
}

/// Any ASCII casing of a path has the same key text, ASCII case aside.
pub proof fn case_does_not_matter(root: Seq<char>, path: Seq<char>)
    ensures
        slash_form(root).len() == 0 || is_inside(slash_form(ascii_lower(path)), slash_form(root))
            == is_inside(slash_form(path), slash_form(root)),
        ascii_lower(key_text(root, ascii_lower(path))) == ascii_lower(key_text(root, path)),
{
    normal_form_commutes_with_case(path);
    let abs = slash_form(path);
    let labs = ascii_lower(abs);
    let p = root_prefix(slash_form(root));
    assert(ascii_lower(labs) =~= labs);
    if p.len() <= abs.len() {
        assert(ascii_lower(labs.take(p.len() as int)) =~= ascii_lower(abs.take(p.len() as int)));
        assert(ascii_lower(labs.skip(p.len() as int)) =~= ascii_lower(abs.skip(p.len() as int)));
    }
}

/// Paths that differ in ASCII case and in their separators alone are one file: their key texts are
/// the same, ASCII case aside.
pub proof fn one_file_has_one_key(root: Seq<char>, a: Seq<char>, b: Seq<char>)
    requires
        ascii_lower(replaced(a, '\\', '/')) == ascii_lower(replaced(b, '\\', '/')),
    ensures
        ascii_lower(key_text(root, a)) == ascii_lower(key_text(root, b)),
{
    let x = replaced(a, '\\', '/');
    let y = replaced(b, '\\', '/');
    separators_do_not_matter(root, a);
    separators_do_not_matter(root, b);
    assert(key_text(root, x) == key_text(root, a));
    assert(key_text(root, y) == key_text(root, b));
    case_does_not_matter(root, x);
    case_does_not_matter(root, y);
}

proof fn lemma_resolved_plain_tail(
    segments: Seq<Seq<char>>,
    tail: Seq<Seq<char>>,
    unc: bool,
    drive: bool,
)
    requires
        forall|i: int|
            0 <= i < tail.len() ==> (#[trigger] tail[i]).len() > 0 && tail[i] != "."@ && tail[i]
                != ".."@,
    ensures
        resolved(segments + tail, unc, drive) == resolved(segments, unc, drive) + tail,
    decreases tail.len(),
{
    if tail.len() == 0 {
        assert(segments + tail =~= segments);
        assert(resolved(segments, unc, drive) + tail =~= resolved(segments, unc, drive));
    } else {
        assert((segments + tail).drop_last() =~= segments + tail.drop_last());
        assert((segments + tail).last() == tail.last());
        lemma_resolved_plain_tail(segments, tail.drop_last(), unc, drive);
        assert(tail[tail.len() - 1] == tail.last());
        assert(resolved(segments + tail, unc, drive) =~= resolved(segments, unc, drive) + tail);
    }
}

/// Whether a relative path is made of plain names only.
pub open spec fn plain_names(rel: Seq<char>) -> bool {
    &&& rel.len() > 0
    &&& trimmed(rel) == rel
    &&& !rel.contains('\\')
    &&& forall|i: int|
        0 <= i < split(rel, '/').len() ==> (#[trigger] split(rel, '/')[i]).len() > 0 && split(
            rel,
            '/',
        )[i] != "."@ && split(rel, '/')[i] != ".."@
}

/// Whether a root is written in its normal form, and is not a bare root.
pub open spec fn normal_root(root: Seq<char>) -> bool {
    &&& root.len() > 0
    &&& slash_form(root) == root
    &&& trimmed(root) == root
    &&& root.last() != '/'
    &&& !root.contains('\\')
    &&& !begins(root.push('/'), "//?/"@)
    &&& !begins(root.push('/'), "//./"@)
}

/// A normal root and a path of plain names below it are in slashed form already.
proof fn lemma_child_is_slashed(root: Seq<char>, rel: Seq<char>)
    requires
        normal_root(root),
        plain_names(rel),
    ensures
        slashed(root.push('/') + rel) == root.push('/') + rel,
        slashed(root) == root,
{
    let path = root.push('/') + rel;
    reveal_strlit("//?/");
    reveal_strlit("//./");
    crate::text::lemma_trimmed_ends(root);
    crate::text::lemma_trimmed_ends(rel);
    assert(path[0] == root[0]);
    assert(path.last() == rel.last());
    assert(trimmed(path) == path);
    assert(replaced(path, '\\', '/') =~= path) by {
        assert forall|i: int| 0 <= i < path.len() implies path[i] != '\\' by {
            if i < root.len() {
                assert(path[i] == root[i]);
            } else if i > root.len() {
                assert(path[i] == rel[i - root.len() - 1]);
            }
        }
    }
    assert(replaced(root, '\\', '/') =~= root);
    if begins(path, "//?/"@) {
        lemma_prefix_of_root(root, rel, "//?/"@);
    }
    if begins(path, "//./"@) {
        lemma_prefix_of_root(root, rel, "//./"@);
    }
    if begins(root, "//?/"@) {
        assert(root.push('/').take(4) =~= root.take(4));
    }
    if begins(root, "//./"@) {
        assert(root.push('/').take(4) =~= root.take(4));
    }
}

/// A path below a root begins as the root does.
proof fn lemma_child_begins_alike(root: Seq<char>, rel: Seq<char>)
    requires
        root.len() > 0,
        root.last() != '/',
    ensures
        begins(root.push('/') + rel, "//"@) == begins(root, "//"@),
        has_drive(root.push('/') + rel) == has_drive(root),
        lead_in(root.push('/') + rel) == lead_in(root),
{
    let path = root.push('/') + rel;
    reveal_strlit("/");
    reveal_strlit("//");
    assert(path.take(1) =~= root.take(1));
    if root.len() >= 2 {
        assert(path.take(2) =~= root.take(2));
    } else {
        assert(path.take(2)[0] == root[0]);
    }
}

/// A path of plain names below a normal root is in normal form.
proof fn lemma_child_is_normal(root: Seq<char>, rel: Seq<char>)
    requires
        normal_root(root),
        plain_names(rel),
    ensures
        slash_form(root.push('/') + rel) == root.push('/') + rel,
{
    let path = root.push('/') + rel;
    lemma_child_is_slashed(root, rel);
    lemma_child_begins_alike(root, rel);
    let unc = begins(root, "//"@);
    let drive = has_drive(root);
    crate::text::split_of_joined_texts(root, rel, '/');
    let a = split(root, '/');
    let b = split(rel, '/');
    lemma_resolved_plain_tail(a, b, unc, drive);
    let parts = resolved(a, unc, drive);
    let body = lead_in(root) + joined(parts, "/"@);
    assert(body == root) by {
        if body.len() == 2 && has_drive(body) {
            assert(root.last() == '/');
        }
    }
    assert(parts.len() > 0) by {
        if parts.len() == 0 {
            reveal_strlit("/");
            reveal_strlit("//");
            assert(body =~= lead_in(root));
        }
    }
    crate::text::join_undoes_split(rel, '/');
    assert("/"@ =~= seq!['/']) by {
        reveal_strlit("/");
    }
    crate::text::joined_of_lists(parts, b, "/"@);
    assert(lead_in(root) + joined(parts + b, "/"@) =~= path);
}

/// A file inside a workspace is keyed by its place in the workspace alone.
pub proof fn key_is_relative_to_the_root(root: Seq<char>, rel: Seq<char>)
    requires
        normal_root(root),
        plain_names(rel),
    ensures
        key_of(root, root.push('/') + rel) == unicode_lower(rel),
{
    let path = root.push('/') + rel;
    lemma_child_is_normal(root, rel);
    assert(without_end_slash(root) == root);
    assert(path.take(root.len() as int + 1) =~= root.push('/'));
    assert(path.skip(root.len() as int + 1) =~= rel);
}

proof fn lemma_prefix_of_root(root: Seq<char>, rel: Seq<char>, prefix: Seq<char>)
    requires
        root.len() > 0,
        root.last() != '/',
        prefix.len() == 4,
        prefix[0] == '/',
        prefix[1] == '/',
        prefix[3] == '/',
        begins(root.push('/') + rel, prefix),
    ensures
        begins(root.push('/'), prefix),
{
    let path = root.push('/') + rel;
    assert(forall|i: int| 0 <= i < 4 ==> path[i] == #[trigger] path.take(4)[i]);
    if root.len() == 1 {
        assert(path[0] == root[0]);
    } else if root.len() == 2 {
        assert(path[1] == root[1]);
    } else {
        assert(root.push('/').take(4) =~= path.take(4));
    }
}

/// The key of a file inside a workspace depends on its place in the workspace alone, however the
/// workspace and the file are written: the same place in two workspaces has the same key.
pub proof fn places_are_keyed_alike(
    root: Seq<char>,
    path: Seq<char>,
    other_root: Seq<char>,
    other_path: Seq<char>,
)
    requires
        slash_form(root).len() > 0,
        slash_form(other_root).len() > 0,
        is_inside(slash_form(path), slash_form(root)),
        is_inside(slash_form(other_path), slash_form(other_root)),
        slash_form(path).skip(root_prefix(slash_form(root)).len() as int) == slash_form(
            other_path,
        ).skip(root_prefix(slash_form(other_root)).len() as int),
    ensures
        key_of(root, path) == key_of(other_root, other_path),
{
}

/// Metadata survives moving the workspace: the same file has the same key under both roots.
pub proof fn keys_survive_relocation(old_root: Seq<char>, new_root: Seq<char>, rel: Seq<char>)
    requires
        normal_root(old_root),
        normal_root(new_root),
        plain_names(rel),
    ensures
        key_of(old_root, old_root.push('/') + rel) == key_of(new_root, new_root.push('/') + rel),
{
    key_is_relative_to_the_root(old_root, rel);
    key_is_relative_to_the_root(new_root, rel);
}

/// Whether a character occurs nowhere in a text.
spec fn lacks(s: Seq<char>, c: char) -> bool {
    forall|i: int| 0 <= i < s.len() ==> #[trigger] s[i] != c
}

/// Whether a character occurs in none of the pieces.
spec fn all_lack(pieces: Seq<Seq<char>>, c: char) -> bool {
    forall|i: int| 0 <= i < pieces.len() ==> lacks(#[trigger] pieces[i], c)
}

/// Splitting brings no character in, and takes the separator out.
proof fn lemma_split_lacks(s: Seq<char>, sep: char, c: char)
    requires
        c == sep || lacks(s, c),
    ensures
        all_lack(split(s, sep), c),
        split(s, sep).len() > 0,
    decreases s.len(),
{
    if s.len() == 0 {
        assert(split(s, sep) =~= seq![s]);
    } else {
        let t = s.drop_first();
        assert(forall|i: int| 0 <= i < t.len() ==> #[trigger] t[i] == s[i + 1]);
        lemma_split_lacks(t, sep, c);
        crate::text::lemma_split_first(s, sep);
        let pieces = split(t, sep);
        assert(lacks(pieces[0], c));
        if s[0] != sep {
            let head = seq![s[0]] + pieces[0];
            assert(forall|i: int| 1 <= i < head.len() ==> #[trigger] head[i] == pieces[0][i - 1]);
            assert(head[0] == s[0]);
            assert(lacks(head, c));
        }
    }
}

/// Joining brings no character in but those of the separator.
proof fn lemma_joined_lacks(pieces: Seq<Seq<char>>, sep: Seq<char>, c: char)
    requires
        all_lack(pieces, c),
        lacks(sep, c),
    ensures
        lacks(joined(pieces, sep), c),
    decreases pieces.len(),
{
    if pieces.len() == 1 {
        assert(lacks(pieces[0], c));
    } else if pieces.len() > 1 {
        lemma_joined_lacks(pieces.drop_last(), sep, c);
        assert(lacks(pieces[pieces.len() - 1], c));
    }
}

/// Pieces that hold no separator are what their joined text splits into.
proof fn lemma_split_undoes_join(pieces: Seq<Seq<char>>)
    requires
        pieces.len() > 0,
        all_lack(pieces, '/'),
    ensures
        split(joined(pieces, "/"@), '/') == pieces,
    decreases pieces.len(),
{
    let last = pieces.last();
    assert(lacks(pieces[pieces.len() - 1], '/'));
    assert(split(last, '/') =~= seq![last]);
    if pieces.len() == 1 {
        assert(pieces =~= seq![last]);
    } else {
        reveal_strlit("/");
        let front = joined(pieces.drop_last(), "/"@);
        lemma_split_undoes_join(pieces.drop_last());
        crate::text::split_of_joined_texts(front, last, '/');
        assert(joined(pieces, "/"@) =~= front.push('/') + last);
        assert(pieces.drop_last() + seq![last] =~= pieces);
    }
}

/// A joined text begins with its first piece.
proof fn lemma_joined_begins(pieces: Seq<Seq<char>>, sep: Seq<char>)
    requires
        pieces.len() > 0,
    ensures
        joined(pieces, sep).len() >= pieces[0].len(),
        forall|i: int|
            0 <= i < pieces[0].len() ==> #[trigger] joined(pieces, sep)[i] == pieces[0][i],
        pieces.len() > 1 ==> joined(pieces, sep).len() >= pieces[0].len() + sep.len(),
        forall|i: int|
            pieces.len() > 1 && pieces[0].len() <= i < pieces[0].len() + sep.len()
                ==> #[trigger] joined(pieces, sep)[i] == sep[i - pieces[0].len()],
        pieces.len() == 1 ==> joined(pieces, sep) == pieces[0],
    decreases pieces.len(),
{
    if pieces.len() > 1 {
        lemma_joined_begins(pieces.drop_last(), sep);
        assert(pieces.drop_last()[0] == pieces[0]);
    }
}

/// Whether the pieces are what resolving leaves: names, and those `..` that have no name to take
/// back.
spec fn is_settled(parts: Seq<Seq<char>>, unc: bool, drive: bool) -> bool {
    forall|k: int| #![trigger parts[k]]
        0 <= k < parts.len() ==> {
            &&& parts[k].len() > 0
            &&& parts[k] != "."@
            &&& parts[k] == ".."@ ==> k == 0 || parts[k - 1] == ".."@ || (k == 1 && drive) || (unc
                && k <= 2)
        }
}

proof fn lemma_resolved_is_settled(segments: Seq<Seq<char>>, unc: bool, drive: bool, c: char)
    requires
        all_lack(segments, c),
        c != '.',
    ensures
        is_settled(resolved(segments, unc, drive), unc, drive),
        all_lack(resolved(segments, unc, drive), c),
    decreases segments.len(),
{
    if segments.len() > 0 {
        reveal_strlit(".");
        reveal_strlit("..");
        lemma_resolved_is_settled(segments.drop_last(), unc, drive, c);
        assert(lacks(segments[segments.len() - 1], c));
        let parts = resolved(segments.drop_last(), unc, drive);
        assert(lacks(".."@, c));
        assert(".."@ != "."@) by {
            assert(".."@.len() != "."@.len());
        }
        let after = resolved(segments, unc, drive);
        assert forall|k: int| #![trigger after[k]] 0 <= k < after.len() && k < parts.len() implies after[k]
            == parts[k] by {}
    }
}

/// Settled pieces resolve to themselves, whatever empty segments stand before them.
proof fn lemma_settled_is_resolved(
    empties: Seq<Seq<char>>,
    parts: Seq<Seq<char>>,
    unc: bool,
    drive: bool,
)
    requires
        forall|i: int| 0 <= i < empties.len() ==> (#[trigger] empties[i]).len() == 0,
        is_settled(parts, unc, drive),
    ensures
        resolved(empties + parts, unc, drive) == parts,
    decreases empties.len() + parts.len(),
{
    let all = empties + parts;
    if parts.len() > 0 {
        let front = parts.drop_last();
        assert(forall|k: int| 0 <= k < front.len() ==> #[trigger] front[k] == parts[k]);
        lemma_settled_is_resolved(empties, front, unc, drive);
        assert(all.drop_last() =~= empties + front);
        let k = parts.len() - 1;
        assert(all.last() == parts[k]);
        if parts[k] == ".."@ && k > 0 {
            assert(front.last() == parts[k - 1]);
        }
        assert(resolved(all, unc, drive) =~= parts);
    } else if empties.len() > 0 {
        lemma_settled_is_resolved(empties.drop_last(), parts, unc, drive);
        assert(all.drop_last() =~= empties.drop_last() + parts);
        assert(all.last() == empties[empties.len() - 1]);
        assert(resolved(all, unc, drive) =~= parts);
    } else {
        assert(all =~= Seq::<Seq<char>>::empty());
        assert(resolved(all, unc, drive) =~= parts);
    }
}

/// The name of a drive stays in front of what follows it.
proof fn lemma_drive_stays(
    empties: Seq<Seq<char>>,
    name: Seq<char>,
    rest: Seq<Seq<char>>,
    unc: bool,
)
    requires
        forall|i: int| 0 <= i < empties.len() ==> (#[trigger] empties[i]).len() == 0,
        name.len() > 0,
        name != "."@,
        name != ".."@,
    ensures
        resolved(empties.push(name) + rest, unc, true).len() > 0,
        resolved(empties.push(name) + rest, unc, true)[0] == name,
    decreases rest.len(),
{
    let all = empties.push(name) + rest;
    if rest.len() == 0 {
        assert(all.drop_last() =~= empties + Seq::<Seq<char>>::empty());
        lemma_settled_is_resolved(empties, Seq::empty(), unc, true);
        assert(all.last() == name);
    } else {
        assert(all.drop_last() =~= empties.push(name) + rest.drop_last());
        lemma_drive_stays(empties, name, rest.drop_last(), unc);
    }
}

/// Where a slashed path begins with a drive, so does what resolving leaves of it.
proof fn lemma_drive_survives(s: Seq<char>)
    requires
        has_drive(s),
    ensures
        ({
            let parts = resolved(split(s, '/'), begins(s, "//"@), true);
            &&& parts.len() > 0
            &&& s[0] == '/' ==> parts[0][0] == ':'
            &&& s[0] != '/' ==> parts[0].len() >= 2 && parts[0][0] == s[0] && parts[0][1] == ':'
        }),
{
    reveal_strlit(".");
    reveal_strlit("..");
    let t = s.drop_first();
    let u = t.drop_first();
    assert(t[0] == ':');
    crate::text::lemma_split_first(s, '/');
    crate::text::lemma_split_first(t, '/');
    lemma_split_lacks(u, '/', '/');
    let tail = split(u, '/');
    let name = seq![':'] + tail[0];
    let rest = tail.drop_first();
    assert(name[0] == ':');
    assert(split(t, '/') =~= seq![name] + rest);
    assert("."@[0] == '.');
    assert(".."@[0] == '.');
    if s[0] == '/' {
        let empties = seq![Seq::<char>::empty()];
        assert(split(s, '/') =~= empties.push(name) + rest);
        lemma_drive_stays(empties, name, rest, begins(s, "//"@));
    } else {
        let whole = seq![s[0]] + name;
        let empties = Seq::<Seq<char>>::empty();
        assert(whole[0] == s[0]);
        assert(whole[1] == ':');
        assert(".."@[1] == '.');
        assert("."@.len() == 1);
        assert(split(s, '/') =~= empties.push(whole) + rest);
        lemma_drive_stays(empties, whole, rest, begins(s, "//"@));
    }
}

/// What a settled path with its beginning in front resolves to, and how it begins.
proof fn lemma_body_is_stable(lead: Seq<char>, parts: Seq<Seq<char>>, unc: bool, drive: bool)
    requires
        lead == "//"@ || lead == "/"@ || lead == Seq::<char>::empty(),
        unc == (lead == "//"@),
        all_lack(parts, '/'),
        is_settled(parts, unc, drive),
        drive ==> has_drive(lead + joined(parts, "/"@)),
    ensures
        ({
            let body = lead + joined(parts, "/"@);
            &&& begins(body, "//"@) == unc
            &&& lead_in(body) == lead
            &&& resolved(split(body, '/'), unc, has_drive(body)) == parts
        }),
{
    reveal_strlit("/");
    reveal_strlit("//");
    let j = joined(parts, "/"@);
    let body = lead + j;
    let none = Seq::<char>::empty();
    let d = has_drive(body);
    assert(is_settled(parts, unc, d));
    if parts.len() > 0 {
        lemma_joined_begins(parts, "/"@);
        assert(parts[0].len() > 0);
        assert(lacks(parts[0], '/'));
        assert(j[0] != '/');
        lemma_split_undoes_join(parts);
    } else {
        assert(j =~= none);
        assert(split(none, '/') =~= seq![none]);
    }
    assert(split(none, '/') =~= seq![none]);
    let empties: Seq<Seq<char>>;
    if lead == "//"@ {
        let one = seq!['/'];
        assert(body =~= one.push('/') + j);
        assert(one =~= none.push('/') + none);
        crate::text::split_of_joined_texts(one, j, '/');
        crate::text::split_of_joined_texts(none, none, '/');
        empties = seq![none, none];
        assert(split(one, '/') =~= empties);
        assert(body.take(2) =~= "//"@);
    } else if lead == "/"@ {
        assert("/"@ != "//"@) by {
            assert("/"@.len() != "//"@.len());
        }
        assert(body =~= none.push('/') + j);
        crate::text::split_of_joined_texts(none, j, '/');
        empties = seq![none];
        assert(body.take(1) =~= "/"@);
        if begins(body, "//"@) {
            assert(body.take(2)[1] == '/');
            assert(body[1] == j[0]);
        }
    } else {
        assert(body =~= j);
        empties = Seq::empty();
        if begins(body, "/"@) {
            assert(body.take(1)[0] == '/');
        }
        if begins(body, "//"@) {
            assert(body.take(2)[0] == '/');
        }
    }
    if parts.len() > 0 {
        lemma_settled_is_resolved(empties, parts, unc, d);
        assert(split(body, '/') =~= empties + parts);
    } else {
        let more = empties.push(none);
        lemma_settled_is_resolved(more, parts, unc, d);
        assert(split(body, '/') =~= more + parts);
    }
}

/// A normal form is its own normal form.
pub proof fn normal_form_is_stable(s: Seq<char>)
    ensures
        normal_form(normal_form(s)) == normal_form(s),
{
    reveal_strlit("/");
    reveal_strlit("//");
    let unc = begins(s, "//"@);
    let drive = has_drive(s);
    let parts = resolved(split(s, '/'), unc, drive);
    let lead = lead_in(s);
    let body = lead + joined(parts, "/"@);
    assert("/"@ != "//"@) by {
        assert("/"@.len() != "//"@.len());
    }
    lemma_split_lacks(s, '/', '/');
    lemma_resolved_is_settled(split(s, '/'), unc, drive, '/');
    if drive {
        lemma_drive_survives(s);
        lemma_joined_begins(parts, "/"@);
        if unc {
            assert(s.take(2)[1] == '/');
        }
        if begins(s, "/"@) {
            assert(s.take(1)[0] == '/');
        } else if s[0] == '/' {
            assert(s.take(1) =~= "/"@);
        }
        assert(has_drive(body));
    }
    lemma_body_is_stable(lead, parts, unc, drive);
    let n = normal_form(s);
    if n != body {
        let none = Seq::<char>::empty();
        assert(n =~= body.push('/') + none);
        assert(split(none, '/') =~= seq![none]);
        crate::text::split_of_joined_texts(body, none, '/');
        let a = split(body, '/');
        assert(split(n, '/').drop_last() =~= a);
        assert(split(n, '/').last() == none);
        assert(n.take(1) =~= body.take(1));
        assert(n.take(2) =~= body.take(2));
    }
}

/// The parts of a normal path are neither empty nor `.`, so that no device prefix is left.
proof fn lemma_no_device_prefix(s: Seq<char>)
    ensures
        !begins(normal_form(s), "//./"@),
{
    reveal_strlit("/");
    reveal_strlit("//");
    reveal_strlit("//./");
    reveal_strlit(".");
    let unc = begins(s, "//"@);
    let drive = has_drive(s);
    let parts = resolved(split(s, '/'), unc, drive);
    let j = joined(parts, "/"@);
    let body = lead_in(s) + j;
    let n = normal_form(s);
    lemma_split_lacks(s, '/', '/');
    lemma_resolved_is_settled(split(s, '/'), unc, drive, '/');
    if begins(n, "//./"@) {
        assert(n.take(4)[0] == '/' && n.take(4)[1] == '/' && n.take(4)[2] == '.' && n.take(4)[3]
            == '/');
        assert(n == body);
        if parts.len() > 0 {
            lemma_joined_begins(parts, "/"@);
            assert(lacks(parts[0], '/'));
            assert(parts[0].len() > 0 && parts[0] != "."@);
            if unc {
                assert(body[2] == j[0] && body[3] == j[1]);
                assert(parts[0].len() == 1);
                assert(parts[0] =~= "."@);
            } else if begins(s, "/"@) {
                assert(body[1] == j[0]);
            } else {
                assert(body[0] == j[0]);
            }
        }
    }
}

proof fn lemma_verbatim_lacks(s: Seq<char>, prefix: Seq<char>, c: char)
    requires
        lacks(s, c),
        c != '/',
    ensures
        lacks(without_verbatim(s, prefix), c),
{
    if begins(s, prefix) {
        let rest = s.skip(prefix.len() as int);
        assert(forall|i: int|
            0 <= i < rest.len() ==> #[trigger] rest[i] == s[i + prefix.len()]);
        assert(lacks(rest, c));
        if begins(ascii_lower(rest), "unc/"@) {
            reveal_strlit("unc/");
            reveal_strlit("//");
            let tail = rest.skip(4);
            assert(forall|i: int| 0 <= i < tail.len() ==> #[trigger] tail[i] == rest[i + 4]);
            assert(lacks("//"@ + tail, c));
        }
    }
}

proof fn lemma_slashed_lacks(path: Seq<char>)
    ensures
        lacks(slashed(path), '\\'),
{
    let s0 = replaced(trimmed(path), '\\', '/');
    assert(lacks(s0, '\\'));
    lemma_verbatim_lacks(s0, "//?/"@, '\\');
    lemma_verbatim_lacks(without_verbatim(s0, "//?/"@), "//./"@, '\\');
}

/// Normalizing twice is normalizing once: the normal form of a path has the normal form and the
/// key of the path. A normal form that white space surrounds, or that itself begins as a verbatim
/// path does, is left out.
pub proof fn normalizing_settles(root: Seq<char>, path: Seq<char>)
    requires
        trimmed(slash_form(path)) == slash_form(path),
        !begins(slash_form(path), "//?/"@),
    ensures
        slash_form(slash_form(path)) == slash_form(path),
        key_of(root, slash_form(path)) == key_of(root, path),
        absolute_key(slash_form(path)) == absolute_key(path),
{
    reveal_strlit("/");
    reveal_strlit("//");
    let s = slashed(path);
    let n = slash_form(path);
    let unc = begins(s, "//"@);
    let parts = resolved(split(s, '/'), unc, has_drive(s));
    lemma_slashed_lacks(path);
    lemma_split_lacks(s, '/', '\\');
    lemma_resolved_is_settled(split(s, '/'), unc, has_drive(s), '\\');
    lemma_joined_lacks(parts, "/"@, '\\');
    assert(lacks(lead_in(s) + joined(parts, "/"@), '\\'));
    assert(lacks(n, '\\'));
    assert(replaced(n, '\\', '/') =~= n);
    lemma_no_device_prefix(s);
    assert(slashed(n) == n);
    normal_form_is_stable(s);
}

proof fn lemma_ascii_trim(s: Seq<char>)
    requires
        is_ascii_chars(s),
    ensures
        is_ascii_chars(crate::text::trim_start(s)),
        is_ascii_chars(crate::text::trim_end(s)),
    decreases s.len(),
{
    if s.len() > 0 {
        assert(forall|i: int|
            0 <= i < s.drop_first().len() ==> #[trigger] s.drop_first()[i] == s[i + 1]);
        lemma_ascii_trim(s.drop_first());
        lemma_ascii_trim(s.drop_last());
    }
}

spec fn all_ascii(pieces: Seq<Seq<char>>) -> bool {
    forall|i: int| 0 <= i < pieces.len() ==> is_ascii_chars(#[trigger] pieces[i])
}

proof fn lemma_ascii_split(s: Seq<char>, sep: char)
    requires
        is_ascii_chars(s),
    ensures
        all_ascii(split(s, sep)),
        split(s, sep).len() > 0,
    decreases s.len(),
{
    if s.len() > 0 {
        let t = s.drop_first();
        assert(forall|i: int| 0 <= i < t.len() ==> #[trigger] t[i] == s[i + 1]);
        assert(is_ascii_chars(t));
        lemma_ascii_split(t, sep);
        crate::text::lemma_split_first(s, sep);
        let pieces = split(t, sep);
        if s[0] != sep {
            let head = seq![s[0]] + pieces[0];
            assert(is_ascii_chars(head)) by {
                assert(s[0] == head[0]);
                assert(forall|i: int| 1 <= i < head.len() ==> #[trigger] head[i] == pieces[0][i - 1]);
            }
        }
    }
}

proof fn lemma_ascii_resolved(segments: Seq<Seq<char>>, unc: bool, drive: bool)
    requires
        all_ascii(segments),
    ensures
        all_ascii(resolved(segments, unc, drive)),
    decreases segments.len(),
{
    reveal_strlit("..");
    assert(is_ascii_chars(".."@));
    if segments.len() > 0 {
        assert(is_ascii_chars(segments[segments.len() - 1]));
        lemma_ascii_resolved(segments.drop_last(), unc, drive);
    }
}

proof fn lemma_ascii_joined(pieces: Seq<Seq<char>>, sep: Seq<char>)
    requires
        all_ascii(pieces),
        is_ascii_chars(sep),
    ensures
        is_ascii_chars(joined(pieces, sep)),
    decreases pieces.len(),
{
    if pieces.len() == 1 {
        assert(is_ascii_chars(pieces[0]));
    } else if pieces.len() > 1 {
        lemma_ascii_joined(pieces.drop_last(), sep);
        assert(is_ascii_chars(pieces[pieces.len() - 1]));
        lemma_ascii_concat(joined(pieces.drop_last(), sep), sep);
        lemma_ascii_concat(joined(pieces.drop_last(), sep) + sep, pieces.last());
    }
}

proof fn lemma_ascii_concat(a: Seq<char>, b: Seq<char>)
    requires
        is_ascii_chars(a),
        is_ascii_chars(b),
    ensures
        is_ascii_chars(a + b),
{
    let s = a + b;
    assert forall|i: int| 0 <= i < s.len() implies '\0' <= #[trigger] s[i] <= '\u{7f}' by {
        if i < a.len() {
            assert(s[i] == a[i]);
        } else {
            assert(s[i] == b[i - a.len()]);
        }
    }
}

proof fn lemma_ascii_without_verbatim(s: Seq<char>, prefix: Seq<char>)
    requires
        is_ascii_chars(s),
    ensures
        is_ascii_chars(without_verbatim(s, prefix)),
{
    if begins(s, prefix) {
        let rest = s.skip(prefix.len() as int);
        assert(forall|i: int|
            0 <= i < rest.len() ==> #[trigger] rest[i] == s[i + prefix.len()]);
        assert(is_ascii_chars(rest));
        if begins(ascii_lower(rest), "unc/"@) {
            reveal_strlit("unc/");
            reveal_strlit("//");
            let tail = rest.skip(4);
            assert(forall|i: int| 0 <= i < tail.len() ==> #[trigger] tail[i] == rest[i + 4]);
            lemma_ascii_concat("//"@, tail);
        }
    }
}

proof fn lemma_ascii_slash_form(path: Seq<char>)
    requires
        is_ascii_chars(path),
    ensures
        is_ascii_chars(slash_form(path)),
{
    reveal_strlit("/");
    reveal_strlit("//");
    lemma_ascii_trim(path);
    lemma_ascii_trim(crate::text::trim_start(path));
    let t = trimmed(path);
    let s0 = replaced(t, '\\', '/');
    assert(is_ascii_chars(s0)) by {
        assert forall|i: int| 0 <= i < s0.len() implies '\0' <= #[trigger] s0[i] <= '\u{7f}' by {
            assert(t[i] == t[i]);
        }
    }
    lemma_ascii_without_verbatim(s0, "//?/"@);
    lemma_ascii_without_verbatim(without_verbatim(s0, "//?/"@), "//./"@);
    let s = slashed(path);
    lemma_ascii_split(s, '/');
    lemma_ascii_resolved(split(s, '/'), begins(s, "//"@), has_drive(s));
    let parts = resolved(split(s, '/'), begins(s, "//"@), has_drive(s));
    lemma_ascii_joined(parts, "/"@);
    lemma_ascii_concat(lead_in(s), joined(parts, "/"@));
}

} // verus!
