//! What normal forms, keys and moved roots promise.

use crate::media_keys::{
    has_drive, is_drive_path, is_inside, key_of, key_text, lead_in, part_below, rebased,
    resolve_step, resolved, root_prefix, rooted_drive, share_path, slash_form,
    without_end_separators, without_end_slash, without_start_slash, without_verbatim,
};
use crate::paths::{is_letter, joined_path, PathStyle};
use crate::text::{ascii_lower, begins};
use vstd::prelude::*;

verus! {

/// Empty names and the dot add nothing, and every other name but two dots is added. Two dots take
/// back the name before them, so that going into a folder and out again leads nowhere; they never
/// take back a drive, nor the server and the share of a network path.
pub proof fn dots_take_back_one_name(
    parts: Seq<Seq<char>>,
    name: Seq<char>,
    unc: bool,
    drive: bool,
)
    ensures
        resolve_step(parts, Seq::empty(), unc, drive) == parts,
        resolve_step(parts, "."@, unc, drive) == parts,
        name.len() > 0 && name != "."@ && name != ".."@ ==> resolve_step(parts, name, unc, drive)
            == parts.push(name),
        name.len() > 0 && name != "."@ && name != ".."@ && !(drive && parts.len() == 0) && !(unc
            && parts.len() <= 1) ==> resolve_step(
            resolve_step(parts, name, unc, drive),
            ".."@,
            unc,
            drive,
        ) == parts,
        drive && parts.len() == 1 ==> resolve_step(parts, ".."@, unc, drive) == parts.push(".."@),
        unc && parts.len() <= 2 ==> resolve_step(parts, ".."@, unc, drive) == parts.push(".."@),
        parts.len() == 0 || parts.last() == ".."@ ==> resolve_step(parts, ".."@, unc, drive)
            == parts.push(".."@),
{
    reveal_strlit(".");
    reveal_strlit("..");
    assert("."@.len() == 1 && ".."@.len() == 2);
    assert(parts.push(name).drop_last() =~= parts);
    assert(parts.push(name).last() == name);
}

/// Names are resolved one after the other, and a list of plain names stands as it is.
pub proof fn names_are_resolved_in_order(
    segments: Seq<Seq<char>>,
    one: Seq<char>,
    unc: bool,
    drive: bool,
)
    ensures
        resolved(segments.push(one), unc, drive) == resolve_step(
            resolved(segments, unc, drive),
            one,
            unc,
            drive,
        ),
        (forall|i: int|
            0 <= i < segments.len() ==> (#[trigger] segments[i]).len() > 0 && segments[i] != "."@
                && segments[i] != ".."@) ==> resolved(segments, unc, drive) == segments,
        resolved(segments, unc, drive).len() <= segments.len(),
        forall|i: int|
            0 <= i < resolved(segments, unc, drive).len() ==> (#[trigger] resolved(
                segments,
                unc,
                drive,
            )[i]).len() > 0 && resolved(segments, unc, drive)[i] != "."@,
    decreases segments.len(),
{
    assert(segments.push(one).drop_last() =~= segments);
    reveal_strlit(".");
    reveal_strlit("..");
    assert("."@.len() == 1 && ".."@.len() == 2);
    if segments.len() > 0 {
        let head = segments.drop_last();
        let last = segments.last();
        names_are_resolved_in_order(head, last, unc, drive);
        assert(head.push(last) =~= segments);
        if forall|i: int|
            0 <= i < segments.len() ==> (#[trigger] segments[i]).len() > 0 && segments[i] != "."@
                && segments[i] != ".."@ {
            assert forall|i: int| 0 <= i < head.len() implies (#[trigger] head[i]).len() > 0
                && head[i] != "."@ && head[i] != ".."@ by {
                assert(head[i] == segments[i]);
            }
            assert(segments[segments.len() - 1] == last);
        }
    } else {
        assert(resolved(segments, unc, drive) =~= segments);
    }
}

/// A verbatim prefix goes, and only there: what follows it stays, but that `UNC/` in any case
/// becomes the two slashes of a share.
pub proof fn verbatim_prefixes_go(prefix: Seq<char>, rest: Seq<char>, share: Seq<char>, unc: Seq<char>)
    ensures
        !begins(rest, prefix) ==> without_verbatim(rest, prefix) == rest,
        !begins(ascii_lower(rest), "unc/"@) ==> without_verbatim(prefix + rest, prefix) == rest,
        ascii_lower(unc) == "unc/"@ ==> without_verbatim(prefix + unc + share, prefix) == "//"@
            + share,
{
    reveal_strlit("unc/");
    assert((prefix + rest).take(prefix.len() as int) =~= prefix);
    assert((prefix + rest).skip(prefix.len() as int) =~= rest);
    if ascii_lower(unc) == "unc/"@ {
        let whole = prefix + unc + share;
        let end = unc + share;
        assert(unc.len() == ascii_lower(unc).len());
        assert(whole.take(prefix.len() as int) =~= prefix);
        assert(whole.skip(prefix.len() as int) =~= end);
        assert(ascii_lower(end).take(4) =~= "unc/"@) by {
            assert forall|i: int| 0 <= i < 4 implies ascii_lower(end)[i] == "unc/"@[i] by {
                assert(ascii_lower(end)[i] == ascii_lower(unc)[i]);
            }
        }
        assert(end.skip(4) =~= share);
    }
}

/// A share begins with two slashes, a root with one. A drive is a character of one byte with a
/// colon, and alone it gets its slash.
pub proof fn beginnings_are_kept(s: Seq<char>, c: char)
    ensures
        s.len() >= 2 && s[0] == '/' && s[1] == '/' ==> lead_in(s) == seq!['/', '/'],
        s.len() >= 1 && s[0] == '/' && (s.len() == 1 || s[1] != '/') ==> lead_in(s) == seq!['/'],
        s.len() == 0 || s[0] != '/' ==> lead_in(s).len() == 0,
        (c as int) < 128 ==> rooted_drive(seq![c, ':']) == seq![c, ':', '/'],
        s.len() != 2 ==> rooted_drive(s) == s,
        s.len() == 2 && s[1] != ':' ==> rooted_drive(s) == s,
        is_drive_path(s) <==> s.len() >= 2 && is_letter(s[0]) && s[1] == ':',
        has_drive(s) ==> s.len() >= 2 && s[1] == ':',
{
    reveal_strlit("//");
    reveal_strlit("/");
    assert("//"@ =~= seq!['/', '/']);
    assert("/"@ =~= seq!['/']);
    if s.len() >= 2 {
        assert(s.take(2)[0] == s[0] && s.take(2)[1] == s[1]);
        if s[0] == '/' && s[1] == '/' {
            assert(s.take(2) =~= "//"@);
        }
    }
    if s.len() >= 1 {
        assert(s.take(1)[0] == s[0]);
        if s[0] == '/' {
            assert(s.take(1) =~= "/"@);
        }
    }
    assert(seq![c, ':'].push('/') =~= seq![c, ':', '/']);
}

proof fn lemma_end_slash(s: Seq<char>)
    ensures
        ({
            let r = without_end_slash(s);
            &&& r.len() <= s.len()
            &&& r == s.take(r.len() as int)
            &&& r.len() > 0 ==> r.last() != '/'
            &&& forall|i: int| r.len() <= i < s.len() ==> #[trigger] s[i] == '/'
        }),
    decreases s.len(),
{
    if s.len() > 0 && s.last() == '/' {
        let t = s.drop_last();
        lemma_end_slash(t);
        let r = without_end_slash(t);
        assert(r =~= s.take(r.len() as int));
        assert forall|i: int| r.len() <= i < s.len() implies #[trigger] s[i] == '/' by {
            if i < t.len() {
                assert(t[i] == s[i]);
            }
        }
    } else {
        assert(s.take(s.len() as int) =~= s);
    }
}

/// The slashes at the end of a root go, and nothing before them.
pub proof fn end_slashes_of_roots_go(s: Seq<char>)
    ensures
        ({
            let r = without_end_slash(s);
            &&& r.len() <= s.len()
            &&& r == s.take(r.len() as int)
            &&& r.len() > 0 ==> r.last() != '/'
            &&& forall|i: int| r.len() <= i < s.len() ==> #[trigger] s[i] == '/'
            &&& root_prefix(s) == r.push('/')
        }),
{
    lemma_end_slash(s);
}

/// A key is the part of the path behind its root and a slash. A path outside the root, be it that
/// its name only begins like the root, is keyed as a whole.
pub proof fn keys_leave_the_root_out(root: Seq<char>, path: Seq<char>)
    ensures
        ({
            let abs = slash_form(path);
            let r = without_end_slash(slash_form(root));
            let n = r.len() as int;
            let inside = slash_form(root).len() > 0 && abs.len() > n && ascii_lower(abs.take(n))
                == ascii_lower(r) && abs[n] == '/';
            &&& inside ==> key_text(root, path) == abs.skip(n + 1)
            &&& !inside ==> key_text(root, path) == abs
            &&& slash_form(root).len() > 0 ==> (is_inside(abs, slash_form(root)) <==> inside)
        }),
        slash_form(path).len() == 0 ==> key_of(root, path).len() == 0,
{
    let abs = slash_form(path);
    let r = without_end_slash(slash_form(root));
    let n = r.len() as int;
    let p = r.push('/');
    if abs.len() > n {
        let head = abs.take(n + 1);
        if ascii_lower(abs.take(n)) == ascii_lower(r) && abs[n] == '/' {
            assert forall|i: int| 0 <= i < n + 1 implies ascii_lower(head)[i] == ascii_lower(p)[i] by {
                if i < n {
                    assert(ascii_lower(abs.take(n))[i] == ascii_lower(r)[i]);
                }
            }
            assert(ascii_lower(head) =~= ascii_lower(p));
        }
        if ascii_lower(head) == ascii_lower(p) {
            assert forall|i: int| 0 <= i < n implies ascii_lower(abs.take(n))[i] == ascii_lower(
                r,
            )[i] by {
                assert(ascii_lower(head)[i] == ascii_lower(p)[i]);
            }
            assert(ascii_lower(abs.take(n)) =~= ascii_lower(r));
            assert(ascii_lower(head)[n] == ascii_lower(p)[n]);
            assert(abs[n] == '/');
        }
    }
}

/// What lies below a root is what follows the root and a slash; the root itself has nothing below
/// it. Case matters but on Windows, and a folder whose name only begins like the root is outside.
pub proof fn files_lie_below_their_root(style: PathStyle, file: Seq<char>, root: Seq<char>)
    ensures
        ({
            let f = slash_form(file);
            let r = without_end_slash(slash_form(root));
            let n = r.len() as int;
            let same = |a: Seq<char>, b: Seq<char>|
                a == b || style == PathStyle::Windows && ascii_lower(a) == ascii_lower(b);
            let below = f.len() > n && same(f.take(n), r) && f[n] == '/';
            &&& same(f, r) ==> part_below(style, file, root) == Some(Seq::<char>::empty())
            &&& below ==> part_below(style, file, root) == Some(f.skip(n + 1))
            &&& !below && !same(f, r) ==> part_below(style, file, root) is None
        }),
{
    let f = slash_form(file);
    let r = without_end_slash(slash_form(root));
    let n = r.len() as int;
    assert(ascii_lower(f).len() == f.len() && ascii_lower(r).len() == r.len());
    if f.len() >= n {
        assert(ascii_lower(f).take(n) =~= ascii_lower(f.take(n)));
    }
}

/// A file below one root is given at the same place below another.
pub proof fn files_move_with_their_root(
    style: PathStyle,
    file: Seq<char>,
    old_root: Seq<char>,
    new_root: Seq<char>,
)
    ensures
        part_below(style, file, old_root) is None <==> rebased(style, file, old_root, new_root)
            is None,
        part_below(style, file, old_root) is Some ==> rebased(style, file, old_root, new_root)
            == Some(joined_path(style, new_root, part_below(style, file, old_root)->0)),
{
}

proof fn lemma_start_slash(s: Seq<char>) -> (a: int)
    ensures
        0 <= a <= s.len(),
        without_start_slash(s) == s.skip(a),
        a < s.len() ==> s[a] != '/',
        forall|i: int| 0 <= i < a ==> #[trigger] s[i] == '/',
    decreases s.len(),
{
    if s.len() > 0 && s[0] == '/' {
        let t = s.drop_first();
        let a = lemma_start_slash(t);
        assert(t.skip(a) =~= s.skip(a + 1));
        assert forall|i: int| 0 <= i < a + 1 implies #[trigger] s[i] == '/' by {
            if i > 0 {
                assert(t[i - 1] == s[i]);
            }
        }
        if a < t.len() {
            assert(t[a] == s[a + 1]);
        }
        a + 1
    } else {
        assert(s.skip(0) =~= s);
        0
    }
}

proof fn lemma_end_separators(s: Seq<char>)
    ensures
        ({
            let r = without_end_separators(s);
            &&& r.len() <= s.len()
            &&& r == s.take(r.len() as int)
            &&& r.len() > 0 ==> r.last() != '/' && r.last() != '\\'
            &&& forall|i: int| r.len() <= i < s.len() ==> #[trigger] s[i] == '/' || s[i] == '\\'
        }),
    decreases s.len(),
{
    if s.len() > 0 && (s.last() == '/' || s.last() == '\\') {
        let t = s.drop_last();
        lemma_end_separators(t);
        let r = without_end_separators(t);
        assert(r =~= s.take(r.len() as int));
        assert forall|i: int| r.len() <= i < s.len() implies #[trigger] s[i] == '/' || s[i]
            == '\\' by {
            if i < t.len() {
                assert(t[i] == s[i]);
            }
        }
    } else {
        assert(s.take(s.len() as int) =~= s);
    }
}

/// A path on a drive is given on its share: the share without the separators at its end, one
/// slash, and what follows the drive and its slashes. The drive alone is the share itself.
pub proof fn drives_stand_for_their_share(path: Seq<char>, share: Seq<char>) -> (r: (int, int))
    requires
        is_drive_path(slash_form(path)),
    ensures
        ({
            let s = slash_form(path);
            let (at, end) = r;
            &&& 2 <= at <= s.len()
            &&& forall|i: int| 2 <= i < at ==> #[trigger] s[i] == '/'
            &&& at < s.len() ==> s[at] != '/'
            &&& 0 <= end <= share.len()
            &&& forall|i: int| end <= i < share.len() ==> #[trigger] share[i] == '/' || share[i]
                == '\\'
            &&& end > 0 ==> share[end - 1] != '/' && share[end - 1] != '\\'
            &&& at == s.len() ==> share_path(path, share) == share
            &&& at < s.len() ==> share_path(path, share) == share.take(end).push('/') + s.skip(at)
        }),
{
    reveal_strlit("/");
    let s = slash_form(path);
    let t = s.skip(2);
    let a = lemma_start_slash(t);
    lemma_end_separators(share);
    let e = without_end_separators(share);
    let end = e.len() as int;
    assert(t.skip(a) =~= s.skip(a + 2));
    assert forall|i: int| 2 <= i < a + 2 implies #[trigger] s[i] == '/' by {
        assert(t[i - 2] == s[i]);
    }
    if a < t.len() {
        assert(t[a] == s[a + 2]);
        assert(share_path(path, share) =~= share.take(end).push('/') + s.skip(a + 2));
    }
    if end > 0 {
        assert(e.last() == share[end - 1]);
    }
    (a + 2, end)
}

} // verus!
