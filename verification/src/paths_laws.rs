//! What written paths promise: how folders, names and parts fit together.

use crate::guard::{ancestors, is_allowed, rejoined, AncestorModel};
use crate::paths::{
    base_len, components_of, file_name_of, is_letter, is_rooted, joined_path, last_end, last_start,
    lies_under, name_end, names_from, parent_of, prefix_len, PathStyle,
};
use vstd::prelude::*;

verus! {

/// Whether a text is the plain name of a file or a folder.
pub open spec fn is_plain_name(style: PathStyle, name: Seq<char>) -> bool {
    &&& name.len() > 0
    &&& forall|i: int| 0 <= i < name.len() ==> !style.separates(#[trigger] name[i])
    &&& name != "."@
    &&& style == PathStyle::Windows ==> name.len() < 2 || name[1] != ':'
}

/// Whether a text names a folder on this machine, and not a server.
pub open spec fn is_local_folder(style: PathStyle, dir: Seq<char>) -> bool {
    &&& dir.len() > 0
    &&& style == PathStyle::Windows ==> !(dir.len() >= 2 && style.separates(dir[0])
        && style.separates(dir[1]))
}

proof fn lemma_same_base(style: PathStyle, s: Seq<char>, t: Seq<char>)
    requires
        is_local_folder(style, s),
        s.len() < t.len(),
        forall|i: int| 0 <= i < s.len() ==> s[i] == #[trigger] t[i],
        s.len() == 1 ==> (is_letter(s[0]) ==> t[1] != ':') && (style.separates(s[0])
            ==> !style.separates(t[1])),
        s.len() == 2 && prefix_len(style, s) == 2 ==> !style.separates(t[2]),
    ensures
        prefix_len(style, t) == prefix_len(style, s),
        base_len(style, t) == base_len(style, s),
        is_rooted(style, t) == is_rooted(style, s),
        base_len(style, s) <= s.len(),
{
    assert(s[0] == t[0]);
    if s.len() >= 2 {
        assert(s[1] == t[1]);
    }
    if s.len() >= 3 {
        assert(s[2] == t[2]);
    }
}

proof fn lemma_name_end(style: PathStyle, s: Seq<char>, from: nat, e: nat)
    requires
        from <= e <= s.len(),
        forall|i: int| from <= i < e ==> !style.separates(#[trigger] s[i]),
        e == s.len() || style.separates(s[e as int]),
    ensures
        name_end(style, s, from) == e,
    decreases e - from,
{
    if from < e {
        assert(!style.separates(s[from as int]));
        lemma_name_end(style, s, from + 1, e);
    }
}

proof fn lemma_name_end_is(style: PathStyle, s: Seq<char>, from: nat)
    requires
        from <= s.len(),
    ensures
        from <= name_end(style, s, from) <= s.len(),
        forall|i: int| from <= i < name_end(style, s, from) ==> !style.separates(#[trigger] s[i]),
        name_end(style, s, from) == s.len() || style.separates(
            s[name_end(style, s, from) as int],
        ),
    decreases s.len() - from,
{
    if from < s.len() && !style.separates(s[from as int]) {
        lemma_name_end_is(style, s, from + 1);
    }
}

proof fn lemma_names(style: PathStyle, s: Seq<char>, t: Seq<char>, k: nat, name: Seq<char>, from: nat)
    requires
        is_plain_name(style, name),
        from <= s.len() <= k <= s.len() + 1,
        t.len() == k + name.len(),
        t.skip(k as int) == name,
        forall|i: int| 0 <= i < s.len() ==> s[i] == #[trigger] t[i],
        k == s.len() ==> from == s.len() || style.separates(s.last()),
        k == s.len() + 1 ==> style.separates(t[s.len() as int]),
        base_len(style, t) == base_len(style, s),
        is_rooted(style, t) == is_rooted(style, s),
    ensures
        names_from(style, t, from) == names_from(style, s, from).push(name),
    decreases s.len() - from,
{
    assert forall|i: int| k <= i < t.len() implies !style.separates(#[trigger] t[i]) by {
        assert(t.skip(k as int)[i - k] == t[i]);
    }
    lemma_name_end(style, t, k, t.len());
    assert(t.subrange(k as int, t.len() as int) =~= name);
    assert(names_from(style, t, k) =~= seq![name]);
    let none = Seq::<Seq<char>>::empty();
    assert(none.push(name) =~= seq![name]);
    if from == s.len() {
        assert(names_from(style, s, from) =~= none);
        if k == s.len() + 1 {
            lemma_name_end(style, t, from, from);
            assert(t.subrange(from as int, from as int).len() == 0);
        }
    } else {
        lemma_name_end_is(style, s, from);
        let e = name_end(style, s, from);
        assert forall|i: int| from <= i < e implies !style.separates(#[trigger] t[i]) by {
            assert(!style.separates(s[i]));
        }
        if e < s.len() {
            assert(t[e as int] == s[e as int]);
        } else {
            if k == s.len() {
                assert(!style.separates(s[s.len() - 1]));
            }
        }
        lemma_name_end(style, t, from, e);
        let word = s.subrange(from as int, e as int);
        assert(t.subrange(from as int, e as int) =~= word);
        if e < s.len() {
            lemma_names(style, s, t, k, name, e + 1);
            let rest = names_from(style, s, e + 1);
            assert((seq![word] + rest).push(name) =~= seq![word] + rest.push(name));
        } else {
            assert((seq![word] + none).push(name) =~= seq![word] + seq![name]);
        }
    }
}

proof fn lemma_joined(style: PathStyle, dir: Seq<char>, name: Seq<char>) -> (k: nat)
    requires
        is_local_folder(style, dir),
        is_plain_name(style, name),
    ensures
        ({
            let t = joined_path(style, dir, name);
            &&& dir.len() <= k <= dir.len() + 1
            &&& t.len() == k + name.len()
            &&& t.skip(k as int) == name
            &&& forall|i: int| 0 <= i < dir.len() ==> dir[i] == #[trigger] t[i]
            &&& k == dir.len() ==> base_len(style, dir) == dir.len() || style.separates(dir.last())
            &&& k == dir.len() + 1 ==> style.separates(t[dir.len() as int]) && !style.separates(
                dir.last(),
            )
            &&& prefix_len(style, t) == prefix_len(style, dir)
            &&& base_len(style, t) == base_len(style, dir)
            &&& is_rooted(style, t) == is_rooted(style, dir)
            &&& base_len(style, dir) <= dir.len()
        }),
{
    let t = joined_path(style, dir, name);
    assert(!style.separates(name[0]));
    if name.len() >= 2 {
        assert(!style.separates(name[1]));
    }
    assert(prefix_len(style, name) == 0);
    assert(base_len(style, name) == 0);
    let k = (t.len() - name.len()) as nat;
    assert(t.skip(k as int) =~= name);
    lemma_same_base(style, dir, t);
    k
}

/// A name that is joined to a folder is one more part behind the parts of the folder, so that it
/// lies under the folder. What follows the last character of the folder's own last name is not
/// looked at.
pub proof fn names_are_the_next_part(style: PathStyle, dir: Seq<char>, name: Seq<char>)
    requires
        is_local_folder(style, dir),
        is_plain_name(style, name),
    ensures
        components_of(style, joined_path(style, dir, name)) == components_of(style, dir).push(name),
        lies_under(style, joined_path(style, dir, name), dir),
        !lies_under(style, dir, joined_path(style, dir, name)),
{
    let t = joined_path(style, dir, name);
    let k = lemma_joined(style, dir, name);
    lemma_names(style, dir, t, k, name, base_len(style, dir));
    let p = prefix_len(style, dir);
    if p > 0 {
        assert(t.take(p as int) =~= dir.take(p as int));
    }
    let a = components_of(style, dir);
    let b = components_of(style, t);
    assert(b =~= a.push(name));
    assert(b.take(a.len() as int) =~= a);
}

/// Names that differ lead to different places, and neither lies under the other: a folder whose
/// name only begins like another's is another folder.
pub proof fn siblings_are_apart(style: PathStyle, dir: Seq<char>, a: Seq<char>, b: Seq<char>)
    requires
        is_local_folder(style, dir),
        is_plain_name(style, a),
        is_plain_name(style, b),
        a != b,
    ensures
        !lies_under(style, joined_path(style, dir, a), joined_path(style, dir, b)),
        components_of(style, joined_path(style, dir, a)) != components_of(
            style,
            joined_path(style, dir, b),
        ),
{
    names_are_the_next_part(style, dir, a);
    names_are_the_next_part(style, dir, b);
    let d = components_of(style, dir);
    let x = d.push(a);
    let y = d.push(b);
    assert(x[d.len() as int] == a);
    assert(y[d.len() as int] == b);
    assert(x.take(y.len() as int)[d.len() as int] == a);
}

proof fn lemma_last_start(style: PathStyle, s: Seq<char>, m: nat, n: nat)
    requires
        base_len(style, s) <= m <= n <= s.len(),
        m == base_len(style, s) || style.separates(s[m - 1]),
        forall|i: int| m <= i < n ==> !style.separates(#[trigger] s[i]),
    ensures
        last_start(style, s, n) == m,
    decreases n,
{
    if n > m {
        assert(!style.separates(s[n - 1]));
        lemma_last_start(style, s, m, (n - 1) as nat);
    }
}

/// The file name of a path is what was joined last, and what is above it is the folder that it was
/// joined to.
pub proof fn folders_and_names_come_apart_again(style: PathStyle, dir: Seq<char>, name: Seq<char>)
    requires
        is_local_folder(style, dir),
        is_plain_name(style, name),
        name != ".."@,
    ensures
        file_name_of(style, joined_path(style, dir, name)) == Some(name),
        parent_of(style, joined_path(style, dir, name)) is Some,
        !style.separates(dir.last()) && dir.last() != '.' ==> parent_of(
            style,
            joined_path(style, dir, name),
        ) == Some(dir),
        base_len(style, dir) == dir.len() ==> parent_of(style, joined_path(style, dir, name))
            == Some(dir),
{
    let t = joined_path(style, dir, name);
    let k = lemma_joined(style, dir, name);
    let n = t.len();
    reveal_strlit(".");
    assert forall|i: int| k <= i < n implies !style.separates(#[trigger] t[i]) by {
        assert(t.skip(k as int)[i - k] == t[i]);
    }
    assert(last_end(style, t, n) == n) by {
        if t[n - 1] == '.' {
            if name.len() == 1 {
                assert(t.skip(k as int)[0] == t[n - 1]);
                assert(name =~= "."@);
            }
        }
    }
    if k > base_len(style, t) {
        assert(style.separates(t[k - 1]));
    }
    lemma_last_start(style, t, k, n);
    assert(t.subrange(k as int, n as int) =~= name);
    if base_len(style, dir) == dir.len() {
        if k == dir.len() {
            assert(last_end(style, t, k) == k);
        } else {
            assert(last_end(style, t, k) == last_end(style, t, (k - 1) as nat));
        }
        assert(t.take(dir.len() as int) =~= dir);
    } else if !style.separates(dir.last()) && dir.last() != '.' {
        assert(k == dir.len() + 1);
        assert(t[k - 1] == t[dir.len() as int]);
        assert(last_end(style, t, k) == last_end(style, t, (k - 1) as nat));
        assert(t[dir.len() - 1] == dir.last());
        assert(t.take(dir.len() as int) =~= dir);
    }
}

/// A path is allowed where it lies under one of the roots: more roots allow more, a root allows
/// itself and what is joined to it, and no roots allow nothing.
pub proof fn roots_allow_what_lies_under_them(
    style: PathStyle,
    path: Seq<char>,
    roots: Seq<Seq<char>>,
    root: Seq<char>,
    name: Seq<char>,
)
    ensures
        roots.len() == 0 ==> !is_allowed(style, path, roots),
        is_allowed(style, path, roots.push(root)) <==> is_allowed(style, path, roots) || lies_under(
            style,
            path,
            root,
        ),
        roots.contains(root) ==> is_allowed(style, root, roots),
        roots.contains(root) && is_local_folder(style, root) && is_plain_name(style, name)
            ==> is_allowed(style, joined_path(style, root, name), roots),
{
    let more = roots.push(root);
    if is_allowed(style, path, roots) {
        let i = choose|i: int| 0 <= i < roots.len() && lies_under(style, path, #[trigger] roots[i]);
        assert(more[i] == roots[i]);
    }
    if lies_under(style, path, root) {
        assert(more[roots.len() as int] == root);
    }
    if is_allowed(style, path, more) {
        let i = choose|i: int| 0 <= i < more.len() && lies_under(style, path, #[trigger] more[i]);
        if i < roots.len() {
            assert(more[i] == roots[i]);
        }
    }
    if roots.contains(root) {
        let i = roots.index_of(root);
        assert(roots[i] == root);
        crate::paths::lying_under_is_an_order(style, root, root, root);
        if is_local_folder(style, root) && is_plain_name(style, name) {
            names_are_the_next_part(style, root, name);
        }
    }
}

/// The candidates of a path begin with the path itself, and each is followed by the folder above
/// it, with the name that leads back down behind the others.
pub proof fn candidates_go_up_one_by_one(
    style: PathStyle,
    path: Seq<char>,
    tail: Seq<Seq<char>>,
    i: int,
)
    requires
        path.len() > 0,
    ensures
        ancestors(style, path, tail).len() > 0,
        ancestors(style, path, tail)[0] == (AncestorModel { path, tail }),
        0 <= i && i + 1 < ancestors(style, path, tail).len() ==> {
            let a = ancestors(style, path, tail)[i];
            let b = ancestors(style, path, tail)[i + 1];
            &&& parent_of(style, a.path) == Some(b.path)
            &&& file_name_of(style, a.path) is Some ==> b.tail == a.tail.push(
                file_name_of(style, a.path)->0,
            )
            &&& file_name_of(style, a.path) is None ==> b.tail == a.tail
        },
        ({
            let up = parent_of(style, ancestors(style, path, tail).last().path);
            up is None || up->0.len() == 0 || up->0.len()
                >= ancestors(style, path, tail).last().path.len()
        }),
    decreases path.len(),
{
    let all = ancestors(style, path, tail);
    let longer = match file_name_of(style, path) {
        Some(name) => tail.push(name),
        None => tail,
    };
    if parent_of(style, path) is Some {
        let up = parent_of(style, path)->0;
        if 0 < up.len() < path.len() {
            let above = ancestors(style, up, longer);
            candidates_go_up_one_by_one(style, up, longer, i - 1);
            candidates_go_up_one_by_one(style, up, longer, 0);
            assert(all.last() == above.last());
            if 0 <= i && i + 1 < all.len() {
                assert(all[i + 1] == above[i]);
                if i > 0 {
                    assert(all[i] == above[i - 1]);
                }
            }
        } else {
            assert(all.len() == 1);
        }
    } else {
        assert(all.len() == 1);
    }
}

/// The names lead back down from the folder to the path: the first of them comes last.
pub proof fn names_lead_back_down(
    style: PathStyle,
    base: Seq<char>,
    name: Seq<char>,
    tail: Seq<Seq<char>>,
)
    ensures
        rejoined(style, base, seq![name] + tail) == joined_path(
            style,
            rejoined(style, base, tail),
            name,
        ),
        rejoined(style, base, Seq::empty()) == base,
        rejoined(style, base, tail.push(name)) == rejoined(
            style,
            joined_path(style, base, name),
            tail,
        ),
    decreases tail.len(),
{
    let all = seq![name] + tail;
    assert(tail.push(name).drop_last() =~= tail);
    if tail.len() == 0 {
        assert(all.drop_last() =~= Seq::<Seq<char>>::empty());
        assert(all.last() == name);
        assert(rejoined(style, joined_path(style, base, name), all.drop_last()) == joined_path(
            style,
            base,
            name,
        ));
    } else {
        assert(all.drop_last() =~= seq![name] + tail.drop_last());
        assert(all.last() == tail.last());
        names_lead_back_down(style, joined_path(style, base, tail.last()), name, tail.drop_last());
    }
}

/// Slashes separate names everywhere, backslashes on Windows only, and a drive is a letter with a
/// colon.
pub proof fn styles_have_their_separators(c: char, d: char, rest: Seq<char>)
    ensures
        PathStyle::Unix.separates(c) <==> c == '/',
        PathStyle::Windows.separates(c) <==> c == '/' || c == '\\',
        prefix_len(PathStyle::Unix, rest) == 0,
        is_letter(d) ==> prefix_len(PathStyle::Windows, seq![d, ':'] + rest) == 2,
        is_letter(d) ==> (is_rooted(PathStyle::Windows, seq![d, ':'] + rest) <==> rest.len() > 0
            && (rest[0] == '/' || rest[0] == '\\')),
        is_rooted(PathStyle::Unix, rest) <==> rest.len() > 0 && rest[0] == '/',
{
    let s = seq![d, ':'] + rest;
    assert(s[0] == d && s[1] == ':');
    if rest.len() > 0 {
        assert(s[2] == rest[0]);
    }
}

} // verus!
