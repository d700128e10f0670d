//! What the order of a folder, its rows, its crumbs and its grid promise.

use crate::media_explorer::{
    crumbs_below, crumbs_of, deeper, drives_of, folder_rows, has_video_extension, is_display_order,
    lies_on_root, move_cursor, move_list_cursor, needs_layout_migration, row_keys, row_span,
    rows_needed, saved_switches_load_again, shown_before, sort_named, without_end_slashes, FileStat,
    LayoutSettings, MediaExplorerState, MediaSort, MediaViewMode,
};
use crate::number::unsigned_value;
use crate::paths::{file_name_of, joined_path, parent_of, PathStyle};
use crate::text::{ascii_lower, begins, ends, replaced, text_order_is_total, text_rank, Rank};
use vstd::prelude::*;

verus! {

/// The time of the last change of a file, its size or the time of its creation, where it is known.
pub open spec fn value_of(sort: MediaSort, stat: FileStat) -> Option<u64> {
    match stat {
        FileStat::Known { mtime, size, created } => match sort {
            MediaSort::Name => None,
            MediaSort::Modified => mtime,
            MediaSort::Size => Some(size),
            MediaSort::Created => created,
        },
        _ => None,
    }
}

/// The name that a file is sorted by: the last part of its path, or the path, without ASCII case.
pub open spec fn sorted_name(style: PathStyle, path: Seq<char>) -> Seq<char> {
    match file_name_of(style, path) {
        Some(name) => ascii_lower(name),
        None => ascii_lower(path),
    }
}

/// Whether one file comes before another by name, then by path, then in the given order.
pub open spec fn named_before(
    style: PathStyle,
    files: Seq<String>,
    descending: bool,
    a: int,
    b: int,
) -> bool {
    let first = if descending { b } else { a };
    let second = if descending { a } else { b };
    let x = sorted_name(style, files[first]@);
    let y = sorted_name(style, files[second]@);
    let p = files[first]@;
    let q = files[second]@;
    ||| text_rank(x, y) == Rank::Less
    ||| x == y && text_rank(p, q) == Rank::Less
    ||| x == y && p == q && a < b
}

/// The display order shows every file once. By name it goes by name and then by path, forward or,
/// descending, backward. By time or size it shows the lower value first or, descending, the higher
/// one; files whose value is not known come last either way; and files of the same value, or of
/// none, go by name and path, forward. What is alike in all of that stays in the given order.
pub proof fn the_display_follows_the_sort(
    style: PathStyle,
    files: Seq<String>,
    stats: Seq<FileStat>,
    sort: MediaSort,
    descending: bool,
    order: Seq<usize>,
    i: int,
    j: int,
)
    requires
        files.len() == stats.len(),
        is_display_order(order, row_keys(style, files, stats, sort), sort, descending),
        0 <= i < j < order.len(),
    ensures
        order.len() == files.len(),
        order[i] < files.len(),
        order[j] < files.len(),
        order[i] != order[j],
        ({
            let a = order[i] as int;
            let b = order[j] as int;
            let x = value_of(sort, stats[a]);
            let y = value_of(sort, stats[b]);
            match sort {
                MediaSort::Name => named_before(style, files, descending, a, b),
                _ => {
                    &&& y is Some ==> x is Some
                    &&& x is Some && y is Some && !descending ==> x->0 <= y->0
                    &&& x is Some && y is Some && descending ==> x->0 >= y->0
                    &&& x == y ==> named_before(style, files, false, a, b)
                },
            }
        }),
{
    let keys = row_keys(style, files, stats, sort);
    let a = order[i] as int;
    let b = order[j] as int;
    assert(shown_before(keys, sort, descending, order[i] as int, order[j] as int));
    crate::media_explorer::display_order_is_total(keys, sort, descending, a, b);
    let x = keys[a];
    let y = keys[b];
    text_order_is_total(x.name, y.name);
    text_order_is_total(y.name, x.name);
    text_order_is_total(x.path, y.path);
    text_order_is_total(y.path, x.path);
}

/// Where two values are known and differ, the way of the sort decides, whatever the files are
/// called: ascending the lower one is shown first, descending the higher one. By name, what comes
/// first forward comes second backward.
pub proof fn directions_are_opposite(
    style: PathStyle,
    files: Seq<String>,
    stats: Seq<FileStat>,
    sort: MediaSort,
    a: int,
    b: int,
)
    requires
        files.len() == stats.len(),
        0 <= a < files.len(),
        0 <= b < files.len(),
        a != b,
    ensures
        ({
            let keys = row_keys(style, files, stats, sort);
            let x = value_of(sort, stats[a]);
            let y = value_of(sort, stats[b]);
            &&& !(sort is Name) && x is Some && y is Some && x->0 < y->0 ==> {
                &&& shown_before(keys, sort, false, a, b)
                &&& shown_before(keys, sort, true, b, a)
            }
            &&& !(sort is Name) && x is Some && y is None ==> {
                &&& shown_before(keys, sort, false, a, b)
                &&& shown_before(keys, sort, true, a, b)
            }
            &&& sort is Name && files[a]@ != files[b]@ ==> (shown_before(keys, sort, false, a, b)
                <==> shown_before(keys, sort, true, b, a))
        }),
{
    let keys = row_keys(style, files, stats, sort);
    text_order_is_total(keys[a].name, keys[b].name);
    text_order_is_total(keys[b].name, keys[a].name);
    text_order_is_total(keys[a].path, keys[b].path);
    text_order_is_total(keys[b].path, keys[a].path);
}

/// The words of the settings mean the sorts that they say.
pub proof fn sorts_are_named_by_their_words(raw: Seq<char>)
    ensures
        sort_named("modified"@) is Modified,
        sort_named("size"@) is Size,
        sort_named("created"@) is Created,
        sort_named("name"@) is Name,
        raw != "modified"@ && raw != "size"@ && raw != "created"@ ==> sort_named(raw) is Name,
{
    reveal_strlit("name");
    reveal_strlit("modified");
    reveal_strlit("size");
    reveal_strlit("created");
    assert("name"@[0] == 'n' && "size"@[0] == 's');
    assert("modified"@.len() == 8 && "created"@.len() == 7 && "size"@.len() == 4 && "name"@.len()
        == 4);
}

/// The rows of a folder: one for each root that leads there, then, where a folder is shown, the way
/// out of it where there is one, and one for each child by its name that leads into it. Nothing but
/// the roots is shown where no folder is.
pub proof fn folder_rows_lead_where_they_say(
    style: PathStyle,
    roots: Seq<Seq<char>>,
    folder: Seq<char>,
    children: Seq<Seq<char>>,
    i: int,
)
    ensures
        ({
            let rows = folder_rows(style, roots, folder, children);
            let out = if parent_of(style, folder) is Some {
                1int
            } else {
                0
            };
            let first = roots.len() + out;
            &&& folder.len() == 0 ==> rows.len() == roots.len()
            &&& folder.len() > 0 ==> rows.len() == first + children.len()
            &&& 0 <= i < roots.len() ==> rows[i].is_drive && !rows[i].is_parent && rows[i].path
                == roots[i] && begins(rows[i].label, without_end_slashes(roots[i]))
            &&& folder.len() > 0 && out == 1 ==> {
                let up = rows[roots.len() as int];
                up.is_parent && !up.is_drive && Some(up.path) == parent_of(style, folder)
            }
            &&& folder.len() > 0 && 0 <= i < children.len() ==> {
                let down = rows[first + i];
                &&& !down.is_parent && !down.is_drive
                &&& down.label == children[i]
                &&& down.path == joined_path(style, folder, children[i])
            }
        }),
{
    let rows = folder_rows(style, roots, folder, children);
    if 0 <= i < roots.len() {
        let l = rows[i].label;
        let w = without_end_slashes(roots[i]);
        assert(l.take(w.len() as int) =~= w);
    }
}

/// A root is shown without the slashes at its end, and nothing else is taken from it.
pub proof fn end_slashes_go(s: Seq<char>)
    ensures
        ({
            let t = without_end_slashes(s);
            &&& begins(s, t)
            &&& t.len() > 0 ==> t.last() != '/' && t.last() != '\\'
            &&& forall|i: int| t.len() <= i < s.len() ==> #[trigger] s[i] == '/' || s[i] == '\\'
        }),
    decreases s.len(),
{
    if s.len() > 0 && (s.last() == '/' || s.last() == '\\') {
        end_slashes_go(s.drop_last());
        let t = without_end_slashes(s);
        assert(s.take(t.len() as int) =~= s.drop_last().take(t.len() as int));
        assert forall|i: int| t.len() <= i < s.len() implies #[trigger] s[i] == '/' || s[i]
            == '\\' by {
            if i < s.len() - 1 {
                assert(s.drop_last()[i] == s[i]);
            }
        }
    } else {
        assert(s.take(s.len() as int) =~= s);
    }
}

/// Each crumb below a folder is labelled with a segment of the path, and leads to the place of that
/// segment inside the crumb before it.
pub proof fn crumbs_lead_down(acc: Seq<char>, segments: Seq<Seq<char>>, i: int)
    requires
        0 <= i < crumbs_below(acc, segments).len(),
    ensures
        ({
            let c = crumbs_below(acc, segments);
            let up = if i == 0 {
                acc
            } else {
                c[i - 1].1
            };
            &&& c[i].0.len() > 0
            &&& segments.contains(c[i].0)
            &&& begins(c[i].1, up)
            &&& ends(c[i].1, c[i].0)
            &&& c[i].1 == up + c[i].0 || c[i].1 == up.push('/') + c[i].0
            &&& (up.len() > 0 && up.last() == '/') <==> c[i].1 == up + c[i].0
        }),
    decreases segments.len(),
{
    reveal_strlit("/");
    let rest = segments.drop_first();
    assert forall|s: Seq<char>| #[trigger] rest.contains(s) implies segments.contains(s) by {
        let k = rest.index_of(s);
        assert(segments[k + 1] == s);
    }
    if segments[0].len() == 0 {
        crumbs_lead_down(acc, rest, i);
    } else {
        let next = deeper(acc, segments[0]);
        if i == 0 {
            lemma_deeper(acc, segments[0]);
            assert(segments.contains(segments[0]));
        } else {
            crumbs_lead_down(next, rest, i - 1);
            assert(crumbs_below(acc, segments)[i] == crumbs_below(next, rest)[i - 1]);
            if i > 1 {
                assert(crumbs_below(acc, segments)[i - 1] == crumbs_below(next, rest)[i - 2]);
            }
        }
    }
}

proof fn lemma_deeper(acc: Seq<char>, segment: Seq<char>)
    requires
        segment.len() > 0,
    ensures
        ({
            let next = deeper(acc, segment);
            &&& begins(next, acc)
            &&& ends(next, segment)
            &&& next == acc + segment || next == acc.push('/') + segment
            &&& (acc.len() > 0 && acc.last() == '/') <==> next == acc + segment
        }),
{
    reveal_strlit("/");
    let next = deeper(acc, segment);
    assert("/"@ =~= seq!['/']);
    if ends(acc, "/"@) {
        assert(acc.skip(acc.len() - 1)[0] == '/');
        assert(acc.last() == '/');
        assert(next.take(acc.len() as int) =~= acc);
        assert(next.skip(acc.len() as int) =~= segment);
    } else {
        if acc.len() > 0 && acc.last() == '/' {
            assert(acc.skip(acc.len() - 1) =~= "/"@);
        }
        assert(next =~= acc.push('/') + segment);
        assert(next.take(acc.len() as int) =~= acc);
        assert(next.skip(acc.len() as int + 1) =~= segment);
        assert(next.len() != (acc + segment).len());
    }
}

/// The first crumb is the root: the share as a whole, the root of the file system, or the drive.
pub proof fn the_first_crumb_is_the_root(folder: Seq<char>)
    ensures
        ({
            let t = crate::media_explorer::without_end_slash(
                replaced(crate::text::trimmed(folder), '\\', '/'),
            );
            let c = crumbs_of(folder);
            &&& t.len() == 0 ==> c.len() == 0
            &&& t.len() > 0 ==> c.len() > 0
            &&& t.len() > 0 && t[0] != '/' ==> {
                &&& c[0].1 == c[0].0.push('/')
                &&& begins(t, c[0].0)
                &&& !c[0].0.contains('/')
            }
            &&& t.len() == 1 || (t.len() > 1 && t[0] == '/' && t[1] != '/') ==> t[0] == '/'
                ==> c[0].1 == seq!['/']
            &&& t.len() > 1 && t[0] == '/' && t[1] == '/' ==> begins(c[0].1, t.take(2))
        }),
{
    reveal_strlit("/");
    reveal_strlit("//");
    let t = crate::media_explorer::without_end_slash(
        replaced(crate::text::trimmed(folder), '\\', '/'),
    );
    let c = crumbs_of(folder);
    if t.len() > 0 {
        crate::text::lemma_split_first(t, '/');
        let parts = crate::text::split(t, '/');
        assert("//"@ =~= seq!['/', '/']);
        assert("/"@ =~= seq!['/']);
        if t.len() > 1 && t[0] == '/' && t[1] == '/' {
            assert(t.take(2) =~= "//"@);
            assert(begins(t, "//"@));
            let unc = t.skip(2);
            if crate::text::split(unc, '/').len() < 2 {
                assert(t.take(2) =~= c[0].1.take(2));
            } else {
                assert(c[0].1.take(2) =~= "//"@);
            }
        } else {
            if begins(t, "//"@) {
                assert(t.take(2)[0] == '/' && t.take(2)[1] == '/');
            }
            if t[0] == '/' {
                assert(parts[0].len() == 0);
            } else {
                lemma_first_piece(t);
                assert(c[0].1 =~= parts[0].push('/'));
            }
        }
    }
}

proof fn lemma_first_piece(t: Seq<char>)
    requires
        t.len() > 0,
        t[0] != '/',
    ensures
        crate::text::split(t, '/')[0].len() > 0,
        begins(t, crate::text::split(t, '/')[0]),
        !crate::text::split(t, '/')[0].contains('/'),
{
    let p = crate::text::split(t, '/')[0];
    if t.contains('/') {
        t.index_of_first_ensures('/');
        let at = t.index_of_first('/')->0;
        assert(p == t.take(at));
        assert(at > 0);
        if p.contains('/') {
            let k = p.index_of('/');
            assert(t[k] == '/');
        }
        assert(t.take(p.len() as int) =~= p);
    } else {
        assert(t.take(t.len() as int) =~= t);
    }
}

/// A drive is listed exactly where its bit is set, by its letter.
pub proof fn drives_are_listed_by_their_bits(mask: u32, n: nat, d: nat)
    requires
        d < n <= 26,
    ensures
        (mask >> (d as u32)) & 1 == 1 <==> drives_of(mask, n).contains(
            seq![(65 + d) as char, ':', '\\'],
        ),
        forall|i: int|
            0 <= i < drives_of(mask, n).len() ==> (#[trigger] drives_of(mask, n)[i]).len() == 3,
    decreases n,
{
    let root = seq![(65 + d) as char, ':', '\\'];
    let all = drives_of(mask, n);
    let before = drives_of(mask, (n - 1) as nat);
    let last = seq![(64 + n) as char, ':', '\\'];
    lemma_drive_letters(mask, (n - 1) as nat);
    if d < n - 1 {
        drives_are_listed_by_their_bits(mask, (n - 1) as nat, d);
        assert(last[0] != root[0]);
        if all.contains(root) {
            let k = all.index_of(root);
            assert(k < before.len() && before[k] == root);
        }
        if before.contains(root) {
            let k = before.index_of(root);
            assert(all[k] == root);
        }
    } else {
        assert(last =~= root);
        if (mask >> (d as u32)) & 1 == 1 {
            assert(all[before.len() as int] == root);
        } else if all.contains(root) {
            let k = all.index_of(root);
            assert(before[k] == root);
            assert(before[k][0] == root[0]);
        }
    }
    if n > 1 {
        lemma_drive_letters(mask, n);
    }
}

proof fn lemma_drive_letters(mask: u32, n: nat)
    requires
        n <= 26,
    ensures
        forall|i: int|
            0 <= i < drives_of(mask, n).len() ==> (#[trigger] drives_of(mask, n)[i]).len() == 3
                && 65 <= drives_of(mask, n)[i][0] as int && (drives_of(mask, n)[i][0] as int) < 65
                + n,
    decreases n,
{
    if n > 0 {
        lemma_drive_letters(mask, (n - 1) as nat);
        let before = drives_of(mask, (n - 1) as nat);
        let all = drives_of(mask, n);
        assert forall|i: int| 0 <= i < all.len() implies (#[trigger] all[i]).len() == 3 && 65
            <= all[i][0] as int && (all[i][0] as int) < 65 + n by {
            if i < before.len() {
                assert(all[i] == before[i]);
            }
        }
    }
}

/// Whatever follows a root lies on it, in any case and with either separator; and only what begins
/// as the root does.
pub proof fn what_follows_a_root_lies_on_it(root: Seq<char>, rest: Seq<char>, path: Seq<char>)
    ensures
        lies_on_root(root + rest, root),
        lies_on_root(path, root) == lies_on_root(replaced(path, '/', '\\'), root),
        lies_on_root(path, root) ==> path.len() >= root.len(),
        lies_on_root(path, root) ==> forall|i: int|
            0 <= i < root.len() ==> crate::text::ascii_lower_char(#[trigger] root[i])
                == crate::text::ascii_lower_char(path[i]) || ((root[i] == '/' || root[i] == '\\')
                && (path[i] == '/' || path[i] == '\\')),
{
    let p = replaced(root + rest, '/', '\\');
    let r = replaced(root, '/', '\\');
    assert(p.take(r.len() as int) =~= r);
    assert(replaced(replaced(path, '/', '\\'), '/', '\\') =~= replaced(path, '/', '\\'));
    if lies_on_root(path, root) {
        let q = replaced(path, '/', '\\');
        let l = ascii_lower(q.take(r.len() as int));
        assert forall|i: int| 0 <= i < root.len() implies crate::text::ascii_lower_char(
            #[trigger] root[i],
        ) == crate::text::ascii_lower_char(path[i]) || ((root[i] == '/' || root[i] == '\\') && (
        path[i] == '/' || path[i] == '\\')) by {
            assert(l[i] == ascii_lower(r)[i]);
        }
    }
}

/// A file is a video by its extension, whatever stands before it and in whichever case.
pub proof fn videos_are_told_by_their_extension(stem: Seq<char>, path: Seq<char>)
    ensures
        has_video_extension(stem + ".mp4"@),
        has_video_extension(stem + ".mov"@),
        has_video_extension(stem + ".mkv"@),
        has_video_extension(stem + ".avi"@),
        has_video_extension(stem + ".webm"@),
        has_video_extension(stem + ".m4v"@),
        has_video_extension(stem + ".wmv"@),
        has_video_extension(stem + ".flv"@),
        has_video_extension(stem + ".mpg"@),
        has_video_extension(stem + ".mpeg"@),
        has_video_extension(stem + ".ts"@),
        has_video_extension(path) == has_video_extension(ascii_lower(path)),
        has_video_extension(path) ==> {
            let l = ascii_lower(path);
            ||| path.len() >= 3 && l.skip(path.len() - 3) == ".ts"@
            ||| path.len() >= 5 && (l.skip(path.len() - 5) == ".webm"@ || l.skip(path.len() - 5)
                == ".mpeg"@)
            ||| path.len() >= 4 && {
                let e = l.skip(path.len() - 4);
                e == ".mp4"@ || e == ".mov"@ || e == ".mkv"@ || e == ".avi"@ || e == ".m4v"@ || e
                    == ".wmv"@ || e == ".flv"@ || e == ".mpg"@
            }
        },
{
    reveal_strlit(".mp4");
    reveal_strlit(".mov");
    reveal_strlit(".mkv");
    reveal_strlit(".avi");
    reveal_strlit(".webm");
    reveal_strlit(".m4v");
    reveal_strlit(".wmv");
    reveal_strlit(".flv");
    reveal_strlit(".mpg");
    reveal_strlit(".mpeg");
    reveal_strlit(".ts");
    lemma_lower_suffix(stem, ".mp4"@);
    lemma_lower_suffix(stem, ".mov"@);
    lemma_lower_suffix(stem, ".mkv"@);
    lemma_lower_suffix(stem, ".avi"@);
    lemma_lower_suffix(stem, ".webm"@);
    lemma_lower_suffix(stem, ".m4v"@);
    lemma_lower_suffix(stem, ".wmv"@);
    lemma_lower_suffix(stem, ".flv"@);
    lemma_lower_suffix(stem, ".mpg"@);
    lemma_lower_suffix(stem, ".mpeg"@);
    lemma_lower_suffix(stem, ".ts"@);
    assert(ascii_lower(ascii_lower(path)) =~= ascii_lower(path));
}

proof fn lemma_lower_suffix(stem: Seq<char>, e: Seq<char>)
    requires
        ascii_lower(e) =~= e,
    ensures
        ends(ascii_lower(stem + e), e),
{
    let l = ascii_lower(stem + e);
    assert(l.skip(l.len() - e.len()) =~= ascii_lower(e));
}

/// The rows of a grid hold all its tiles, and one row fewer would not.
pub proof fn a_grid_has_as_many_rows_as_it_needs(items: nat, columns: nat)
    requires
        columns > 0,
    ensures
        rows_needed(items, columns) * columns >= items,
        rows_needed(items, columns) > 0 ==> (rows_needed(items, columns) - 1) * columns < items,
{
    let n = (items + columns - 1) as int;
    let c = columns as int;
    let q = rows_needed(items, columns) as int;
    vstd::arithmetic::div_mod::lemma_fundamental_div_mod(n, c);
    let m = n % c;
    assert(c * q == q * c) by (nonlinear_arith);
    assert((q - 1) * c == q * c - c) by (nonlinear_arith);
}

/// A cursor in a list moves by as many rows as it is told, and stops at the first and at the last.
/// Back and forth leads to where it was unless it was stopped. A list without a cursor is entered
/// at its end when going back, and at its beginning otherwise; an empty list has no cursor.
pub proof fn list_cursors_stay_in_the_list(
    at: Option<usize>,
    delta: isize,
    len: usize,
    r: Option<usize>,
)
    requires
        len <= isize::MAX,
        call_ensures(move_list_cursor, (at, delta, len), r),
    ensures
        r is None <==> len == 0,
        r is Some ==> r->0 < len,
        at is Some && at->0 < len && 0 <= at->0 + delta < len ==> r->0 == at->0 + delta,
        at is Some && at->0 < len && at->0 + delta < 0 ==> r->0 == 0,
        at is Some && at->0 < len <= at->0 + delta ==> r->0 == len - 1,
        len > 0 && (at is None || at->0 >= len) && delta < 0 ==> r->0 == len - 1,
        len > 0 && (at is None || at->0 >= len) && delta >= 0 ==> r->0 == 0,
{
}

/// A cursor in a grid moves by single tiles sideways and by whole rows up and down, and stops at
/// the first and at the last tile. Without a cursor any movement lands on the first tile.
pub proof fn grid_cursors_stay_in_the_grid(
    at: Option<usize>,
    dx: isize,
    dy: isize,
    columns: usize,
    count: usize,
    r: Option<usize>,
)
    requires
        columns <= isize::MAX,
        count <= isize::MAX,
        call_ensures(move_cursor, (at, dx, dy, columns, count), r),
    ensures
        r is None <==> count == 0,
        r is Some ==> r->0 < count,
        count > 0 && at is None ==> r->0 == 0,
        at is Some && dy == 0 && 0 <= at->0 + dx < count ==> r->0 == at->0 + dx,
        at is Some && columns > 0 && 0 <= at->0 + dx + dy * columns < count ==> r->0 == at->0 + dx
            + dy * columns,
        at is Some && columns == 0 && 0 <= at->0 + dx + dy < count ==> r->0 == at->0 + dx + dy,
        at is Some && count > 0 && columns > 0 && at->0 + dx + dy * columns < 0 ==> r->0 == 0,
        at is Some && count > 0 && columns > 0 && at->0 + dx + dy * columns >= count ==> r->0
            == count - 1,
{
    assert(0 * columns == 0) by (nonlinear_arith);
    assert(dy * 1 == dy) by (nonlinear_arith);
}

/// Leaving the distance-reading mode restores what was shown when it was entered, also where it
/// was entered twice; leaving it twice restores nothing more.
pub proof fn distance_reading_restores_the_screen(s: MediaExplorerState)
    requires
        !s.settings_couch_fullscreen,
    ensures
        s.couch_entered().settings_couch_fullscreen,
        s.couch_entered().couch_restores() == Some(s.chrome_hidden),
        s.couch_entered().couch_entered() == s.couch_entered(),
        s.couch_entered().couch_left().couch_restores() is None,
        s.couch_restores() is None,
        !s.couch_entered().couch_left().settings_couch_fullscreen,
        s.couch_entered().chrome_hidden == s.chrome_hidden,
        s.couch_entered().sort == s.sort && s.couch_entered().sort_desc == s.sort_desc,
        s.couch_entered().view_mode == s.view_mode,
{
}

/// Settings that are loaded decide the switches, each from its own setting. What cannot be read, or
/// is not there, leaves the switch as it is at first: two panels, no names, looping videos, by name,
/// upwards.
pub proof fn settings_decide_the_switches(settings: &LayoutSettings, r: MediaExplorerState)
    requires
        call_ensures(MediaExplorerState::load, (settings,), r),
    ensures
        r.view_mode == MediaViewMode::FullGrid <==> settings.view_mode is Some
            && settings.view_mode->0@ == "full_grid"@,
        r.show_names <==> settings.show_names is Some && settings.show_names->0@ == "1"@,
        !r.video_loop <==> settings.video_loop is Some && settings.video_loop->0@ == "0"@,
        r.sort_desc <==> settings.sort_desc is Some && settings.sort_desc->0@ == "1"@,
        settings.sort is None ==> r.sort == MediaSort::Name,
        settings.sort is Some ==> r.sort == sort_named(settings.sort->0@),
        r.cursor is None,
        !r.settings_couch_fullscreen,
{
}

/// What is saved loads again as it was.
pub proof fn saved_settings_load_again(
    s: &MediaExplorerState,
    settings: LayoutSettings,
    r: MediaExplorerState,
)
    requires
        call_ensures(MediaExplorerState::save, (s,), settings),
        call_ensures(MediaExplorerState::load, (&settings,), r),
    ensures
        r.view_mode == s.view_mode,
        r.show_names == s.show_names,
        r.video_loop == s.video_loop,
        r.sort == s.sort,
        r.sort_desc == s.sort_desc,
{
    saved_switches_load_again(s.show_names, s.sort, s.view_mode);
    saved_switches_load_again(s.video_loop, s.sort, s.view_mode);
    saved_switches_load_again(s.sort_desc, s.sort, s.view_mode);
}

/// Settings without a number for their version, and those of a smaller one than three, are written
/// anew.
pub proof fn older_settings_are_written_anew(version: &Option<String>, r: bool)
    requires
        call_ensures(needs_layout_migration, (version,), r),
    ensures
        version is None ==> r,
        version is Some && unsigned_value(version->0@, u32::MAX as nat) is None ==> r,
        version is Some && unsigned_value(version->0@, u32::MAX as nat) is Some ==> (r
            <==> unsigned_value(version->0@, u32::MAX as nat)->0 < 3),
{
}

/// The rows of a grid that are seen show their tiles, from the first of the first row to the last of
/// the last row, as far as there are any.
pub proof fn seen_rows_show_their_tiles(
    first: usize,
    last: usize,
    columns: usize,
    count: usize,
    r: (usize, usize),
    tile: usize,
)
    requires
        last < usize::MAX,
        first <= last,
        columns > 0,
        tile < count,
        call_ensures(row_span, (first, last, columns, count), r),
    ensures
        r.0 <= r.1 <= count,
        r.0 <= tile < r.1 <==> first <= tile as int / columns as int <= last,
{
    let c = columns as int;
    let t = tile as int;
    let q = t / c;
    let m = t % c;
    assert(t == q * c + m && 0 <= m < c) by (nonlinear_arith)
        requires
            c > 0,
            q == t / c,
            m == t % c,
    ;
    let f = first as int;
    let l = last as int;
    assert(f * c <= (l + 1) * c) by (nonlinear_arith)
        requires
            f <= l,
            c > 0,
    ;
    assert(0 <= f * c) by (nonlinear_arith)
        requires
            f >= 0,
            c > 0,
    ;
    assert(f <= q <==> f * c <= t) by (nonlinear_arith)
        requires
            t == q * c + m,
            0 <= m < c,
    ;
    assert(q <= l <==> t < (l + 1) * c) by (nonlinear_arith)
        requires
            t == q * c + m,
            0 <= m < c,
    ;
}

} // verus!
