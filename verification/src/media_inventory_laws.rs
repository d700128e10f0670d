//! What the stored inventories promise.

use crate::media_inventory::{
    abandoned, hex_fixed, in_range, item_key, item_prefix, lemma_item_keys, load_outcome,
    manifest_key, namespace_rows, next_generation, previous, reclaimed, replacement, stage_asks,
    staged, stored_filter, without_namespace, InventoryChange, InventoryManifest, InventoryTables,
    MediaInventory, MediaInventoryCommit, StoredManifest,
};
use crate::media_keys::rebased;
use crate::paths::PathStyle;
use crate::text::{ascii_lower, opt_text, text_rank, trimmed, Rank};
use crate::text_laws::texts_are_ordered_by_their_first_difference;
use vstd::prelude::*;

verus! {

/// The first generation has the number one, and each is one more than the one before it. A commit
/// tells the namespace that it takes the place of.
pub proof fn generations_count_up(
    before: InventoryTables,
    after: InventoryTables,
    root: Seq<char>,
    identity: Seq<char>,
    recursive: bool,
    filter: Seq<char>,
    files: Seq<Seq<char>>,
    elapsed: u64,
    first_batch: Option<u64>,
    namespace: Seq<char>,
    now: Seq<char>,
    commit: MediaInventoryCommit,
    last: InventoryManifest,
)
    requires
        replacement(
            before,
            after,
            root,
            identity,
            recursive,
            filter,
            files,
            elapsed,
            first_batch,
            namespace,
            now,
            commit,
        ),
    ensures
        ({
            let key = manifest_key(identity, recursive, stored_filter(filter));
            let known = before.manifests.contains_key(key) && before.manifests[key]
                == StoredManifest::Valid(last);
            &&& known && last.generation < u64::MAX ==> commit.generation == last.generation + 1
            &&& known ==> opt_text(commit.superseded_namespace) == Some(last.item_namespace@)
            &&& !before.manifests.contains_key(key) || before.manifests[key] is Invalid
                ==> commit.generation == 1 && commit.superseded_namespace is None
            &&& after.manifests.contains_key(key)
            &&& after.manifests[key] matches StoredManifest::Valid(m) && {
                &&& m.generation == commit.generation
                &&& m.item_namespace@ == namespace
                &&& m.item_count == files.len()
                &&& m.scan_elapsed_ms == elapsed
                &&& m.first_batch_ms == first_batch
                &&& m.completed_at@ == now
                &&& m.root_display@ == root
                &&& m.root_identity@ == identity
                &&& m.recursive == recursive
                &&& m.media_filter@ == ascii_lower(trimmed(filter))
                &&& m.schema_version == 1
            }
            &&& !after.staging.contains_key(namespace)
        }),
        forall|k: Seq<char>|
            k != manifest_key(identity, recursive, stored_filter(filter)) ==> (
            #[trigger] after.manifests.contains_key(k) <==> before.manifests.contains_key(k))
                && after.manifests[k] == before.manifests[k],
        forall|k: Seq<char>|
            k != namespace ==> (#[trigger] after.staging.contains_key(k)
                <==> before.staging.contains_key(k)) && after.staging[k] == before.staging[k],
{
}

/// Two generations in a row have different numbers, the later one the greater, as long as numbers
/// are left.
pub proof fn later_generations_are_greater(m: InventoryManifest)
    ensures
        next_generation(None) == 1,
        m.generation < u64::MAX ==> next_generation(Some(m)) > m.generation,
        next_generation(Some(m)) >= m.generation,
{
}

/// An inventory is given out for the root, the traversal and the filter that it was made for, and
/// only where all its rows are there. Where its root has moved, every file is given below the new
/// one; a file that is not below the stored root makes it an error.
pub proof fn inventories_answer_for_their_own(
    style: PathStyle,
    t: InventoryTables,
    root: Seq<char>,
    identity: Seq<char>,
    recursive: bool,
    filter: Seq<char>,
    r: Result<Option<MediaInventory>, String>,
    m: InventoryManifest,
    i: int,
)
    requires
        load_outcome(style, t, root, identity, recursive, filter, r),
    ensures
        ({
            let key = manifest_key(identity, recursive, ascii_lower(trimmed(filter)));
            let known = t.manifests.contains_key(key) && t.manifests[key] == StoredManifest::Valid(
                m,
            );
            let rows = namespace_rows(t.items, m.item_namespace@);
            &&& r is Ok && r->Ok_0 is Some ==> {
                let inventory = r->Ok_0->0;
                &&& t.manifests.contains_key(key)
                &&& inventory.schema_version == 1
                &&& inventory.root_identity@ == identity
                &&& inventory.root_display@ == root
                &&& inventory.recursive == recursive
                &&& inventory.media_filter@ == ascii_lower(trimmed(filter))
            }
            &&& !t.manifests.contains_key(key) ==> r is Ok && r->Ok_0 is None
            &&& t.manifests.contains_key(key) && t.manifests[key] is Invalid ==> r is Err
            &&& known && rows.len() != m.item_count ==> r is Ok && r->Ok_0 is None
            &&& known && (m.recursive != recursive || m.root_identity@ != identity
                || m.schema_version != 1) ==> r is Ok && r->Ok_0 is None
            &&& known && r is Ok && r->Ok_0 is Some ==> {
                let inventory = r->Ok_0->0;
                &&& inventory.generation == m.generation
                &&& inventory.scan_elapsed_ms == m.scan_elapsed_ms
                &&& inventory.first_batch_ms == m.first_batch_ms
                &&& inventory.completed_at@ == m.completed_at@
                &&& inventory.files@.len() == rows.len()
                &&& rows.len() == m.item_count
                &&& 0 <= i < rows.len() && m.root_display@ == root ==> inventory.files@[i]@
                    == rows[i]
                &&& 0 <= i < rows.len() && m.root_display@ != root ==> rebased(
                    style,
                    rows[i],
                    m.root_display@,
                    root,
                ) == Some(inventory.files@[i]@)
            }
            &&& known && r is Err ==> m.root_display@ != root
        }),
{
}

/// Case and surrounding white space of a filter do not matter.
pub proof fn filters_are_stored_in_one_form(identity: Seq<char>, recursive: bool, a: Seq<char>, b: Seq<char>)
    ensures
        ascii_lower(trimmed(a)) == ascii_lower(trimmed(b)) ==> manifest_key(identity, recursive, a)
            == manifest_key(identity, recursive, b),
        stored_filter(a) == ascii_lower(trimmed(a)),
{
}

/// What other sessions left unfinished goes: their markers, and the rows in their ranges. What is
/// finished stays, and so does what the own session is at.
pub proof fn reclaiming_takes_what_others_left(t: InventoryTables, own: Seq<char>, k: Seq<char>, n: Seq<char>)
    ensures
        reclaimed(t, own).manifests == t.manifests,
        reclaimed(t, own).staging.contains_key(n) <==> t.staging.contains_key(n) && t.staging[n]
            == own,
        reclaimed(t, own).staging.contains_key(n) ==> reclaimed(t, own).staging[n] == own,
        !abandoned(reclaimed(t, own), own, n),
        reclaimed(t, own).items.contains_key(k) ==> t.items.contains_key(k) && reclaimed(
            t,
            own,
        ).items[k] == t.items[k],
        t.staging.contains_key(n) && t.staging[n] != own && in_range(k, n) ==> !reclaimed(
            t,
            own,
        ).items.contains_key(k),
        t.items.contains_key(k) && !reclaimed(t, own).items.contains_key(k) ==> exists|a: Seq<char>|
            #[trigger] t.staging.contains_key(a) && t.staging[a] != own && in_range(k, a),
{
    if t.staging.contains_key(n) && t.staging[n] != own {
        assert(abandoned(t, own, n));
    }
    if t.items.contains_key(k) && !reclaimed(t, own).items.contains_key(k) {
        let a = choose|a: Seq<char>| #[trigger] abandoned(t, own, a) && in_range(k, a);
        assert(t.staging.contains_key(a) && t.staging[a] != own && in_range(k, a));
    }
}

/// Taking a stage away takes its own rows and its marker, and nothing else.
pub proof fn stages_go_alone(t: InventoryTables, n: Seq<char>, k: Seq<char>)
    ensures
        t.without_stage(n).manifests == t.manifests,
        !t.without_stage(n).staging.contains_key(n),
        k != n ==> (t.without_stage(n).staging.contains_key(k) <==> t.staging.contains_key(k)),
        t.without_stage(n).items.contains_key(k) <==> t.items.contains_key(k) && !in_range(k, n),
        t.without_stage(n).items.contains_key(k) ==> t.without_stage(n).items[k] == t.items[k],
        t.without_stage(n).without_stage(n) == t.without_stage(n),
{
    let once = t.without_stage(n);
    let twice = once.without_stage(n);
    assert(twice.items =~= once.items);
    assert(twice.staging =~= once.staging);
    assert(without_namespace(once.items, n) =~= once.items);
}

/// A change touches the row that it names, in one table.
pub proof fn changes_touch_one_row(t: InventoryTables, c: InventoryChange, k: Seq<char>)
    ensures
        ({
            let u = t.after(c);
            match c {
                InventoryChange::PutItem { key, value } => {
                    &&& u.items.contains_key(key@) && u.items[key@] == value@
                    &&& k != key@ ==> (u.items.contains_key(k) <==> t.items.contains_key(k))
                        && u.items[k] == t.items[k]
                    &&& u.manifests == t.manifests && u.staging == t.staging
                },
                InventoryChange::DeleteItem { key } => {
                    &&& !u.items.contains_key(key@)
                    &&& k != key@ ==> (u.items.contains_key(k) <==> t.items.contains_key(k))
                        && u.items[k] == t.items[k]
                    &&& u.manifests == t.manifests && u.staging == t.staging
                },
                InventoryChange::PutManifest { key, manifest } => {
                    &&& u.manifests.contains_key(key@) && u.manifests[key@]
                        == StoredManifest::Valid(manifest)
                    &&& k != key@ ==> (u.manifests.contains_key(k) <==> t.manifests.contains_key(k))
                        && u.manifests[k] == t.manifests[k]
                    &&& u.items == t.items && u.staging == t.staging
                },
                InventoryChange::PutMarker { key, session } => {
                    &&& u.staging.contains_key(key@) && u.staging[key@] == session@
                    &&& k != key@ ==> (u.staging.contains_key(k) <==> t.staging.contains_key(k))
                    &&& u.items == t.items && u.manifests == t.manifests
                },
                InventoryChange::DeleteMarker { key } => {
                    &&& !u.staging.contains_key(key@)
                    &&& k != key@ ==> (u.staging.contains_key(k) <==> t.staging.contains_key(k))
                    &&& u.items == t.items && u.manifests == t.manifests
                },
            }
        }),
{
}

/// Changes take effect one after the other.
pub proof fn changes_follow_each_other(t: InventoryTables, cs: Seq<InventoryChange>, c: InventoryChange)
    ensures
        t.after_all(Seq::empty()) == t,
        t.after_all(cs.push(c)) == t.after_all(cs).after(c),
{
    assert(cs.push(c).drop_last() =~= cs);
}

/// A key lies in the range of a namespace where it begins with the namespace and a colon, and goes
/// on with a character before the tilde, or ends there.
pub proof fn ranges_are_told_by_their_beginning(key: Seq<char>, namespace: Seq<char>)
    ensures
        in_range(key, namespace) <==> {
            let n = namespace.len() as int;
            &&& key.len() > n
            &&& key.take(n) == namespace
            &&& key[n] == ':'
            &&& key.len() == n + 1 || key[n + 1] < '~'
        },
{
    reveal_strlit(":");
    reveal_strlit("~");
    let n = namespace.len() as int;
    let p = item_prefix(namespace);
    let end = p + "~"@;
    let d = lemma_difference(p, key, 0);
    if d == p.len() {
        assert(key.take(n) =~= namespace) by {
            assert forall|i: int| 0 <= i < n implies key[i] == namespace[i] by {
                assert(p[i] == key[i]);
            }
        }
        assert(p[n] == key[n]);
        texts_are_ordered_by_their_first_difference(p, key, d);
        assert forall|i: int| 0 <= i < d implies #[trigger] key[i] == end[i] by {
            assert(p[i] == key[i]);
        }
        if key.len() > d && key[d] == '~' {
            lemma_not_before(key, end, d);
        } else {
            texts_are_ordered_by_their_first_difference(key, end, d);
        }
    } else {
        texts_are_ordered_by_their_first_difference(p, key, d);
        assert forall|i: int| 0 <= i < d implies #[trigger] key[i] == end[i] by {
            assert(p[i] == key[i]);
        }
        texts_are_ordered_by_their_first_difference(key, end, d);
        if key.len() > n && key.take(n) == namespace && key[n] == ':' {
            assert(d < p.len());
            if d < n {
                assert(key.take(n)[d] == key[d]);
            }
        }
    }
}

proof fn lemma_not_before(key: Seq<char>, end: Seq<char>, d: int)
    requires
        0 <= d < key.len(),
        end.len() == d + 1,
        key[d] == end[d],
        forall|i: int| 0 <= i < d ==> #[trigger] key[i] == end[i],
    ensures
        text_rank(key, end) != Rank::Less,
{
    texts_are_ordered_by_their_first_difference(key, end, d + 1);
}

proof fn lemma_difference(a: Seq<char>, b: Seq<char>, from: int) -> (d: int)
    requires
        0 <= from <= a.len(),
        from <= b.len(),
        forall|i: int| 0 <= i < from ==> #[trigger] a[i] == b[i],
    ensures
        from <= d <= a.len(),
        d <= b.len(),
        forall|i: int| 0 <= i < d ==> #[trigger] a[i] == b[i],
        d == a.len() || d == b.len() || a[d] != b[d],
    decreases a.len() - from,
{
    if from < a.len() && from < b.len() && a[from] == b[from] {
        lemma_difference(a, b, from + 1)
    } else {
        from
    }
}

/// The rows of a namespace are numbered in the order of their keys, with sixteen digits each, and
/// lie in its range.
pub proof fn rows_are_numbered_in_order(namespace: Seq<char>, a: nat, b: nat)
    requires
        a < b <= u64::MAX,
    ensures
        text_rank(item_key(namespace, a), item_key(namespace, b)) == Rank::Less,
        in_range(item_key(namespace, a), namespace),
        item_key(namespace, a).len() == namespace.len() + 17,
        item_key(namespace, a) != item_key(namespace, b),
{
    reveal_strlit(":");
    lemma_item_keys(namespace, a, b);
    lemma_item_keys(namespace, a, a);
    crate::text::text_order_is_total(item_key(namespace, a), item_key(namespace, a));
    lemma_width(a, 16);
}

proof fn lemma_width(n: nat, width: nat)
    ensures
        hex_fixed(n, width).len() == width,
    decreases width,
{
    if width > 0 {
        lemma_width(n / 16, (width - 1) as nat);
    }
}

/// The rows of the first files are staged under their numbers; one more file is one more row.
pub proof fn staging_adds_one_row_at_a_time(
    items: Map<Seq<char>, Seq<char>>,
    namespace: Seq<char>,
    files: Seq<Seq<char>>,
    n: nat,
)
    requires
        n < files.len(),
    ensures
        staged(items, namespace, files, 0) == items,
        staged(items, namespace, files, n + 1).contains_key(item_key(namespace, n)),
        staged(items, namespace, files, n + 1)[item_key(namespace, n)] == files[n as int],
        forall|k: Seq<char>|
            k != item_key(namespace, n) ==> (#[trigger] staged(
                items,
                namespace,
                files,
                n + 1,
            ).contains_key(k) <==> staged(items, namespace, files, n).contains_key(k)),
{
}

/// Whether to stop is asked three times and once for every batch of 2048 files, the last of which
/// may be smaller.
pub proof fn stopping_is_asked_for_every_batch(n: nat)
    ensures
        stage_asks(0) == 3,
        0 < n <= 2048 ==> stage_asks(n) == 4,
        stage_asks(n + 2048) == stage_asks(n) + 1,
{
}

/// A manifest that can be read is the one in force; any other counts as none.
pub proof fn unreadable_manifests_count_as_none(
    manifests: Map<Seq<char>, StoredManifest>,
    key: Seq<char>,
    m: InventoryManifest,
)
    ensures
        previous(manifests, key) == Some(m) <==> manifests.contains_key(key) && manifests[key]
            == StoredManifest::Valid(m),
        previous(manifests, key) is None <==> !manifests.contains_key(key) || manifests[key]
            is Invalid,
{
}

} // verus!
