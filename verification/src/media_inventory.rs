//! The last completely reconciled set of media files of each root.
//!
//! The files of a generation are stored row by row under a namespace of their own, and a small
//! manifest says which namespace counts. A new generation is staged beside the old one and takes
//! effect when the manifest is swapped, so that readers see one whole generation or the other.

use crate::cancel::{
    lemma_nothing_asked, lemma_one_more, obeyed, the_first_yes_is_the_last_answer, CancelSignal,
};
use crate::media_keys::{absolute_key, rebase_inventory_files, rebased, stable_media_root_identity};
use crate::outside::{is_token, json_of_key, key_to_json, now_rfc3339, random_token};
use crate::paths::PathStyle;
use crate::table::{in_text_order, ordered_keys_are_unique, Table};
use crate::text::{
    ascii_lower, cat, opt_text, rank_text, str_eq, text_order_is_total, text_rank, texts,
    to_ascii_lowercase, trim, trimmed, Rank,
};
use vstd::prelude::*;

verus! {

/// What is known of one generation beside its files.
#[derive(Debug)]
pub struct InventoryManifest {
    pub schema_version: u32,
    pub generation: u64,
    pub item_namespace: String,
    pub root_identity: String,
    pub root_display: String,
    pub recursive: bool,
    pub media_filter: String,
    pub completed_at: String,
    pub scan_elapsed_ms: u64,
    pub first_batch_ms: Option<u64>,
    pub item_count: usize,
}

impl Clone for InventoryManifest {
    fn clone(&self) -> (r: Self)
        ensures
            r == *self,
    {
        InventoryManifest {
            schema_version: self.schema_version,
            generation: self.generation,
            item_namespace: self.item_namespace.clone(),
            root_identity: self.root_identity.clone(),
            root_display: self.root_display.clone(),
            recursive: self.recursive,
            media_filter: self.media_filter.clone(),
            completed_at: self.completed_at.clone(),
            scan_elapsed_ms: self.scan_elapsed_ms,
            first_batch_ms: self.first_batch_ms,
            item_count: self.item_count,
        }
    }
}

/// A manifest row as it was found in the store.
#[derive(Debug)]
pub enum StoredManifest {
    Valid(InventoryManifest),
    /// The row cannot be read, for the given reason.
    Invalid(String),
}

/// The last completely reconciled media set of one root, traversal and filter.
#[derive(Debug)]
pub struct MediaInventory {
    pub schema_version: u32,
    pub generation: u64,
    pub root_identity: String,
    pub root_display: String,
    pub recursive: bool,
    pub media_filter: String,
    pub completed_at: String,
    pub scan_elapsed_ms: u64,
    pub first_batch_ms: Option<u64>,
    pub files: Vec<String>,
}

/// A generation that has taken effect.
#[derive(Debug)]
pub struct MediaInventoryCommit {
    pub generation: u64,
    /// The namespace of the generation before.
    pub superseded_namespace: Option<String>,
}

/// One change to the stored inventory.
#[derive(Debug)]
pub enum InventoryChange {
    PutItem { key: String, value: String },
    DeleteItem { key: String },
    PutManifest { key: String, manifest: InventoryManifest },
    PutMarker { key: String, session: String },
    DeleteMarker { key: String },
}

/// The contents of the inventory store.
#[verifier::ext_equal]
pub ghost struct InventoryTables {
    pub manifests: Map<Seq<char>, StoredManifest>,
    pub items: Map<Seq<char>, Seq<char>>,
    pub staging: Map<Seq<char>, Seq<char>>,
}

impl InventoryTables {
    pub open spec fn after(self, c: InventoryChange) -> InventoryTables {
        match c {
            InventoryChange::PutItem { key, value } => InventoryTables {
                items: self.items.insert(key@, value@),
                ..self
            },
            InventoryChange::DeleteItem { key } => InventoryTables {
                items: self.items.remove(key@),
                ..self
            },
            InventoryChange::PutManifest { key, manifest } => InventoryTables {
                manifests: self.manifests.insert(key@, StoredManifest::Valid(manifest)),
                ..self
            },
            InventoryChange::PutMarker { key, session } => InventoryTables {
                staging: self.staging.insert(key@, session@),
                ..self
            },
            InventoryChange::DeleteMarker { key } => InventoryTables {
                staging: self.staging.remove(key@),
                ..self
            },
        }
    }

    /// The tables without the rows and the marker of a namespace.
    pub open spec fn without_stage(self, namespace: Seq<char>) -> InventoryTables {
        InventoryTables {
            items: without_namespace(self.items, namespace),
            staging: self.staging.remove(namespace),
            ..self
        }
    }

    /// Whether a namespace was not used yet.
    pub open spec fn fresh(self, namespace: Seq<char>) -> bool {
        &&& !self.staging.contains_key(namespace)
        &&& forall|k: Seq<char>| #[trigger] self.items.contains_key(k) ==> !in_range(k, namespace)
        &&& forall|k: Seq<char>| #[trigger]
            self.manifests.contains_key(k) && self.manifests[k] is Valid ==> disjoint(
                self.manifests[k]->Valid_0.item_namespace@,
                namespace,
            )
    }

    pub open spec fn after_all(self, cs: Seq<InventoryChange>) -> InventoryTables
        decreases cs.len(),
    {
        if cs.len() == 0 {
            self
        } else {
            self.after_all(cs.drop_last()).after(cs.last())
        }
    }
}

pub open spec fn text_rows(m: Map<Seq<char>, String>) -> Map<Seq<char>, Seq<char>> {
    Map::new(|k: Seq<char>| m.contains_key(k), |k: Seq<char>| m[k]@)
}

/// What the keys of a namespace begin with.
pub open spec fn item_prefix(namespace: Seq<char>) -> Seq<char> {
    namespace + ":"@
}

/// Whether a key lies in the range of a namespace.
pub open spec fn in_range(key: Seq<char>, namespace: Seq<char>) -> bool {
    text_rank(item_prefix(namespace), key) != Rank::Greater && text_rank(
        key,
        item_prefix(namespace) + "~"@,
    ) == Rank::Less
}

/// Whether no key lies in the ranges of both namespaces.
pub open spec fn disjoint(a: Seq<char>, b: Seq<char>) -> bool {
    forall|k: Seq<char>| #[trigger] in_range(k, a) ==> !in_range(k, b)
}

/// Whether `keys` are the keys of a namespace, in order.
pub open spec fn lists_namespace(
    keys: Seq<Seq<char>>,
    items: Map<Seq<char>, Seq<char>>,
    namespace: Seq<char>,
) -> bool {
    in_text_order(keys) && forall|k: Seq<char>| #[trigger]
        keys.contains(k) <==> items.contains_key(k) && in_range(k, namespace)
}

/// The keys of a namespace, in order.
pub open spec fn namespace_keys(items: Map<Seq<char>, Seq<char>>, namespace: Seq<char>) -> Seq<
    Seq<char>,
> {
    choose|keys: Seq<Seq<char>>| lists_namespace(keys, items, namespace)
}

/// The rows of a namespace, in the order of their keys.
pub open spec fn namespace_rows(items: Map<Seq<char>, Seq<char>>, namespace: Seq<char>) -> Seq<
    Seq<char>,
> {
    namespace_keys(items, namespace).map_values(|k: Seq<char>| items[k])
}

/// There is one list of the keys of a namespace.
pub proof fn namespace_keys_are_unique(
    keys: Seq<Seq<char>>,
    items: Map<Seq<char>, Seq<char>>,
    namespace: Seq<char>,
)
    requires
        lists_namespace(keys, items, namespace),
    ensures
        namespace_keys(items, namespace) == keys,
{
    let other = namespace_keys(items, namespace);
    assert(lists_namespace(other, items, namespace));
    assert forall|k: Seq<char>| keys.contains(k) <==> #[trigger] other.contains(k) by {
        assert(keys.contains(k) <==> items.contains_key(k) && in_range(k, namespace));
    }
    ordered_keys_are_unique(keys, other);
}

/// The items without those of a namespace.
pub open spec fn without_namespace(items: Map<Seq<char>, Seq<char>>, namespace: Seq<char>) -> Map<
    Seq<char>,
    Seq<char>,
> {
    Map::new(
        |k: Seq<char>| items.contains_key(k) && !in_range(k, namespace),
        |k: Seq<char>| items[k],
    )
}

pub open spec fn hex_digit(d: nat) -> char {
    if d < 10 {
        (48 + d) as char
    } else {
        (87 + d) as char
    }
}

/// The last `width` hexadecimal digits of a number, with leading zeros.
pub open spec fn hex_fixed(n: nat, width: nat) -> Seq<char>
    decreases width,
{
    if width == 0 {
        Seq::empty()
    } else {
        hex_fixed(n / 16, (width - 1) as nat).push(hex_digit(n % 16))
    }
}

/// The key of the row of file number `i`.
pub open spec fn item_key(namespace: Seq<char>, i: nat) -> Seq<char> {
    item_prefix(namespace) + hex_fixed(i, 16)
}

/// The items with the first `n` files staged under a namespace.
pub open spec fn staged(
    items: Map<Seq<char>, Seq<char>>,
    namespace: Seq<char>,
    files: Seq<Seq<char>>,
    n: nat,
) -> Map<Seq<char>, Seq<char>>
    decreases n,
{
    if n == 0 {
        items
    } else {
        staged(items, namespace, files, (n - 1) as nat).insert(
            item_key(namespace, (n - 1) as nat),
            files[n - 1],
        )
    }
}

/// The filter as it is stored.
pub open spec fn stored_filter(filter: Seq<char>) -> Seq<char> {
    ascii_lower(trimmed(filter))
}

/// The key of the manifest of a root, a traversal and a filter.
pub open spec fn manifest_key(identity: Seq<char>, recursive: bool, filter: Seq<char>) -> Seq<char> {
    json_of_key(1, identity, recursive, stored_filter(filter))
}

/// Whether the key of a root, a traversal and a filter is that of no others.
pub open spec fn key_is_own(identity: Seq<char>, recursive: bool, filter: Seq<char>) -> bool {
    forall|i: Seq<char>, b: bool, f: Seq<char>| #[trigger]
        manifest_key(i, b, f) == manifest_key(identity, recursive, filter) ==> i == identity && b
            == recursive && stored_filter(f) == stored_filter(filter)
}

fn inventory_key(identity: &str, recursive: bool, filter: &str) -> (r: String)
    ensures
        r@ == manifest_key(identity@, recursive, filter@),
        key_is_own(identity@, recursive, filter@),
{
    let tidy = trim(filter);
    let low = to_ascii_lowercase(tidy.as_str());
    match key_to_json(1, identity, recursive, low.as_str()) {
        Ok(text) => text,
        Err(_) => String::new(),
    }
}

fn inventory_item_prefix(namespace: &str) -> (r: String)
    ensures
        r@ == item_prefix(namespace@),
{
    cat(namespace, ":")
}

pub(crate) fn hex_text(n: u64, width: u8) -> (r: String)
    ensures
        r@ == hex_fixed(n as nat, width as nat),
    decreases width,
{
    if width == 0 {
        String::new()
    } else {
        let mut s = hex_text(n / 16, width - 1);
        let d: u8 = (n % 16) as u8;
        s.push(if d < 10 {
            (48 + d) as char
        } else {
            (87 + d) as char
        });
        s
    }
}

fn key_in_range(key: &str, namespace: &str) -> (r: bool)
    ensures
        r == in_range(key@, namespace@),
{
    let prefix = inventory_item_prefix(namespace);
    let end = cat(prefix.as_str(), "~");
    !matches!(rank_text(prefix.as_str(), key), Rank::Greater) && matches!(
        rank_text(key, end.as_str()),
        Rank::Less
    )
}

pub struct MediaInventoryStore {
    style: PathStyle,
    session_id: String,
    manifests: Table<StoredManifest>,
    items: Table<String>,
    staging: Table<String>,
    changes: Vec<InventoryChange>,
    stored: Ghost<InventoryTables>,
}

/// What reading an inventory comes to.
pub open spec fn load_outcome(
    style: PathStyle,
    t: InventoryTables,
    root: Seq<char>,
    identity: Seq<char>,
    recursive: bool,
    filter: Seq<char>,
    r: Result<Option<MediaInventory>, String>,
) -> bool {
    let wanted = stored_filter(filter);
    let key = manifest_key(identity, recursive, wanted);
    if !t.manifests.contains_key(key) {
        r == Ok::<Option<MediaInventory>, String>(None)
    } else {
        match t.manifests[key] {
            StoredManifest::Invalid(e) => r is Err && r->Err_0@ == "inventory manifest is invalid: "@
                + e@,
            StoredManifest::Valid(m) => {
                let rows = namespace_rows(t.items, m.item_namespace@);
                if m.schema_version != 1 || m.root_identity@ != identity || m.recursive != recursive
                    || m.media_filter@ != wanted {
                    r == Ok::<Option<MediaInventory>, String>(None)
                } else if rows.len() != m.item_count {
                    r == Ok::<Option<MediaInventory>, String>(None)
                } else if m.root_display@ != root && exists|i: int|
                    0 <= i < rows.len() && rebased(
                        style,
                        #[trigger] rows[i],
                        m.root_display@,
                        root,
                    ) is None {
                    r is Err && r->Err_0@ == "inventory rows escape stored root "@ + m.root_display@
                } else {
                    &&& r is Ok && r->Ok_0 is Some
                    &&& r->Ok_0->0.schema_version == m.schema_version
                    &&& r->Ok_0->0.generation == m.generation
                    &&& r->Ok_0->0.root_identity@ == m.root_identity@
                    &&& r->Ok_0->0.root_display@ == root
                    &&& r->Ok_0->0.recursive == m.recursive
                    &&& r->Ok_0->0.media_filter@ == m.media_filter@
                    &&& r->Ok_0->0.completed_at@ == m.completed_at@
                    &&& r->Ok_0->0.scan_elapsed_ms == m.scan_elapsed_ms
                    &&& r->Ok_0->0.first_batch_ms == m.first_batch_ms
                    &&& r->Ok_0->0.files@.len() == rows.len()
                    &&& forall|i: int|
                        0 <= i < rows.len() ==> Some((#[trigger] r->Ok_0->0.files@[i])@) == if (
                        m.root_display@ == root) {
                            Some(rows[i])
                        } else {
                            rebased(style, rows[i], m.root_display@, root)
                        }
                }
            },
        }
    }
}

/// The manifest that a replacement writes.
pub open spec fn is_manifest(
    m: InventoryManifest,
    generation: u64,
    namespace: Seq<char>,
    root: Seq<char>,
    identity: Seq<char>,
    recursive: bool,
    filter: Seq<char>,
    now: Seq<char>,
    elapsed: u64,
    first_batch: Option<u64>,
    count: nat,
) -> bool {
    &&& m.schema_version == 1
    &&& m.generation == generation
    &&& m.item_namespace@ == namespace
    &&& m.root_identity@ == identity
    &&& m.root_display@ == root
    &&& m.recursive == recursive
    &&& m.media_filter@ == stored_filter(filter)
    &&& m.completed_at@ == now
    &&& m.scan_elapsed_ms == elapsed
    &&& m.first_batch_ms == first_batch
    &&& m.item_count == count
}

/// The manifest that is in force under a key, if it can be read.
pub open spec fn previous(manifests: Map<Seq<char>, StoredManifest>, key: Seq<char>) -> Option<
    InventoryManifest,
> {
    if manifests.contains_key(key) {
        match manifests[key] {
            StoredManifest::Valid(m) => Some(m),
            StoredManifest::Invalid(_) => None,
        }
    } else {
        None
    }
}

pub open spec fn next_generation(p: Option<InventoryManifest>) -> u64 {
    match p {
        Some(m) => if m.generation == u64::MAX {
            u64::MAX
        } else {
            (m.generation + 1) as u64
        },
        None => 1,
    }
}

/// Whether another session staged rows under a namespace and did not finish.
pub open spec fn abandoned(t: InventoryTables, own: Seq<char>, namespace: Seq<char>) -> bool {
    t.staging.contains_key(namespace) && t.staging[namespace] != own
}

/// The tables without what other sessions left unfinished.
pub open spec fn reclaimed(t: InventoryTables, own: Seq<char>) -> InventoryTables {
    InventoryTables {
        manifests: t.manifests,
        items: Map::new(
            |k: Seq<char>|
                t.items.contains_key(k) && !(exists|a: Seq<char>| #[trigger]
                    abandoned(t, own, a) && in_range(k, a)),
            |k: Seq<char>| t.items[k],
        ),
        staging: Map::new(
            |k: Seq<char>| t.staging.contains_key(k) && !abandoned(t, own, k),
            |k: Seq<char>| t.staging[k],
        ),
    }
}

pub open spec fn root_identity_of(root: &str, universal: Option<&str>) -> Seq<char> {
    match universal {
        Some(u) => absolute_key(u@),
        None => absolute_key(root@),
    }
}

/// What a replacement comes to: `Some` where it took effect, `None` where it was cancelled.
pub open spec fn replace_outcome(
    before: InventoryTables,
    after: InventoryTables,
    root: Seq<char>,
    identity: Seq<char>,
    recursive: bool,
    filter: Seq<char>,
    files: Seq<Seq<char>>,
    elapsed: u64,
    first_batch: Option<u64>,
    namespace: Seq<char>,
    now: Seq<char>,
    r: Option<MediaInventoryCommit>,
) -> bool {
    match r {
        None => after == before.without_stage(namespace),
        Some(commit) => replacement(
            before,
            after,
            root,
            identity,
            recursive,
            filter,
            files,
            elapsed,
            first_batch,
            namespace,
            now,
            commit,
        ),
    }
}

/// A replacement reads back: what a reader of the same root, traversal and filter gets are the
/// files that were written, in their order.
pub proof fn load_gives_back_the_replacement(
    style: PathStyle,
    before: InventoryTables,
    after: InventoryTables,
    root: Seq<char>,
    identity: Seq<char>,
    recursive: bool,
    filter: Seq<char>,
    files: Seq<Seq<char>>,
    elapsed: u64,
    first_batch: Option<u64>,
    namespace: Seq<char>,
    now: Seq<char>,
    commit: MediaInventoryCommit,
    r: Result<Option<MediaInventory>, String>,
)
    requires
        files.len() <= usize::MAX,
        before.fresh(namespace),
        replacement(
            before,
            after,
            root,
            identity,
            recursive,
            filter,
            files,
            elapsed,
            first_batch,
            namespace,
            now,
            commit,
        ),
        load_outcome(style, after, root, identity, recursive, filter, r),
    ensures
        r is Ok && r->Ok_0 is Some,
        texts(r->Ok_0->0.files@) == files,
        r->Ok_0->0.generation == commit.generation,
        r->Ok_0->0.completed_at@ == now,
{
    staged_rows_read_back(before.items, namespace, files);
    assert(texts(r->Ok_0->0.files@) =~= files) by {
        assert forall|i: int| 0 <= i < files.len() implies texts(r->Ok_0->0.files@)[i]
            == files[i] by {
            assert(r->Ok_0->0.files@[i]@ == files[i]);
        }
    }
}

/// A replacement that is cancelled leaves every table as it was.
pub proof fn cancelled_replacement_changes_nothing(
    before: InventoryTables,
    after: InventoryTables,
    root: Seq<char>,
    identity: Seq<char>,
    recursive: bool,
    filter: Seq<char>,
    files: Seq<Seq<char>>,
    elapsed: u64,
    first_batch: Option<u64>,
    namespace: Seq<char>,
    now: Seq<char>,
)
    requires
        before.fresh(namespace),
        replace_outcome(
            before,
            after,
            root,
            identity,
            recursive,
            filter,
            files,
            elapsed,
            first_batch,
            namespace,
            now,
            None,
        ),
    ensures
        after == before,
{
    assert(after.items =~= before.items);
    assert(after.staging =~= before.staging);
    assert(after =~= before);
}

/// How often a replacement with `n` files that nothing stops asks whether to stop: before anything
/// is written, before each batch, after the last one, and before the swap.
pub open spec fn stage_asks(n: nat) -> nat {
    3 + (n + 2047) / 2048
}

/// What a replacement with `n` files was told while it ran: it stopped at once at the first answer
/// to stop, and asked at every one of its steps otherwise.
pub open spec fn stage_heard<F: FnMut() -> bool>(
    before: &CancelSignal<F>,
    after: &CancelSignal<F>,
    n: nat,
    stopped: bool,
) -> bool {
    &&& after.wf()
    &&& after.source() == before.source()
    &&& obeyed(before.answers(), after.answers(), stopped)
    &&& before.answers().len() < after.answers().len() <= before.answers().len() + stage_asks(n)
    &&& !stopped ==> after.answers().len() == before.answers().len() + stage_asks(n)
}

/// A replacement is made as a whole or not at all. Where any answer was to stop, it was the last
/// one, nothing was committed, and every table is as it was; where none was, the next generation is
/// in force, and a reader gets exactly its files.
pub proof fn answers_decide_the_replacement<F: FnMut() -> bool>(
    style: PathStyle,
    asked: &CancelSignal<F>,
    answered: &CancelSignal<F>,
    before: InventoryTables,
    after: InventoryTables,
    root: Seq<char>,
    identity: Seq<char>,
    recursive: bool,
    filter: Seq<char>,
    files: Seq<Seq<char>>,
    elapsed: u64,
    first_batch: Option<u64>,
    namespace: Seq<char>,
    now: Seq<char>,
    r: Option<MediaInventoryCommit>,
    read: Result<Option<MediaInventory>, String>,
)
    requires
        files.len() <= usize::MAX,
        before.fresh(namespace),
        stage_heard(asked, answered, files.len(), r is None),
        replace_outcome(
            before,
            after,
            root,
            identity,
            recursive,
            filter,
            files,
            elapsed,
            first_batch,
            namespace,
            now,
            r,
        ),
        load_outcome(style, after, root, identity, recursive, filter, read),
    ensures
        (exists|i: int|
            asked.answers().len() <= i < answered.answers().len()
                && #[trigger] answered.answers()[i]) ==> r is None && after == before
            && load_outcome(style, before, root, identity, recursive, filter, read),
        (forall|i: int|
            asked.answers().len() <= i < answered.answers().len()
                ==> !#[trigger] answered.answers()[i]) ==> {
            &&& r is Some
            &&& read is Ok && read->Ok_0 is Some
            &&& read->Ok_0->0.generation == r->0.generation
            &&& texts(read->Ok_0->0.files@) == files
        },
{
    the_first_yes_is_the_last_answer(asked.answers(), answered.answers(), r is None);
    match r {
        None => {
            cancelled_replacement_changes_nothing(
                before,
                after,
                root,
                identity,
                recursive,
                filter,
                files,
                elapsed,
                first_batch,
                namespace,
                now,
            );
        },
        Some(commit) => {
            load_gives_back_the_replacement(
                style,
                before,
                after,
                root,
                identity,
                recursive,
                filter,
                files,
                elapsed,
                first_batch,
                namespace,
                now,
                commit,
                read,
            );
        },
    }
}

/// A replacement leaves every other inventory as it was: its manifest and its rows stay.
pub proof fn replacement_keeps_other_inventories(
    before: InventoryTables,
    after: InventoryTables,
    root: Seq<char>,
    identity: Seq<char>,
    recursive: bool,
    filter: Seq<char>,
    files: Seq<Seq<char>>,
    elapsed: u64,
    first_batch: Option<u64>,
    namespace: Seq<char>,
    now: Seq<char>,
    commit: MediaInventoryCommit,
    other: Seq<char>,
)
    requires
        files.len() <= usize::MAX,
        before.fresh(namespace),
        replacement(
            before,
            after,
            root,
            identity,
            recursive,
            filter,
            files,
            elapsed,
            first_batch,
            namespace,
            now,
            commit,
        ),
        other != manifest_key(identity, recursive, stored_filter(filter)),
    ensures
        previous(after.manifests, other) == previous(before.manifests, other),
        match previous(before.manifests, other) {
            Some(m) => forall|k: Seq<char>|
                in_range(k, m.item_namespace@) ==> (#[trigger] after.items.contains_key(k)
                    == before.items.contains_key(k)) && after.items[k] == before.items[k],
            None => true,
        },
{
    if let Some(m) = previous(before.manifests, other) {
        let ns = m.item_namespace@;
        assert(disjoint(ns, namespace));
        assert forall|k: Seq<char>| in_range(k, ns) implies (#[trigger] after.items.contains_key(k)
            == before.items.contains_key(k)) && after.items[k] == before.items[k] by {
            lemma_staged_elsewhere(before.items, namespace, files, files.len(), k);
        }
    }
}

proof fn lemma_staged_elsewhere(
    items: Map<Seq<char>, Seq<char>>,
    namespace: Seq<char>,
    files: Seq<Seq<char>>,
    n: nat,
    k: Seq<char>,
)
    requires
        n <= files.len() <= usize::MAX,
        !in_range(k, namespace),
    ensures
        staged(items, namespace, files, n).contains_key(k) == items.contains_key(k),
        staged(items, namespace, files, n)[k] == items[k],
    decreases n,
{
    if n > 0 {
        lemma_staged_elsewhere(items, namespace, files, (n - 1) as nat, k);
        lemma_item_keys(namespace, (n - 1) as nat, (n - 1) as nat);
    }
}

/// What a replacement that took effect comes to.
pub open spec fn replacement(
    before: InventoryTables,
    after: InventoryTables,
    root: Seq<char>,
    identity: Seq<char>,
    recursive: bool,
    filter: Seq<char>,
    files: Seq<Seq<char>>,
    elapsed: u64,
    first_batch: Option<u64>,
    namespace: Seq<char>,
    now: Seq<char>,
    commit: MediaInventoryCommit,
) -> bool {
    let key = manifest_key(identity, recursive, stored_filter(filter));
    let last = previous(before.manifests, key);
    &&& after.items == staged(before.items, namespace, files, files.len())
    &&& after.staging == before.staging.remove(namespace)
    &&& after.manifests.contains_key(key)
    &&& after.manifests[key] is Valid
    &&& after.manifests == before.manifests.insert(key, after.manifests[key])
    &&& is_manifest(
        after.manifests[key]->Valid_0,
        next_generation(last),
        namespace,
        root,
        identity,
        recursive,
        filter,
        now,
        elapsed,
        first_batch,
        files.len(),
    )
    &&& commit.generation == next_generation(last)
    &&& opt_text(commit.superseded_namespace) == match last {
        Some(m) => Some(m.item_namespace@),
        None => None,
    }
}

proof fn lemma_rank_of_suffix(p: Seq<char>, a: Seq<char>, b: Seq<char>)
    ensures
        text_rank(p + a, p + b) == text_rank(a, b),
    decreases p.len(),
{
    if p.len() == 0 {
        assert(p + a =~= a);
        assert(p + b =~= b);
    } else {
        let x = p + a;
        let y = p + b;
        assert(x[0] == p[0] && y[0] == p[0]);
        assert(x.drop_first() =~= p.drop_first() + a);
        assert(y.drop_first() =~= p.drop_first() + b);
        lemma_rank_of_suffix(p.drop_first(), a, b);
    }
}

proof fn lemma_less_extends(a: Seq<char>, b: Seq<char>, c: char, d: char)
    requires
        a.len() == b.len(),
        text_rank(a, b) == Rank::Less,
    ensures
        text_rank(a.push(c), b.push(d)) == Rank::Less,
    decreases a.len(),
{
    if a.len() > 0 {
        let x = a.push(c);
        let y = b.push(d);
        assert(x[0] == a[0] && y[0] == b[0]);
        assert(x.drop_first() =~= a.drop_first().push(c));
        assert(y.drop_first() =~= b.drop_first().push(d));
        if a[0] == b[0] {
            lemma_less_extends(a.drop_first(), b.drop_first(), c, d);
        }
    }
}

spec fn power16(n: nat) -> nat
    decreases n,
{
    if n == 0 {
        1
    } else {
        16 * power16((n - 1) as nat)
    }
}

/// Numbers of a fixed width stand in the order of their texts.
proof fn lemma_hex_order(a: nat, b: nat, width: nat)
    requires
        a < b < power16(width),
    ensures
        hex_fixed(a, width).len() == width,
        hex_fixed(b, width).len() == width,
        text_rank(hex_fixed(a, width), hex_fixed(b, width)) == Rank::Less,
    decreases width,
{
    lemma_hex_len(a, width);
    lemma_hex_len(b, width);
    if width > 0 {
        let w = (width - 1) as nat;
        let x = hex_fixed(a / 16, w);
        let y = hex_fixed(b / 16, w);
        let c = hex_digit(a % 16);
        let d = hex_digit(b % 16);
        assert(a / 16 <= b / 16);
        assert(b / 16 < power16(w));
        lemma_hex_len(a / 16, w);
        lemma_hex_len(b / 16, w);
        if a / 16 < b / 16 {
            lemma_hex_order(a / 16, b / 16, w);
            lemma_less_extends(x, y, c, d);
        } else {
            assert(x.push(c) =~= x + seq![c]);
            assert(x.push(d) =~= x + seq![d]);
            lemma_rank_of_suffix(x, seq![c], seq![d]);
            assert((c as int) < (d as int));
        }
    }
}

pub(crate) proof fn lemma_hex_len(a: nat, width: nat)
    ensures
        hex_fixed(a, width).len() == width,
        forall|i: int|
            0 <= i < width ==> crate::outside::is_lower_hex(#[trigger] hex_fixed(a, width)[i]),
    decreases width,
{
    if width > 0 {
        lemma_hex_len(a / 16, (width - 1) as nat);
    }
}

/// The rows of a namespace lie in its range, in the order of their numbers.
pub(crate) proof fn lemma_item_keys(namespace: Seq<char>, a: nat, b: nat)
    requires
        a <= b < 0x1_0000_0000_0000_0000,
    ensures
        in_range(item_key(namespace, a), namespace),
        a < b ==> text_rank(item_key(namespace, a), item_key(namespace, b)) == Rank::Less,
{
    let p = item_prefix(namespace);
    let h = hex_fixed(a, 16);
    reveal_strlit("~");
    lemma_hex_len(a, 16);
    assert(p =~= p + Seq::<char>::empty());
    lemma_rank_of_suffix(p, Seq::empty(), h);
    lemma_rank_of_suffix(p, h, "~"@);
    if a < b {
        assert(power16(16) == 0x1_0000_0000_0000_0000) by {
            reveal_with_fuel(power16, 17);
        }
        lemma_hex_order(a, b, 16);
        lemma_rank_of_suffix(p, h, hex_fixed(b, 16));
    }
}

/// Staging touches nothing outside its namespace.
proof fn lemma_staged_range(
    items: Map<Seq<char>, Seq<char>>,
    namespace: Seq<char>,
    files: Seq<Seq<char>>,
    n: nat,
)
    requires
        n <= files.len() <= usize::MAX,
    ensures
        without_namespace(staged(items, namespace, files, n), namespace) == without_namespace(
            items,
            namespace,
        ),
    decreases n,
{
    if n > 0 {
        let m = (n - 1) as nat;
        lemma_staged_range(items, namespace, files, m);
        lemma_item_keys(namespace, m, m);
        assert(without_namespace(staged(items, namespace, files, n), namespace)
            =~= without_namespace(staged(items, namespace, files, m), namespace));
    }
}

proof fn lemma_staged_rows(
    items: Map<Seq<char>, Seq<char>>,
    namespace: Seq<char>,
    files: Seq<Seq<char>>,
    n: nat,
)
    requires
        n <= files.len() <= usize::MAX,
        forall|k: Seq<char>| #[trigger] items.contains_key(k) ==> !in_range(k, namespace),
    ensures
        forall|k: Seq<char>| #[trigger]
            staged(items, namespace, files, n).contains_key(k) && in_range(k, namespace) <==>
            exists|i: nat| i < n && k == #[trigger] item_key(namespace, i),
        forall|i: nat|
            i < n ==> staged(items, namespace, files, n)[#[trigger] item_key(namespace, i)]
                == files[i as int],
    decreases n,
{
    let s = staged(items, namespace, files, n);
    if n > 0 {
        let m = (n - 1) as nat;
        let before = staged(items, namespace, files, m);
        lemma_staged_rows(items, namespace, files, m);
        lemma_item_keys(namespace, m, m);
        assert forall|i: nat| i < n implies s[#[trigger] item_key(namespace, i)] == files[i as int] by {
            if i < m {
                lemma_item_keys(namespace, i, m);
                text_order_is_total(item_key(namespace, i), item_key(namespace, m));
                assert(before[item_key(namespace, i)] == files[i as int]);
            }
        }
        assert forall|k: Seq<char>| #[trigger]
            s.contains_key(k) && in_range(k, namespace) <==> exists|i: nat|
                i < n && k == #[trigger] item_key(namespace, i) by {
            if s.contains_key(k) && in_range(k, namespace) {
                if k != item_key(namespace, m) {
                    assert(before.contains_key(k));
                    let i = choose|i: nat| i < m && k == #[trigger] item_key(namespace, i);
                    assert(i < n && k == item_key(namespace, i));
                } else {
                    assert(m < n && k == item_key(namespace, m));
                }
            }
            if exists|i: nat| i < n && k == #[trigger] item_key(namespace, i) {
                let i = choose|i: nat| i < n && k == #[trigger] item_key(namespace, i);
                if i < m {
                    assert(i < m && k == item_key(namespace, i));
                    assert(before.contains_key(k));
                }
            }
        }
    }
}

/// The rows of a namespace that was not in use are the files that were staged there, in order.
pub proof fn staged_rows_read_back(
    items: Map<Seq<char>, Seq<char>>,
    namespace: Seq<char>,
    files: Seq<Seq<char>>,
)
    requires
        files.len() <= usize::MAX,
        forall|k: Seq<char>| #[trigger] items.contains_key(k) ==> !in_range(k, namespace),
    ensures
        namespace_rows(staged(items, namespace, files, files.len()), namespace) == files,
{
    let n = files.len();
    let s = staged(items, namespace, files, n);
    lemma_staged_rows(items, namespace, files, n);
    let keys = Seq::new(n, |i: int| item_key(namespace, i as nat));
    assert forall|a: int, b: int| 0 <= a < b < keys.len() implies text_rank(
        #[trigger] keys[a],
        #[trigger] keys[b],
    ) == Rank::Less by {
        lemma_item_keys(namespace, a as nat, b as nat);
    }
    assert forall|k: Seq<char>| #[trigger]
        keys.contains(k) <==> s.contains_key(k) && in_range(k, namespace) by {
        if keys.contains(k) {
            let i = keys.index_of(k) as nat;
            assert(keys[i as int] == k);
            assert(i < n && k == item_key(namespace, i));
        }
        if s.contains_key(k) && in_range(k, namespace) {
            let i = choose|i: nat| i < n && k == #[trigger] item_key(namespace, i);
            assert(keys[i as int] == k);
        }
    }
    namespace_keys_are_unique(keys, s, namespace);
    assert forall|i: int| 0 <= i < n implies #[trigger] namespace_rows(s, namespace)[i]
        == files[i] by {
        assert(keys[i] == item_key(namespace, i as nat));
    }
    assert(namespace_rows(s, namespace) =~= files);
}

impl MediaInventoryStore {
    pub closed spec fn tables(&self) -> InventoryTables {
        InventoryTables {
            manifests: self.manifests@,
            items: text_rows(self.items@),
            staging: text_rows(self.staging@),
        }
    }

    pub closed spec fn session(&self) -> Seq<char> {
        self.session_id@
    }

    pub closed spec fn path_style(&self) -> PathStyle {
        self.style
    }

    pub closed spec fn stored_tables(&self) -> InventoryTables {
        self.stored@
    }

    pub closed spec fn pending(&self) -> Seq<InventoryChange> {
        self.changes@
    }

    /// The pending changes lead from what is stored to what the tables hold.
    pub open spec fn wf(&self) -> bool {
        self.stored_tables().after_all(self.pending()) == self.tables()
    }

    pub open spec fn same_frame(&self, other: &MediaInventoryStore) -> bool {
        &&& self.session() == other.session()
        &&& self.path_style() == other.path_style()
        &&& self.stored_tables() == other.stored_tables()
    }

    /// A store over rows that were read, for a session of its own.
    pub fn open(
        style: PathStyle,
        manifests: Table<StoredManifest>,
        items: Table<String>,
        staging: Table<String>,
    ) -> (r: Self)
        ensures
            r.wf(),
            r.path_style() == style,
            is_token(r.session()),
            r.tables() == (InventoryTables {
                manifests: manifests@,
                items: text_rows(items@),
                staging: text_rows(staging@),
            }),
    {
        Self::open_as(style, random_token(), manifests, items, staging)
    }

    /// A store over rows that were read, for the session of the given name.
    pub fn open_as(
        style: PathStyle,
        session_id: String,
        manifests: Table<StoredManifest>,
        items: Table<String>,
        staging: Table<String>,
    ) -> (r: Self)
        ensures
            r.wf(),
            r.path_style() == style,
            r.session() == session_id@,
            r.tables() == (InventoryTables {
                manifests: manifests@,
                items: text_rows(items@),
                staging: text_rows(staging@),
            }),
    {
        let ghost t = InventoryTables {
            manifests: manifests@,
            items: text_rows(items@),
            staging: text_rows(staging@),
        };
        MediaInventoryStore {
            style,
            session_id,
            manifests,
            items,
            staging,
            changes: Vec::new(),
            stored: Ghost(t),
        }
    }

    /// Hands out the pending changes, which lead from what was stored to what the tables hold.
    pub fn take_changes(&mut self) -> (r: Vec<InventoryChange>)
        requires
            old(self).wf(),
        ensures
            final(self).wf(),
            r@ == old(self).pending(),
            old(self).stored_tables().after_all(r@) == final(self).tables(),
            final(self).tables() == old(self).tables(),
            final(self).session() == old(self).session(),
            final(self).path_style() == old(self).path_style(),
    {
        let mut out: Vec<InventoryChange> = Vec::new();
        std::mem::swap(&mut out, &mut self.changes);
        self.stored = Ghost(self.tables());
        out
    }

    fn put_item(&mut self, key: String, value: String)
        requires
            old(self).wf(),
        ensures
            final(self).wf(),
            final(self).same_frame(old(self)),
            final(self).tables() == (InventoryTables {
                items: old(self).tables().items.insert(key@, value@),
                ..old(self).tables()
            }),
    {
        let ghost before = self.tables();
        let ghost pend = self.changes@;
        let ghost m = self.items@;
        let c = InventoryChange::PutItem { key: key.clone(), value: value.clone() };
        self.changes.push(c);
        self.items.insert(key, value);
        proof {
            assert(text_rows(m.insert(key@, value)) =~= text_rows(m).insert(key@, value@));
            assert(self.tables() =~= before.after(c));
            assert(self.changes@.drop_last() =~= pend);
        }
    }

    fn delete_item(&mut self, key: &str)
        requires
            old(self).wf(),
        ensures
            final(self).wf(),
            final(self).same_frame(old(self)),
            final(self).tables() == (InventoryTables {
                items: old(self).tables().items.remove(key@),
                ..old(self).tables()
            }),
    {
        let ghost before = self.tables();
        let ghost pend = self.changes@;
        let ghost m = self.items@;
        let c = InventoryChange::DeleteItem { key: key.to_owned() };
        self.changes.push(c);
        self.items.remove(key);
        proof {
            assert(text_rows(m.remove(key@)) =~= text_rows(m).remove(key@));
            assert(self.tables() =~= before.after(c));
            assert(self.changes@.drop_last() =~= pend);
        }
    }

    fn put_manifest(&mut self, key: String, manifest: InventoryManifest)
        requires
            old(self).wf(),
        ensures
            final(self).wf(),
            final(self).same_frame(old(self)),
            final(self).tables() == (InventoryTables {
                manifests: old(self).tables().manifests.insert(
                    key@,
                    StoredManifest::Valid(manifest),
                ),
                ..old(self).tables()
            }),
    {
        let ghost before = self.tables();
        let ghost pend = self.changes@;
        let c = InventoryChange::PutManifest { key: key.clone(), manifest: manifest.clone() };
        self.changes.push(c);
        self.manifests.insert(key, StoredManifest::Valid(manifest));
        proof {
            assert(self.tables() =~= before.after(c));
            assert(self.changes@.drop_last() =~= pend);
        }
    }

    fn put_marker(&mut self, key: String, session: String)
        requires
            old(self).wf(),
        ensures
            final(self).wf(),
            final(self).same_frame(old(self)),
            final(self).tables() == (InventoryTables {
                staging: old(self).tables().staging.insert(key@, session@),
                ..old(self).tables()
            }),
    {
        let ghost before = self.tables();
        let ghost pend = self.changes@;
        let ghost m = self.staging@;
        let c = InventoryChange::PutMarker { key: key.clone(), session: session.clone() };
        self.changes.push(c);
        self.staging.insert(key, session);
        proof {
            assert(text_rows(m.insert(key@, session)) =~= text_rows(m).insert(key@, session@));
            assert(self.tables() =~= before.after(c));
            assert(self.changes@.drop_last() =~= pend);
        }
    }

    fn delete_marker(&mut self, key: &str)
        requires
            old(self).wf(),
        ensures
            final(self).wf(),
            final(self).same_frame(old(self)),
            final(self).tables() == (InventoryTables {
                staging: old(self).tables().staging.remove(key@),
                ..old(self).tables()
            }),
    {
        let ghost before = self.tables();
        let ghost pend = self.changes@;
        let ghost m = self.staging@;
        let c = InventoryChange::DeleteMarker { key: key.to_owned() };
        self.changes.push(c);
        self.staging.remove(key);
        proof {
            assert(text_rows(m.remove(key@)) =~= text_rows(m).remove(key@));
            assert(self.tables() =~= before.after(c));
            assert(self.changes@.drop_last() =~= pend);
        }
    }

    /// The keys of a namespace, in order.
    fn keys_in(&self, namespace: &str) -> (r: Vec<String>)
        ensures
            lists_namespace(texts(r@), self.tables().items, namespace@),
            texts(r@) == namespace_keys(self.tables().items, namespace@),
    {
        self.items.check_order();
        let ghost items = self.tables().items;
        let ghost keys = self.items.keys();
        let n: usize = self.items.len();
        let mut out: Vec<String> = Vec::new();
        let mut i: usize = 0;
        assert(texts(out@) =~= Seq::<Seq<char>>::empty());
        while i < n
            invariant
                i <= n,
                n == keys.len(),
                keys == self.items.keys(),
                items == text_rows(self.items@),
                in_text_order(keys),
                forall|k: Seq<char>| #[trigger] self.items@.contains_key(k) <==> keys.contains(k),
                in_text_order(texts(out@)),
                forall|k: Seq<char>| #[trigger]
                    texts(out@).contains(k) <==> in_range(k, namespace@) && exists|j: int|
                        0 <= j < i && #[trigger] keys[j] == k,
            decreases n - i,
        {
            let key = self.items.key_at(i);
            let ghost before = texts(out@);
            if key_in_range(key.as_str(), namespace) {
                let copy = key.clone();
                out.push(copy);
                proof {
                    let after = texts(out@);
                    assert(after =~= before.push(copy@));
                    assert forall|a: int, b: int| 0 <= a < b < after.len() implies text_rank(
                        #[trigger] after[a],
                        #[trigger] after[b],
                    ) == Rank::Less by {
                        assert(after[a] == before[a]);
                        if b < before.len() {
                            assert(after[b] == before[b]);
                        } else {
                            assert(before.contains(before[a]));
                            let j = choose|j: int| 0 <= j < i && #[trigger] keys[j] == before[a];
                            assert(text_rank(keys[j], keys[i as int]) == Rank::Less);
                        }
                    }
                    assert forall|k: Seq<char>| #[trigger]
                        after.contains(k) <==> in_range(k, namespace@) && exists|j: int|
                            0 <= j < i + 1 && #[trigger] keys[j] == k by {
                        if before.contains(k) {
                            let j = before.index_of(k);
                            assert(after[j] == k);
                            let p = choose|p: int| 0 <= p < i && #[trigger] keys[p] == k;
                            assert(keys[p] == k);
                        }
                        if k == copy@ {
                            assert(after[before.len() as int] == k);
                            assert(keys[i as int] == k);
                        }
                        if after.contains(k) && k != copy@ {
                            let j = after.index_of(k);
                            assert(after[j] == k);
                            assert(before[j] == k);
                        }
                    }
                }
            } else {
                proof {
                    assert forall|k: Seq<char>| #[trigger]
                        texts(out@).contains(k) <==> in_range(k, namespace@) && exists|j: int|
                            0 <= j < i + 1 && #[trigger] keys[j] == k by {
                        if before.contains(k) {
                            let p = choose|p: int| 0 <= p < i && #[trigger] keys[p] == k;
                            assert(keys[p] == k);
                        }
                    }
                }
            }
            i += 1;
        }
        proof {
            assert forall|k: Seq<char>| #[trigger]
                texts(out@).contains(k) <==> items.contains_key(k) && in_range(k, namespace@) by {
                assert(items.contains_key(k) <==> self.items@.contains_key(k));
                if items.contains_key(k) {
                    let j = keys.index_of(k);
                    assert(keys[j] == k);
                }
                if exists|j: int| 0 <= j < n && #[trigger] keys[j] == k {
                    assert(keys.contains(k));
                }
            }
            namespace_keys_are_unique(texts(out@), items, namespace@);
        }
        out
    }

    /// Reads the last generation of a root, a traversal and a filter. The files come in the
    /// spelling of the given root. A generation that does not have all its rows counts as none.
    pub fn load_with_identity(
        &self,
        root: &str,
        root_identity: &str,
        recursive: bool,
        media_filter: &str,
    ) -> (r: Result<Option<MediaInventory>, String>)
        ensures
            load_outcome(
                self.path_style(),
                self.tables(),
                root@,
                root_identity@,
                recursive,
                media_filter@,
                r,
            ),
    {
        let tidy = trim(media_filter);
        let wanted = to_ascii_lowercase(tidy.as_str());
        let key = inventory_key(root_identity, recursive, wanted.as_str());
        let m = match self.manifests.get(key.as_str()) {
            None => return Ok(None),
            Some(StoredManifest::Invalid(e)) => {
                return Err(cat("inventory manifest is invalid: ", e.as_str()));
            },
            Some(StoredManifest::Valid(m)) => m,
        };
        if m.schema_version != 1 || !str_eq(m.root_identity.as_str(), root_identity) || m.recursive
            != recursive || !str_eq(m.media_filter.as_str(), wanted.as_str()) {
            return Ok(None);
        }
        let keys = self.keys_in(m.item_namespace.as_str());
        let ghost items = self.tables().items;
        let ghost rows = namespace_rows(items, m.item_namespace@);
        let n: usize = keys.len();
        let mut files: Vec<String> = Vec::new();
        let mut i: usize = 0;
        assert(texts(keys@).len() == keys@.len());
        while i < n
            invariant
                i <= n,
                n == keys@.len(),
                items == text_rows(self.items@),
                lists_namespace(texts(keys@), items, m.item_namespace@),
                rows == texts(keys@).map_values(|k: Seq<char>| items[k]),
                files@.len() == i,
                forall|j: int| 0 <= j < i ==> (#[trigger] files@[j])@ == rows[j],
            decreases n - i,
        {
            assert(texts(keys@)[i as int] == keys@[i as int]@);
            assert(texts(keys@).contains(keys@[i as int]@));
            match self.items.get(keys[i].as_str()) {
                Some(v) => files.push(v.clone()),
                None => {
                    assert(false);
                },
            }
            i += 1;
        }
        assert(rows.len() == n);
        if n != m.item_count {
            return Ok(None);
        }
        if !str_eq(m.root_display.as_str(), root) {
            match rebase_inventory_files(self.style, &files, m.root_display.as_str(), root) {
                Some(moved) => {
                    proof {
                        assert forall|k: int| 0 <= k < rows.len() implies rebased(
                            self.style,
                            #[trigger] rows[k],
                            m.root_display@,
                            root@,
                        ) == Some(moved@[k]@) by {
                            assert(files@[k]@ == rows[k]);
                        }
                    }
                    files = moved;
                },
                None => {
                    proof {
                        let k = choose|k: int|
                            0 <= k < files@.len() && rebased(
                                self.style,
                                (#[trigger] files@[k])@,
                                m.root_display@,
                                root@,
                            ) is None;
                        assert(rows[k] == files@[k]@);
                    }
                    return Err(
                        cat("inventory rows escape stored root ", m.root_display.as_str()),
                    );
                },
            }
        }
        Ok(
            Some(
                MediaInventory {
                    schema_version: m.schema_version,
                    generation: m.generation,
                    root_identity: m.root_identity.clone(),
                    root_display: root.to_owned(),
                    recursive: m.recursive,
                    media_filter: m.media_filter.clone(),
                    completed_at: m.completed_at.clone(),
                    scan_elapsed_ms: m.scan_elapsed_ms,
                    first_batch_ms: m.first_batch_ms,
                    files,
                },
            ),
        )
    }

    /// Removes the rows of a namespace, and its marker where asked to.
    fn delete_namespace(&mut self, namespace: &str, remove_staging_marker: bool)
        requires
            old(self).wf(),
        ensures
            final(self).wf(),
            final(self).same_frame(old(self)),
            final(self).tables() == (InventoryTables {
                items: without_namespace(old(self).tables().items, namespace@),
                staging: if remove_staging_marker {
                    old(self).tables().staging.remove(namespace@)
                } else {
                    old(self).tables().staging
                },
                ..old(self).tables()
            }),
    {
        let keys = self.keys_in(namespace);
        let ghost t0 = self.tables();
        let ghost all = texts(keys@);
        let n: usize = keys.len();
        let mut i: usize = 0;
        while i < n
            invariant
                i <= n,
                n == keys@.len(),
                all == texts(keys@),
                self.wf(),
                self.same_frame(old(self)),
                self.tables().manifests == t0.manifests,
                self.tables().staging == t0.staging,
                forall|k: Seq<char>| #[trigger]
                    self.tables().items.contains_key(k) <==> t0.items.contains_key(k)
                        && !all.take(i as int).contains(k),
                forall|k: Seq<char>| #[trigger]
                    self.tables().items.contains_key(k) ==> self.tables().items[k] == t0.items[k],
            decreases n - i,
        {
            let ghost before = self.tables().items;
            let ghost key = keys@[i as int]@;
            self.delete_item(keys[i].as_str());
            proof {
                assert(all[i as int] == key);
                let prefix = all.take(i as int);
                assert(all.take(i + 1) =~= prefix.push(key));
                assert forall|k: Seq<char>| #[trigger]
                    self.tables().items.contains_key(k) <==> t0.items.contains_key(k) && !all.take(
                        i + 1,
                    ).contains(k) by {
                    if prefix.contains(k) {
                        let j = prefix.index_of(k);
                        assert(all.take(i + 1)[j] == k);
                    }
                    if k == key {
                        assert(all.take(i + 1)[i as int] == k);
                    }
                    if all.take(i + 1).contains(k) && k != key {
                        let j = all.take(i + 1).index_of(k);
                        assert(all.take(i + 1)[j] == k);
                        assert(prefix[j] == k);
                    }
                    assert(before.contains_key(k) <==> t0.items.contains_key(k)
                        && !prefix.contains(k));
                }
                assert forall|k: Seq<char>| #[trigger]
                    self.tables().items.contains_key(k) implies self.tables().items[k]
                    == t0.items[k] by {
                    assert(before.contains_key(k));
                }
            }
            i += 1;
        }
        proof {
            assert(all.take(n as int) =~= all);
            assert(self.tables().items =~= without_namespace(t0.items, namespace@));
        }
        if remove_staging_marker {
            self.delete_marker(namespace);
        }
    }

    /// Replaces the generation of a root, a traversal and a filter with the given files, which are
    /// staged under the given namespace. Where the caller cancels, what was staged is removed and
    /// the generation before stays in force.
    pub fn replace_in_namespace<F>(
        &mut self,
        root_display: &str,
        root_identity: &str,
        recursive: bool,
        media_filter: &str,
        files: &Vec<String>,
        scan_elapsed_ms: u64,
        first_batch_ms: Option<u64>,
        namespace: &str,
        completed_at: &str,
        is_cancelled: &mut CancelSignal<F>,
    ) -> (r: Option<MediaInventoryCommit>) where F: FnMut() -> bool
        requires
            old(self).wf(),
            old(is_cancelled).wf(),
        ensures
            final(self).wf(),
            final(self).same_frame(old(self)),
            key_is_own(root_identity@, recursive, stored_filter(media_filter@)),
            stage_heard(old(is_cancelled), final(is_cancelled), files@.len(), r is None),
            match r {
                None => final(self).tables() == old(self).tables().without_stage(namespace@),
                Some(commit) => replacement(
                    old(self).tables(),
                    final(self).tables(),
                    root_display@,
                    root_identity@,
                    recursive,
                    media_filter@,
                    texts(files@),
                    scan_elapsed_ms,
                    first_batch_ms,
                    namespace@,
                    completed_at@,
                    commit,
                ),
            },
    {
        let ghost before = is_cancelled.answers();
        let tidy = trim(media_filter);
        let wanted = to_ascii_lowercase(tidy.as_str());
        let key = inventory_key(root_identity, recursive, wanted.as_str());
        let ghost t0 = self.tables();
        proof {
            lemma_nothing_asked(before);
            lemma_one_more(before, is_cancelled.answers(), false);
            lemma_one_more(before, is_cancelled.answers(), true);
        }
        if is_cancelled.ask() {
            self.delete_namespace(namespace, true);
            return None;
        }
        self.put_marker(namespace.to_owned(), self.session_id.clone());
        let ghost t1 = self.tables();
        let n: usize = files.len();
        let mut i: usize = 0;
        proof {
            lemma_staged_range(t0.items, namespace@, texts(files@), 0);
        }
        while i < n
            invariant
                i <= n,
                n == files@.len(),
                self.wf(),
                self.same_frame(old(self)),
                t0 == old(self).tables(),
                t1.manifests == t0.manifests,
                t1.staging == t0.staging.insert(namespace@, old(self).session()),
                self.tables().manifests == t0.manifests,
                self.tables().staging == t1.staging,
                self.tables().items == staged(t0.items, namespace@, texts(files@), i as nat),
                without_namespace(self.tables().items, namespace@) == without_namespace(
                    t0.items,
                    namespace@,
                ),
                key_is_own(root_identity@, recursive, stored_filter(media_filter@)),
                is_cancelled.wf(),
                is_cancelled.source() == old(is_cancelled).source(),
                before == old(is_cancelled).answers(),
                obeyed(before, is_cancelled.answers(), false),
                is_cancelled.answers().len() == before.len() + 1 + (i + 2047) / 2048,
            decreases n - i,
        {
            if i % 2048 == 0 {
                proof {
                    lemma_one_more(before, is_cancelled.answers(), false);
                    lemma_one_more(before, is_cancelled.answers(), true);
                    assert((i + 2048) / 2048 == (i + 2047) / 2048 + 1);
                }
            }
            if i % 2048 == 0 && is_cancelled.ask() {
                self.delete_namespace(namespace, true);
                assert(self.tables().staging =~= t0.staging.remove(namespace@));
                return None;
            }
            let mut item = inventory_item_prefix(namespace);
            let digits = hex_text(i as u64, 16);
            item.append(digits.as_str());
            self.put_item(item, files[i].clone());
            proof {
                assert(texts(files@)[i as int] == files@[i as int]@);
                lemma_staged_range(t0.items, namespace@, texts(files@), (i + 1) as nat);
            }
            i += 1;
        }
        proof {
            lemma_one_more(before, is_cancelled.answers(), false);
            lemma_one_more(before, is_cancelled.answers(), true);
        }
        if is_cancelled.ask() {
            self.delete_namespace(namespace, true);
            assert(self.tables().staging =~= t0.staging.remove(namespace@));
            return None;
        }
        let mut generation: u64 = 1;
        let mut superseded: Option<String> = None;
        if let Some(StoredManifest::Valid(m)) = self.manifests.get(key.as_str()) {
            generation = if m.generation == u64::MAX {
                u64::MAX
            } else {
                m.generation + 1
            };
            superseded = Some(m.item_namespace.clone());
        }
        let manifest = InventoryManifest {
            schema_version: 1,
            generation,
            item_namespace: namespace.to_owned(),
            root_identity: root_identity.to_owned(),
            root_display: root_display.to_owned(),
            recursive,
            media_filter: wanted,
            completed_at: completed_at.to_owned(),
            scan_elapsed_ms,
            first_batch_ms,
            item_count: n,
        };
        proof {
            lemma_one_more(before, is_cancelled.answers(), false);
            lemma_one_more(before, is_cancelled.answers(), true);
        }
        if is_cancelled.ask() {
            self.delete_namespace(namespace, true);
            assert(self.tables().staging =~= t0.staging.remove(namespace@));
            return None;
        }
        self.put_manifest(key, manifest);
        self.delete_marker(namespace);
        proof {
            assert(self.tables().staging =~= t0.staging.remove(namespace@));
        }
        Some(MediaInventoryCommit { generation, superseded_namespace: superseded })
    }

    /// Removes the rows of a generation that has been superseded.
    pub fn cleanup_superseded(&mut self, commit: &MediaInventoryCommit)
        requires
            old(self).wf(),
        ensures
            final(self).wf(),
            final(self).same_frame(old(self)),
            final(self).tables().manifests == old(self).tables().manifests,
            final(self).tables().staging == old(self).tables().staging,
            forall|k: Seq<char>| #[trigger]
                final(self).tables().items.contains_key(k) <==> old(self).tables().items.contains_key(
                    k,
                ) && (commit.superseded_namespace is Some ==> !in_range(
                    k,
                    commit.superseded_namespace->0@,
                )),
            final(self).tables() == match opt_text(commit.superseded_namespace) {
                Some(namespace) => InventoryTables {
                    items: without_namespace(old(self).tables().items, namespace),
                    ..old(self).tables()
                },
                None => old(self).tables(),
            },
    {
        if let Some(namespace) = &commit.superseded_namespace {
            self.delete_namespace(namespace.as_str(), false);
        }
    }

    /// Removes what other sessions staged and never finished.
    pub fn cleanup_abandoned_staging(&mut self)
        requires
            old(self).wf(),
        ensures
            final(self).wf(),
            final(self).same_frame(old(self)),
            final(self).tables() == reclaimed(old(self).tables(), old(self).session()),
    {
        self.staging.check_order();
        let ghost t0 = self.tables();
        let ghost own = self.session();
        let ghost rows = self.staging@;
        let ghost keys = self.staging.keys();
        let n: usize = self.staging.len();
        let mut gone: Vec<String> = Vec::new();
        let mut i: usize = 0;
        assert(texts(gone@) =~= Seq::<Seq<char>>::empty());
        while i < n
            invariant
                i <= n,
                n == keys.len(),
                keys == self.staging.keys(),
                rows == self.staging@,
                own == self.session_id@,
                *self == *old(self),
                forall|k: Seq<char>| #[trigger] rows.contains_key(k) <==> keys.contains(k),
                forall|k: Seq<char>| #[trigger]
                    texts(gone@).contains(k) <==> rows.contains_key(k) && rows[k]@ != own
                        && exists|j: int| 0 <= j < i && #[trigger] keys[j] == k,
            decreases n - i,
        {
            let key = self.staging.key_at(i);
            let session = self.staging.value_at(i);
            let ghost before = texts(gone@);
            let ghost at = keys[i as int];
            assert(keys.contains(at));
            if !str_eq(session.as_str(), self.session_id.as_str()) {
                let copy = key.clone();
                gone.push(copy);
                assert(texts(gone@) =~= before.push(copy@));
            }
            proof {
                let after = texts(gone@);
                assert forall|k: Seq<char>| #[trigger]
                    after.contains(k) <==> rows.contains_key(k) && rows[k]@ != own && exists|j: int|
                        0 <= j < i + 1 && #[trigger] keys[j] == k by {
                    if before.contains(k) {
                        let j = before.index_of(k);
                        assert(after[j] == k);
                        let p = choose|p: int| 0 <= p < i && #[trigger] keys[p] == k;
                        assert(keys[p] == k);
                    }
                    if k == at {
                        assert(keys[i as int] == k);
                        if after.len() > before.len() {
                            assert(after[before.len() as int] == k);
                        }
                    }
                    if after.contains(k) && k != at {
                        let j = after.index_of(k);
                        assert(after[j] == k);
                        assert(before[j] == k);
                    }
                }
            }
            i += 1;
        }
        let ghost all = texts(gone@);
        let m: usize = gone.len();
        let mut j: usize = 0;
        while j < m
            invariant
                j <= m,
                m == gone@.len(),
                all == texts(gone@),
                self.wf(),
                self.same_frame(old(self)),
                self.tables().manifests == t0.manifests,
                forall|k: Seq<char>| #[trigger]
                    self.tables().staging.contains_key(k) <==> t0.staging.contains_key(k)
                        && !all.take(j as int).contains(k),
                forall|k: Seq<char>| #[trigger]
                    self.tables().staging.contains_key(k) ==> self.tables().staging[k]
                        == t0.staging[k],
                forall|k: Seq<char>| #[trigger]
                    self.tables().items.contains_key(k) <==> t0.items.contains_key(k) && !(exists|
                        p: int,
                    |
                        0 <= p < j && in_range(k, #[trigger] all[p])),
                forall|k: Seq<char>| #[trigger]
                    self.tables().items.contains_key(k) ==> self.tables().items[k] == t0.items[k],
            decreases m - j,
        {
            let ghost before = self.tables();
            let ghost namespace = all[j as int];
            self.delete_namespace(gone[j].as_str(), true);
            proof {
                let after = self.tables();
                let prefix = all.take(j as int);
                assert(all.take(j + 1) =~= prefix.push(namespace));
                assert forall|k: Seq<char>| #[trigger]
                    after.staging.contains_key(k) <==> t0.staging.contains_key(k) && !all.take(
                        j + 1,
                    ).contains(k) by {
                    if prefix.contains(k) {
                        let p = prefix.index_of(k);
                        assert(all.take(j + 1)[p] == k);
                    }
                    if k == namespace {
                        assert(all.take(j + 1)[j as int] == k);
                    }
                    if all.take(j + 1).contains(k) && k != namespace {
                        let p = all.take(j + 1).index_of(k);
                        assert(all.take(j + 1)[p] == k);
                        assert(prefix[p] == k);
                    }
                    assert(before.staging.contains_key(k) <==> t0.staging.contains_key(k)
                        && !prefix.contains(k));
                }
                assert forall|k: Seq<char>| #[trigger]
                    after.staging.contains_key(k) implies after.staging[k] == t0.staging[k] by {
                    assert(before.staging.contains_key(k));
                }
                assert forall|k: Seq<char>| #[trigger]
                    after.items.contains_key(k) <==> t0.items.contains_key(k) && !(exists|p: int|
                        0 <= p < j + 1 && in_range(k, #[trigger] all[p])) by {
                    assert(before.items.contains_key(k) <==> t0.items.contains_key(k) && !(exists|
                        p: int,
                    |
                        0 <= p < j && in_range(k, #[trigger] all[p])));
                    if in_range(k, namespace) {
                        assert(in_range(k, all[j as int]));
                    }
                }
                assert forall|k: Seq<char>| #[trigger]
                    after.items.contains_key(k) implies after.items[k] == t0.items[k] by {
                    assert(before.items.contains_key(k));
                }
            }
            j += 1;
        }
        proof {
            let goal = reclaimed(t0, own);
            assert(all.take(m as int) =~= all);
            assert forall|k: Seq<char>| #[trigger] all.contains(k) <==> abandoned(t0, own, k) by {
                assert(t0.staging.contains_key(k) <==> rows.contains_key(k));
                if rows.contains_key(k) {
                    let p = keys.index_of(k);
                    assert(keys[p] == k);
                }
            }
            assert(self.tables().staging =~= goal.staging);
            assert forall|k: Seq<char>| #[trigger]
                self.tables().items.contains_key(k) <==> goal.items.contains_key(k) by {
                if exists|p: int| 0 <= p < m && in_range(k, #[trigger] all[p]) {
                    let p = choose|p: int| 0 <= p < m && in_range(k, #[trigger] all[p]);
                    assert(all.contains(all[p]));
                    assert(abandoned(t0, own, all[p]));
                }
                if exists|a: Seq<char>| #[trigger] abandoned(t0, own, a) && in_range(k, a) {
                    let a = choose|a: Seq<char>| #[trigger] abandoned(t0, own, a) && in_range(k, a);
                    assert(all.contains(a));
                    let p = all.index_of(a);
                    assert(in_range(k, all[p]));
                }
            }
            assert(self.tables().items =~= goal.items);
            assert(self.tables() =~= goal);
        }
    }

    /// Replaces the generation of a root whose identity is known. The rows get a namespace of
    /// their own and the time is that of the machine.
    pub fn replace_cancellable_with_identity<F>(
        &mut self,
        root: &str,
        root_identity: &str,
        recursive: bool,
        media_filter: &str,
        files: &Vec<String>,
        scan_elapsed_ms: u64,
        first_batch_ms: Option<u64>,
        is_cancelled: &mut CancelSignal<F>,
    ) -> (r: Option<MediaInventoryCommit>) where F: FnMut() -> bool
        requires
            old(self).wf(),
            old(is_cancelled).wf(),
        ensures
            final(self).wf(),
            final(self).same_frame(old(self)),
            stage_heard(old(is_cancelled), final(is_cancelled), files@.len(), r is None),
            key_is_own(root_identity@, recursive, stored_filter(media_filter@)),
            exists|namespace: Seq<char>, now: Seq<char>|
                is_token(namespace) && #[trigger] replace_outcome(
                    old(self).tables(),
                    final(self).tables(),
                    root@,
                    root_identity@,
                    recursive,
                    media_filter@,
                    texts(files@),
                    scan_elapsed_ms,
                    first_batch_ms,
                    namespace,
                    now,
                    r,
                ),
    {
        let namespace = random_token();
        let now = now_rfc3339();
        let r = self.replace_in_namespace(
            root,
            root_identity,
            recursive,
            media_filter,
            files,
            scan_elapsed_ms,
            first_batch_ms,
            namespace.as_str(),
            now.as_str(),
            is_cancelled,
        );
        assert(replace_outcome(
            old(self).tables(),
            self.tables(),
            root@,
            root_identity@,
            recursive,
            media_filter@,
            texts(files@),
            scan_elapsed_ms,
            first_batch_ms,
            namespace@,
            now@,
            r,
        ));
        r
    }

    /// Replaces the generation of a root. `universal` is the share path that the system has
    /// confirmed for the root, if there is one.
    pub fn replace_cancellable<F>(
        &mut self,
        root: &str,
        universal: Option<&str>,
        recursive: bool,
        media_filter: &str,
        files: &Vec<String>,
        scan_elapsed_ms: u64,
        first_batch_ms: Option<u64>,
        is_cancelled: &mut CancelSignal<F>,
    ) -> (r: Option<MediaInventoryCommit>) where F: FnMut() -> bool
        requires
            old(self).wf(),
            old(is_cancelled).wf(),
        ensures
            final(self).wf(),
            final(self).same_frame(old(self)),
            stage_heard(old(is_cancelled), final(is_cancelled), files@.len(), r is None),
            key_is_own(root_identity_of(root, universal), recursive, stored_filter(media_filter@)),
            exists|namespace: Seq<char>, now: Seq<char>|
                is_token(namespace) && #[trigger] replace_outcome(
                    old(self).tables(),
                    final(self).tables(),
                    root@,
                    root_identity_of(root, universal),
                    recursive,
                    media_filter@,
                    texts(files@),
                    scan_elapsed_ms,
                    first_batch_ms,
                    namespace,
                    now,
                    r,
                ),
    {
        let identity = stable_media_root_identity(root, universal);
        let r = self.replace_cancellable_with_identity(
            root,
            identity.as_str(),
            recursive,
            media_filter,
            files,
            scan_elapsed_ms,
            first_batch_ms,
            is_cancelled,
        );
        assert(identity@ == root_identity_of(root, universal));
        r
    }

    /// Replaces the generation of a root.
    pub fn replace(
        &mut self,
        root: &str,
        universal: Option<&str>,
        recursive: bool,
        media_filter: &str,
        files: &Vec<String>,
        scan_elapsed_ms: u64,
        first_batch_ms: Option<u64>,
    ) -> (r: Result<MediaInventoryCommit, String>)
        requires
            old(self).wf(),
        ensures
            final(self).wf(),
            final(self).same_frame(old(self)),
            r is Ok,
            key_is_own(root_identity_of(root, universal), recursive, stored_filter(media_filter@)),
            exists|namespace: Seq<char>, now: Seq<char>|
                is_token(namespace) && #[trigger] replace_outcome(
                    old(self).tables(),
                    final(self).tables(),
                    root@,
                    root_identity_of(root, universal),
                    recursive,
                    media_filter@,
                    texts(files@),
                    scan_elapsed_ms,
                    first_batch_ms,
                    namespace,
                    now,
                    Some(r->Ok_0),
                ),
    {
        let never = || -> (b: bool)
            ensures
                !b,
            { false };
        let mut signal = CancelSignal::new(never);
        let out = self.replace_cancellable(
            root,
            universal,
            recursive,
            media_filter,
            files,
            scan_elapsed_ms,
            first_batch_ms,
            &mut signal,
        );
        let ghost done = out;
        assert(out is Some) by {
            if out is None {
                let last = signal.answers().len() - 1;
                assert(signal.answers()[last]);
            }
        }
        match out {
            Some(commit) => {
                let r: Result<MediaInventoryCommit, String> = Ok(commit);
                assert(Some(r->Ok_0) == done);
                r
            },
            None => Err("inventory replacement cancelled".to_owned()),
        }
    }

    /// Reads the last generation of a root. `universal` is the share path that the system has
    /// confirmed for the root, if there is one.
    pub fn load(
        &self,
        root: &str,
        universal: Option<&str>,
        recursive: bool,
        media_filter: &str,
    ) -> (r: Result<Option<MediaInventory>, String>)
        ensures
            load_outcome(
                self.path_style(),
                self.tables(),
                root@,
                root_identity_of(root, universal),
                recursive,
                media_filter@,
                r,
            ),
    {
        let identity = stable_media_root_identity(root, universal);
        self.load_with_identity(root, identity.as_str(), recursive, media_filter)
    }
}

} // verus!
