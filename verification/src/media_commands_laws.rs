//! What the commands on media metadata promise.

use crate::api::{ActionStatus, CommandKind, Receipt, Reply};
use crate::color_labels::{
    assigned_ids, checked_catalog, has_id, label_named, labels_of, ColorLabelDefinition, LabelModel,
};
use crate::media_commands::{
    delete_refusal, favorite_outcome, label_assign_outcome, label_changed, label_configure_outcome,
    label_create_outcome, label_delete_outcome, label_error, label_made, label_update_outcome,
    labels_assigned, labels_list_outcome, lists_favorites, lists_rows, media_outcome, meta_at,
    meta_errors, meta_get_outcome, meta_list_outcome, meta_set_outcome, on_metadata, unavailable,
    write_error, MediaReply,
};
use crate::media_db::{
    catalog_without, clean_tags, is_listed, labels_at, looked_up, row_meta, usage, MediaDb,
    TableName,
};
use crate::media_db_laws::labels_come_and_go;
use crate::media_keys::{absolute_key, key_of};
use crate::text::{opt_text, texts, trimmed};
use vstd::prelude::*;

verus! {

/// Asking changes nothing, and is answered wherever the database can be read.
pub proof fn questions_change_nothing(before: MediaDb, after: MediaDb, k: CommandKind, r: Receipt)
    requires
        media_outcome(&before, &after, k, r),
        k is MediaMetaGet || k is MediaMetaList || k is MediaLabelsList || k is MediaFavList,
    ensures
        after.tables() == before.tables(),
        !unavailable(&before) ==> r.status == ActionStatus::Completed && r.error is None,
        unavailable(&before) ==> r.status == ActionStatus::Error && r.result is Nothing,
{
}

/// A command that is refused changes nothing.
pub proof fn refused_commands_change_nothing(
    before: MediaDb,
    after: MediaDb,
    k: CommandKind,
    r: Receipt,
)
    requires
        media_outcome(&before, &after, k, r),
        on_metadata(k),
        r.status == ActionStatus::Rejected,
    ensures
        after.tables() == before.tables(),
{
    match k {
        CommandKind::MediaLabelConfigure { id, name, hex } => {
            assert(label_configure_outcome(&before, &after, id@, name@, hex@, r));
        },
        CommandKind::MediaLabelCreate { name, hex, path } => {
            assert(label_create_outcome(&before, &after, name@, hex@, opt_text(path), r));
            let (id, x) = choose|id: Seq<char>, x: Result<ColorLabelDefinition, String>|
                {
                    &&& #[trigger] label_made(&before, &after, opt_text(path), id, name@, hex@, x)
                    &&& x is Ok ==> r.status == ActionStatus::Completed
                };
            assert(label_made(&before, &after, opt_text(path), id, name@, hex@, x));
        },
        CommandKind::MediaLabelUpdate { id, name, hex } => {
            assert(label_update_outcome(&before, &after, id@, opt_text(name), opt_text(hex), r));
            let x = choose|x: Result<ColorLabelDefinition, String>|
                {
                    &&& #[trigger] label_changed(
                        &before,
                        &after,
                        id@,
                        opt_text(name),
                        opt_text(hex),
                        x,
                    )
                    &&& x is Ok ==> r.status == ActionStatus::Completed
                };
            assert(label_changed(&before, &after, id@, opt_text(name), opt_text(hex), x));
        },
        CommandKind::MediaLabelAssign { path, id, action } => {
            assert(label_assign_outcome(&before, &after, path@, opt_text(id), action@, r));
            let x = choose|x: Result<Vec<String>, String>|
                {
                    &&& #[trigger] labels_assigned(
                        &before,
                        &after,
                        path@,
                        opt_text(id),
                        action@,
                        x,
                    )
                    &&& x is Ok ==> r.status == ActionStatus::Completed
                };
            assert(labels_assigned(&before, &after, path@, opt_text(id), action@, x));
        },
        _ => {},
    }
}

/// A database that cannot be written stays as it is, whatever is asked of it, and every command
/// that would change it says that it failed.
pub proof fn only_writable_databases_change(
    before: MediaDb,
    after: MediaDb,
    k: CommandKind,
    r: Receipt,
)
    requires
        media_outcome(&before, &after, k, r),
        on_metadata(k),
        !before.writable(),
    ensures
        after.tables() == before.tables(),
        k is MediaLabelConfigure || k is MediaLabelCreate || k is MediaLabelUpdate
            || k is MediaLabelDelete || k is MediaLabelAssign || k is MediaFavAdd
            || k is MediaFavRemove ==> r.status != ActionStatus::Completed && r.error is Some,
        k matches CommandKind::MediaMetaSet { path, notes, tags, label } && (notes is Some || tags
            is Some || label is Some) ==> r.status == ActionStatus::Error && r.error is Some,
{
    match k {
        CommandKind::MediaLabelCreate { name, hex, path } => {
            if !unavailable(&before) {
                assert(label_create_outcome(&before, &after, name@, hex@, opt_text(path), r));
                let (id, x) = choose|id: Seq<char>, x: Result<ColorLabelDefinition, String>|
                    {
                        &&& #[trigger] label_made(
                            &before,
                            &after,
                            opt_text(path),
                            id,
                            name@,
                            hex@,
                            x,
                        )
                        &&& x is Err ==> r.status == ActionStatus::Rejected && r.error is Some
                    };
                assert(label_made(&before, &after, opt_text(path), id, name@, hex@, x));
            }
        },
        CommandKind::MediaMetaSet { path, notes, tags, label } => {
            if notes is Some || tags is Some || label is Some {
                let n = opt_text(notes);
                let g = opt_text(tags);
                let l = opt_text(label);
                assert(meta_set_outcome(&before, &after, path@, n, g, l, r));
                assert(write_error(&before, "notes: "@, n is Some).len() == if notes is Some {
                    1nat
                } else {
                    0nat
                });
                assert(write_error(&before, "tags: "@, g is Some).len() == if tags is Some {
                    1nat
                } else {
                    0nat
                });
                assert(label is Some ==> label_error(&before, l).len() == 1);
                assert(meta_errors(&before, n, g, l).len() > 0);
            }
        },
        _ => {},
    }
}

/// What is written reads back: the notes and the tags that are given, each under its own field.
/// A field that is not given stays, and so do the favorites and the palette. The receipt shows what
/// is then stored.
pub proof fn written_fields_read_back(
    before: MediaDb,
    after: MediaDb,
    path: Seq<char>,
    notes: Option<Seq<char>>,
    tags: Option<Seq<char>>,
    label: Option<Seq<char>>,
    r: Receipt,
)
    requires
        before.writable(),
        after.same_frame(&before),
        meta_set_outcome(&before, &after, path, notes, tags, label, r),
    ensures
        notes is Some && trimmed(notes->0).len() > 0 ==> meta_at(&after, path).notes == notes->0,
        tags is Some && trimmed(clean_tags(tags->0)).len() > 0 ==> meta_at(&after, path).tags
            == clean_tags(tags->0),
        notes is None ==> meta_at(&after, path).notes == meta_at(&before, path).notes,
        tags is None ==> meta_at(&after, path).tags == meta_at(&before, path).tags,
        label is None ==> meta_at(&after, path).labels == meta_at(&before, path).labels,
        meta_at(&after, path).favorite == meta_at(&before, path).favorite,
        after.catalog_seen() == before.catalog_seen(),
        r.result matches Reply::Media(MediaReply::MetaWritten { path: p, key, meta }) && p@ == path
            && key@ == key_of(before.root(), path) && meta@ == meta_at(&after, path),
        label is None ==> r.status == ActionStatus::Completed,
{
}

/// Every field that could not be written has its own message, in the order of the fields, with a
/// semicolon between them.
pub proof fn failed_fields_are_told_one_by_one(
    db: &MediaDb,
    notes: Option<Seq<char>>,
    tags: Option<Seq<char>>,
    label: Option<Seq<char>>,
)
    ensures
        meta_errors(db, None, None, None).len() == 0,
        meta_errors(db, notes, tags, label) == meta_errors(db, notes, None, None) + meta_errors(
            db,
            None,
            tags,
            None,
        ) + meta_errors(db, None, None, label),
        db.writable() ==> meta_errors(db, notes, tags, None).len() == 0,
        !db.writable() && notes is Some ==> meta_errors(db, notes, tags, label).len() > 0,
        meta_errors(db, notes, tags, label).len() <= 3,
{
    let e = Seq::<Seq<char>>::empty();
    let a = write_error(db, "notes: "@, notes is Some);
    let b = write_error(db, "tags: "@, tags is Some);
    let c = label_error(db, label);
    assert(meta_errors(db, notes, None, None) =~= a);
    assert(meta_errors(db, None, tags, None) =~= b);
    assert(meta_errors(db, None, None, label) =~= c);
    assert(meta_errors(db, None, None, None) =~= e);
}

/// A file that is made a favorite is one, and one that is taken out is none. The receipt says which,
/// and nothing else changes.
pub proof fn favorites_are_set_as_asked(
    before: MediaDb,
    after: MediaDb,
    path: Seq<char>,
    favorite: bool,
    other: Seq<char>,
    r: Receipt,
)
    requires
        before.writable(),
        after.same_frame(&before),
        favorite_outcome(&before, &after, path, favorite, r),
        other != key_of(before.root(), path),
        other != absolute_key(path),
    ensures
        meta_at(&after, path).favorite == favorite,
        meta_at(&after, path).notes == meta_at(&before, path).notes,
        meta_at(&after, path).tags == meta_at(&before, path).tags,
        meta_at(&after, path).labels == meta_at(&before, path).labels,
        after.catalog_seen() == before.catalog_seen(),
        after.tables().favorites.contains_key(other) <==> before.tables().favorites.contains_key(
            other,
        ),
        r.status == ActionStatus::Completed,
        r.result matches Reply::Media(MediaReply::Favorite { path: p, favorite: f }) && p@ == path
            && f == favorite,
{
}

/// Every favorite is listed once.
pub proof fn favorites_are_listed_once(
    db: &MediaDb,
    paths: Seq<String>,
    keys: Seq<Seq<char>>,
    path: Seq<char>,
)
    requires
        lists_favorites(db, paths, keys),
        db.seen(TableName::Favorites).contains_key(key_of(db.root(), path)),
    ensures
        keys.contains(key_of(db.root(), path)),
        0 < paths.len() == keys.len(),
{
    let k = key_of(db.root(), path);
    assert(keys.contains(k));
}

proof fn lemma_place(defs: Seq<LabelModel>, id: Seq<char>)
    ensures
        match crate::media_db::place_of_id(defs, id) {
            Some(i) => 0 <= i < defs.len() && defs[i].id == id,
            None => forall|i: int| 0 <= i < defs.len() ==> (#[trigger] defs[i]).id != id,
        },
    decreases defs.len(),
{
    if defs.len() > 0 && defs[0].id != id {
        let rest = defs.drop_first();
        lemma_place(rest, id);
        match crate::media_db::place_of_id(rest, id) {
            Some(i) => {
                assert(rest[i] == defs[i + 1]);
            },
            None => {
                assert forall|i: int| 0 <= i < defs.len() implies (#[trigger] defs[i]).id
                    != id by {
                    if i > 0 {
                        assert(rest[i - 1] == defs[i]);
                    }
                }
            },
        }
    }
}

/// A label is deleted where it is known and either not in use or the deletion is confirmed. One in
/// use asks for the confirmation first, and the receipt counts the files that carry it.
pub proof fn labels_in_use_need_a_confirmation(
    before: MediaDb,
    after: MediaDb,
    id: Seq<char>,
    confirmed: bool,
    r: Receipt,
)
    requires
        before.writable(),
        label_delete_outcome(&before, &after, id, confirmed, r),
    ensures
        ({
            let used = usage(before.tables().labels, id);
            let known = has_id(before.catalog_seen(), id);
            &&& !known ==> r.status == ActionStatus::Rejected
            &&& known && used > 0 && !confirmed ==> {
                &&& r.status == ActionStatus::Rejected
                &&& r.result matches Reply::Media(
                    MediaReply::DeleteRefused { id: i, usage_count, confirmation_required, labels },
                ) && i@ == id && usage_count == used && confirmation_required
            }
            &&& known && (used == 0 || confirmed) && checked_catalog(
                catalog_without(before.catalog_seen(), id),
            ) is Ok ==> r.status == ActionStatus::Completed
            &&& r.status == ActionStatus::Completed ==> {
                &&& known && (used == 0 || confirmed)
                &&& r.result matches Reply::Media(MediaReply::Deleted { deleted, labels })
                    && deleted.id@ == id && deleted.usage_count == used
                    && deleted.assignments_removed == used
                &&& after.tables().notes == before.tables().notes
                &&& after.tables().tags == before.tables().tags
                &&& after.tables().favorites == before.tables().favorites
            }
            &&& r.status == ActionStatus::Rejected ==> after.tables() == before.tables()
            &&& r.result matches Reply::Media(
                MediaReply::DeleteRefused { id: i, usage_count, confirmation_required, labels },
            ) ==> (confirmation_required <==> used > 0 && !confirmed) && labels_of(labels@)
                == before.catalog_seen()
        }),
        delete_refusal(&before, id, true) is None ==> (delete_refusal(&before, id, false) is None
            <==> usage(before.tables().labels, id) == 0),
{
}

/// Whether a label id names its own label: no label before it has the id as its name.
pub open spec fn names_itself(defs: Seq<LabelModel>, id: Seq<char>) -> bool {
    trimmed(id).len() > 0 && label_named(defs, trimmed(id)) == Some(id)
}

proof fn lemma_assigned(defs: Seq<LabelModel>, raws: Seq<Seq<char>>, id: Seq<char>)
    requires
        forall|i: int| 0 <= i < raws.len() ==> names_itself(defs, #[trigger] raws[i]),
    ensures
        assigned_ids(defs, raws) is Ok,
        assigned_ids(defs, raws)->Ok_0.contains(id) <==> raws.contains(id),
    decreases raws.len(),
{
    if raws.len() > 0 {
        let rest = raws.drop_last();
        let last = raws.last();
        assert(rest.push(last) =~= raws);
        assert forall|i: int| 0 <= i < rest.len() implies names_itself(
            defs,
            #[trigger] rest[i],
        ) by {
            assert(rest[i] == raws[i]);
        }
        lemma_assigned(defs, rest, id);
        lemma_assigned(defs, rest, last);
        assert(names_itself(defs, raws[raws.len() - 1]));
        let done = assigned_ids(defs, rest)->Ok_0;
        let all = assigned_ids(defs, raws)->Ok_0;
        if rest.contains(id) {
            assert(raws[rest.index_of(id)] == id);
        }
        if raws.contains(id) && id != last {
            assert(rest[raws.index_of(id)] == id);
        }
        if id == last {
            assert(raws[raws.len() - 1] == id);
        }
        if !done.contains(last) {
            assert(all == done.push(last));
            assert(all[done.len() as int] == last);
            if done.contains(id) {
                assert(all[done.index_of(id)] == id);
            }
            if all.contains(id) && id != last {
                assert(done[all.index_of(id)] == id);
            }
        }
    }
}

/// A label that a file is given is among its labels, and one that is taken is not; the file keeps
/// its other labels, and gets no others.
pub proof fn labels_are_given_and_taken(
    before: MediaDb,
    after: MediaDb,
    path: Seq<char>,
    value: Seq<char>,
    action: Seq<char>,
    r: Receipt,
    other: Seq<char>,
)
    requires
        before.writable(),
        after.same_frame(&before),
        action == "add"@ || action == "remove"@,
        label_assign_outcome(&before, &after, path, Some(value), action, r),
        label_named(before.catalog_seen(), trimmed(value)) is Some,
        names_itself(before.catalog_seen(), label_named(before.catalog_seen(), trimmed(value))->0),
        ({
            let had = labels_at(before.seen(TableName::Labels), before.root(), path);
            forall|i: int|
                0 <= i < had.len() ==> names_itself(before.catalog_seen(), #[trigger] had[i])
        }),
    ensures
        r.status == ActionStatus::Completed,
        ({
            let id = label_named(before.catalog_seen(), trimmed(value))->0;
            let had = labels_at(before.seen(TableName::Labels), before.root(), path);
            let has = labels_at(after.seen(TableName::Labels), after.root(), path);
            &&& has.contains(id) <==> action == "add"@
            &&& other != id ==> (has.contains(other) <==> had.contains(other))
        }),
{
    reveal_strlit("add");
    reveal_strlit("remove");
    assert("add"@.len() == 3 && "remove"@.len() == 6);
    let defs = before.catalog_seen();
    let id = label_named(defs, trimmed(value))->0;
    let had = labels_at(before.seen(TableName::Labels), before.root(), path);
    let with = before.labels_with(path, id);
    let rest = before.labels_without(path, id);
    labels_come_and_go(&before, path, id, 0);
    assert forall|i: int| 0 <= i < with.len() implies names_itself(defs, #[trigger] with[i]) by {
        labels_come_and_go(&before, path, id, i);
        if i < had.len() {
            assert(names_itself(defs, had[i]));
        }
    }
    assert forall|i: int| 0 <= i < rest.len() implies names_itself(defs, #[trigger] rest[i]) by {
        labels_come_and_go(&before, path, id, i);
        assert(names_itself(defs, had[had.index_of(rest[i])]));
    }
    lemma_assigned(defs, with, id);
    lemma_assigned(defs, rest, id);
    lemma_assigned(defs, with, other);
    lemma_assigned(defs, rest, other);
    if other != id {
        if had.contains(other) {
            let i = had.index_of(other);
            labels_come_and_go(&before, path, id, i);
            assert(with[i] == other);
            assert(had[i] == other);
        }
        if with.contains(other) {
            let i = with.index_of(other);
            labels_come_and_go(&before, path, id, i);
            assert(had[i] == other);
        }
        if rest.contains(other) {
            labels_come_and_go(&before, path, id, rest.index_of(other));
        }
    }
    let x = choose|x: Result<Vec<String>, String>|
        {
            &&& #[trigger] labels_assigned(&before, &after, path, Some(value), action, x)
            &&& x is Ok ==> r.status == ActionStatus::Completed
        };
    assert(labels_assigned(&before, &after, path, Some(value), action, x));
}

/// An assignment that is done adds, removes or clears; one that adds or removes names a label that
/// is known, and clearing leaves no label. The receipt shows the labels that the file then has. The
/// notes, the tags, the favorites and the palette stay.
pub proof fn assignments_do_what_they_say(
    before: MediaDb,
    after: MediaDb,
    path: Seq<char>,
    id: Option<Seq<char>>,
    action: Seq<char>,
    r: Receipt,
)
    requires
        before.writable(),
        after.same_frame(&before),
        label_assign_outcome(&before, &after, path, id, action, r),
        r.status == ActionStatus::Completed,
    ensures
        action == "add"@ || action == "remove"@ || action == "clear"@,
        action == "add"@ || action == "remove"@ ==> id is Some && label_named(
            before.catalog_seen(),
            trimmed(id->0),
        ) is Some,
        action == "clear"@ ==> labels_at(after.seen(TableName::Labels), after.root(), path).len()
            == 0,
        r.result matches Reply::Media(MediaReply::Assigned { path: p, labels }) && p@ == path
            && texts(labels@) == labels_at(after.seen(TableName::Labels), after.root(), path),
        after.tables().notes == before.tables().notes,
        after.tables().tags == before.tables().tags,
        after.tables().favorites == before.tables().favorites,
        after.catalog_seen() == before.catalog_seen(),
{
    reveal_strlit("add");
    reveal_strlit("remove");
    reveal_strlit("clear");
    assert("add"@.len() == 3 && "remove"@.len() == 6 && "clear"@.len() == 5);
    let x = choose|x: Result<Vec<String>, String>|
        {
            &&& #[trigger] labels_assigned(&before, &after, path, id, action, x)
            &&& x is Err ==> r.status == ActionStatus::Rejected
            &&& x is Ok ==> (r.result matches Reply::Media(
                MediaReply::Assigned { path: p, labels },
            ) && texts(labels@) == texts(x->Ok_0@))
        };
    assert(labels_assigned(&before, &after, path, id, action, x));
    if action == "clear"@ {
        assert(looked_up(after.tables().labels, before.root(), path) is None);
        assert(texts(x->Ok_0@) =~= labels_at(after.seen(TableName::Labels), after.root(), path));
    }
}

/// Changing a label needs something to change and a label that is known.
pub proof fn label_changes_need_something_to_change(
    before: MediaDb,
    after: MediaDb,
    id: Seq<char>,
    name: Option<Seq<char>>,
    hex: Option<Seq<char>>,
    r: Receipt,
)
    requires
        before.writable(),
        label_update_outcome(&before, &after, id, name, hex, r),
    ensures
        name is None && hex is None ==> r.status == ActionStatus::Rejected,
        (forall|i: int|
            0 <= i < before.catalog_seen().len() ==> (#[trigger] before.catalog_seen()[i]).id != id)
            ==> r.status == ActionStatus::Rejected,
        r.status == ActionStatus::Completed || r.status == ActionStatus::Rejected,
        r.status == ActionStatus::Completed ==> {
            &&& after.tables().notes == before.tables().notes
            &&& after.tables().tags == before.tables().tags
            &&& after.tables().labels == before.tables().labels
            &&& after.tables().favorites == before.tables().favorites
        },
        (name is Some || hex is Some) && crate::media_db::place_of_id(before.catalog_seen(), id)
            is Some && checked_catalog(before.catalog_changed(id, name, hex)) is Ok ==> r.status
            == ActionStatus::Completed,
{
    lemma_place(before.catalog_seen(), id);
    let x = choose|x: Result<ColorLabelDefinition, String>|
        {
            &&& #[trigger] label_changed(&before, &after, id, name, hex, x)
            &&& x is Ok ==> r.status == ActionStatus::Completed
            &&& x is Err ==> r.status == ActionStatus::Rejected
        };
    assert(label_changed(&before, &after, id, name, hex, x));
}

/// The answer on a file shows what is stored of it, field by field: the first of its labels as its
/// label, and none where it has none.
pub proof fn answers_show_what_is_stored(db: &MediaDb, path: Seq<char>, r: Receipt)
    requires
        !unavailable(db),
        meta_get_outcome(db, path, r),
    ensures
        r.result matches Reply::Media(MediaReply::MetaRead { path: p, key, meta, db_status }) && {
            let notes = looked_up(db.tables().notes, db.root(), path);
            let tags = looked_up(db.tables().tags, db.root(), path);
            let labels = labels_at(db.tables().labels, db.root(), path);
            &&& p@ == path
            &&& key@ == key_of(db.root(), path)
            &&& notes is Some ==> meta@.notes == notes->0
            &&& notes is None ==> meta@.notes.len() == 0
            &&& tags is Some ==> meta@.tags == tags->0
            &&& tags is None ==> meta@.tags.len() == 0
            &&& meta@.labels == labels
            &&& labels.len() > 0 ==> meta@.label == labels[0]
            &&& labels.len() == 0 ==> meta@.label.len() == 0
            &&& meta@.favorite <==> looked_up(db.tables().favorites, db.root(), path) is Some
        },
{
}

/// The list of labels shows the palette in force and counts, for each label in use, the files that
/// carry it.
pub proof fn label_lists_count_the_files(db: &MediaDb, id: Seq<char>, r: Receipt)
    requires
        !unavailable(db),
        labels_list_outcome(db, r),
    ensures
        r.result matches Reply::Media(MediaReply::Catalog { labels, usage: counts, db_status }) && {
            let used = usage(db.tables().labels, id);
            &&& labels_of(labels@) == db.catalog_seen()
            &&& used > 0 ==> counts@.contains_key(id) && counts@[id] == used
            &&& used == 0 ==> !counts@.contains_key(id)
        },
{
}

/// The list of files shows those that carry what is asked for and no others, each once, in the order
/// of their keys, with what is stored of them.
pub proof fn file_lists_show_what_is_asked_for(
    db: &MediaDb,
    tag: Option<Seq<char>>,
    label: Option<Seq<char>>,
    r: Receipt,
    key: Seq<char>,
) -> (at: int)
    requires
        !unavailable(db),
        meta_list_outcome(db, tag, label, r),
    ensures
        r.result matches Reply::Media(MediaReply::Rows { rows, tag_vocab, db_status }) && (
        is_listed(db, key, tag, label) ==> 0 <= at < rows@.len() && rows@[at].1@ == row_meta(
            db,
            key,
        )),
{
    match r.result {
        Reply::Media(MediaReply::Rows { rows, tag_vocab, db_status }) => {
            let keys = choose|keys: Seq<Seq<char>>| #[trigger]
                lists_rows(db, tag, label, rows@, keys);
            assert(lists_rows(db, tag, label, rows@, keys));
            assert(keys.contains(key) <==> is_listed(db, key, tag, label));
            if keys.contains(key) {
                keys.index_of(key)
            } else {
                0
            }
        },
        _ => 0,
    }
}

} // verus!
