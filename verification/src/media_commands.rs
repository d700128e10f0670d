//! The commands on media metadata, carried out on the database.

use crate::api::{
    answers, error_receipt, make_receipt, ok_receipt, says, ActionStatus, Command, CommandKind,
    Receipt, Reply,
};
use crate::color_labels::{
    assigned_ids, label_named, labels_of, ColorLabelDefinition, LabelModel,
};
use crate::media_db::{
    catalog_without, confirmation_message, find_place, first_or_empty, is_listed, is_new_label_id,
    is_tag, label_row, labels_at, looked_up, or_empty, path_of_key, place_of_id,
    read_gives_back_the_write, refusal,
    resolved_label, row_meta, usage, written, Access, ColorLabelDeleteResult, MediaDb, MediaMeta,
    MetaModel, TableName, Tables,
};
use crate::media_keys::key_of;
use crate::table::{in_text_order, Table};
use crate::text::{cat, cat3, join, joined, opt_text, replaced, str_eq, texts, trimmed};
use vstd::prelude::*;

verus! {

/// What the receipt of a command on media metadata carries.
#[allow(inconsistent_fields)]
#[derive(Debug)]
pub enum MediaReply {
    MetaRead { path: String, key: String, meta: MediaMeta, db_status: Option<String> },
    MetaWritten { path: String, key: String, meta: MediaMeta },
    Rows { rows: Vec<(String, MediaMeta)>, tag_vocab: Vec<String>, db_status: Option<String> },
    Catalog { labels: Vec<ColorLabelDefinition>, usage: Table<usize>, db_status: Option<String> },
    Labels { labels: Vec<ColorLabelDefinition> },
    Created {
        label: ColorLabelDefinition,
        path: Option<String>,
        assigned_labels: Option<Vec<String>>,
        labels: Vec<ColorLabelDefinition>,
    },
    Updated { label: ColorLabelDefinition, labels: Vec<ColorLabelDefinition> },
    Deleted { deleted: ColorLabelDeleteResult, labels: Vec<ColorLabelDefinition> },
    DeleteRefused {
        id: String,
        usage_count: usize,
        confirmation_required: bool,
        labels: Vec<ColorLabelDefinition>,
    },
    Assigned { path: String, labels: Vec<String> },
    Favorite { path: String, favorite: bool },
    Favorites { favorites: Vec<String>, db_status: Option<String> },
}

pub open spec fn opt_view(o: Option<&str>) -> Option<Seq<char>> {
    match o {
        Some(s) => Some(s@),
        None => None,
    }
}

fn opt_str(o: &Option<String>) -> (r: Option<&str>)
    ensures
        opt_view(r) == opt_text(*o),
        r is Some == o is Some,
{
    match o {
        Some(s) => Some(s.as_str()),
        None => None,
    }
}

fn status_text(db: &MediaDb) -> (r: Option<String>)
    ensures
        opt_text(r) == db.status_of(),
{
    match db.status() {
        Some(s) => Some(s.clone()),
        None => None,
    }
}

/// Whether a receipt says that the database cannot be read.
pub open spec fn says_unavailable(r: Receipt, db: MediaDb) -> bool {
    &&& says(
        r,
        ActionStatus::Error,
        Some(
            match db.status_of() {
                Some(s) => s,
                None => "media db unavailable"@,
            },
        ),
        Some(unavailable_note()),
    )
    &&& r.result is Nothing
}

/// The hint for a database that cannot be read.
pub open spec fn unavailable_note() -> Seq<char> {
    "media db is locked or unavailable — if the GUI is running, close it or drive the media surface through ui-intents (media_set_folder/media_search/media_select)"@
}

/// The receipt of a command while the database cannot be read. Such a command fails rather than
/// answer with nothing, which would look like a file without metadata.
pub fn media_db_unavailable_receipt(cmd: &Command, started_at: &str, db: &MediaDb) -> (r: Receipt)
    ensures
        answers(r, *cmd, started_at@),
        says_unavailable(r, *db),
{
    let error = match db.status() {
        Some(s) => s.clone(),
        None => "media db unavailable".to_owned(),
    };
    make_receipt(
        cmd,
        ActionStatus::Error,
        started_at,
        Reply::Nothing,
        Some(error),
        Some(
            "media db is locked or unavailable — if the GUI is running, close it or drive the media surface through ui-intents (media_set_folder/media_search/media_select)".to_owned(),
        ),
    )
}

/// The combined row of a path.
pub open spec fn meta_at(db: &MediaDb, path: Seq<char>) -> MetaModel {
    let root = db.root();
    let ids = labels_at(db.seen(TableName::Labels), root, path);
    MetaModel {
        notes: or_empty(looked_up(db.seen(TableName::Notes), root, path)),
        tags: or_empty(looked_up(db.seen(TableName::Tags), root, path)),
        labels: ids,
        label: first_or_empty(ids),
        favorite: looked_up(db.seen(TableName::Favorites), root, path) is Some,
    }
}

pub open spec fn unavailable(db: &MediaDb) -> bool {
    db.access_of() == Access::Unavailable
}

/// What asking for the metadata of a path comes to.
pub open spec fn meta_get_outcome(db: &MediaDb, path: Seq<char>, r: Receipt) -> bool {
    if unavailable(db) {
        says_unavailable(r, *db)
    } else {
        &&& says(r, ActionStatus::Completed, None, None)
        &&& r.result matches Reply::Media(MediaReply::MetaRead { path: p, key, meta, db_status })
            && p@ == path && key@ == key_of(db.root(), path) && meta@ == meta_at(db, path)
            && opt_text(db_status) == db.status_of()
    }
}

pub fn media_meta_get(db: &MediaDb, cmd: &Command, started_at: &str, path: &str) -> (r: Receipt)
    ensures
        answers(r, *cmd, started_at@),
        meta_get_outcome(db, path@, r),
{
    if !db.is_available() {
        return media_db_unavailable_receipt(cmd, started_at, db);
    }
    let reply = MediaReply::MetaRead {
        path: path.to_owned(),
        key: db.key_for(path),
        meta: db.meta(path),
        db_status: status_text(db),
    };
    ok_receipt(cmd, started_at, Reply::Media(reply))
}

/// The label ids that an input stands for; white space stands for none.
pub open spec fn label_input(catalog: Seq<LabelModel>, raw: Seq<char>) -> Result<
    Seq<Seq<char>>,
    Seq<char>,
> {
    match resolved_label(catalog, raw) {
        None => Ok(Seq::empty()),
        Some(word) => assigned_ids(catalog, seq![word]),
    }
}

/// Why a field could not be written.
pub open spec fn write_error(db: &MediaDb, field: Seq<char>, given: bool) -> Seq<Seq<char>> {
    if given && !db.writable() {
        seq![field + refusal(db.status_of())]
    } else {
        Seq::empty()
    }
}

/// Why a label could not be written.
pub open spec fn label_error(db: &MediaDb, label: Option<Seq<char>>) -> Seq<Seq<char>> {
    match label {
        None => Seq::empty(),
        Some(raw) => match label_input(db.catalog_seen(), raw) {
            Err(e) => seq!["label: "@ + e],
            Ok(_) => write_error(db, "label: "@, true),
        },
    }
}

/// The reasons for which the given fields could not be written.
pub open spec fn meta_errors(
    db: &MediaDb,
    notes: Option<Seq<char>>,
    tags: Option<Seq<char>>,
    label: Option<Seq<char>>,
) -> Seq<Seq<char>> {
    write_error(db, "notes: "@, notes is Some) + write_error(db, "tags: "@, tags is Some)
        + label_error(db, label)
}

/// The tables after the given fields were written one after the other, each as far as it can be.
pub open spec fn meta_tables(
    db: &MediaDb,
    path: Seq<char>,
    notes: Option<Seq<char>>,
    tags: Option<Seq<char>>,
    label: Option<Seq<char>>,
) -> Tables {
    let t = db.tables();
    if !db.writable() {
        t
    } else {
        Tables {
            notes: if notes is Some {
                written(t.notes, db.root(), path, notes)
            } else {
                t.notes
            },
            tags: if tags is Some {
                written(t.tags, db.root(), path, Some(crate::media_db::clean_tags(tags->0)))
            } else {
                t.tags
            },
            labels: match label {
                Some(raw) => match label_input(db.catalog_seen(), raw) {
                    Ok(ids) => written(t.labels, db.root(), path, label_row(ids)),
                    Err(_) => t.labels,
                },
                None => t.labels,
            },
            ..t
        }
    }
}

/// What writing the metadata of a path comes to.
pub open spec fn meta_set_outcome(
    before: &MediaDb,
    after: &MediaDb,
    path: Seq<char>,
    notes: Option<Seq<char>>,
    tags: Option<Seq<char>>,
    label: Option<Seq<char>>,
    r: Receipt,
) -> bool {
    if unavailable(before) {
        &&& says_unavailable(r, *before)
        &&& after.tables() == before.tables()
    } else {
        let errors = meta_errors(before, notes, tags, label);
        &&& after.tables() == meta_tables(before, path, notes, tags, label)
        &&& if errors.len() == 0 {
            says(r, ActionStatus::Completed, None, None)
        } else {
            says(r, ActionStatus::Error, Some(joined(errors, "; "@)), None)
        }
        &&& r.result matches Reply::Media(MediaReply::MetaWritten { path: p, key, meta })
            && p@ == path && key@ == key_of(before.root(), path) && meta@ == meta_at(after, path)
    }
}

fn note_error(errors: &mut Vec<String>, field: &str, e: &str)
    ensures
        texts(final(errors)@) == texts(old(errors)@) + seq![field@ + e@],
{
    let ghost before = texts(errors@);
    let text = cat(field, e);
    errors.push(text);
    assert(texts(errors@) =~= before + seq![text@]);
}

pub fn media_meta_set(
    db: &mut MediaDb,
    cmd: &Command,
    started_at: &str,
    path: &str,
    notes: Option<&str>,
    tags: Option<&str>,
    label: Option<&str>,
) -> (r: Receipt)
    requires
        old(db).wf(),
    ensures
        final(db).wf(),
        final(db).same_frame(old(db)),
        answers(r, *cmd, started_at@),
        meta_set_outcome(
            old(db),
            final(db),
            path@,
            opt_view(notes),
            opt_view(tags),
            opt_view(label),
            r,
        ),
{
    if !db.is_available() {
        return media_db_unavailable_receipt(cmd, started_at, db);
    }
    let mut errors: Vec<String> = Vec::new();
    assert(texts(errors@) =~= Seq::<Seq<char>>::empty());
    if let Some(n) = notes {
        if let Err(e) = db.set_notes(path, n) {
            note_error(&mut errors, "notes: ", e.as_str());
        }
    }
    assert(texts(errors@) =~= write_error(old(db), "notes: "@, notes is Some));
    if let Some(t) = tags {
        if let Err(e) = db.set_tags(path, t) {
            note_error(&mut errors, "tags: ", e.as_str());
        }
    }
    assert(db.catalog_seen() == old(db).catalog_seen());
    assert(texts(errors@) =~= write_error(old(db), "notes: "@, notes is Some) + write_error(
        old(db),
        "tags: "@,
        tags is Some,
    ));
    if let Some(l) = label {
        if let Err(e) = db.set_label(path, l) {
            note_error(&mut errors, "label: ", e.as_str());
        }
    }
    proof {
        assert(texts(errors@) =~= meta_errors(
            old(db),
            opt_view(notes),
            opt_view(tags),
            opt_view(label),
        ));
        assert(db.tables() =~= meta_tables(
            old(db),
            path@,
            opt_view(notes),
            opt_view(tags),
            opt_view(label),
        ));
        assert(texts(errors@).len() == errors@.len());
    }
    let reply = MediaReply::MetaWritten {
        path: path.to_owned(),
        key: db.key_for(path),
        meta: db.meta(path),
    };
    if errors.len() == 0 {
        ok_receipt(cmd, started_at, Reply::Media(reply))
    } else {
        make_receipt(
            cmd,
            ActionStatus::Error,
            started_at,
            Reply::Media(reply),
            Some(join(&errors, "; ")),
            None,
        )
    }
}

/// Whether rows are those that the filters let through, each with its path, in key order.
pub open spec fn lists_rows(
    db: &MediaDb,
    tag: Option<Seq<char>>,
    label: Option<Seq<char>>,
    rows: Seq<(String, MediaMeta)>,
    keys: Seq<Seq<char>>,
) -> bool {
    &&& in_text_order(keys)
    &&& keys.len() == rows.len()
    &&& forall|k: Seq<char>| #[trigger] keys.contains(k) <==> is_listed(db, k, tag, label)
    &&& forall|i: int|
        0 <= i < rows.len() ==> (#[trigger] rows[i]).0@ == path_of_key(
            db.path_style(),
            db.root(),
            keys[i],
        ) && rows[i].1@ == row_meta(db, keys[i])
}

/// Whether a list holds the tags in use, in order.
pub open spec fn lists_vocab(db: &MediaDb, vocab: Seq<Seq<char>>) -> bool {
    &&& in_text_order(vocab)
    &&& forall|t: Seq<char>| #[trigger]
        vocab.contains(t) <==> exists|k: Seq<char>| #[trigger]
            db.seen(TableName::Tags).contains_key(k) && is_tag(db.seen(TableName::Tags)[k], t)
}

/// What asking for all metadata comes to.
pub open spec fn meta_list_outcome(
    db: &MediaDb,
    tag: Option<Seq<char>>,
    label: Option<Seq<char>>,
    r: Receipt,
) -> bool {
    if unavailable(db) {
        says_unavailable(r, *db)
    } else {
        &&& says(r, ActionStatus::Completed, None, None)
        &&& r.result matches Reply::Media(MediaReply::Rows { rows, tag_vocab, db_status })
            && lists_vocab(db, texts(tag_vocab@)) && opt_text(db_status) == db.status_of() && (
        exists|keys: Seq<Seq<char>>| #[trigger] lists_rows(db, tag, label, rows@, keys))
    }
}

pub fn media_meta_list(
    db: &MediaDb,
    cmd: &Command,
    started_at: &str,
    tag: Option<&str>,
    label: Option<&str>,
) -> (r: Receipt)
    ensures
        answers(r, *cmd, started_at@),
        meta_list_outcome(db, opt_view(tag), opt_view(label), r),
{
    if !db.is_available() {
        return media_db_unavailable_receipt(cmd, started_at, db);
    }
    let rows = db.list_meta(tag, label);
    let ghost keys = choose|keys: Seq<Seq<char>>|
            {
                &&& #[trigger] in_text_order(keys)
                &&& keys.len() == rows@.len()
                &&& forall|k: Seq<char>| #[trigger]
                    keys.contains(k) <==> is_listed(db, k, opt_view(tag), opt_view(label))
                &&& forall|i: int|
                    0 <= i < rows@.len() ==> (#[trigger] rows@[i]).0@ == path_of_key(
                        db.path_style(),
                        db.root(),
                        keys[i],
                    ) && rows@[i].1@ == row_meta(db, keys[i])
            };
    assert(lists_rows(db, opt_view(tag), opt_view(label), rows@, keys));
    let tag_vocab = db.tag_vocab();
    assert(lists_vocab(db, texts(tag_vocab@)));
    let reply = MediaReply::Rows { rows, tag_vocab, db_status: status_text(db) };
    let r = ok_receipt(cmd, started_at, Reply::Media(reply));
    assert(lists_rows(db, opt_view(tag), opt_view(label), r.result->Media_0->rows@, keys));
    r
}

/// What asking for the catalog comes to.
pub open spec fn labels_list_outcome(db: &MediaDb, r: Receipt) -> bool {
    if unavailable(db) {
        says_unavailable(r, *db)
    } else {
        &&& says(r, ActionStatus::Completed, None, None)
        &&& r.result matches Reply::Media(MediaReply::Catalog { labels, usage: counts, db_status })
            && labels_of(labels@) == db.catalog_seen() && opt_text(db_status) == db.status_of() && (
        forall|id: Seq<char>| #[trigger]
            counts@.contains_key(id) <==> usage(db.seen(TableName::Labels), id) > 0) && (forall|
            id: Seq<char>,
        | #[trigger]
            counts@.contains_key(id) ==> counts@[id] == usage(db.seen(TableName::Labels), id))
    }
}

pub fn media_labels_list(db: &MediaDb, cmd: &Command, started_at: &str) -> (r: Receipt)
    ensures
        answers(r, *cmd, started_at@),
        labels_list_outcome(db, r),
{
    if !db.is_available() {
        return media_db_unavailable_receipt(cmd, started_at, db);
    }
    let reply = MediaReply::Catalog {
        labels: db.color_label_definitions(),
        usage: db.color_label_usage_counts(),
        db_status: status_text(db),
    };
    ok_receipt(cmd, started_at, Reply::Media(reply))
}

/// Whether a receipt carries the catalog in force.
pub open spec fn shows_catalog(r: Receipt, db: &MediaDb) -> bool {
    r.result matches Reply::Media(MediaReply::Labels { labels }) && labels_of(labels@)
        == db.catalog_seen()
}

/// What the older form of changing a label comes to.
pub open spec fn label_configure_outcome(
    before: &MediaDb,
    after: &MediaDb,
    id: Seq<char>,
    name: Seq<char>,
    hex: Seq<char>,
    r: Receipt,
) -> bool {
    if unavailable(before) {
        &&& says_unavailable(r, *before)
        &&& after.tables() == before.tables()
    } else if place_of_id(before.catalog_seen(), id) is None {
        &&& says(
            r,
            ActionStatus::Rejected,
            Some("unknown stable color-label id: "@ + id),
            None,
        )
        &&& shows_catalog(r, before)
        &&& after.tables() == before.tables()
    } else {
        exists|x: Result<Vec<ColorLabelDefinition>, String>|
            {
                &&& #[trigger] before.catalog_set(
                    after,
                    before.catalog_changed(id, Some(name), Some(hex)),
                    x,
                )
                &&& match x {
                    Ok(labels) => {
                        &&& says(r, ActionStatus::Completed, None, None)
                        &&& r.result matches Reply::Media(MediaReply::Labels { labels: l })
                            && labels_of(l@) == labels_of(labels@)
                    },
                    Err(e) => {
                        &&& says(r, ActionStatus::Rejected, Some(e@), None)
                        &&& shows_catalog(r, after)
                    },
                }
            }
    }
}

pub fn media_label_configure(
    db: &mut MediaDb,
    cmd: &Command,
    started_at: &str,
    id: &str,
    name: &str,
    hex: &str,
) -> (r: Receipt)
    requires
        old(db).wf(),
    ensures
        final(db).wf(),
        final(db).same_frame(old(db)),
        answers(r, *cmd, started_at@),
        label_configure_outcome(old(db), final(db), id@, name@, hex@, r),
{
    if !db.is_available() {
        return media_db_unavailable_receipt(cmd, started_at, db);
    }
    let mut defs = db.color_label_definitions();
    let ghost all = labels_of(defs@);
    let i: usize = match find_place(&defs, id) {
        Some(i) => i,
        None => {
            return make_receipt(
                cmd,
                ActionStatus::Rejected,
                started_at,
                Reply::Media(MediaReply::Labels { labels: defs }),
                Some(cat("unknown stable color-label id: ", id)),
                None,
            );
        },
    };
    let d = ColorLabelDefinition {
        id: defs[i].id.clone(),
        name: name.to_owned(),
        hex: hex.to_owned(),
    };
    let ghost dm = d@;
    defs.set(i, d);
    assert(labels_of(defs@) =~= all.update(i as int, dm));
    assert(labels_of(defs@) =~= old(db).catalog_changed(id@, Some(name@), Some(hex@)));
    let x = db.set_color_label_definitions(&defs);
    let ghost outcome = x;
    match x {
        Ok(labels) => {
            assert(old(db).catalog_set(
                db,
                old(db).catalog_changed(id@, Some(name@), Some(hex@)),
                outcome,
            ));
            ok_receipt(cmd, started_at, Reply::Media(MediaReply::Labels { labels }))
        },
        Err(e) => {
            assert(old(db).catalog_set(
                db,
                old(db).catalog_changed(id@, Some(name@), Some(hex@)),
                outcome,
            ));
            rejected_with_catalog(db, cmd, started_at, e)
        },
    }
}

fn rejected_with_catalog(db: &MediaDb, cmd: &Command, started_at: &str, error: String) -> (r: Receipt)
    ensures
        answers(r, *cmd, started_at@),
        says(r, ActionStatus::Rejected, Some(error@), None),
        shows_catalog(r, db),
{
    let labels = db.color_label_definitions();
    make_receipt(
        cmd,
        ActionStatus::Rejected,
        started_at,
        Reply::Media(MediaReply::Labels { labels }),
        Some(error),
        None,
    )
}

pub open spec fn opt_texts(o: Option<Vec<String>>) -> Option<Seq<Seq<char>>> {
    match o {
        Some(v) => Some(texts(v@)),
        None => None,
    }
}

/// What creating a label comes to.
pub open spec fn label_create_outcome(
    before: &MediaDb,
    after: &MediaDb,
    name: Seq<char>,
    hex: Seq<char>,
    path: Option<Seq<char>>,
    r: Receipt,
) -> bool {
    if unavailable(before) {
        &&& says_unavailable(r, *before)
        &&& after.tables() == before.tables()
    } else {
        exists|id: Seq<char>, x: Result<ColorLabelDefinition, String>|
            {
                &&& is_new_label_id(id)
                &&& !crate::color_labels::has_id(before.catalog_seen(), id)
                &&& #[trigger] label_made(before, after, path, id, name, hex, x)
                &&& match x {
                    Ok(made) => {
                        &&& says(r, ActionStatus::Completed, None, None)
                        &&& r.result matches Reply::Media(
                            MediaReply::Created { label, path: p, assigned_labels, labels },
                        ) && label@ == made@ && opt_text(p) == path && opt_texts(assigned_labels)
                            == match path {
                            Some(p) => Some(
                                labels_at(after.seen(TableName::Labels), after.root(), p),
                            ),
                            None => None,
                        } && labels_of(labels@) == after.catalog_seen()
                    },
                    Err(e) => {
                        &&& says(r, ActionStatus::Rejected, Some(e@), None)
                        &&& shows_catalog(r, after)
                    },
                }
            }
    }
}

/// What creating a label under an id does, and giving it to a path where one is given.
pub open spec fn label_made(
    before: &MediaDb,
    after: &MediaDb,
    path: Option<Seq<char>>,
    id: Seq<char>,
    name: Seq<char>,
    hex: Seq<char>,
    x: Result<ColorLabelDefinition, String>,
) -> bool {
    match path {
        Some(p) => before.label_created_at(after, p, id, name, hex, x),
        None => before.label_created(after, id, name, hex, x),
    }
}

pub fn media_label_create(
    db: &mut MediaDb,
    cmd: &Command,
    started_at: &str,
    name: &str,
    hex: &str,
    path: Option<&str>,
) -> (r: Receipt)
    requires
        old(db).wf(),
    ensures
        final(db).wf(),
        final(db).same_frame(old(db)),
        answers(r, *cmd, started_at@),
        label_create_outcome(old(db), final(db), name@, hex@, opt_view(path), r),
{
    if !db.is_available() {
        return media_db_unavailable_receipt(cmd, started_at, db);
    }
    let ghost id: Seq<char>;
    let x = match path {
        Some(p) => {
            let x = db.create_color_label_and_assign(p, name, hex);
            proof {
                id = choose|id: Seq<char>|
                    is_new_label_id(id) && !crate::color_labels::has_id(
                        old(db).catalog_seen(),
                        id,
                    ) && #[trigger] old(db).label_created_at(
                        db,
                        p@,
                        id,
                        name@,
                        hex@,
                        x,
                    );
            }
            x
        },
        None => {
            let x = db.create_color_label(name, hex);
            proof {
                id = choose|id: Seq<char>|
                    is_new_label_id(id) && !crate::color_labels::has_id(
                        old(db).catalog_seen(),
                        id,
                    ) && #[trigger] old(db).label_created(db, id, name@, hex@, x);
            }
            x
        },
    };
    let ghost outcome = x;
    assert(label_made(old(db), db, opt_view(path), id, name@, hex@, outcome));
    match x {
        Ok(label) => {
            let (p, assigned_labels) = match path {
                Some(p) => (Some(p.to_owned()), Some(db.labels(p))),
                None => (None, None),
            };
            let labels = db.color_label_definitions();
            ok_receipt(
                cmd,
                started_at,
                Reply::Media(MediaReply::Created { label, path: p, assigned_labels, labels }),
            )
        },
        Err(e) => rejected_with_catalog(db, cmd, started_at, e),
    }
}

/// What changing a label in the database does.
pub open spec fn label_changed(
    before: &MediaDb,
    after: &MediaDb,
    id: Seq<char>,
    name: Option<Seq<char>>,
    hex: Option<Seq<char>>,
    x: Result<ColorLabelDefinition, String>,
) -> bool {
    if name is None && hex is None {
        &&& x is Err && x->Err_0@ == "color label update requires a name and/or color"@
        &&& after.tables() == before.tables()
    } else if place_of_id(before.catalog_seen(), id) is None {
        &&& x is Err && x->Err_0@ == "unknown stable color-label id: "@ + id
        &&& after.tables() == before.tables()
    } else {
        match crate::color_labels::checked_catalog(before.catalog_changed(id, name, hex)) {
            Err(e) => {
                &&& x is Err && x->Err_0@ == e
                &&& after.tables() == before.tables()
            },
            Ok(m) => if !before.writable() {
                &&& x is Err && x->Err_0@ == refusal(before.status_of())
                &&& after.tables() == before.tables()
            } else {
                &&& x is Ok && crate::media_db::label_with_id(m, id) == Some(x->Ok_0@)
                &&& after.tables() == before.tables().with_catalog(m)
            },
        }
    }
}

/// What changing a label comes to.
pub open spec fn label_update_outcome(
    before: &MediaDb,
    after: &MediaDb,
    id: Seq<char>,
    name: Option<Seq<char>>,
    hex: Option<Seq<char>>,
    r: Receipt,
) -> bool {
    if unavailable(before) {
        &&& says_unavailable(r, *before)
        &&& after.tables() == before.tables()
    } else {
        exists|x: Result<ColorLabelDefinition, String>|
            {
                &&& #[trigger] label_changed(before, after, id, name, hex, x)
                &&& match x {
                    Ok(made) => {
                        &&& says(r, ActionStatus::Completed, None, None)
                        &&& r.result matches Reply::Media(MediaReply::Updated { label, labels })
                            && label@ == made@ && labels_of(labels@) == after.catalog_seen()
                    },
                    Err(e) => {
                        &&& says(r, ActionStatus::Rejected, Some(e@), None)
                        &&& shows_catalog(r, after)
                    },
                }
            }
    }
}

pub fn media_label_update(
    db: &mut MediaDb,
    cmd: &Command,
    started_at: &str,
    id: &str,
    name: Option<&str>,
    hex: Option<&str>,
) -> (r: Receipt)
    requires
        old(db).wf(),
    ensures
        final(db).wf(),
        final(db).same_frame(old(db)),
        answers(r, *cmd, started_at@),
        label_update_outcome(old(db), final(db), id@, opt_view(name), opt_view(hex), r),
{
    if !db.is_available() {
        return media_db_unavailable_receipt(cmd, started_at, db);
    }
    let x = db.update_color_label(id, name, hex);
    let ghost outcome = x;
    assert(label_changed(old(db), db, id@, opt_view(name), opt_view(hex), outcome));
    match x {
        Ok(label) => {
            let labels = db.color_label_definitions();
            ok_receipt(cmd, started_at, Reply::Media(MediaReply::Updated { label, labels }))
        },
        Err(e) => rejected_with_catalog(db, cmd, started_at, e),
    }
}

/// Why a label is not deleted; `None` where it is.
pub open spec fn delete_refusal(db: &MediaDb, id: Seq<char>, confirmed: bool) -> Option<Seq<char>> {
    let count = usage(db.tables().labels, id);
    if !db.writable() {
        Some(refusal(db.status_of()))
    } else if !crate::color_labels::has_id(db.catalog_seen(), id) {
        Some("unknown stable color-label id: "@ + id)
    } else if count > 0 && !confirmed {
        Some(confirmation_message(id, count))
    } else {
        match crate::color_labels::checked_catalog(catalog_without(db.catalog_seen(), id)) {
            Err(e) => Some(e),
            Ok(_) => None,
        }
    }
}

/// What deleting a label comes to.
pub open spec fn label_delete_outcome(
    before: &MediaDb,
    after: &MediaDb,
    id: Seq<char>,
    confirmed: bool,
    r: Receipt,
) -> bool {
    if unavailable(before) {
        &&& says_unavailable(r, *before)
        &&& after.tables() == before.tables()
    } else {
        let count = usage(before.tables().labels, id);
        match delete_refusal(before, id, confirmed) {
            Some(e) => {
                &&& says(r, ActionStatus::Rejected, Some(e), None)
                &&& after.tables() == before.tables()
                &&& r.result matches Reply::Media(
                    MediaReply::DeleteRefused { id: i, usage_count, confirmation_required, labels },
                ) && i@ == id && usage_count == count && confirmation_required == (count > 0
                    && !confirmed) && labels_of(labels@) == before.catalog_seen()
            },
            None => {
                &&& says(r, ActionStatus::Completed, None, None)
                &&& after.tables() == (Tables {
                    labels: crate::media_db::rewritten(
                        before.tables().labels,
                        |raw: Seq<char>| crate::media_db::row_without(raw, id),
                    ),
                    ..before.tables().with_catalog(
                        crate::color_labels::checked_catalog(
                            catalog_without(before.catalog_seen(), id),
                        )->Ok_0,
                    )
                })
                &&& r.result matches Reply::Media(MediaReply::Deleted { deleted, labels })
                    && deleted.id@ == id && deleted.usage_count == count
                    && deleted.assignments_removed == count && labels_of(labels@)
                    == after.catalog_seen()
            },
        }
    }
}

pub fn media_label_delete(
    db: &mut MediaDb,
    cmd: &Command,
    started_at: &str,
    id: &str,
    confirmed: bool,
) -> (r: Receipt)
    requires
        old(db).wf(),
    ensures
        final(db).wf(),
        final(db).same_frame(old(db)),
        answers(r, *cmd, started_at@),
        label_delete_outcome(old(db), final(db), id@, confirmed, r),
{
    if !db.is_available() {
        return media_db_unavailable_receipt(cmd, started_at, db);
    }
    let counts = db.color_label_usage_counts();
    let usage_count: usize = match counts.get(id) {
        Some(n) => *n,
        None => 0,
    };
    assert(usage_count == usage(old(db).tables().labels, id@));
    match db.delete_color_label(id, confirmed) {
        Ok(deleted) => {
            let labels = db.color_label_definitions();
            ok_receipt(cmd, started_at, Reply::Media(MediaReply::Deleted { deleted, labels }))
        },
        Err(e) => {
            let labels = db.color_label_definitions();
            let reply = MediaReply::DeleteRefused {
                id: id.to_owned(),
                usage_count,
                confirmation_required: usage_count > 0 && !confirmed,
                labels,
            };
            make_receipt(
                cmd,
                ActionStatus::Rejected,
                started_at,
                Reply::Media(reply),
                Some(e),
                None,
            )
        },
    }
}

/// What changing the labels of a file in the database does.
pub open spec fn labels_assigned(
    before: &MediaDb,
    after: &MediaDb,
    path: Seq<char>,
    id: Option<Seq<char>>,
    action: Seq<char>,
    x: Result<Vec<String>, String>,
) -> bool {
    if action == "add"@ || action == "remove"@ {
        if id is None {
            &&& x is Err
            &&& x->Err_0@ == if action == "add"@ {
                "media_label_assign add requires --label"@
            } else {
                "media_label_assign remove requires --label"@
            }
            &&& after.tables() == before.tables()
        } else {
            match label_named(before.catalog_seen(), trimmed(id->0)) {
                None => {
                    &&& x is Err && x->Err_0@ == "unknown stable color-label id or name: "@ + id->0
                    &&& after.tables() == before.tables()
                },
                Some(word) => before.labels_set(
                    after,
                    path,
                    if action == "add"@ {
                        before.labels_with(path, word)
                    } else {
                        before.labels_without(path, word)
                    },
                    x,
                ),
            }
        }
    } else if action == "clear"@ {
        if before.writable() {
            &&& x is Ok && texts(x->Ok_0@) == Seq::<Seq<char>>::empty()
            &&& after.tables() == before.wrote(TableName::Labels, path, None)
        } else {
            &&& x is Err && x->Err_0@ == refusal(before.status_of())
            &&& after.tables() == before.tables()
        }
    } else {
        &&& x is Err && x->Err_0@ == "unknown media label assignment action: "@ + action
            + " (expected add|remove|clear)"@
        &&& after.tables() == before.tables()
    }
}

/// What changing the labels of a file comes to.
pub open spec fn label_assign_outcome(
    before: &MediaDb,
    after: &MediaDb,
    path: Seq<char>,
    id: Option<Seq<char>>,
    action: Seq<char>,
    r: Receipt,
) -> bool {
    if unavailable(before) {
        &&& says_unavailable(r, *before)
        &&& after.tables() == before.tables()
    } else {
        exists|x: Result<Vec<String>, String>|
            {
                &&& #[trigger] labels_assigned(before, after, path, id, action, x)
                &&& r.result matches Reply::Media(MediaReply::Assigned { path: p, labels })
                    && p@ == path && match x {
                    Ok(ids) => says(r, ActionStatus::Completed, None, None) && texts(labels@)
                        == texts(ids@),
                    Err(e) => says(r, ActionStatus::Rejected, Some(e@), None) && texts(labels@)
                        == labels_at(after.seen(TableName::Labels), after.root(), path),
                }
            }
    }
}

pub fn media_label_assign(
    db: &mut MediaDb,
    cmd: &Command,
    started_at: &str,
    path: &str,
    id: Option<&str>,
    action: &str,
) -> (r: Receipt)
    requires
        old(db).wf(),
    ensures
        final(db).wf(),
        final(db).same_frame(old(db)),
        answers(r, *cmd, started_at@),
        label_assign_outcome(old(db), final(db), path@, opt_view(id), action@, r),
{
    if !db.is_available() {
        return media_db_unavailable_receipt(cmd, started_at, db);
    }
    let x: Result<Vec<String>, String> = if str_eq(action, "add") {
        match id {
            Some(i) => db.add_label(path, i),
            None => Err("media_label_assign add requires --label".to_owned()),
        }
    } else if str_eq(action, "remove") {
        match id {
            Some(i) => db.remove_label(path, i),
            None => Err("media_label_assign remove requires --label".to_owned()),
        }
    } else if str_eq(action, "clear") {
        match db.clear_labels(path) {
            Ok(()) => {
                let none: Vec<String> = Vec::new();
                assert(texts(none@) =~= Seq::<Seq<char>>::empty());
                Ok(none)
            },
            Err(e) => Err(e),
        }
    } else {
        Err(
            cat3(
                "unknown media label assignment action: ",
                action,
                " (expected add|remove|clear)",
            ),
        )
    };
    let ghost outcome = x;
    proof {
        reveal_strlit("add");
        reveal_strlit("remove");
        reveal_strlit("clear");
        assert("add"@.len() == 3 && "remove"@.len() == 6 && "clear"@.len() == 5);
    }
    assert(labels_assigned(old(db), db, path@, opt_view(id), action@, outcome));
    match x {
        Ok(labels) => ok_receipt(
            cmd,
            started_at,
            Reply::Media(MediaReply::Assigned { path: path.to_owned(), labels }),
        ),
        Err(e) => {
            let labels = db.labels(path);
            make_receipt(
                cmd,
                ActionStatus::Rejected,
                started_at,
                Reply::Media(MediaReply::Assigned { path: path.to_owned(), labels }),
                Some(e),
                None,
            )
        },
    }
}

/// What adding or removing a favorite comes to.
pub open spec fn favorite_outcome(
    before: &MediaDb,
    after: &MediaDb,
    path: Seq<char>,
    favorite: bool,
    r: Receipt,
) -> bool {
    if before.writable() {
        &&& says(r, ActionStatus::Completed, None, None)
        &&& after.tables() == before.tables().with(
            TableName::Favorites,
            if favorite {
                crate::media_db::favored(before.tables().favorites, before.root(), path)
            } else {
                before.tables().favorites.remove(key_of(before.root(), path)).remove(
                    crate::media_keys::absolute_key(path),
                )
            },
        )
        &&& r.result matches Reply::Media(MediaReply::Favorite { path: p, favorite: f }) && p@
            == path && f == favorite
    } else {
        &&& says(r, ActionStatus::Error, Some(refusal(before.status_of())), None)
        &&& after.tables() == before.tables()
        &&& r.result is Nothing
    }
}

/// Adds a favorite, or removes one.
pub fn media_favorite(
    db: &mut MediaDb,
    cmd: &Command,
    started_at: &str,
    path: &str,
    favorite: bool,
) -> (r: Receipt)
    requires
        old(db).wf(),
    ensures
        final(db).wf(),
        final(db).same_frame(old(db)),
        answers(r, *cmd, started_at@),
        favorite_outcome(old(db), final(db), path@, favorite, r),
{
    let x = if favorite {
        db.add_favorite(path)
    } else {
        db.remove_favorite(path)
    };
    match x {
        Ok(()) => ok_receipt(
            cmd,
            started_at,
            Reply::Media(MediaReply::Favorite { path: path.to_owned(), favorite }),
        ),
        Err(e) => error_receipt(cmd, started_at, e),
    }
}

/// Whether paths are those of the favorites, in the order of the keys.
pub open spec fn lists_favorites(db: &MediaDb, paths: Seq<String>, keys: Seq<Seq<char>>) -> bool {
    &&& in_text_order(keys)
    &&& keys.len() == paths.len()
    &&& forall|k: Seq<char>| #[trigger]
        keys.contains(k) <==> db.seen(TableName::Favorites).contains_key(k)
    &&& forall|i: int|
        0 <= i < paths.len() ==> (#[trigger] paths[i])@ == replaced(
            db.seen(TableName::Favorites)[keys[i]],
            '/',
            db.path_style().glue(),
        )
}

/// What asking for the favorites comes to.
pub open spec fn favorites_outcome(db: &MediaDb, r: Receipt) -> bool {
    if unavailable(db) {
        says_unavailable(r, *db)
    } else {
        &&& says(r, ActionStatus::Completed, None, None)
        &&& r.result matches Reply::Media(MediaReply::Favorites { favorites, db_status })
            && opt_text(db_status) == db.status_of() && exists|keys: Seq<Seq<char>>| #[trigger]
            lists_favorites(db, favorites@, keys)
    }
}

pub fn media_favorites(db: &MediaDb, cmd: &Command, started_at: &str) -> (r: Receipt)
    ensures
        answers(r, *cmd, started_at@),
        favorites_outcome(db, r),
{
    if !db.is_available() {
        return media_db_unavailable_receipt(cmd, started_at, db);
    }
    let favorites = db.favorites();
    let ghost keys = choose|keys: Seq<Seq<char>>|
            {
                &&& #[trigger] in_text_order(keys)
                &&& keys.len() == favorites@.len()
                &&& forall|k: Seq<char>| #[trigger]
                    keys.contains(k) <==> db.seen(TableName::Favorites).contains_key(k)
                &&& forall|i: int|
                    0 <= i < favorites@.len() ==> (#[trigger] favorites@[i])@ == replaced(
                        db.seen(TableName::Favorites)[keys[i]],
                        '/',
                        db.path_style().glue(),
                    )
            };
    assert(lists_favorites(db, favorites@, keys));
    let reply = MediaReply::Favorites { favorites, db_status: status_text(db) };
    let r = ok_receipt(cmd, started_at, Reply::Media(reply));
    assert(lists_favorites(db, r.result->Media_0->favorites@, keys));
    r
}

/// Whether a command works on media metadata.
pub open spec fn on_metadata(k: CommandKind) -> bool {
    k is MediaMetaGet || k is MediaMetaSet || k is MediaMetaList || k is MediaLabelsList
        || k is MediaLabelConfigure || k is MediaLabelCreate || k is MediaLabelUpdate
        || k is MediaLabelDelete || k is MediaLabelAssign || k is MediaFavAdd || k is MediaFavRemove
        || k is MediaFavList
}

/// What a command on media metadata comes to.
pub open spec fn media_outcome(before: &MediaDb, after: &MediaDb, k: CommandKind, r: Receipt) -> bool {
    match k {
        CommandKind::MediaMetaGet { path } => meta_get_outcome(before, path@, r) && after.tables()
            == before.tables(),
        CommandKind::MediaMetaSet { path, notes, tags, label } => meta_set_outcome(
            before,
            after,
            path@,
            opt_text(notes),
            opt_text(tags),
            opt_text(label),
            r,
        ),
        CommandKind::MediaMetaList { tag, label } => meta_list_outcome(
            before,
            opt_text(tag),
            opt_text(label),
            r,
        ) && after.tables() == before.tables(),
        CommandKind::MediaLabelsList => labels_list_outcome(before, r) && after.tables()
            == before.tables(),
        CommandKind::MediaLabelConfigure { id, name, hex } => label_configure_outcome(
            before,
            after,
            id@,
            name@,
            hex@,
            r,
        ),
        CommandKind::MediaLabelCreate { name, hex, path } => label_create_outcome(
            before,
            after,
            name@,
            hex@,
            opt_text(path),
            r,
        ),
        CommandKind::MediaLabelUpdate { id, name, hex } => label_update_outcome(
            before,
            after,
            id@,
            opt_text(name),
            opt_text(hex),
            r,
        ),
        CommandKind::MediaLabelDelete { id, confirmed } => label_delete_outcome(
            before,
            after,
            id@,
            confirmed,
            r,
        ),
        CommandKind::MediaLabelAssign { path, id, action } => label_assign_outcome(
            before,
            after,
            path@,
            opt_text(id),
            action@,
            r,
        ),
        CommandKind::MediaFavAdd { path } => favorite_outcome(before, after, path@, true, r),
        CommandKind::MediaFavRemove { path } => favorite_outcome(before, after, path@, false, r),
        CommandKind::MediaFavList => favorites_outcome(before, r) && after.tables()
            == before.tables(),
        _ => true,
    }
}

/// Carries out a command on media metadata; `None` for any other command.
pub fn dispatch_media(db: &mut MediaDb, cmd: &Command, started_at: &str) -> (r: Option<Receipt>)
    requires
        old(db).wf(),
    ensures
        final(db).wf(),
        final(db).same_frame(old(db)),
        r is Some == on_metadata(cmd.command),
        match r {
            Some(receipt) => answers(receipt, *cmd, started_at@) && media_outcome(
                old(db),
                final(db),
                cmd.command,
                receipt,
            ),
            None => *final(db) == *old(db),
        },
{
    let receipt = match &cmd.command {
        CommandKind::MediaMetaGet { path } => media_meta_get(db, cmd, started_at, path.as_str()),
        CommandKind::MediaMetaSet { path, notes, tags, label } => media_meta_set(
            db,
            cmd,
            started_at,
            path.as_str(),
            opt_str(notes),
            opt_str(tags),
            opt_str(label),
        ),
        CommandKind::MediaMetaList { tag, label } => media_meta_list(
            db,
            cmd,
            started_at,
            opt_str(tag),
            opt_str(label),
        ),
        CommandKind::MediaLabelsList => media_labels_list(db, cmd, started_at),
        CommandKind::MediaLabelConfigure { id, name, hex } => media_label_configure(
            db,
            cmd,
            started_at,
            id.as_str(),
            name.as_str(),
            hex.as_str(),
        ),
        CommandKind::MediaLabelCreate { name, hex, path } => media_label_create(
            db,
            cmd,
            started_at,
            name.as_str(),
            hex.as_str(),
            opt_str(path),
        ),
        CommandKind::MediaLabelUpdate { id, name, hex } => media_label_update(
            db,
            cmd,
            started_at,
            id.as_str(),
            opt_str(name),
            opt_str(hex),
        ),
        CommandKind::MediaLabelDelete { id, confirmed } => media_label_delete(
            db,
            cmd,
            started_at,
            id.as_str(),
            *confirmed,
        ),
        CommandKind::MediaLabelAssign { path, id, action } => media_label_assign(
            db,
            cmd,
            started_at,
            path.as_str(),
            opt_str(id),
            action.as_str(),
        ),
        CommandKind::MediaFavAdd { path } => media_favorite(
            db,
            cmd,
            started_at,
            path.as_str(),
            true,
        ),
        CommandKind::MediaFavRemove { path } => media_favorite(
            db,
            cmd,
            started_at,
            path.as_str(),
            false,
        ),
        CommandKind::MediaFavList => media_favorites(db, cmd, started_at),
        _ => return None,
    };
    Some(receipt)
}

/// While the database cannot be read, no command on metadata succeeds and nothing is changed.
pub proof fn unavailable_database_answers_with_errors(
    before: MediaDb,
    after: MediaDb,
    k: CommandKind,
    r: Receipt,
)
    requires
        unavailable(&before),
        on_metadata(k),
        media_outcome(&before, &after, k, r),
    ensures
        r.status == ActionStatus::Error,
        r.error is Some,
        r.result is Nothing,
        after.tables() == before.tables(),
{
}

/// Notes that were set are the notes that are read next, unless they were nothing but white space,
/// which clears them.
pub proof fn notes_read_back(
    before: MediaDb,
    after: MediaDb,
    path: Seq<char>,
    notes: Seq<char>,
    tags: Option<Seq<char>>,
    label: Option<Seq<char>>,
    r: Receipt,
)
    requires
        before.writable(),
        after.same_frame(&before),
        meta_set_outcome(&before, &after, path, Some(notes), tags, label, r),
    ensures
        meta_at(&after, path).notes == if trimmed(notes).len() > 0 {
            notes
        } else {
            Seq::empty()
        },
{
    read_gives_back_the_write(before.tables().notes, before.root(), path, Some(notes));
}

} // verus!
