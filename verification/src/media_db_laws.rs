//! What listing, writing and labelling the metadata of media files promise.

use crate::color_labels::{
    assigned_ids, canonical_color, checked_catalog, color_channels, color_digits, fixed_label,
    has_id, is_color, label, label_named, LabelModel,
};
use crate::media_db::{
    clean_tags, favored, imported, imported_favorites, is_listed, label_row, labels_at, lists_tags,
    looked_up, others, resolved_label, row_meta, usage, written, MediaDb, TableName,
};
use crate::media_keys::{absolute_key, key_of, slash_form};
use crate::text::{ascii_lower, joined, split, trimmed, unicode_lower};
use vstd::prelude::*;

verus! {

/// Whether one of the tags of a row is the given one, ASCII case and white space around it aside.
pub open spec fn has_tag_row(tags: Seq<char>, tag: Seq<char>) -> bool {
    exists|i: int|
        0 <= i < split(tags, ',').len() && ascii_lower(trimmed(#[trigger] split(tags, ',')[i]))
            == ascii_lower(trimmed(tag))
}

/// A file is listed under a tag and a label exactly where it is listed under the tag and under the
/// label. Under a tag it is listed only where it has the tag, under a label only where it has the
/// label; without either, wherever it has any row of metadata.
pub proof fn filters_narrow_the_list(
    db: &MediaDb,
    key: Seq<char>,
    tag: Seq<char>,
    wanted: Seq<char>,
)
    ensures
        is_listed(db, key, Some(tag), Some(wanted)) <==> is_listed(db, key, Some(tag), None)
            && is_listed(db, key, None, Some(wanted)),
        is_listed(db, key, Some(tag), None) ==> is_listed(db, key, None, None),
        is_listed(db, key, None, Some(wanted)) ==> is_listed(db, key, None, None),
        is_listed(db, key, None, None) <==> db.seen(TableName::Notes).contains_key(key) || db.seen(
            TableName::Tags,
        ).contains_key(key) || db.seen(TableName::Labels).contains_key(key) || db.seen(
            TableName::Favorites,
        ).contains_key(key),
        is_listed(db, key, Some(tag), None) && trimmed(tag).len() > 0 ==> db.seen(
            TableName::Tags,
        ).contains_key(key) && has_tag_row(db.seen(TableName::Tags)[key], tag),
        db.seen(TableName::Tags).contains_key(key) && has_tag_row(
            db.seen(TableName::Tags)[key],
            tag,
        ) ==> is_listed(db, key, Some(tag), None),
{
    let none = Seq::<char>::empty();
    if is_listed(db, key, Some(tag), None) && !db.seen(TableName::Tags).contains_key(key) {
        assert(row_meta(db, key).tags == none);
        assert(split(none, ',') =~= seq![none]);
        assert(trimmed(none) =~= none);
        assert(ascii_lower(none) =~= none);
        assert(ascii_lower(trimmed(tag)).len() == trimmed(tag).len());
    }
}

/// A label is asked for by its id or its name; a file is listed under it exactly where it carries
/// the id.
pub proof fn labels_list_the_files_that_carry_them(
    db: &MediaDb,
    key: Seq<char>,
    wanted: Seq<char>,
    id: Seq<char>,
)
    requires
        trimmed(ascii_lower(trimmed(wanted))) == ascii_lower(trimmed(wanted)),
        label_named(db.catalog_seen(), ascii_lower(trimmed(wanted))) == Some(id),
    ensures
        is_listed(db, key, None, Some(wanted)) <==> is_listed(db, key, None, None) && exists|i: int|
            0 <= i < row_meta(db, key).labels.len() && ascii_lower(
                #[trigger] row_meta(db, key).labels[i],
            ) == ascii_lower(id),
{
}

/// A row of the list shows the notes, the tags, the labels and the star that are stored under its
/// key, and nothing where nothing is.
pub proof fn rows_show_what_is_stored(db: &MediaDb, key: Seq<char>)
    ensures
        ({
            let m = row_meta(db, key);
            let notes = db.seen(TableName::Notes);
            let tags = db.seen(TableName::Tags);
            let labels = db.seen(TableName::Labels);
            &&& m.notes == (if notes.contains_key(key) {
                notes[key]
            } else {
                Seq::empty()
            })
            &&& m.tags == (if tags.contains_key(key) {
                tags[key]
            } else {
                Seq::empty()
            })
            &&& m.labels == (if labels.contains_key(key) {
                crate::color_labels::decoded_ids(labels[key])
            } else {
                Seq::empty()
            })
            &&& m.labels.len() > 0 ==> m.label == m.labels[0]
            &&& m.labels.len() == 0 ==> m.label.len() == 0
            &&& m.favorite == db.seen(TableName::Favorites).contains_key(key)
        }),
{
}

/// What a database shows of a table is what the table holds, unless the database is not there.
pub proof fn tables_are_seen_as_they_are(db: &MediaDb)
    ensures
        db.access_of() != crate::media_db::Access::Unavailable ==> {
            &&& db.seen(TableName::Notes) == db.tables().notes
            &&& db.seen(TableName::Tags) == db.tables().tags
            &&& db.seen(TableName::Labels) == db.tables().labels
            &&& db.seen(TableName::Favorites) == db.tables().favorites
            &&& db.seen(TableName::Settings) == db.tables().settings
        },
        db.access_of() == crate::media_db::Access::Unavailable ==> {
            let none = Map::<Seq<char>, Seq<char>>::empty();
            &&& db.seen(TableName::Notes) == none
            &&& db.seen(TableName::Tags) == none
            &&& db.seen(TableName::Labels) == none
            &&& db.seen(TableName::Favorites) == none
            &&& db.seen(TableName::Settings) == none
        },
        db.writable() <==> db.access_of() == crate::media_db::Access::ReadWrite,
{
}

/// Writing the metadata of a path stores the given fields, each in its own table, so that reading
/// the path gives them back; a field that is not given stays as it was, and blank text or an empty
/// list clears its field. Other paths keep theirs.
pub proof fn metadata_reads_back(
    db: &MediaDb,
    path: Seq<char>,
    notes: Option<Seq<char>>,
    tags: Option<Seq<char>>,
    labels: Option<Seq<Seq<char>>>,
    other: Seq<char>,
)
    requires
        other != key_of(db.root(), path),
        other != absolute_key(path),
    ensures
        ({
            let t = db.tables();
            let w = db.meta_written(path, notes, tags, labels);
            let root = db.root();
            &&& notes is None ==> w.notes == t.notes
            &&& tags is None ==> w.tags == t.tags
            &&& labels is None ==> w.labels == t.labels
            &&& notes is Some && trimmed(notes->0).len() > 0 ==> looked_up(w.notes, root, path)
                == notes
            &&& notes is Some && trimmed(notes->0).len() == 0 ==> looked_up(w.notes, root, path)
                is None
            &&& tags is Some && trimmed(clean_tags(tags->0)).len() > 0 ==> looked_up(
                w.tags,
                root,
                path,
            ) == Some(clean_tags(tags->0))
            &&& tags is Some && trimmed(clean_tags(tags->0)).len() == 0 ==> looked_up(
                w.tags,
                root,
                path,
            ) is None
            &&& labels is Some && labels->0.len() == 0 ==> looked_up(w.labels, root, path) is None
            &&& labels is Some && label_row(labels->0) is Some && trimmed(
                label_row(labels->0)->0,
            ).len() > 0 ==> looked_up(w.labels, root, path) == label_row(labels->0)
            &&& w.notes.contains_key(other) == t.notes.contains_key(other) && w.notes[other]
                == t.notes[other]
            &&& w.tags.contains_key(other) == t.tags.contains_key(other) && w.tags[other]
                == t.tags[other]
            &&& w.labels.contains_key(other) == t.labels.contains_key(other) && w.labels[other]
                == t.labels[other]
            &&& w.favorites == t.favorites && w.settings == t.settings && w.catalog == t.catalog
        }),
{
}

/// One write changes one table and no other.
pub proof fn writes_touch_one_table(
    db: &MediaDb,
    path: Seq<char>,
    value: Option<Seq<char>>,
)
    ensures
        ({
            let t = db.tables();
            let n = db.wrote(TableName::Notes, path, value);
            let g = db.wrote(TableName::Tags, path, value);
            let l = db.wrote(TableName::Labels, path, value);
            &&& n.tags == t.tags && n.labels == t.labels && n.favorites == t.favorites
                && n.settings == t.settings && n.catalog == t.catalog
            &&& g.notes == t.notes && g.labels == t.labels && g.favorites == t.favorites
                && g.settings == t.settings && g.catalog == t.catalog
            &&& l.notes == t.notes && l.tags == t.tags && l.favorites == t.favorites && l.settings
                == t.settings && l.catalog == t.catalog
            &&& value is Some && trimmed(value->0).len() > 0 ==> {
                &&& looked_up(n.notes, db.root(), path) == value
                &&& looked_up(g.tags, db.root(), path) == value
                &&& looked_up(l.labels, db.root(), path) == value
            }
            &&& value is None ==> {
                &&& looked_up(n.notes, db.root(), path) is None
                &&& looked_up(g.tags, db.root(), path) is None
                &&& looked_up(l.labels, db.root(), path) is None
            }
        }),
{
}

/// What is stored for a path is found under its key, and, from before there were such keys, under
/// its whole path; the key comes first.
pub proof fn keys_come_before_whole_paths(
    m: Map<Seq<char>, Seq<char>>,
    root: Seq<char>,
    path: Seq<char>,
    value: Seq<char>,
)
    ensures
        looked_up(m.insert(key_of(root, path), value), root, path) == Some(value),
        !m.contains_key(key_of(root, path)) && absolute_key(path) != key_of(root, path)
            ==> looked_up(m.insert(absolute_key(path), value), root, path) == Some(value),
        looked_up(m, root, path) is Some <==> m.contains_key(key_of(root, path)) || m.contains_key(
            absolute_key(path),
        ),
        looked_up(m, root, path) is Some ==> looked_up(m, root, path)->0 == m[key_of(root, path)]
            || looked_up(m, root, path)->0 == m[absolute_key(path)],
{
}

/// A favorite is one as soon as it is added, is shown as it was written but for its separators, and
/// leaves the other favorites alone.
pub proof fn favorites_are_kept(
    m: Map<Seq<char>, Seq<char>>,
    root: Seq<char>,
    path: Seq<char>,
    other: Seq<char>,
)
    requires
        other != key_of(root, path),
        other != absolute_key(path),
    ensures
        looked_up(favored(m, root, path), root, path) == Some(slash_form(path)),
        favored(m, root, path).contains_key(other) == m.contains_key(other),
        favored(m, root, path)[other] == m[other],
        looked_up(m.remove(key_of(root, path)).remove(absolute_key(path)), root, path) is None,
{
}

/// The clean form of tags holds the tags of the list and no others, each once, in lower case, in
/// text order, with a comma and a space between them.
pub proof fn cleaning_keeps_the_tags(order: Seq<Seq<char>>, list: Seq<char>, t: Seq<char>)
    requires
        lists_tags(order, list),
    ensures
        clean_tags(list) == joined(order, ", "@),
        order.contains(t) <==> t.len() > 0 && exists|i: int|
            0 <= i < split(list, ',').len() && ascii_lower(trimmed(#[trigger] split(list, ',')[i]))
                == t,
        order.no_duplicates(),
        forall|i: int, j: int|
            0 <= i < j < order.len() ==> crate::text::text_rank(
                #[trigger] order[i],
                #[trigger] order[j],
            ) == crate::text::Rank::Less,
{
    crate::media_db::clean_form_is_unique(order, list);
    assert forall|i: int, j: int| 0 <= i < j < order.len() implies #[trigger] order[i]
        != #[trigger] order[j] by {
        crate::text::text_order_is_total(order[i], order[i]);
        assert(crate::text::text_rank(order[i], order[j]) == crate::text::Rank::Less);
    }
}

/// Adding a label puts it behind the others, unless the path has it; removing it takes it and leaves
/// the others in their order.
pub proof fn labels_come_and_go(db: &MediaDb, path: Seq<char>, id: Seq<char>, i: int)
    ensures
        ({
            let ids = labels_at(db.seen(TableName::Labels), db.root(), path);
            let with = db.labels_with(path, id);
            let rest = db.labels_without(path, id);
            &&& with.contains(id)
            &&& ids.contains(id) ==> with == ids
            &&& !ids.contains(id) ==> with.len() == ids.len() + 1 && with.last() == id
            &&& 0 <= i < ids.len() ==> with[i] == ids[i]
            &&& !rest.contains(id)
            &&& 0 <= i < ids.len() && ids[i] != id ==> rest.contains(ids[i])
            &&& 0 <= i < rest.len() ==> ids.contains(rest[i])
            &&& !ids.contains(id) ==> rest == ids
        }),
{
    let ids = labels_at(db.seen(TableName::Labels), db.root(), path);
    let with = db.labels_with(path, id);
    let rest = db.labels_without(path, id);
    crate::media_db::lemma_others(ids, id);
    assert(with[with.len() - 1] == with.last());
    if !ids.contains(id) {
        assert(with.last() == id);
    }
    if 0 <= i < ids.len() {
        assert(ids.contains(ids[i]));
    }
    if 0 <= i < rest.len() {
        assert(rest.contains(rest[i]));
    }
}

/// A text names the first label whose id or name it is, ASCII case aside, and none where there is
/// no such label.
pub proof fn labels_are_named_by_id_or_name(defs: Seq<LabelModel>, value: Seq<char>)
    ensures
        match label_named(defs, value) {
            Some(id) => exists|i: int| #![trigger defs[i]]
                {
                    &&& 0 <= i < defs.len()
                    &&& defs[i].id == id
                    &&& ascii_lower(defs[i].id) == ascii_lower(value) || ascii_lower(defs[i].name)
                        == ascii_lower(value)
                    &&& forall|j: int| #![trigger defs[j]]
                        0 <= j < i ==> ascii_lower(defs[j].id) != ascii_lower(value) && ascii_lower(
                            defs[j].name,
                        ) != ascii_lower(value)
                },
            None => forall|j: int| #![trigger defs[j]]
                0 <= j < defs.len() ==> ascii_lower(defs[j].id) != ascii_lower(value)
                    && ascii_lower(defs[j].name) != ascii_lower(value),
        },
    decreases defs.len(),
{
    if defs.len() > 0 {
        let rest = defs.drop_first();
        labels_are_named_by_id_or_name(rest, value);
        let first = ascii_lower(defs[0].id) == ascii_lower(value) || ascii_lower(defs[0].name)
            == ascii_lower(value);
        if !first {
            match label_named(rest, value) {
                Some(id) => {
                    let i = choose|i: int| #![trigger rest[i]]
                        {
                            &&& 0 <= i < rest.len()
                            &&& rest[i].id == id
                            &&& ascii_lower(rest[i].id) == ascii_lower(value) || ascii_lower(
                                rest[i].name,
                            ) == ascii_lower(value)
                            &&& forall|j: int| #![trigger rest[j]]
                                0 <= j < i ==> ascii_lower(rest[j].id) != ascii_lower(value)
                                    && ascii_lower(rest[j].name) != ascii_lower(value)
                        };
                    assert(defs[i + 1] == rest[i]);
                    assert forall|j: int| #![trigger defs[j]] 0 <= j < i + 1 implies ascii_lower(
                        defs[j].id,
                    ) != ascii_lower(value) && ascii_lower(defs[j].name) != ascii_lower(value) by {
                        if j > 0 {
                            assert(rest[j - 1] == defs[j]);
                        }
                    }
                },
                None => {
                    assert forall|j: int| #![trigger defs[j]] 0 <= j < defs.len() implies ascii_lower(
                        defs[j].id,
                    ) != ascii_lower(value) && ascii_lower(defs[j].name) != ascii_lower(value) by {
                        if j > 0 {
                            assert(rest[j - 1] == defs[j]);
                        }
                    }
                },
            }
        }
    }
}

/// A list of labels is assigned as the ids of the labels that its entries name, in their order and
/// each once; blank entries are passed over; and an entry that names no label refuses the list.
pub proof fn assigned_labels_are_those_named(
    defs: Seq<LabelModel>,
    raws: Seq<Seq<char>>,
    raw: Seq<char>,
)
    ensures
        match assigned_ids(defs, raws) {
            Ok(ids) => {
                let value = trimmed(raw);
                &&& value.len() == 0 ==> assigned_ids(defs, raws.push(raw)) == Ok::<
                    Seq<Seq<char>>,
                    Seq<char>,
                >(ids)
                &&& value.len() > 0 && label_named(defs, value) is None ==> assigned_ids(
                    defs,
                    raws.push(raw),
                ) is Err
                &&& value.len() > 0 && label_named(defs, value) is Some ==> {
                    let id = label_named(defs, value)->0;
                    let next = assigned_ids(defs, raws.push(raw));
                    &&& next is Ok
                    &&& next->Ok_0.contains(id)
                    &&& ids.contains(id) ==> next->Ok_0 == ids
                    &&& !ids.contains(id) ==> next->Ok_0 == ids.push(id)
                }
            },
            Err(e) => assigned_ids(defs, raws.push(raw)) is Err,
        },
        assigned_ids(defs, Seq::empty()) == Ok::<Seq<Seq<char>>, Seq<char>>(Seq::empty()),
{
    let more = raws.push(raw);
    assert(more.drop_last() =~= raws);
    assert(more.last() == raw);
    if let Ok(ids) = assigned_ids(defs, raws) {
        let value = trimmed(raw);
        if value.len() > 0 && label_named(defs, value) is Some {
            let id = label_named(defs, value)->0;
            assert(ids.push(id)[ids.len() as int] == id);
        }
    }
}

/// Whatever names a label stands for its id; otherwise a word of the fixed vocabulary stands for
/// itself in lower case, any other word for gray, and blank text for none.
pub proof fn words_stand_for_labels(defs: Seq<LabelModel>, raw: Seq<char>)
    ensures
        ({
            let v = trimmed(raw);
            let l = ascii_lower(trimmed(v));
            let r = resolved_label(defs, raw);
            &&& v.len() == 0 ==> r is None
            &&& v.len() > 0 && label_named(defs, v) is Some ==> r == label_named(defs, v)
            &&& v.len() > 0 && label_named(defs, v) is None && l.len() > 0 ==> r == Some(
                if l == "red"@ || l == "orange"@ || l == "yellow"@ || l == "green"@ || l
                    == "blue"@ || l == "purple"@ || l == "gray"@ {
                    l
                } else {
                    "gray"@
                },
            )
        }),
{
}

/// A palette is accepted exactly where every label has a fit id, a name of 1 to 48 characters and a
/// color, and no two share an id, a name, case aside, or a color. It is kept with the white space
/// around ids and names gone and the colors in their canonical form, in the same order.
pub proof fn palettes_are_accepted_where_they_are_sound(defs: Seq<LabelModel>)
    ensures
        checked_catalog(defs) is Ok <==> is_sound(defs),
        checked_catalog(defs) is Ok ==> {
            let m = checked_catalog(defs)->Ok_0;
            &&& m.len() == defs.len()
            &&& forall|i: int| #![trigger m[i]]
                0 <= i < defs.len() ==> m[i] == label(
                    trimmed(defs[i].id),
                    trimmed(defs[i].name),
                    canonical_color(defs[i].hex),
                )
        },
    decreases defs.len(),
{
    if defs.len() > 0 {
        let front = defs.drop_last();
        palettes_are_accepted_where_they_are_sound(front);
        let d = defs.last();
        let n = front.len() as int;
        assert(defs[n] == d);
        lemma_fit(d);
        assert(forall|i: int| 0 <= i < n ==> #[trigger] front[i] == defs[i]);
        if let Ok(m) = checked_catalog(front) {
            let id = trimmed(d.id);
            let name = trimmed(d.name);
            let hex = canonical_color(d.hex);
            if crate::color_labels::has_id(m, id) {
                let k = choose|k: int| 0 <= k < m.len() && (#[trigger] m[k]).id == id;
                assert(trimmed(defs[k].id) == trimmed(defs[n].id));
                assert(!is_sound(defs));
            }
            if crate::color_labels::has_name(m, name) {
                let k = choose|k: int|
                    0 <= k < m.len() && unicode_lower((#[trigger] m[k]).name) == unicode_lower(
                        name,
                    );
                assert(unicode_lower(trimmed(defs[k].name)) == unicode_lower(
                    trimmed(defs[n].name),
                ));
                assert(!is_sound(defs));
            }
            if crate::color_labels::has_color(m, hex) {
                let k = choose|k: int| 0 <= k < m.len() && (#[trigger] m[k]).hex == hex;
                assert(canonical_color(defs[k].hex) == canonical_color(defs[n].hex));
                assert(!is_sound(defs));
            }
            if checked_catalog(defs) is Ok {
                let r = checked_catalog(defs)->Ok_0;
                assert forall|i: int, j: int|
                    0 <= i < j < defs.len() implies trimmed((#[trigger] defs[i]).id) != trimmed(
                    (#[trigger] defs[j]).id,
                ) && unicode_lower(trimmed(defs[i].name)) != unicode_lower(trimmed(defs[j].name))
                    && canonical_color(defs[i].hex) != canonical_color(defs[j].hex) by {
                    if j < n {
                        assert(front[i] == defs[i] && front[j] == defs[j]);
                    } else {
                        assert(m[i].id == trimmed(defs[i].id));
                    }
                }
                assert forall|i: int| #![trigger defs[i]] 0 <= i < defs.len() implies is_fit(
                    defs[i],
                ) by {
                    if i < n {
                        assert(front[i] == defs[i]);
                    }
                }
                assert forall|i: int| #![trigger r[i]] 0 <= i < defs.len() implies r[i] == label(
                    trimmed(defs[i].id),
                    trimmed(defs[i].name),
                    canonical_color(defs[i].hex),
                ) by {
                    if i < n {
                        assert(r[i] == m[i]);
                        assert(front[i] == defs[i]);
                    }
                }
            }
        } else {
            assert(!is_sound(front));
            if is_sound(defs) {
                assert forall|i: int, j: int|
                    0 <= i < j < front.len() implies trimmed((#[trigger] front[i]).id) != trimmed(
                    (#[trigger] front[j]).id,
                ) && unicode_lower(trimmed(front[i].name)) != unicode_lower(trimmed(front[j].name))
                    && canonical_color(front[i].hex) != canonical_color(front[j].hex) by {
                    assert(front[i] == defs[i] && front[j] == defs[j]);
                }
                assert forall|i: int| #![trigger front[i]] 0 <= i < front.len() implies is_fit(
                    front[i],
                ) by {
                    assert(front[i] == defs[i]);
                }
            }
        }
    }
}

/// The digits of a color: what is left of its text without white space around it and without a
/// number sign in front.
pub open spec fn digits_of(hex: Seq<char>) -> Seq<char> {
    let t = trimmed(hex);
    if t.len() > 0 && t[0] == '#' {
        t.skip(1)
    } else {
        t
    }
}

/// Whether a label by itself can stand in a palette.
pub open spec fn is_fit(d: LabelModel) -> bool {
    let id = trimmed(d.id);
    let name = trimmed(d.name);
    let digits = digits_of(d.hex);
    &&& 1 <= id.len() <= 80
    &&& forall|i: int|
        0 <= i < id.len() ==> ('a' <= #[trigger] id[i] && id[i] <= 'z') || ('0' <= id[i] && id[i]
            <= '9') || id[i] == '-' || id[i] == '_'
    &&& 1 <= name.len() <= 48
    &&& digits.len() == 6
    &&& forall|i: int|
        0 <= i < 6 ==> ('0' <= #[trigger] digits[i] && digits[i] <= '9') || ('a' <= digits[i]
            && digits[i] <= 'f') || ('A' <= digits[i] && digits[i] <= 'F')
}

pub(crate) proof fn lemma_fit(d: LabelModel)
    ensures
        is_fit(d) <==> crate::color_labels::is_label_id(trimmed(d.id)) && 1 <= trimmed(d.name).len()
            <= 48 && is_color(d.hex),
        canonical_color(d.hex) == "#"@ + crate::text::ascii_upper(color_digits(d.hex)),
{
    reveal_strlit("#");
    let t = trimmed(d.hex);
    if t.len() > 0 && t[0] == '#' {
        assert(t.take(1) =~= "#"@);
    }
    if crate::text::begins(t, "#"@) {
        assert(t.take(1)[0] == '#');
    }
    assert(digits_of(d.hex) == color_digits(d.hex));
    if is_fit(d) {
        let e = color_digits(d.hex);
        assert forall|i: int| 0 <= i < 6 implies crate::color_labels::is_hex_digit(
            #[trigger] e[i],
        ) by {
            assert(digits_of(d.hex)[i] == e[i]);
        }
    }
}

/// Colors are kept as a number sign and their digits in upper case; red, green and blue are the
/// three pairs of digits, and the canonical form has the same ones.
pub proof fn colors_keep_their_digits(raw: Seq<char>)
    requires
        is_color(raw),
    ensures
        canonical_color(raw).len() == 7,
        canonical_color(raw)[0] == '#',
        forall|i: int|
            0 <= i < 6 ==> #[trigger] canonical_color(raw)[i + 1] == crate::text::ascii_upper_char(
                digits_of(raw)[i],
            ),
        color_channels(raw).len() == 3,
        forall|k: int|
            0 <= k < 3 ==> (#[trigger] color_channels(raw)[k]) as int == 16
                * crate::color_labels::hex_value(digits_of(raw)[2 * k])
                + crate::color_labels::hex_value(digits_of(raw)[2 * k + 1]),
{
    reveal_strlit("#");
    let t = trimmed(raw);
    if t.len() > 0 && t[0] == '#' {
        assert(t.take(1) =~= "#"@);
    }
    if crate::text::begins(t, "#"@) {
        assert(t.take(1)[0] == '#');
    }
    let d = color_digits(raw);
    assert(digits_of(raw) == d);
    assert(forall|i: int| 0 <= i < 6 ==> crate::color_labels::is_hex_digit(#[trigger] d[i]));
    assert(crate::color_labels::is_hex_digit(d[0]) && crate::color_labels::is_hex_digit(d[1])
        && crate::color_labels::is_hex_digit(d[2]) && crate::color_labels::is_hex_digit(d[3])
        && crate::color_labels::is_hex_digit(d[4]) && crate::color_labels::is_hex_digit(d[5]));
    assert forall|k: int| 0 <= k < 3 implies (#[trigger] color_channels(raw)[k]) as int == 16
        * crate::color_labels::hex_value(d[2 * k]) + crate::color_labels::hex_value(d[2 * k + 1]) by {
        if k == 0 {
        } else if k == 1 {
        } else {
            assert(k == 2);
        }
    }
}

/// The value of a hexadecimal digit, in either case.
pub proof fn digits_have_their_values(n: int)
    requires
        0 <= n < 6,
    ensures
        crate::color_labels::hex_value((48 + n) as char) == n,
        crate::color_labels::hex_value((97 + n) as char) == 10 + n,
        crate::color_labels::hex_value((65 + n) as char) == 10 + n,
        crate::color_labels::hex_value('6') == 6 && crate::color_labels::hex_value('7') == 7
            && crate::color_labels::hex_value('8') == 8 && crate::color_labels::hex_value('9') == 9,
{
}

/// What an older store held for a path comes in under its key, the last entry of several; blank
/// notes and tags bring nothing; and every other row stays.
pub proof fn older_rows_come_in(
    m: Map<Seq<char>, Seq<char>>,
    root: Seq<char>,
    name: TableName,
    list: Seq<(Seq<char>, Seq<char>)>,
    path: Seq<char>,
    value: Seq<char>,
    other: Seq<char>,
)
    requires
        other != key_of(root, path),
    ensures
        ({
            let before = imported(m, root, name, list);
            let after = imported(m, root, name, list.push((path, value)));
            let key = key_of(root, path);
            &&& after.contains_key(other) == before.contains_key(other) && after[other]
                == before[other]
            &&& name is Notes && trimmed(value).len() > 0 ==> after.contains_pair(key, value)
            &&& name is Notes && trimmed(value).len() == 0 ==> after == before
            &&& name is Tags && clean_tags(value).len() > 0 ==> after.contains_pair(
                key,
                clean_tags(value),
            )
            &&& name is Tags && clean_tags(value).len() == 0 ==> after == before
            &&& name is Labels && fixed_label(value) is Some ==> after.contains_pair(
                key,
                fixed_label(value)->0,
            )
        }),
        imported(m, root, name, Seq::empty()) == m,
{
    let more = list.push((path, value));
    assert(more.drop_last() =~= list);
}

/// The favorites of an older store come in as they were written, and the others stay.
pub proof fn older_favorites_come_in(
    m: Map<Seq<char>, Seq<char>>,
    root: Seq<char>,
    list: Seq<Seq<char>>,
    path: Seq<char>,
    other: Seq<char>,
)
    requires
        other != key_of(root, path),
    ensures
        ({
            let before = imported_favorites(m, root, list);
            let after = imported_favorites(m, root, list.push(path));
            &&& after.contains_pair(key_of(root, path), slash_form(path))
            &&& after.contains_key(other) == before.contains_key(other) && after[other]
                == before[other]
        }),
        imported_favorites(m, root, Seq::empty()) == m,
{
    let more = list.push(path);
    assert(more.drop_last() =~= list);
}

/// An older store comes in list by list: notes as notes, tags as tags, labels as labels, favorites
/// as favorites; the settings only gain the mark that it came in, and the palette stays.
pub proof fn older_stores_come_in_as_they_are(
    t: crate::media_db::Tables,
    root: Seq<char>,
    legacy: crate::media_db::LegacyMetadata,
    now: Seq<char>,
    key: Seq<char>,
)
    requires
        key != "legacy_json_migrated"@,
    ensures
        ({
            let a = crate::media_db::legacy_imported(t, root, legacy, now);
            &&& a.notes == imported(
                t.notes,
                root,
                TableName::Notes,
                crate::media_db::pair_texts(legacy.notes@),
            )
            &&& a.tags == imported(
                t.tags,
                root,
                TableName::Tags,
                crate::media_db::pair_texts(legacy.tags@),
            )
            &&& a.labels == imported(
                t.labels,
                root,
                TableName::Labels,
                crate::media_db::pair_texts(legacy.color_labels@),
            )
            &&& a.favorites == imported_favorites(
                t.favorites,
                root,
                crate::text::texts(legacy.favorites@),
            )
            &&& a.settings.contains_key(key) == t.settings.contains_key(key) && a.settings[key]
                == t.settings[key]
            &&& a.catalog == t.catalog
        }),
{
}

/// A label is in use exactly where some file carries it.
pub proof fn usage_counts_the_files(labels: Map<Seq<char>, Seq<char>>, id: Seq<char>, k: Seq<char>)
    requires
        labels.dom().finite(),
    ensures
        labels.contains_key(k) && crate::color_labels::decoded_ids(labels[k]).contains(id) ==> usage(
            labels,
            id,
        ) > 0,
        usage(labels, id) > 0 ==> exists|j: Seq<char>| #[trigger]
            labels.contains_key(j) && crate::color_labels::decoded_ids(labels[j]).contains(id),
        usage(labels, id) <= labels.dom().len(),
{
    let f = |j: Seq<char>| crate::color_labels::decoded_ids(labels[j]).contains(id);
    let s = labels.dom().filter(f);
    assert(s.subset_of(labels.dom()));
    vstd::set_lib::lemma_len_subset(s, labels.dom());
    if labels.contains_key(k) && crate::color_labels::decoded_ids(labels[k]).contains(id) {
        assert(s.contains(k));
        assert(s.len() > 0) by {
            if s.len() == 0 {
                assert(s =~= Set::<Seq<char>>::empty());
            }
        }
    }
    if s.len() > 0 {
        let j = s.choose();
        assert(s.contains(j)) by {
            if !exists|x: Seq<char>| s.contains(x) {
                assert(s =~= Set::<Seq<char>>::empty());
            }
        }
        assert(labels.contains_key(j));
    }
}

/// Changing a label changes the name and the color that are given, of that label alone.
pub proof fn changes_touch_one_label(
    db: &MediaDb,
    id: Seq<char>,
    name: Option<Seq<char>>,
    hex: Option<Seq<char>>,
    i: int,
)
    requires
        crate::media_db::place_of_id(db.catalog_seen(), id) is Some,
        0 <= i < db.catalog_seen().len(),
    ensures
        ({
            let before = db.catalog_seen();
            let after = db.catalog_changed(id, name, hex);
            let at = crate::media_db::place_of_id(before, id)->0;
            &&& after.len() == before.len()
            &&& 0 <= at < before.len() && before[at].id == id
            &&& i < at ==> before[i].id != id
            &&& i != at ==> after[i] == before[i]
            &&& after[at].id == id
            &&& after[at].name == (if name is Some {
                name->0
            } else {
                before[at].name
            })
            &&& after[at].hex == (if hex is Some {
                hex->0
            } else {
                before[at].hex
            })
        }),
{
    lemma_place_of_id(db.catalog_seen(), id, i);
}

proof fn lemma_place_of_id(defs: Seq<LabelModel>, id: Seq<char>, i: int)
    requires
        crate::media_db::place_of_id(defs, id) is Some,
    ensures
        ({
            let at = crate::media_db::place_of_id(defs, id)->0;
            &&& 0 <= at < defs.len() && defs[at].id == id
            &&& 0 <= i < at ==> defs[i].id != id
        }),
    decreases defs.len(),
{
    if defs.len() > 0 && defs[0].id != id {
        lemma_place_of_id(defs.drop_first(), id, i - 1);
    }
}

/// Whether every label of a palette is fit and no two are taken for each other.
pub open spec fn is_sound(defs: Seq<LabelModel>) -> bool {
    &&& forall|i: int| #![trigger defs[i]] 0 <= i < defs.len() ==> is_fit(defs[i])
    &&& forall|i: int, j: int|
        0 <= i < j < defs.len() ==> trimmed((#[trigger] defs[i]).id) != trimmed(
            (#[trigger] defs[j]).id,
        ) && unicode_lower(trimmed(defs[i].name)) != unicode_lower(trimmed(defs[j].name))
            && canonical_color(defs[i].hex) != canonical_color(defs[j].hex)
}

} // verus!
