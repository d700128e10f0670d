//! The media metadata database: notes, tags, color labels, favorites and settings.
//!
//! The tables are held in memory. Every write also goes on a list of changes, for the caller to
//! carry out on the stored database in one transaction.

use crate::color_labels::{
    accepted_catalog_is_consistent, assigned_ids, assigned_ids_are_tidy, built_in_ids_are_valid, built_in_labels,
    catalog_json, checked_catalog, decode_label_ids, decoded_ids, default_color_label_definitions,
    encode_catalog, encode_label_ids, find_label, fixed_label, has_id, ids_valid, is_label_id, is_tidy, label, label_named,
    labels_of, list_contains, normalize_assigned_label_ids,
    normalize_label, tidy_lists_stay, trimming_is_idempotent,
    validate_color_label_definitions, ColorLabelDefinition, LabelModel,
};
use crate::media_inventory::{hex_fixed, hex_text, lemma_hex_len};
use crate::media_keys::{
    absolute_key, has_drive, is_inside, key_for_root, key_of, lexical_media_root_identity, normal_root,
    plain_names, slash_form, slashify,
};
use crate::number::{decimal, decimal_text};
use crate::outside::{is_lower_hex, json_of_strings, now_rfc3339, random_token};
use crate::paths::{join_path, joined_path, PathStyle};
use crate::table::{in_text_order, ordered_keys_are_unique, Table};
use crate::text::{
    ascii_lower, begins, cat, cat3, eq_ignore_ascii_case, join, joined, opt_text, rank_text,
    replace_char, replaced, split, split_char, str_eq, text_rank, texts, to_ascii_lowercase, trim,
    trimmed, unicode_lower, Rank,
};
use vstd::prelude::*;

verus! {

/// What may be done with the stored database.
#[derive(Clone, Copy, Debug, PartialEq, Eq, Structural)]
pub enum Access {
    ReadWrite,
    ReadOnly,
    /// Another process holds the database: nothing can be read or written.
    Unavailable,
}

#[derive(Clone, Copy, Debug, PartialEq, Eq, Structural)]
pub enum TableName {
    Notes,
    Tags,
    Labels,
    Favorites,
    Settings,
}

/// One change to the stored database.
#[derive(Debug)]
pub enum Change {
    Put { table: TableName, key: String, value: String },
    Delete { table: TableName, key: String },
    /// A row of the settings that holds the catalog is written or removed; the catalog that the
    /// settings hold from then on, if they hold one that can be read.
    Catalog { key: String, text: Option<String>, definitions: Option<Vec<ColorLabelDefinition>> },
}

pub ghost enum ChangeModel {
    Put(TableName, Seq<char>, Seq<char>),
    Delete(TableName, Seq<char>),
    Catalog(Seq<char>, Option<Seq<char>>, Option<Seq<LabelModel>>),
}

impl View for Change {
    type V = ChangeModel;

    open spec fn view(&self) -> ChangeModel {
        match *self {
            Change::Put { table, key, value } => ChangeModel::Put(table, key@, value@),
            Change::Delete { table, key } => ChangeModel::Delete(table, key@),
            Change::Catalog { key, text, definitions } => ChangeModel::Catalog(
                key@,
                opt_text(text),
                opt_labels(definitions),
            ),
        }
    }
}

pub open spec fn changes_of(v: Seq<Change>) -> Seq<ChangeModel> {
    v.map_values(|c: Change| c@)
}

/// The contents of the database.
#[verifier::ext_equal]
pub ghost struct Tables {
    pub notes: Map<Seq<char>, Seq<char>>,
    pub tags: Map<Seq<char>, Seq<char>>,
    pub labels: Map<Seq<char>, Seq<char>>,
    pub favorites: Map<Seq<char>, Seq<char>>,
    pub settings: Map<Seq<char>, Seq<char>>,
    /// The stored catalog of labels, if one is stored that can be read.
    pub catalog: Option<Seq<LabelModel>>,
}

impl Tables {
    pub open spec fn of(self, name: TableName) -> Map<Seq<char>, Seq<char>> {
        match name {
            TableName::Notes => self.notes,
            TableName::Tags => self.tags,
            TableName::Labels => self.labels,
            TableName::Favorites => self.favorites,
            TableName::Settings => self.settings,
        }
    }

    pub open spec fn with(self, name: TableName, m: Map<Seq<char>, Seq<char>>) -> Tables {
        match name {
            TableName::Notes => Tables { notes: m, ..self },
            TableName::Tags => Tables { tags: m, ..self },
            TableName::Labels => Tables { labels: m, ..self },
            TableName::Favorites => Tables { favorites: m, ..self },
            TableName::Settings => Tables { settings: m, ..self },
        }
    }

    pub open spec fn after(self, c: ChangeModel) -> Tables {
        match c {
            ChangeModel::Put(name, key, value) => self.with(name, self.of(name).insert(key, value)),
            ChangeModel::Delete(name, key) => self.with(name, self.of(name).remove(key)),
            ChangeModel::Catalog(key, text, defs) => Tables {
                settings: match text {
                    Some(t) => self.settings.insert(key, t),
                    None => self.settings.remove(key),
                },
                catalog: defs,
                ..self
            },
        }
    }

    /// The contents with another catalog, which a row of the settings holds.
    pub open spec fn with_catalog(self, defs: Seq<LabelModel>) -> Tables {
        self.after(
            ChangeModel::Catalog(
                "color_label_definitions_v2"@,
                Some(catalog_json(defs)),
                Some(defs),
            ),
        )
    }

    /// The contents after all changes, in order.
    pub open spec fn after_all(self, cs: Seq<ChangeModel>) -> Tables
        decreases cs.len(),
    {
        if cs.len() == 0 {
            self
        } else {
            self.after_all(cs.drop_last()).after(cs.last())
        }
    }
}

/// Whether a setting is one of those that hold the catalog: the present one, and the one before.
pub open spec fn is_catalog_key(key: Seq<char>) -> bool {
    key == "color_label_definitions_v2"@ || key == "color_label_definitions_v1"@
}

pub open spec fn opt_labels(o: Option<Vec<ColorLabelDefinition>>) -> Option<Seq<LabelModel>> {
    match o {
        Some(v) => Some(labels_of(v@)),
        None => None,
    }
}

pub open spec fn text_map(m: Map<Seq<char>, String>) -> Map<Seq<char>, Seq<char>> {
    Map::new(|k: Seq<char>| m.contains_key(k), |k: Seq<char>| m[k]@)
}

/// A table after a write: the row of an older form under the absolute key goes, and the row under
/// the key of the path is stored, or removed when there is nothing but white space to store.
pub open spec fn written(
    m: Map<Seq<char>, Seq<char>>,
    root: Seq<char>,
    path: Seq<char>,
    value: Option<Seq<char>>,
) -> Map<Seq<char>, Seq<char>> {
    let key = key_of(root, path);
    let older = absolute_key(path);
    let m1 = if older != key {
        m.remove(older)
    } else {
        m
    };
    if value is Some && trimmed(value->0).len() > 0 {
        m1.insert(key, value->0)
    } else {
        m1.remove(key)
    }
}

/// What a table holds for a path: the row under its key, or else the one under its absolute key.
pub open spec fn looked_up(m: Map<Seq<char>, Seq<char>>, root: Seq<char>, path: Seq<char>) -> Option<
    Seq<char>,
> {
    if m.contains_key(key_of(root, path)) {
        Some(m[key_of(root, path)])
    } else if m.contains_key(absolute_key(path)) {
        Some(m[absolute_key(path)])
    } else {
        None
    }
}

/// A read gives back what was written last for the path, and nothing when that was cleared.
pub proof fn read_gives_back_the_write(
    m: Map<Seq<char>, Seq<char>>,
    root: Seq<char>,
    path: Seq<char>,
    value: Option<Seq<char>>,
)
    ensures
        looked_up(written(m, root, path, value), root, path) == if value is Some && trimmed(
            value->0,
        ).len() > 0 {
            value
        } else {
            None
        },
{
}

/// A write leaves the rows of every other key as they were.
pub proof fn write_keeps_other_rows(
    m: Map<Seq<char>, Seq<char>>,
    root: Seq<char>,
    path: Seq<char>,
    value: Option<Seq<char>>,
    other: Seq<char>,
)
    requires
        other != key_of(root, path),
        other != absolute_key(path),
    ensures
        written(m, root, path, value).contains_key(other) == m.contains_key(other),
        m.contains_key(other) ==> written(m, root, path, value)[other] == m[other],
{
}

/// The folder of the media state of a workspace.
pub open spec fn state_folder(style: PathStyle, root: Seq<char>) -> Seq<char> {
    joined_path(style, joined_path(style, root, ".facial"@), "media"@)
}

/// The database file of a workspace.
pub open spec fn database_file(style: PathStyle, root: Seq<char>) -> Seq<char> {
    joined_path(style, state_folder(style, root), "media.redb"@)
}

pub struct MediaDb {
    workspace_root: String,
    style: PathStyle,
    access: Access,
    status: Option<String>,
    notes: Table<String>,
    tags: Table<String>,
    labels: Table<String>,
    favorites: Table<String>,
    settings: Table<String>,
    catalog: Option<Vec<ColorLabelDefinition>>,
    changes: Vec<Change>,
    stored: Ghost<Tables>,
}

/// The message of a refused write.
pub open spec fn refusal(status: Option<Seq<char>>) -> Seq<char> {
    match status {
        Some(s) => s,
        None => "media db is not writable"@,
    }
}

impl MediaDb {
    pub closed spec fn root(&self) -> Seq<char> {
        self.workspace_root@
    }

    pub closed spec fn path_style(&self) -> PathStyle {
        self.style
    }

    pub closed spec fn access_of(&self) -> Access {
        self.access
    }

    pub closed spec fn status_of(&self) -> Option<Seq<char>> {
        opt_text(self.status)
    }

    pub closed spec fn tables(&self) -> Tables {
        Tables {
            notes: text_map(self.notes@),
            tags: text_map(self.tags@),
            labels: text_map(self.labels@),
            favorites: text_map(self.favorites@),
            settings: text_map(self.settings@),
            catalog: opt_labels(self.catalog),
        }
    }

    /// What the stored database held when the pending changes began.
    pub closed spec fn stored_tables(&self) -> Tables {
        self.stored@
    }

    pub closed spec fn pending(&self) -> Seq<ChangeModel> {
        changes_of(self.changes@)
    }

    /// The pending changes lead from what is stored to what the tables hold.
    pub open spec fn wf(&self) -> bool {
        self.stored_tables().after_all(self.pending()) == self.tables()
    }

    /// Nothing but the tables and the pending changes differs.
    pub open spec fn same_frame(&self, other: &MediaDb) -> bool {
        &&& self.root() == other.root()
        &&& self.path_style() == other.path_style()
        &&& self.access_of() == other.access_of()
        &&& self.status_of() == other.status_of()
        &&& self.stored_tables() == other.stored_tables()
    }

    pub open spec fn writable(&self) -> bool {
        self.access_of() == Access::ReadWrite
    }

    /// A table as reads see it: empty while the database is unavailable.
    pub open spec fn seen(&self, name: TableName) -> Map<Seq<char>, Seq<char>> {
        if self.access_of() == Access::Unavailable {
            Map::empty()
        } else {
            self.tables().of(name)
        }
    }

    /// The folder of the media state of a workspace.
    pub fn media_state_dir(style: PathStyle, workspace_root: &str) -> (r: String)
        ensures
            r@ == state_folder(style, workspace_root@),
    {
        let state = join_path(style, workspace_root, ".facial");
        join_path(style, state.as_str(), "media")
    }

    /// The database file of a workspace.
    pub fn db_path(style: PathStyle, workspace_root: &str) -> (r: String)
        ensures
            r@ == database_file(style, workspace_root@),
    {
        let dir = Self::media_state_dir(style, workspace_root);
        join_path(style, dir.as_str(), "media.redb")
    }

    /// The metadata file of older versions.
    pub fn legacy_json_path(style: PathStyle, workspace_root: &str) -> (r: String)
        ensures
            r@ == joined_path(
                style,
                joined_path(style, workspace_root@, ".facial"@),
                "media_metadata.json"@,
            ),
    {
        let state = join_path(style, workspace_root, ".facial");
        join_path(style, state.as_str(), "media_metadata.json")
    }

    /// A database handle over rows that were read from the store.
    pub fn open(
        workspace_root: String,
        style: PathStyle,
        access: Access,
        status: Option<String>,
        notes: Table<String>,
        tags: Table<String>,
        labels: Table<String>,
        favorites: Table<String>,
        settings: Table<String>,
        catalog: Option<Vec<ColorLabelDefinition>>,
    ) -> (r: Self)
        ensures
            r.wf(),
            r.root() == workspace_root@,
            r.path_style() == style,
            r.access_of() == access,
            r.status_of() == opt_text(status),
            r.pending() == Seq::<ChangeModel>::empty(),
            r.tables() == (Tables {
                notes: text_map(notes@),
                tags: text_map(tags@),
                labels: text_map(labels@),
                favorites: text_map(favorites@),
                settings: text_map(settings@),
                catalog: opt_labels(catalog),
            }),
    {
        let ghost t = Tables {
            notes: text_map(notes@),
            tags: text_map(tags@),
            labels: text_map(labels@),
            favorites: text_map(favorites@),
            settings: text_map(settings@),
            catalog: opt_labels(catalog),
        };
        let r = MediaDb {
            workspace_root,
            style,
            access,
            status,
            notes,
            tags,
            labels,
            favorites,
            settings,
            catalog,
            changes: Vec::new(),
            stored: Ghost(t),
        };
        assert(r.pending() =~= Seq::<ChangeModel>::empty());
        r
    }

    /// Hands out the pending changes, which lead from what was stored to what the tables hold.
    pub fn take_changes(&mut self) -> (r: Vec<Change>)
        requires
            old(self).wf(),
        ensures
            final(self).wf(),
            changes_of(r@) == old(self).pending(),
            old(self).stored_tables().after_all(changes_of(r@)) == final(self).tables(),
            final(self).tables() == old(self).tables(),
            final(self).stored_tables() == old(self).tables(),
            final(self).pending() == Seq::<ChangeModel>::empty(),
            final(self).root() == old(self).root(),
            final(self).path_style() == old(self).path_style(),
            final(self).access_of() == old(self).access_of(),
            final(self).status_of() == old(self).status_of(),
    {
        let mut out: Vec<Change> = Vec::new();
        std::mem::swap(&mut out, &mut self.changes);
        self.stored = Ghost(self.tables());
        assert(self.pending() =~= Seq::<ChangeModel>::empty());
        out
    }

    pub fn is_writable(&self) -> (r: bool)
        ensures
            r == self.writable(),
    {
        matches!(self.access, Access::ReadWrite)
    }

    /// Whether reads can return real data.
    pub fn is_available(&self) -> (r: bool)
        ensures
            r == (self.access_of() != Access::Unavailable),
    {
        !matches!(self.access, Access::Unavailable)
    }

    /// Why the database is degraded; `None` while it is healthy.
    pub fn status(&self) -> (r: Option<&String>)
        ensures
            match r {
                Some(s) => self.status_of() == Some(s@),
                None => self.status_of() is None,
            },
    {
        match &self.status {
            Some(s) => Some(s),
            None => None,
        }
    }

    fn refuse(&self) -> (r: String)
        ensures
            r@ == refusal(self.status_of()),
    {
        match &self.status {
            Some(s) => s.clone(),
            None => "media db is not writable".to_owned(),
        }
    }

    fn table(&self, name: TableName) -> (r: &Table<String>)
        ensures
            text_map(r@) == self.tables().of(name),
    {
        match name {
            TableName::Notes => &self.notes,
            TableName::Tags => &self.tags,
            TableName::Labels => &self.labels,
            TableName::Favorites => &self.favorites,
            TableName::Settings => &self.settings,
        }
    }

    fn put(&mut self, name: TableName, key: String, value: String)
        requires
            old(self).wf(),
        ensures
            final(self).wf(),
            final(self).same_frame(old(self)),
            final(self).tables() == old(self).tables().after(
                ChangeModel::Put(name, key@, value@),
            ),
    {
        let ghost before = self.tables();
        let ghost pend = self.pending();
        let c = Change::Put { table: name, key: key.clone(), value: value.clone() };
        let ghost cm = c@;
        self.changes.push(c);
        match name {
            TableName::Notes => {
                let ghost m = self.notes@;
                self.notes.insert(key, value);
                assert(text_map(m.insert(key@, value)) =~= text_map(m).insert(key@, value@));
            },
            TableName::Tags => {
                let ghost m = self.tags@;
                self.tags.insert(key, value);
                assert(text_map(m.insert(key@, value)) =~= text_map(m).insert(key@, value@));
            },
            TableName::Labels => {
                let ghost m = self.labels@;
                self.labels.insert(key, value);
                assert(text_map(m.insert(key@, value)) =~= text_map(m).insert(key@, value@));
            },
            TableName::Favorites => {
                let ghost m = self.favorites@;
                self.favorites.insert(key, value);
                assert(text_map(m.insert(key@, value)) =~= text_map(m).insert(key@, value@));
            },
            TableName::Settings => {
                let ghost m = self.settings@;
                self.settings.insert(key, value);
                assert(text_map(m.insert(key@, value)) =~= text_map(m).insert(key@, value@));
            },
        }
        proof {
            assert(self.tables() =~= before.after(cm));
            assert(self.pending() =~= pend.push(cm));
            assert(pend.push(cm).drop_last() =~= pend);
        }
    }

    fn delete(&mut self, name: TableName, key: &str)
        requires
            old(self).wf(),
        ensures
            final(self).wf(),
            final(self).same_frame(old(self)),
            final(self).tables() == old(self).tables().after(ChangeModel::Delete(name, key@)),
    {
        let ghost before = self.tables();
        let ghost pend = self.pending();
        let c = Change::Delete { table: name, key: key.to_owned() };
        let ghost cm = c@;
        self.changes.push(c);
        match name {
            TableName::Notes => {
                let ghost m = self.notes@;
                self.notes.remove(key);
                assert(text_map(m.remove(key@)) =~= text_map(m).remove(key@));
            },
            TableName::Tags => {
                let ghost m = self.tags@;
                self.tags.remove(key);
                assert(text_map(m.remove(key@)) =~= text_map(m).remove(key@));
            },
            TableName::Labels => {
                let ghost m = self.labels@;
                self.labels.remove(key);
                assert(text_map(m.remove(key@)) =~= text_map(m).remove(key@));
            },
            TableName::Favorites => {
                let ghost m = self.favorites@;
                self.favorites.remove(key);
                assert(text_map(m.remove(key@)) =~= text_map(m).remove(key@));
            },
            TableName::Settings => {
                let ghost m = self.settings@;
                self.settings.remove(key);
                assert(text_map(m.remove(key@)) =~= text_map(m).remove(key@));
            },
        }
        proof {
            assert(self.tables() =~= before.after(cm));
            assert(self.pending() =~= pend.push(cm));
            assert(pend.push(cm).drop_last() =~= pend);
        }
    }

    fn put_catalog_row(
        &mut self,
        key: &str,
        text: Option<String>,
        definitions: Option<Vec<ColorLabelDefinition>>,
    )
        requires
            old(self).wf(),
        ensures
            final(self).wf(),
            final(self).same_frame(old(self)),
            final(self).tables() == old(self).tables().after(
                ChangeModel::Catalog(key@, opt_text(text), opt_labels(definitions)),
            ),
    {
        let ghost before = self.tables();
        let ghost pend = self.pending();
        let copy = match &definitions {
            Some(d) => Some(copy_definitions(d)),
            None => None,
        };
        let row = match &text {
            Some(t) => Some(t.clone()),
            None => None,
        };
        let c = Change::Catalog { key: key.to_owned(), text: row, definitions: copy };
        let ghost cm = c@;
        assert(cm == ChangeModel::Catalog(key@, opt_text(text), opt_labels(definitions)));
        self.changes.push(c);
        let ghost m = self.settings@;
        match text {
            Some(t) => {
                self.settings.insert(key.to_owned(), t);
                assert(text_map(m.insert(key@, t)) =~= text_map(m).insert(key@, t@));
            },
            None => {
                self.settings.remove(key);
                assert(text_map(m.remove(key@)) =~= text_map(m).remove(key@));
            },
        }
        self.catalog = definitions;
        proof {
            assert(self.tables() =~= before.after(cm));
            assert(self.pending() =~= pend.push(cm));
            assert(pend.push(cm).drop_last() =~= pend);
        }
    }

    fn put_catalog(&mut self, definitions: Vec<ColorLabelDefinition>)
        requires
            old(self).wf(),
        ensures
            final(self).wf(),
            final(self).same_frame(old(self)),
            final(self).tables() == old(self).tables().with_catalog(labels_of(definitions@)),
    {
        let text = encode_catalog(&definitions);
        self.put_catalog_row("color_label_definitions_v2", Some(text), Some(definitions));
    }

    /// The storage key of a path.
    pub fn key_for(&self, path: &str) -> (r: String)
        ensures
            r@ == key_of(self.root(), path@),
    {
        key_for_root(self.workspace_root.as_str(), path)
    }

    /// The path that a key stands for, with the separators of the platform.
    pub fn path_for_key(&self, key: &str) -> (r: String)
        ensures
            r@ == path_of_key(self.path_style(), self.root(), key@),
    {
        if key.is_empty() {
            return String::new();
        }
        let cs = crate::text::chars_of(key);
        let first: char = cs[0];
        let whole = first == '/' || (cs.len() >= 2 && first <= '\u{7f}' && cs[1] == ':');
        proof {
            reveal_strlit("/");
            assert(key@.take(1)[0] == key@[0]);
            assert(begins(key@, "/"@) == (key@[0] == '/')) by {
                if key@[0] == '/' {
                    assert(key@.take(1) =~= "/"@);
                }
            }
        }
        let joined = if whole {
            key.to_owned()
        } else {
            join_path(self.style, self.workspace_root.as_str(), key)
        };
        native(self.style, joined.as_str())
    }

    fn read_str(&self, name: TableName, path: &str) -> (r: Option<String>)
        ensures
            opt_text(r) == looked_up(self.seen(name), self.root(), path@),
    {
        if matches!(self.access, Access::Unavailable) {
            return None;
        }
        let table = self.table(name);
        let key = self.key_for(path);
        match table.get(key.as_str()) {
            Some(v) => return Some(v.clone()),
            None => {},
        }
        let absolute = lexical_media_root_identity(path);
        match table.get(absolute.as_str()) {
            Some(v) => Some(v.clone()),
            None => None,
        }
    }

    /// Writes one row in the given table, whether or not the database is writable.
    fn store(&mut self, name: TableName, path: &str, value: Option<&str>)
        requires
            old(self).wf(),
        ensures
            final(self).wf(),
            final(self).same_frame(old(self)),
            final(self).tables() == old(self).tables().with(
                name,
                written(
                    old(self).tables().of(name),
                    old(self).root(),
                    path@,
                    match value {
                        Some(v) => Some(v@),
                        None => None,
                    },
                ),
            ),
    {
        let ghost t0 = self.tables();
        let key = self.key_for(path);
        let older = lexical_media_root_identity(path);
        if !str_eq(older.as_str(), key.as_str()) {
            self.delete(name, older.as_str());
        }
        let keep = match value {
            Some(v) => {
                let t = trim(v);
                !t.as_str().is_empty()
            },
            None => false,
        };
        if keep {
            match value {
                Some(v) => {
                    self.put(name, key, v.to_owned());
                },
                None => {},
            }
        } else {
            self.delete(name, key.as_str());
        }
        proof {
            let m = written(
                t0.of(name),
                self.root(),
                path@,
                match value {
                    Some(v) => Some(v@),
                    None => None,
                },
            );
            assert(self.tables().of(name) =~= m);
            assert(self.tables() =~= t0.with(name, m));
        }
    }

    /// The tables after a successful write of one row.
    pub open spec fn wrote(
        &self,
        name: TableName,
        path: Seq<char>,
        value: Option<Seq<char>>,
    ) -> Tables {
        self.tables().with(name, written(self.tables().of(name), self.root(), path, value))
    }

    /// Whether a write was refused, as it is whenever the database is not writable: the reason is
    /// given and nothing has changed.
    pub open spec fn refused(&self, after: &MediaDb, r: Result<(), String>) -> bool {
        &&& r is Err
        &&& r->Err_0@ == refusal(self.status_of())
        &&& after.tables() == self.tables()
        &&& after.pending() == self.pending()
    }

    fn write_str(&mut self, name: TableName, path: &str, value: Option<&str>) -> (r: Result<
        (),
        String,
    >)
        requires
            old(self).wf(),
        ensures
            final(self).wf(),
            final(self).same_frame(old(self)),
            if old(self).writable() {
                &&& r is Ok
                &&& final(self).tables() == old(self).wrote(
                    name,
                    path@,
                    match value {
                        Some(v) => Some(v@),
                        None => None,
                    },
                )
            } else {
                old(self).refused(final(self), r)
            },
    {
        if !self.is_writable() {
            return Err(self.refuse());
        }
        self.store(name, path, value);
        Ok(())
    }

    pub fn notes(&self, path: &str) -> (r: Option<String>)
        ensures
            opt_text(r) == looked_up(self.seen(TableName::Notes), self.root(), path@),
    {
        self.read_str(TableName::Notes, path)
    }

    /// Stores the notes of a path; white space clears them.
    pub fn set_notes(&mut self, path: &str, notes: &str) -> (r: Result<(), String>)
        requires
            old(self).wf(),
        ensures
            final(self).wf(),
            final(self).same_frame(old(self)),
            old(self).writable() && trimmed(notes@).len() > 0 ==> looked_up(
                final(self).tables().notes,
                old(self).root(),
                path@,
            ) == Some(notes@),
            old(self).writable() && trimmed(notes@).len() == 0 ==> looked_up(
                final(self).tables().notes,
                old(self).root(),
                path@,
            ) is None,
            final(self).tables().tags == old(self).tables().tags,
            final(self).tables().labels == old(self).tables().labels,
            final(self).tables().favorites == old(self).tables().favorites,
            final(self).tables().catalog == old(self).tables().catalog,
            if old(self).writable() {
                r is Ok && final(self).tables() == old(self).wrote(
                    TableName::Notes,
                    path@,
                    Some(notes@),
                )
            } else {
                old(self).refused(final(self), r)
            },
    {
        self.write_str(TableName::Notes, path, Some(notes))
    }

    pub fn tags(&self, path: &str) -> (r: Option<String>)
        ensures
            opt_text(r) == looked_up(self.seen(TableName::Tags), self.root(), path@),
    {
        self.read_str(TableName::Tags, path)
    }

    /// Stores the tags of a path, in their clean form.
    pub fn set_tags(&mut self, path: &str, tags: &str) -> (r: Result<(), String>)
        requires
            old(self).wf(),
        ensures
            final(self).wf(),
            final(self).same_frame(old(self)),
            old(self).writable() && trimmed(clean_tags(tags@)).len() > 0 ==> looked_up(
                final(self).tables().tags,
                old(self).root(),
                path@,
            ) == Some(clean_tags(tags@)),
            final(self).tables().notes == old(self).tables().notes,
            final(self).tables().labels == old(self).tables().labels,
            final(self).tables().favorites == old(self).tables().favorites,
            final(self).tables().catalog == old(self).tables().catalog,
            if old(self).writable() {
                r is Ok && final(self).tables() == old(self).wrote(
                    TableName::Tags,
                    path@,
                    Some(clean_tags(tags@)),
                )
            } else {
                old(self).refused(final(self), r)
            },
    {
        let cleaned = clean_tag_list(tags);
        self.write_str(TableName::Tags, path, Some(cleaned.as_str()))
    }

    /// The label ids of a path, in the order in which they were given.
    pub fn labels(&self, path: &str) -> (r: Vec<String>)
        ensures
            texts(r@) == labels_at(self.seen(TableName::Labels), self.root(), path@),
    {
        match self.read_str(TableName::Labels, path) {
            Some(raw) => decode_label_ids(raw.as_str()),
            None => {
                let r: Vec<String> = Vec::new();
                assert(texts(r@) =~= Seq::<Seq<char>>::empty());
                r
            },
        }
    }

    /// The first label of a path.
    pub fn label(&self, path: &str) -> (r: Option<String>)
        ensures
            opt_text(r) == ({
                let ids = labels_at(self.seen(TableName::Labels), self.root(), path@);
                if ids.len() > 0 {
                    Some(ids[0])
                } else {
                    None
                }
            }),
    {
        let ids = self.labels(path);
        assert(texts(ids@).len() == ids@.len());
        if ids.len() > 0 {
            assert(texts(ids@)[0] == ids@[0]@);
            Some(ids[0].clone())
        } else {
            None
        }
    }

    pub fn is_favorite(&self, path: &str) -> (r: bool)
        ensures
            r == (looked_up(self.seen(TableName::Favorites), self.root(), path@) is Some),
    {
        self.read_str(TableName::Favorites, path).is_some()
    }

    /// Adds a favorite; the path keeps its case for display.
    pub fn add_favorite(&mut self, path: &str) -> (r: Result<(), String>)
        requires
            old(self).wf(),
        ensures
            final(self).wf(),
            final(self).same_frame(old(self)),
            old(self).writable() ==> looked_up(
                final(self).tables().favorites,
                old(self).root(),
                path@,
            ) is Some,
            final(self).tables().notes == old(self).tables().notes,
            final(self).tables().tags == old(self).tables().tags,
            final(self).tables().labels == old(self).tables().labels,
            final(self).tables().catalog == old(self).tables().catalog,
            if old(self).writable() {
                r is Ok && final(self).tables() == old(self).tables().with(
                    TableName::Favorites,
                    favored(old(self).tables().favorites, old(self).root(), path@),
                )
            } else {
                old(self).refused(final(self), r)
            },
    {
        if !self.is_writable() {
            return Err(self.refuse());
        }
        let ghost t0 = self.tables();
        let key = self.key_for(path);
        let older = lexical_media_root_identity(path);
        let display = slashify(path);
        if !str_eq(older.as_str(), key.as_str()) {
            self.delete(TableName::Favorites, older.as_str());
        }
        self.put(TableName::Favorites, key, display);
        proof {
            assert(self.tables() =~= t0.with(
                TableName::Favorites,
                favored(t0.favorites, self.root(), path@),
            ));
        }
        Ok(())
    }

    pub fn remove_favorite(&mut self, path: &str) -> (r: Result<(), String>)
        requires
            old(self).wf(),
        ensures
            final(self).wf(),
            final(self).same_frame(old(self)),
            old(self).writable() ==> looked_up(
                final(self).tables().favorites,
                old(self).root(),
                path@,
            ) is None,
            final(self).tables().notes == old(self).tables().notes,
            final(self).tables().tags == old(self).tables().tags,
            final(self).tables().labels == old(self).tables().labels,
            final(self).tables().catalog == old(self).tables().catalog,
            if old(self).writable() {
                r is Ok && final(self).tables() == old(self).tables().with(
                    TableName::Favorites,
                    old(self).tables().favorites.remove(key_of(old(self).root(), path@)).remove(
                        absolute_key(path@),
                    ),
                )
            } else {
                old(self).refused(final(self), r)
            },
    {
        if !self.is_writable() {
            return Err(self.refuse());
        }
        let ghost t0 = self.tables();
        let key = self.key_for(path);
        let older = lexical_media_root_identity(path);
        self.delete(TableName::Favorites, key.as_str());
        if !str_eq(older.as_str(), key.as_str()) {
            self.delete(TableName::Favorites, older.as_str());
        }
        proof {
            assert(self.tables().favorites =~= t0.favorites.remove(key@).remove(older@));
            assert(self.tables() =~= t0.with(
                TableName::Favorites,
                t0.favorites.remove(key@).remove(older@),
            ));
        }
        Ok(())
    }

    /// Turns a favorite on or off; whether it is one afterwards.
    pub fn toggle_favorite(&mut self, path: &str) -> (r: Result<bool, String>)
        requires
            old(self).wf(),
        ensures
            final(self).wf(),
            final(self).same_frame(old(self)),
            r is Ok ==> (r->Ok_0 <==> looked_up(
                final(self).tables().favorites,
                old(self).root(),
                path@,
            ) is Some),
            r is Ok ==> (r->Ok_0 <==> looked_up(
                old(self).tables().favorites,
                old(self).root(),
                path@,
            ) is None),
            final(self).tables().notes == old(self).tables().notes,
            final(self).tables().tags == old(self).tables().tags,
            final(self).tables().labels == old(self).tables().labels,
            final(self).tables().catalog == old(self).tables().catalog,
            if old(self).writable() {
                let was = looked_up(
                    old(self).tables().favorites,
                    old(self).root(),
                    path@,
                ) is Some;
                &&& r == Ok::<bool, String>(!was)
                &&& final(self).tables() == old(self).tables().with(
                    TableName::Favorites,
                    if was {
                        old(self).tables().favorites.remove(
                            key_of(old(self).root(), path@),
                        ).remove(absolute_key(path@))
                    } else {
                        favored(old(self).tables().favorites, old(self).root(), path@)
                    },
                )
            } else {
                &&& r is Err
                &&& r->Err_0@ == refusal(old(self).status_of())
                &&& final(self).tables() == old(self).tables()
            },
    {
        if self.is_favorite(path) {
            match self.remove_favorite(path) {
                Ok(_) => Ok(false),
                Err(e) => Err(e),
            }
        } else {
            match self.add_favorite(path) {
                Ok(_) => Ok(true),
                Err(e) => Err(e),
            }
        }
    }

    pub fn setting(&self, key: &str) -> (r: Option<String>)
        ensures
            opt_text(r) == ({
                let m = self.seen(TableName::Settings);
                if m.contains_key(key@) {
                    Some(m[key@])
                } else {
                    None
                }
            }),
    {
        if matches!(self.access, Access::Unavailable) {
            return None;
        }
        match self.settings.get(key) {
            Some(v) => Some(v.clone()),
            None => None,
        }
    }

    /// Stores a setting; an empty value removes it. Where the setting is one that holds the catalog
    /// of labels, `catalog` is what the settings hold as a catalog from then on, if that can be
    /// read; for any other setting it is not looked at.
    pub fn set_setting(
        &mut self,
        key: &str,
        value: &str,
        catalog: Option<Vec<ColorLabelDefinition>>,
    ) -> (r: Result<(), String>)
        requires
            old(self).wf(),
        ensures
            final(self).wf(),
            final(self).same_frame(old(self)),
            old(self).writable() && value@.len() > 0 ==> final(self).tables().settings.contains_key(
                key@,
            ) && final(self).tables().settings[key@] == value@,
            old(self).writable() && value@.len() == 0
                ==> !final(self).tables().settings.contains_key(key@),
            final(self).tables().notes == old(self).tables().notes,
            final(self).tables().tags == old(self).tables().tags,
            final(self).tables().labels == old(self).tables().labels,
            final(self).tables().favorites == old(self).tables().favorites,
            if old(self).writable() {
                r is Ok && final(self).tables() == (Tables {
                    settings: if value@.len() == 0 {
                        old(self).tables().settings.remove(key@)
                    } else {
                        old(self).tables().settings.insert(key@, value@)
                    },
                    catalog: if is_catalog_key(key@) {
                        opt_labels(catalog)
                    } else {
                        old(self).tables().catalog
                    },
                    ..old(self).tables()
                })
            } else {
                old(self).refused(final(self), r)
            },
    {
        if !self.is_writable() {
            return Err(self.refuse());
        }
        if str_eq(key, "color_label_definitions_v2") || str_eq(key, "color_label_definitions_v1") {
            let text = if value.is_empty() {
                None
            } else {
                Some(value.to_owned())
            };
            self.put_catalog_row(key, text, catalog);
        } else if value.is_empty() {
            self.delete(TableName::Settings, key);
        } else {
            self.put(TableName::Settings, key.to_owned(), value.to_owned());
        }
        Ok(())
    }
}

/// The favorites with one more: its display path under its key.
pub open spec fn favored(m: Map<Seq<char>, Seq<char>>, root: Seq<char>, path: Seq<char>) -> Map<
    Seq<char>,
    Seq<char>,
> {
    let key = key_of(root, path);
    let older = absolute_key(path);
    (if older != key {
        m.remove(older)
    } else {
        m
    }).insert(key, slash_form(path))
}

/// The label ids of a path.
pub open spec fn labels_at(m: Map<Seq<char>, Seq<char>>, root: Seq<char>, path: Seq<char>) -> Seq<
    Seq<char>,
> {
    match looked_up(m, root, path) {
        Some(raw) => decoded_ids(raw),
        None => Seq::empty(),
    }
}

/// The path that a key stands for: absolute keys as they are, others below the root, with the
/// separators of the platform.
pub open spec fn path_of_key(style: PathStyle, root: Seq<char>, key: Seq<char>) -> Seq<char> {
    if key.len() == 0 {
        Seq::empty()
    } else {
        let whole = begins(key, "/"@) || has_drive(key);
        replaced(
            if whole {
                key
            } else {
                joined_path(style, root, key)
            },
            '/',
            style.glue(),
        )
    }
}

fn native(style: PathStyle, path: &str) -> (r: String)
    ensures
        r@ == replaced(path@, '/', style.glue()),
{
    match style {
        PathStyle::Unix => replace_char(path, '/', '/'),
        PathStyle::Windows => replace_char(path, '/', '\\'),
    }
}

fn copy_definitions(defs: &Vec<ColorLabelDefinition>) -> (r: Vec<ColorLabelDefinition>)
    ensures
        labels_of(r@) == labels_of(defs@),
{
    let mut out: Vec<ColorLabelDefinition> = Vec::new();
    let n: usize = defs.len();
    let mut i: usize = 0;
    assert(labels_of(out@) =~= labels_of(defs@).take(0));
    while i < n
        invariant
            i <= n,
            n == defs@.len(),
            labels_of(out@) == labels_of(defs@).take(i as int),
        decreases n - i,
    {
        let ghost before = labels_of(out@);
        let d = defs[i].clone();
        out.push(d);
        assert(labels_of(out@) =~= before.push(d@));
        assert(labels_of(defs@).take(i + 1) =~= labels_of(defs@).take(i as int).push(
            labels_of(defs@)[i as int],
        ));
        i += 1;
    }
    assert(labels_of(defs@).take(n as int) =~= labels_of(defs@));
    out
}

/// Whether `t` is a tag of a comma-separated list: a piece without white space around it, in
/// lower case, not empty.
pub open spec fn is_tag(list: Seq<char>, t: Seq<char>) -> bool {
    t.len() > 0 && exists|i: int|
        0 <= i < split(list, ',').len() && ascii_lower(trimmed(#[trigger] split(list, ',')[i])) == t
}

/// Whether `order` lists the tags of a list in text order, each once.
pub open spec fn lists_tags(order: Seq<Seq<char>>, list: Seq<char>) -> bool {
    in_text_order(order) && forall|t: Seq<char>| #[trigger] order.contains(t) <==> is_tag(list, t)
}

/// The tags of a list in their clean form: in text order, each once, joined by comma and space.
pub open spec fn clean_tags(list: Seq<char>) -> Seq<char> {
    joined(choose|order: Seq<Seq<char>>| lists_tags(order, list), ", "@)
}

/// There is one clean form of a list of tags.
pub proof fn clean_form_is_unique(order: Seq<Seq<char>>, list: Seq<char>)
    requires
        lists_tags(order, list),
    ensures
        clean_tags(list) == joined(order, ", "@),
{
    let other = choose|o: Seq<Seq<char>>| lists_tags(o, list);
    assert(lists_tags(other, list));
    assert forall|k: Seq<char>| order.contains(k) <==> #[trigger] other.contains(k) by {
        assert(order.contains(k) <==> is_tag(list, k));
    }
    ordered_keys_are_unique(order, other);
}

/// Adds the tags of a list to a table.
fn collect_tags(found: &mut Table<bool>, list: &str)
    ensures
        forall|t: Seq<char>| #[trigger]
            final(found)@.contains_key(t) <==> old(found)@.contains_key(t) || is_tag(list@, t),
{
    let pieces = split_char(list, ',');
    let n: usize = pieces.len();
    let mut i: usize = 0;
    let ghost all = split(list@, ',');
    while i < n
        invariant
            i <= n,
            n == pieces@.len(),
            all == texts(pieces@),
            forall|t: Seq<char>| #[trigger]
                found@.contains_key(t) <==> old(found)@.contains_key(t) || (t.len() > 0 && exists|
                    k: int,
                |
                    0 <= k < i && ascii_lower(trimmed(#[trigger] all[k])) == t),
        decreases n - i,
    {
        let tidy = trim(pieces[i].as_str());
        let t = to_ascii_lowercase(tidy.as_str());
        let ghost before = found@;
        assert(all[i as int] == pieces@[i as int]@);
        if !t.as_str().is_empty() {
            found.insert(t, true);
        }
        assert forall|x: Seq<char>| #[trigger]
            found@.contains_key(x) <==> old(found)@.contains_key(x) || (x.len() > 0 && exists|
                k: int,
            |
                0 <= k < i + 1 && ascii_lower(trimmed(#[trigger] all[k])) == x) by {
            if before.contains_key(x) {
            }
            if x == t@ && x.len() > 0 {
                assert(ascii_lower(trimmed(all[i as int])) == x);
            }
        }
        i += 1;
    }
}

/// The keys of a table as a list.
fn key_list(t: &Table<bool>) -> (r: Vec<String>)
    ensures
        in_text_order(texts(r@)),
        forall|k: Seq<char>| #[trigger] texts(r@).contains(k) <==> t@.contains_key(k),
{
    t.check_order();
    let mut out: Vec<String> = Vec::new();
    let n: usize = t.len();
    let mut i: usize = 0;
    assert(texts(out@) =~= t.keys().take(0));
    while i < n
        invariant
            i <= n,
            n == t.keys().len(),
            texts(out@) == t.keys().take(i as int),
        decreases n - i,
    {
        let ghost before = texts(out@);
        let k = t.key_at(i).clone();
        out.push(k);
        assert(texts(out@) =~= before.push(k@));
        assert(t.keys().take(i + 1) =~= t.keys().take(i as int).push(t.keys()[i as int]));
        i += 1;
    }
    assert(t.keys().take(n as int) =~= t.keys());
    out
}

/// Cleans a comma-separated list of tags.
pub fn clean_tag_list(tags: &str) -> (r: String)
    ensures
        r@ == clean_tags(tags@),
{
    let mut found: Table<bool> = Table::new();
    collect_tags(&mut found, tags);
    let order = key_list(&found);
    proof {
        assert(lists_tags(texts(order@), tags@));
        clean_form_is_unique(texts(order@), tags@);
    }
    join(&order, ", ")
}

/// The catalog in force: the stored one where it is valid, the built-in one otherwise.
pub open spec fn current_catalog(stored: Option<Seq<LabelModel>>) -> Seq<LabelModel> {
    match stored {
        Some(defs) => match checked_catalog(defs) {
            Ok(m) => m,
            Err(_) => built_in_labels(),
        },
        None => built_in_labels(),
    }
}

pub proof fn current_ids_are_valid(stored: Option<Seq<LabelModel>>)
    ensures
        ids_valid(current_catalog(stored)),
{
    built_in_ids_are_valid();
    match stored {
        Some(defs) => {
            if checked_catalog(defs) is Ok {
                accepted_catalog_is_consistent(defs);
            }
        },
        None => {},
    }
}

/// The id that a label input stands for: a label of the catalog, or a word of the fixed
/// vocabulary; white space stands for none.
pub open spec fn resolved_label(catalog: Seq<LabelModel>, raw: Seq<char>) -> Option<Seq<char>> {
    let v = trimmed(raw);
    if v.len() == 0 {
        None
    } else {
        match label_named(catalog, v) {
            Some(id) => Some(id),
            None => fixed_label(v),
        }
    }
}

/// The row of a list of label ids; an empty list has none.
pub open spec fn label_row(ids: Seq<Seq<char>>) -> Option<Seq<char>> {
    if ids.len() == 0 {
        None
    } else {
        Some(json_of_strings(ids))
    }
}

/// One combined metadata row of a media path.
#[derive(Debug)]
pub struct MediaMeta {
    pub notes: String,
    pub tags: String,
    /// The label ids in order, each once.
    pub labels: Vec<String>,
    /// The first label.
    pub label: String,
    pub favorite: bool,
}

#[verifier::ext_equal]
pub ghost struct MetaModel {
    pub notes: Seq<char>,
    pub tags: Seq<char>,
    pub labels: Seq<Seq<char>>,
    pub label: Seq<char>,
    pub favorite: bool,
}

impl View for MediaMeta {
    type V = MetaModel;

    open spec fn view(&self) -> MetaModel {
        MetaModel {
            notes: self.notes@,
            tags: self.tags@,
            labels: texts(self.labels@),
            label: self.label@,
            favorite: self.favorite,
        }
    }
}

pub open spec fn or_empty(o: Option<Seq<char>>) -> Seq<char> {
    match o {
        Some(s) => s,
        None => Seq::empty(),
    }
}

pub open spec fn first_or_empty(ids: Seq<Seq<char>>) -> Seq<char> {
    if ids.len() > 0 {
        ids[0]
    } else {
        Seq::empty()
    }
}

fn text_or_empty(o: Option<String>) -> (r: String)
    ensures
        r@ == or_empty(opt_text(o)),
{
    match o {
        Some(s) => s,
        None => String::new(),
    }
}

fn first_of(ids: &Vec<String>) -> (r: String)
    ensures
        r@ == first_or_empty(texts(ids@)),
{
    assert(texts(ids@).len() == ids@.len());
    if ids.len() > 0 {
        assert(texts(ids@)[0] == ids@[0]@);
        ids[0].clone()
    } else {
        String::new()
    }
}

impl MediaDb {
    /// The catalog that reads see.
    pub open spec fn catalog_seen(&self) -> Seq<LabelModel> {
        current_catalog(
            if self.access_of() == Access::Unavailable {
                None
            } else {
                self.tables().catalog
            },
        )
    }

    /// The catalog in force.
    pub fn color_label_definitions(&self) -> (r: Vec<ColorLabelDefinition>)
        ensures
            labels_of(r@) == self.catalog_seen(),
    {
        if matches!(self.access, Access::Unavailable) {
            return default_color_label_definitions();
        }
        match &self.catalog {
            Some(defs) => match validate_color_label_definitions(defs) {
                Ok(v) => v,
                Err(_) => default_color_label_definitions(),
            },
            None => default_color_label_definitions(),
        }
    }

    /// The id of the label that a text names by id or by visible name.
    pub fn find_color_label_id(&self, raw: &str) -> (r: Option<String>)
        ensures
            opt_text(r) == label_named(self.catalog_seen(), trimmed(raw@)),
    {
        let value = trim(raw);
        let defs = self.color_label_definitions();
        find_label(&defs, value.as_str())
    }

    /// The id that a label input stands for.
    pub fn resolve_color_label_id(&self, raw: &str) -> (r: Option<String>)
        ensures
            opt_text(r) == resolved_label(self.catalog_seen(), raw@),
    {
        let value = trim(raw);
        if value.as_str().is_empty() {
            return None;
        }
        proof {
            trimming_is_idempotent(raw@);
        }
        match self.find_color_label_id(value.as_str()) {
            Some(id) => Some(id),
            None => match normalize_label(value.as_str()) {
                Some(word) => Some(word.to_owned()),
                None => None,
            },
        }
    }

    /// Replaces the labels of a path by an ordered list of ids and names, each once. The labels
    /// read afterwards are those that were set.
    pub fn set_labels(&mut self, path: &str, labels: &Vec<String>) -> (r: Result<Vec<String>, String>)
        requires
            old(self).wf(),
        ensures
            final(self).wf(),
            final(self).same_frame(old(self)),
            old(self).labels_set(final(self), path@, texts(labels@), r),
    {
        let defs = self.color_label_definitions();
        let ids = match normalize_assigned_label_ids(&defs, labels) {
            Ok(ids) => ids,
            Err(e) => return Err(e),
        };
        let ghost catalog = self.catalog_seen();
        proof {
            current_ids_are_valid(
                if self.access_of() == Access::Unavailable {
                    None
                } else {
                    self.tables().catalog
                },
            );
            assigned_ids_are_tidy(catalog, texts(labels@));
            tidy_lists_stay(texts(ids@));
            assert(texts(ids@).len() == ids@.len());
        }
        if ids.len() == 0 {
            match self.write_str(TableName::Labels, path, None) {
                Ok(_) => {},
                Err(e) => return Err(e),
            }
            assert(texts(ids@) =~= Seq::<Seq<char>>::empty());
        } else {
            let encoded = encode_label_ids(&ids);
            match self.write_str(TableName::Labels, path, Some(encoded.as_str())) {
                Ok(_) => {},
                Err(e) => return Err(e),
            }
        }
        Ok(ids)
    }

    /// Sets or, with empty input, clears the label of a path.
    pub fn set_label(&mut self, path: &str, label: &str) -> (r: Result<(), String>)
        requires
            old(self).wf(),
        ensures
            final(self).wf(),
            final(self).same_frame(old(self)),
            match resolved_label(old(self).catalog_seen(), label@) {
                None => if old(self).writable() {
                    r is Ok && final(self).tables() == old(self).wrote(
                        TableName::Labels,
                        path@,
                        None,
                    )
                } else {
                    old(self).refused(final(self), r)
                },
                Some(word) => match assigned_ids(old(self).catalog_seen(), seq![word]) {
                    Err(e) => {
                        &&& r is Err && r->Err_0@ == e
                        &&& final(self).tables() == old(self).tables()
                    },
                    Ok(ids) => if old(self).writable() {
                        r is Ok && final(self).tables() == old(self).wrote(
                            TableName::Labels,
                            path@,
                            label_row(ids),
                        )
                    } else {
                        &&& r is Err && r->Err_0@ == refusal(old(self).status_of())
                        &&& final(self).tables() == old(self).tables()
                    },
                },
            },
    {
        match self.resolve_color_label_id(label) {
            Some(word) => {
                let mut one: Vec<String> = Vec::new();
                one.push(word);
                assert(texts(one@) =~= seq![word@]);
                match self.set_labels(path, &one) {
                    Ok(_) => Ok(()),
                    Err(e) => Err(e),
                }
            },
            None => self.write_str(TableName::Labels, path, None),
        }
    }

    /// The labels of a path with one more.
    pub open spec fn labels_with(&self, path: Seq<char>, id: Seq<char>) -> Seq<Seq<char>> {
        let ids = labels_at(self.seen(TableName::Labels), self.root(), path);
        if ids.contains(id) {
            ids
        } else {
            ids.push(id)
        }
    }

    /// The labels of a path without one.
    pub open spec fn labels_without(&self, path: Seq<char>, id: Seq<char>) -> Seq<Seq<char>> {
        others(labels_at(self.seen(TableName::Labels), self.root(), path), id)
    }

    /// What setting a list of labels does.
    pub open spec fn labels_set(
        &self,
        after: &MediaDb,
        path: Seq<char>,
        raws: Seq<Seq<char>>,
        r: Result<Vec<String>, String>,
    ) -> bool {
        match assigned_ids(self.catalog_seen(), raws) {
            Err(e) => {
                &&& r is Err && r->Err_0@ == e
                &&& after.tables() == self.tables()
            },
            Ok(ids) => if self.writable() {
                &&& r is Ok && texts(r->Ok_0@) == ids
                &&& after.tables() == self.wrote(TableName::Labels, path, label_row(ids))
                &&& labels_at(after.seen(TableName::Labels), self.root(), path) == ids
            } else {
                &&& r is Err && r->Err_0@ == refusal(self.status_of())
                &&& after.tables() == self.tables()
            },
        }
    }

    /// Adds a label, named by id or visible name, at the end of the labels of a path.
    pub fn add_label(&mut self, path: &str, label: &str) -> (r: Result<Vec<String>, String>)
        requires
            old(self).wf(),
        ensures
            final(self).wf(),
            final(self).same_frame(old(self)),
            match label_named(old(self).catalog_seen(), trimmed(label@)) {
                None => {
                    &&& r is Err && r->Err_0@ == "unknown stable color-label id or name: "@ + label@
                    &&& final(self).tables() == old(self).tables()
                },
                Some(id) => old(self).labels_set(
                    final(self),
                    path@,
                    old(self).labels_with(path@, id),
                    r,
                ),
            },
    {
        let id = match self.find_color_label_id(label) {
            Some(id) => id,
            None => return Err(cat("unknown stable color-label id or name: ", label)),
        };
        let mut labels = self.labels(path);
        if !list_contains(&labels, id.as_str()) {
            let ghost before = texts(labels@);
            labels.push(id);
            assert(texts(labels@) =~= before.push(id@));
        }
        self.set_labels(path, &labels)
    }

    /// Removes a label, named by id or visible name, from a path.
    pub fn remove_label(&mut self, path: &str, label: &str) -> (r: Result<Vec<String>, String>)
        requires
            old(self).wf(),
        ensures
            final(self).wf(),
            final(self).same_frame(old(self)),
            match label_named(old(self).catalog_seen(), trimmed(label@)) {
                None => {
                    &&& r is Err && r->Err_0@ == "unknown stable color-label id or name: "@ + label@
                    &&& final(self).tables() == old(self).tables()
                },
                Some(id) => old(self).labels_set(
                    final(self),
                    path@,
                    old(self).labels_without(path@, id),
                    r,
                ),
            },
    {
        let id = match self.find_color_label_id(label) {
            Some(id) => id,
            None => return Err(cat("unknown stable color-label id or name: ", label)),
        };
        let labels = self.labels(path);
        let rest = without(&labels, id.as_str());
        self.set_labels(path, &rest)
    }

    pub fn clear_labels(&mut self, path: &str) -> (r: Result<(), String>)
        requires
            old(self).wf(),
        ensures
            final(self).wf(),
            final(self).same_frame(old(self)),
            old(self).writable() ==> looked_up(
                final(self).tables().labels,
                old(self).root(),
                path@,
            ) is None,
            final(self).tables().notes == old(self).tables().notes,
            final(self).tables().tags == old(self).tables().tags,
            final(self).tables().favorites == old(self).tables().favorites,
            final(self).tables().catalog == old(self).tables().catalog,
            if old(self).writable() {
                r is Ok && final(self).tables() == old(self).wrote(TableName::Labels, path@, None)
            } else {
                old(self).refused(final(self), r)
            },
    {
        self.write_str(TableName::Labels, path, None)
    }

    /// The tables after the given fields of a path have been written; `None` leaves a field as it
    /// is.
    pub open spec fn meta_written(
        &self,
        path: Seq<char>,
        notes: Option<Seq<char>>,
        tags: Option<Seq<char>>,
        labels: Option<Seq<Seq<char>>>,
    ) -> Tables {
        let t = self.tables();
        let root = self.root();
        Tables {
            notes: if notes is Some {
                written(t.notes, root, path, notes)
            } else {
                t.notes
            },
            tags: if tags is Some {
                written(t.tags, root, path, Some(clean_tags(tags->0)))
            } else {
                t.tags
            },
            labels: if labels is Some {
                written(t.labels, root, path, label_row(labels->0))
            } else {
                t.labels
            },
            ..t
        }
    }

    /// Writes notes, tags and labels of one path together. `None` leaves a field as it is; empty
    /// text and an empty list clear it.
    pub fn set_meta_labels(
        &mut self,
        path: &str,
        notes: Option<&str>,
        tags: Option<&str>,
        labels: Option<&Vec<String>>,
    ) -> (r: Result<(), String>)
        requires
            old(self).wf(),
        ensures
            final(self).wf(),
            final(self).same_frame(old(self)),
            if !old(self).writable() {
                old(self).refused(final(self), r)
            } else {
                let assigned = match labels {
                    Some(v) => match assigned_ids(old(self).catalog_seen(), texts(v@)) {
                        Ok(ids) => Ok::<Option<Seq<Seq<char>>>, Seq<char>>(Some(ids)),
                        Err(e) => Err(e),
                    },
                    None => Ok(None),
                };
                match assigned {
                    Err(e) => {
                        &&& r is Err && r->Err_0@ == e
                        &&& final(self).tables() == old(self).tables()
                    },
                    Ok(ids) => {
                        &&& r is Ok
                        &&& final(self).tables() == old(self).meta_written(
                            path@,
                            match notes {
                                Some(v) => Some(v@),
                                None => None,
                            },
                            match tags {
                                Some(v) => Some(v@),
                                None => None,
                            },
                            ids,
                        )
                    },
                }
            },
    {
        if !self.is_writable() {
            return Err(self.refuse());
        }
        let ids = match labels {
            Some(v) => {
                let defs = self.color_label_definitions();
                match normalize_assigned_label_ids(&defs, v) {
                    Ok(ids) => Some(ids),
                    Err(e) => return Err(e),
                }
            },
            None => None,
        };
        if let Some(v) = notes {
            self.store(TableName::Notes, path, Some(v));
        }
        if let Some(v) = tags {
            let cleaned = clean_tag_list(v);
            self.store(TableName::Tags, path, Some(cleaned.as_str()));
        }
        if let Some(v) = ids {
            assert(texts(v@).len() == v@.len());
            if v.len() == 0 {
                self.store(TableName::Labels, path, None);
            } else {
                let encoded = encode_label_ids(&v);
                self.store(TableName::Labels, path, Some(encoded.as_str()));
            }
        }
        Ok(())
    }

    /// Writes notes, tags and the label of one path together.
    pub fn set_meta(
        &mut self,
        path: &str,
        notes: Option<&str>,
        tags: Option<&str>,
        label: Option<&str>,
    ) -> (r: Result<(), String>)
        requires
            old(self).wf(),
        ensures
            final(self).wf(),
            final(self).same_frame(old(self)),
            if !old(self).writable() {
                old(self).refused(final(self), r)
            } else {
                let assigned = match label {
                    Some(v) => match assigned_ids(
                        old(self).catalog_seen(),
                        single(resolved_label(old(self).catalog_seen(), v@)),
                    ) {
                        Ok(ids) => Ok::<Option<Seq<Seq<char>>>, Seq<char>>(Some(ids)),
                        Err(e) => Err(e),
                    },
                    None => Ok(None),
                };
                match assigned {
                    Err(e) => {
                        &&& r is Err && r->Err_0@ == e
                        &&& final(self).tables() == old(self).tables()
                    },
                    Ok(ids) => {
                        &&& r is Ok
                        &&& final(self).tables() == old(self).meta_written(
                            path@,
                            match notes {
                                Some(v) => Some(v@),
                                None => None,
                            },
                            match tags {
                                Some(v) => Some(v@),
                                None => None,
                            },
                            ids,
                        )
                    },
                }
            },
    {
        match label {
            Some(value) => {
                let mut list: Vec<String> = Vec::new();
                if let Some(id) = self.resolve_color_label_id(value) {
                    list.push(id);
                    assert(texts(list@) =~= single(
                        resolved_label(self.catalog_seen(), value@),
                    ));
                } else {
                    assert(texts(list@) =~= single(
                        resolved_label(self.catalog_seen(), value@),
                    ));
                }
                self.set_meta_labels(path, notes, tags, Some(&list))
            },
            None => self.set_meta_labels(path, notes, tags, None),
        }
    }

    /// The combined row of one path.
    pub fn meta(&self, path: &str) -> (r: MediaMeta)
        ensures
            r@ == ({
                let root = self.root();
                let ids = labels_at(self.seen(TableName::Labels), root, path@);
                MetaModel {
                    notes: or_empty(looked_up(self.seen(TableName::Notes), root, path@)),
                    tags: or_empty(looked_up(self.seen(TableName::Tags), root, path@)),
                    labels: ids,
                    label: first_or_empty(ids),
                    favorite: looked_up(self.seen(TableName::Favorites), root, path@) is Some,
                }
            }),
    {
        let labels = self.labels(path);
        let first = first_of(&labels);
        let notes = text_or_empty(self.notes(path));
        let tags = text_or_empty(self.tags(path));
        let favorite = self.is_favorite(path);
        MediaMeta { notes, tags, labels, label: first, favorite }
    }
}

/// The ids of a list but for one.
pub open spec fn others(ids: Seq<Seq<char>>, id: Seq<char>) -> Seq<Seq<char>> {
    ids.filter(|x: Seq<char>| x != id)
}

/// A list of one text or none.
pub open spec fn single(o: Option<Seq<char>>) -> Seq<Seq<char>> {
    match o {
        Some(s) => seq![s],
        None => Seq::empty(),
    }
}

fn without(list: &Vec<String>, id: &str) -> (r: Vec<String>)
    ensures
        texts(r@) == others(texts(list@), id@),
{
    let mut out: Vec<String> = Vec::new();
    let n: usize = list.len();
    let mut i: usize = 0;
    let ghost all = texts(list@);
    let ghost f = |x: Seq<char>| x != id@;
    proof {
        reveal(Seq::filter);
        assert(all.take(0).filter(f) =~= Seq::<Seq<char>>::empty());
        assert(texts(out@) =~= Seq::<Seq<char>>::empty());
    }
    while i < n
        invariant
            i <= n,
            n == list@.len(),
            all == texts(list@),
            f == (|x: Seq<char>| x != id@),
            texts(out@) == all.take(i as int).filter(f),
        decreases n - i,
    {
        proof {
            reveal(Seq::filter);
            assert(all.take(i + 1).drop_last() =~= all.take(i as int));
            assert(all.take(i + 1).last() == list@[i as int]@);
        }
        if !str_eq(list[i].as_str(), id) {
            let ghost before = texts(out@);
            let kept = list[i].clone();
            out.push(kept);
            assert(texts(out@) =~= before.push(kept@));
        }
        i += 1;
    }
    assert(all.take(n as int) =~= all);
    out
}

/// After setting labels that the catalog knows, reading the path gives exactly those, in order.
pub proof fn labels_read_back(
    m: Map<Seq<char>, Seq<char>>,
    root: Seq<char>,
    path: Seq<char>,
    row: Seq<char>,
    ids: Seq<Seq<char>>,
)
    requires
        decoded_ids(row) == ids,
        trimmed(row).len() > 0,
    ensures
        labels_at(written(m, root, path, Some(row)), root, path) == ids,
        labels_at(written(m, root, path, None), root, path) == Seq::<Seq<char>>::empty(),
{
}

/// The combined row of a key.
pub open spec fn row_meta(db: &MediaDb, key: Seq<char>) -> MetaModel {
    let notes = db.seen(TableName::Notes);
    let tags = db.seen(TableName::Tags);
    let labels = db.seen(TableName::Labels);
    let ids = if labels.contains_key(key) {
        decoded_ids(labels[key])
    } else {
        Seq::empty()
    };
    MetaModel {
        notes: if notes.contains_key(key) {
            notes[key]
        } else {
            Seq::empty()
        },
        tags: if tags.contains_key(key) {
            tags[key]
        } else {
            Seq::empty()
        },
        labels: ids,
        label: first_or_empty(ids),
        favorite: db.seen(TableName::Favorites).contains_key(key),
    }
}

/// Whether a key carries any metadata.
pub open spec fn carries_metadata(db: &MediaDb, key: Seq<char>) -> bool {
    db.seen(TableName::Notes).contains_key(key) || db.seen(TableName::Tags).contains_key(key)
        || db.seen(TableName::Labels).contains_key(key) || db.seen(
        TableName::Favorites,
    ).contains_key(key)
}

/// Whether a row has the tag that is asked for, ASCII case aside.
pub open spec fn passes_tag(meta: MetaModel, tag: Option<Seq<char>>) -> bool {
    tag is Some ==> exists|i: int|
        0 <= i < split(meta.tags, ',').len() && ascii_lower(
            trimmed(#[trigger] split(meta.tags, ',')[i]),
        ) == ascii_lower(trimmed(tag->0))
}

/// Whether a row has the label that is asked for by id or name, ASCII case aside.
pub open spec fn passes_label(
    catalog: Seq<LabelModel>,
    meta: MetaModel,
    label: Option<Seq<char>>,
) -> bool {
    label is Some ==> {
        let value = ascii_lower(trimmed(label->0));
        let wanted = match label_named(catalog, trimmed(value)) {
            Some(id) => id,
            None => value,
        };
        exists|i: int|
            0 <= i < meta.labels.len() && ascii_lower(#[trigger] meta.labels[i]) == ascii_lower(
                wanted,
            )
    }
}

/// Whether a key is listed under the given filters.
pub open spec fn is_listed(
    db: &MediaDb,
    key: Seq<char>,
    tag: Option<Seq<char>>,
    label: Option<Seq<char>>,
) -> bool {
    carries_metadata(db, key) && passes_tag(row_meta(db, key), tag) && passes_label(
        db.catalog_seen(),
        row_meta(db, key),
        label,
    )
}

pub open spec fn meta_keys(v: Seq<(String, MediaMeta)>) -> Seq<Seq<char>> {
    v.map_values(|p: (String, MediaMeta)| p.0@)
}

fn has_tag(tags: &str, wanted: &str) -> (r: bool)
    ensures
        r == exists|i: int|
            0 <= i < split(tags@, ',').len() && ascii_lower(
                trimmed(#[trigger] split(tags@, ',')[i]),
            ) == ascii_lower(wanted@),
{
    let pieces = split_char(tags, ',');
    let n: usize = pieces.len();
    let mut i: usize = 0;
    let ghost all = split(tags@, ',');
    while i < n
        invariant
            i <= n,
            n == pieces@.len(),
            all == texts(pieces@),
            all == split(tags@, ','),
            forall|k: int|
                0 <= k < i ==> ascii_lower(trimmed(#[trigger] all[k])) != ascii_lower(wanted@),
        decreases n - i,
    {
        let tidy = trim(pieces[i].as_str());
        assert(all[i as int] == pieces@[i as int]@);
        if eq_ignore_ascii_case(tidy.as_str(), wanted) {
            return true;
        }
        i += 1;
    }
    false
}

fn has_label(ids: &Vec<String>, wanted: &str) -> (r: bool)
    ensures
        r == exists|i: int|
            0 <= i < texts(ids@).len() && ascii_lower(#[trigger] texts(ids@)[i]) == ascii_lower(
                wanted@,
            ),
{
    let n: usize = ids.len();
    let mut i: usize = 0;
    let ghost all = texts(ids@);
    while i < n
        invariant
            i <= n,
            n == ids@.len(),
            all == texts(ids@),
            forall|k: int| 0 <= k < i ==> ascii_lower(#[trigger] all[k]) != ascii_lower(wanted@),
        decreases n - i,
    {
        assert(all[i as int] == ids@[i as int]@);
        if eq_ignore_ascii_case(ids[i].as_str(), wanted) {
            return true;
        }
        i += 1;
    }
    false
}

/// Adds the keys of a table to a set of keys.
fn collect_keys(found: &mut Table<bool>, t: &Table<String>)
    ensures
        forall|k: Seq<char>| #[trigger]
            final(found)@.contains_key(k) <==> old(found)@.contains_key(k) || t@.contains_key(k),
{
    t.check_order();
    let n: usize = t.len();
    let mut i: usize = 0;
    while i < n
        invariant
            i <= n,
            n == t.keys().len(),
            forall|k: Seq<char>| #[trigger]
                found@.contains_key(k) <==> old(found)@.contains_key(k) || exists|j: int|
                    0 <= j < i && #[trigger] t.keys()[j] == k,
        decreases n - i,
    {
        let key = t.key_at(i).clone();
        let ghost before = found@;
        found.insert(key, true);
        assert forall|k: Seq<char>| #[trigger]
            found@.contains_key(k) <==> old(found)@.contains_key(k) || exists|j: int|
                0 <= j < i + 1 && #[trigger] t.keys()[j] == k by {
            if before.contains_key(k) {
            }
            if k == key@ {
                assert(t.keys()[i as int] == k);
            }
        }
        i += 1;
    }
    assert forall|k: Seq<char>| #[trigger]
        found@.contains_key(k) <==> old(found)@.contains_key(k) || t@.contains_key(k) by {
        assert(t@.contains_key(k) <==> t.keys().contains(k));
    }
}

impl MediaDb {
    /// The combined row of a key, as it is stored.
    fn row(&self, key: &str) -> (r: MediaMeta)
        requires
            self.access_of() != Access::Unavailable,
        ensures
            r@ == row_meta(self, key@),
    {
        let notes = match self.notes.get(key) {
            Some(v) => v.clone(),
            None => String::new(),
        };
        let tags = match self.tags.get(key) {
            Some(v) => v.clone(),
            None => String::new(),
        };
        let labels = match self.labels.get(key) {
            Some(v) => decode_label_ids(v.as_str()),
            None => Vec::new(),
        };
        let first = first_of(&labels);
        let favorite = self.favorites.contains_key(key);
        let r = MediaMeta { notes, tags, labels, label: first, favorite };
        proof {
            if !self.labels@.contains_key(key@) {
                assert(texts(labels@) =~= Seq::<Seq<char>>::empty());
            }
            assert(r@ =~= row_meta(self, key@));
        }
        r
    }

    /// All rows that carry metadata and pass the filters, in the order of their keys.
    pub fn list_meta_by_key(&self, tag: Option<&str>, label: Option<&str>) -> (r: Vec<
        (String, MediaMeta),
    >)
        ensures
            in_text_order(meta_keys(r@)),
            forall|k: Seq<char>| #[trigger]
                meta_keys(r@).contains(k) <==> is_listed(
                    self,
                    k,
                    match tag {
                        Some(t) => Some(t@),
                        None => None,
                    },
                    match label {
                        Some(l) => Some(l@),
                        None => None,
                    },
                ),
            forall|i: int|
                0 <= i < r@.len() ==> (#[trigger] r@[i]).1@ == row_meta(self, r@[i].0@),
    {
        let mut out: Vec<(String, MediaMeta)> = Vec::new();
        let ghost t_opt = match tag {
            Some(t) => Some(t@),
            None => None,
        };
        let ghost l_opt = match label {
            Some(l) => Some(l@),
            None => None,
        };
        if matches!(self.access, Access::Unavailable) {
            assert(meta_keys(out@) =~= Seq::<Seq<char>>::empty());
            return out;
        }
        let mut found: Table<bool> = Table::new();
        collect_keys(&mut found, &self.notes);
        collect_keys(&mut found, &self.tags);
        collect_keys(&mut found, &self.labels);
        collect_keys(&mut found, &self.favorites);
        let keys = key_list(&found);
        let ghost all = texts(keys@);
        assert forall|k: Seq<char>| #[trigger] all.contains(k) <==> carries_metadata(self, k) by {
            assert(found@.contains_key(k) <==> carries_metadata(self, k));
        }
        let wanted_tag = match tag {
            Some(t) => {
                let tidy = trim(t);
                Some(to_ascii_lowercase(tidy.as_str()))
            },
            None => None,
        };
        let wanted_label = match label {
            Some(l) => {
                let tidy = trim(l);
                let value = to_ascii_lowercase(tidy.as_str());
                match self.find_color_label_id(value.as_str()) {
                    Some(id) => Some(id),
                    None => Some(value),
                }
            },
            None => None,
        };
        let n: usize = keys.len();
        let mut i: usize = 0;
        assert(meta_keys(out@) =~= Seq::<Seq<char>>::empty());
        while i < n
            invariant
                i <= n,
                n == keys@.len(),
                all == texts(keys@),
                in_text_order(all),
                self.access_of() != Access::Unavailable,
                t_opt == (match tag {
                    Some(t) => Some(t@),
                    None => None,
                }),
                l_opt == (match label {
                    Some(l) => Some(l@),
                    None => None,
                }),
                forall|k: Seq<char>| #[trigger] all.contains(k) <==> carries_metadata(self, k),
                match wanted_tag {
                    Some(w) => t_opt is Some && w@ == ascii_lower(trimmed(t_opt->0)),
                    None => t_opt is None,
                },
                match wanted_label {
                    Some(w) => l_opt is Some && w@ == ({
                        let value = ascii_lower(trimmed(l_opt->0));
                        match label_named(self.catalog_seen(), trimmed(value)) {
                            Some(id) => id,
                            None => value,
                        }
                    }),
                    None => l_opt is None,
                },
                in_text_order(meta_keys(out@)),
                forall|j: int|
                    0 <= j < out@.len() ==> (#[trigger] out@[j]).1@ == row_meta(self, out@[j].0@),
                forall|k: Seq<char>| #[trigger]
                    meta_keys(out@).contains(k) <==> is_listed(self, k, t_opt, l_opt) && all.take(
                        i as int,
                    ).contains(k),
            decreases n - i,
        {
            let key = keys[i].clone();
            let meta = self.row(key.as_str());
            assert(all[i as int] == key@);
            assert(all.contains(key@));
            let tag_ok = match &wanted_tag {
                Some(w) => {
                    proof {
                        assert(ascii_lower(w@) =~= w@);
                    }
                    has_tag(meta.tags.as_str(), w.as_str())
                },
                None => true,
            };
            assert(tag_ok == passes_tag(meta@, t_opt));
            let label_ok = match &wanted_label {
                Some(w) => has_label(&meta.labels, w.as_str()),
                None => true,
            };
            proof {
                let ids = texts(meta.labels@);
                assert(meta@.labels == ids);
                if l_opt is Some {
                    let w = wanted_label->0@;
                    assert(label_ok == exists|j: int|
                        0 <= j < ids.len() && ascii_lower(#[trigger] ids[j]) == ascii_lower(w));
                }
                assert(label_ok == passes_label(self.catalog_seen(), meta@, l_opt));
            }
            let ghost before = out@;
            let ghost bk = meta_keys(out@);
            let ghost prefix = all.take(i as int);
            proof {
                assert(all.take(i + 1) =~= prefix.push(key@));
                assert forall|k: Seq<char>| all.take(i + 1).contains(k) <==> prefix.contains(k) || k
                    == key@ by {
                    if prefix.contains(k) {
                        let j = prefix.index_of(k);
                        assert(all.take(i + 1)[j] == k);
                    }
                    if k == key@ {
                        assert(all.take(i + 1)[i as int] == k);
                    }
                    if all.take(i + 1).contains(k) && k != key@ {
                        let j = all.take(i + 1).index_of(k);
                        assert(all.take(i + 1)[j] == k);
                        assert(prefix[j] == k);
                    }
                }
            }
            if tag_ok && label_ok {
                out.push((key, meta));
                proof {
                    let mk = meta_keys(out@);
                    assert(mk =~= bk.push(key@));
                    assert forall|a: int, b: int| 0 <= a < b < mk.len() implies crate::text::text_rank(
                        #[trigger] mk[a],
                        #[trigger] mk[b],
                    ) == crate::text::Rank::Less by {
                        assert(mk[a] == bk[a]);
                        if b < bk.len() {
                            assert(mk[b] == bk[b]);
                        } else {
                            assert(bk.contains(bk[a]));
                            let j = prefix.index_of(bk[a]);
                            assert(prefix[j] == bk[a]);
                            assert(all[j] == bk[a]);
                            assert(all[i as int] == mk[b]);
                        }
                    }
                    assert forall|k: Seq<char>| #[trigger]
                        mk.contains(k) <==> is_listed(self, k, t_opt, l_opt) && all.take(
                            i + 1,
                        ).contains(k) by {
                        if bk.contains(k) {
                            let j = bk.index_of(k);
                            assert(mk[j] == k);
                        }
                        if k == key@ {
                            assert(mk[bk.len() as int] == k);
                        }
                        if mk.contains(k) && k != key@ {
                            let j = mk.index_of(k);
                            assert(mk[j] == k);
                            assert(bk[j] == k);
                        }
                    }
                }
            }
            i += 1;
        }
        assert(all.take(n as int) =~= all);
        out
    }

    /// The same rows, with the path that each key stands for.
    pub fn list_meta(&self, tag: Option<&str>, label: Option<&str>) -> (r: Vec<(String, MediaMeta)>)
        ensures
            exists|keys: Seq<Seq<char>>|
                {
                    &&& #[trigger] in_text_order(keys)
                    &&& keys.len() == r@.len()
                    &&& forall|k: Seq<char>| #[trigger]
                        keys.contains(k) <==> is_listed(
                            self,
                            k,
                            match tag {
                                Some(t) => Some(t@),
                                None => None,
                            },
                            match label {
                                Some(l) => Some(l@),
                                None => None,
                            },
                        )
                    &&& forall|i: int|
                        0 <= i < r@.len() ==> (#[trigger] r@[i]).0@ == path_of_key(
                            self.path_style(),
                            self.root(),
                            keys[i],
                        ) && r@[i].1@ == row_meta(self, keys[i])
                },
    {
        let mut rows = self.list_meta_by_key(tag, label);
        let ghost keys = meta_keys(rows@);
        let ghost before = rows@;
        let n: usize = rows.len();
        let mut i: usize = 0;
        while i < n
            invariant
                i <= n,
                n == rows@.len(),
                n == before.len(),
                keys == meta_keys(before),
                forall|j: int|
                    0 <= j < n ==> (#[trigger] before[j]).1@ == row_meta(self, before[j].0@),
                forall|j: int| i <= j < n ==> #[trigger] rows@[j] == before[j],
                forall|j: int|
                    0 <= j < i ==> (#[trigger] rows@[j]).0@ == path_of_key(
                        self.path_style(),
                        self.root(),
                        keys[j],
                    ) && rows@[j].1@ == row_meta(self, keys[j]),
            decreases n - i,
        {
            let path = self.path_for_key(rows[i].0.as_str());
            assert(rows@[i as int] == before[i as int]);
            assert(keys[i as int] == before[i as int].0@);
            let slot = &mut rows[i];
            slot.0 = path;
            i += 1;
        }
        rows
    }

    /// All tags in use, in text order, each once.
    pub fn tag_vocab(&self) -> (r: Vec<String>)
        ensures
            in_text_order(texts(r@)),
            forall|t: Seq<char>| #[trigger]
                texts(r@).contains(t) <==> exists|k: Seq<char>| #[trigger]
                    self.seen(TableName::Tags).contains_key(k) && is_tag(
                        self.seen(TableName::Tags)[k],
                        t,
                    ),
    {
        let mut found: Table<bool> = Table::new();
        if matches!(self.access, Access::Unavailable) {
            let out = key_list(&found);
            return out;
        }
        let ghost m = self.seen(TableName::Tags);
        self.tags.check_order();
        let n: usize = self.tags.len();
        let mut i: usize = 0;
        while i < n
            invariant
                i <= n,
                n == self.tags.keys().len(),
                m == text_map(self.tags@),
                forall|t: Seq<char>| #[trigger]
                    found@.contains_key(t) <==> exists|j: int|
                        0 <= j < i && is_tag(m[#[trigger] self.tags.keys()[j]], t),
            decreases n - i,
        {
            let row = self.tags.value_at(i);
            let ghost before = found@;
            collect_tags(&mut found, row.as_str());
            assert(m[self.tags.keys()[i as int]] == row@);
            assert forall|t: Seq<char>| #[trigger]
                found@.contains_key(t) <==> exists|j: int|
                    0 <= j < i + 1 && is_tag(m[#[trigger] self.tags.keys()[j]], t) by {
                if before.contains_key(t) {
                    let j = choose|j: int|
                        0 <= j < i && is_tag(m[#[trigger] self.tags.keys()[j]], t);
                    assert(is_tag(m[self.tags.keys()[j]], t));
                }
                if is_tag(row@, t) {
                    assert(is_tag(m[self.tags.keys()[i as int]], t));
                }
            }
            i += 1;
        }
        let out = key_list(&found);
        assert forall|t: Seq<char>| #[trigger]
            texts(out@).contains(t) <==> exists|k: Seq<char>| #[trigger]
                m.contains_key(k) && is_tag(m[k], t) by {
            if found@.contains_key(t) {
                let j = choose|j: int| 0 <= j < n && is_tag(m[#[trigger] self.tags.keys()[j]], t);
                let k = self.tags.keys()[j];
                assert(self.tags.keys().contains(k));
                assert(m.contains_key(k));
            }
            if exists|k: Seq<char>| #[trigger] m.contains_key(k) && is_tag(m[k], t) {
                let k = choose|k: Seq<char>| #[trigger] m.contains_key(k) && is_tag(m[k], t);
                assert(self.tags@.contains_key(k));
                let j = self.tags.keys().index_of(k);
                assert(self.tags.keys()[j] == k);
                assert(found@.contains_key(t));
            }
        }
        out
    }

    /// The favorites with their keys, in the order of the keys, the paths as they were written
    /// with the separators of the platform.
    pub fn favorites_keyed(&self) -> (r: Vec<(String, String)>)
        ensures
            in_text_order(first_texts(r@)),
            forall|k: Seq<char>| #[trigger]
                first_texts(r@).contains(k) <==> self.seen(TableName::Favorites).contains_key(k),
            forall|i: int|
                0 <= i < r@.len() ==> (#[trigger] r@[i]).1@ == replaced(
                    self.seen(TableName::Favorites)[r@[i].0@],
                    '/',
                    self.path_style().glue(),
                ),
    {
        let mut out: Vec<(String, String)> = Vec::new();
        if matches!(self.access, Access::Unavailable) {
            assert(first_texts(out@) =~= Seq::<Seq<char>>::empty());
            return out;
        }
        self.favorites.check_order();
        let n: usize = self.favorites.len();
        let mut i: usize = 0;
        assert(first_texts(out@) =~= self.favorites.keys().take(0));
        while i < n
            invariant
                i <= n,
                n == self.favorites.keys().len(),
                self.access_of() != Access::Unavailable,
                first_texts(out@) == self.favorites.keys().take(i as int),
                forall|j: int|
                    0 <= j < out@.len() ==> (#[trigger] out@[j]).1@ == replaced(
                        self.seen(TableName::Favorites)[out@[j].0@],
                        '/',
                        self.path_style().glue(),
                    ),
            decreases n - i,
        {
            let key = self.favorites.key_at(i).clone();
            let display = native(self.style, self.favorites.value_at(i).as_str());
            let ghost before = first_texts(out@);
            out.push((key, display));
            assert(first_texts(out@) =~= before.push(key@));
            assert(self.favorites.keys().take(i + 1) =~= self.favorites.keys().take(i as int).push(
                self.favorites.keys()[i as int],
            ));
            i += 1;
        }
        assert(self.favorites.keys().take(n as int) =~= self.favorites.keys());
        out
    }

    /// The paths of the favorites, in the order of their keys.
    pub fn favorites(&self) -> (r: Vec<String>)
        ensures
            exists|keys: Seq<Seq<char>>|
                {
                    &&& #[trigger] in_text_order(keys)
                    &&& keys.len() == r@.len()
                    &&& forall|k: Seq<char>| #[trigger]
                        keys.contains(k) <==> self.seen(TableName::Favorites).contains_key(k)
                    &&& forall|i: int|
                        0 <= i < r@.len() ==> (#[trigger] r@[i])@ == replaced(
                            self.seen(TableName::Favorites)[keys[i]],
                            '/',
                            self.path_style().glue(),
                        )
                },
    {
        let rows = self.favorites_keyed();
        let ghost keys = first_texts(rows@);
        let mut out: Vec<String> = Vec::new();
        let n: usize = rows.len();
        let mut i: usize = 0;
        while i < n
            invariant
                i <= n,
                n == rows@.len(),
                out@.len() == i,
                forall|j: int| 0 <= j < i ==> (#[trigger] out@[j])@ == rows@[j].1@,
            decreases n - i,
        {
            out.push(rows[i].1.clone());
            i += 1;
        }
        assert forall|j: int| 0 <= j < out@.len() implies (#[trigger] out@[j])@ == replaced(
            self.seen(TableName::Favorites)[keys[j]],
            '/',
            self.path_style().glue(),
        ) by {
            assert(keys[j] == rows@[j].0@);
        }
        out
    }
}

pub open spec fn first_texts(v: Seq<(String, String)>) -> Seq<Seq<char>> {
    v.map_values(|p: (String, String)| p.0@)
}

/// Whether some file carries an id that the catalog does not have.
pub open spec fn is_orphan(
    labels: Map<Seq<char>, Seq<char>>,
    catalog: Seq<LabelModel>,
    id: Seq<char>,
) -> bool {
    !has_id(catalog, id) && exists|k: Seq<char>| #[trigger]
        labels.contains_key(k) && decoded_ids(labels[k]).contains(id)
}

/// Whether `id` is the first such id in text order.
pub open spec fn is_first_orphan(
    labels: Map<Seq<char>, Seq<char>>,
    catalog: Seq<LabelModel>,
    id: Seq<char>,
) -> bool {
    is_orphan(labels, catalog, id) && forall|other: Seq<char>| #[trigger]
        is_orphan(labels, catalog, other) ==> other == id || text_rank(id, other) == Rank::Less
}

pub open spec fn orphan_message(id: Seq<char>) -> Seq<char> {
    "cannot remove assigned color label "@ + id
        + " through palette replacement; use delete_color_label"@
}

/// The first label with an id.
pub open spec fn label_with_id(defs: Seq<LabelModel>, id: Seq<char>) -> Option<LabelModel>
    decreases defs.len(),
{
    if defs.len() == 0 {
        None
    } else if defs[0].id == id {
        Some(defs[0])
    } else {
        label_with_id(defs.drop_first(), id)
    }
}

/// The place of the first label with an id.
pub open spec fn place_of_id(defs: Seq<LabelModel>, id: Seq<char>) -> Option<int>
    decreases defs.len(),
{
    if defs.len() == 0 {
        None
    } else if defs[0].id == id {
        Some(0)
    } else {
        match place_of_id(defs.drop_first(), id) {
            Some(i) => Some(i + 1),
            None => None,
        }
    }
}

pub(crate) fn find_place(defs: &Vec<ColorLabelDefinition>, id: &str) -> (r: Option<usize>)
    ensures
        match r {
            Some(i) => i < defs@.len() && place_of_id(labels_of(defs@), id@) == Some(i as int)
                && defs@[i as int]@.id == id@ && label_with_id(labels_of(defs@), id@) == Some(
                defs@[i as int]@,
            ) && has_id(labels_of(defs@), id@),
            None => place_of_id(labels_of(defs@), id@) is None && label_with_id(
                labels_of(defs@),
                id@,
            ) is None && !has_id(labels_of(defs@), id@),
        },
{
    let n: usize = defs.len();
    let mut i: usize = 0;
    let ghost all = labels_of(defs@);
    assert(all.skip(0) =~= all);
    while i < n
        invariant
            i <= n,
            n == defs@.len(),
            all == labels_of(defs@),
            forall|k: int| 0 <= k < i ==> (#[trigger] all[k]).id != id@,
            label_with_id(all, id@) == label_with_id(all.skip(i as int), id@),
            place_of_id(all, id@) == (match place_of_id(all.skip(i as int), id@) {
                Some(k) => Some(k + i),
                None => None,
            }),
        decreases n - i,
    {
        assert(all.skip(i as int)[0] == defs@[i as int]@);
        assert(all[i as int] == defs@[i as int]@);
        if str_eq(defs[i].id.as_str(), id) {
            assert(all[i as int].id == id@);
            return Some(i);
        }
        assert(all.skip(i as int).drop_first() =~= all.skip(i + 1));
        i += 1;
    }
    None
}

/// The label that a new id, name and color would make, or why they would not.
pub open spec fn next_label(
    existing: Seq<LabelModel>,
    id: Seq<char>,
    name: Seq<char>,
    hex: Seq<char>,
) -> Result<LabelModel, Seq<char>> {
    match checked_catalog(existing.push(label(id, name, hex))) {
        Err(e) => Err(e),
        Ok(m) => match label_with_id(m, id) {
            Some(d) => Ok(d),
            None => Err("new color label disappeared during validation"@),
        },
    }
}

pub fn next_color_label_definition(
    existing: &Vec<ColorLabelDefinition>,
    id: &str,
    name: &str,
    hex: &str,
) -> (r: Result<ColorLabelDefinition, String>)
    ensures
        match next_label(labels_of(existing@), id@, name@, hex@) {
            Ok(d) => r is Ok && r->Ok_0@ == d,
            Err(e) => r is Err && r->Err_0@ == e,
        },
{
    let mut proposed = copy_definitions(existing);
    let d = ColorLabelDefinition {
        id: id.to_owned(),
        name: name.to_owned(),
        hex: hex.to_owned(),
    };
    let ghost before = labels_of(proposed@);
    proposed.push(d);
    assert(labels_of(proposed@) =~= before.push(label(id@, name@, hex@)));
    match validate_color_label_definitions(&proposed) {
        Err(e) => Err(e),
        Ok(v) => match find_place(&v, id) {
            Some(i) => Ok(v[i].clone()),
            None => Err("new color label disappeared during validation".to_owned()),
        },
    }
}

/// Accepting a catalog keeps its ids, without white space around them, in their places.
pub proof fn accepted_ids_keep_their_places(defs: Seq<LabelModel>)
    requires
        checked_catalog(defs) is Ok,
    ensures
        checked_catalog(defs)->Ok_0.len() == defs.len(),
        forall|i: int|
            0 <= i < defs.len() ==> (#[trigger] checked_catalog(defs)->Ok_0[i]).id == trimmed(
                defs[i].id,
            ),
    decreases defs.len(),
{
    if defs.len() > 0 {
        accepted_ids_keep_their_places(defs.drop_last());
        let m = checked_catalog(defs)->Ok_0;
        let d = checked_catalog(defs.drop_last())->Ok_0;
        assert forall|i: int| 0 <= i < defs.len() implies (#[trigger] m[i]).id == trimmed(
            defs[i].id,
        ) by {
            if i < d.len() {
                assert(m[i] == d[i]);
                assert(defs.drop_last()[i] == defs[i]);
            }
        }
    }
}

/// The number of files that carry an id.
pub open spec fn usage(labels: Map<Seq<char>, Seq<char>>, id: Seq<char>) -> nat {
    labels.dom().filter(|k: Seq<char>| decoded_ids(labels[k]).contains(id)).len()
}

/// How the label rows are rewritten: one label taken out, or every entry brought to the ids of a
/// catalog.
enum LabelRule {
    Without { id: String },
    Migrate { definitions: Vec<ColorLabelDefinition> },
}

/// The ids of a catalog that stored entries stand for, each once.
pub open spec fn migrated_ids(catalog: Seq<LabelModel>, entries: Seq<Seq<char>>) -> Seq<Seq<char>>
    decreases entries.len(),
{
    if entries.len() == 0 {
        Seq::empty()
    } else {
        let done = migrated_ids(catalog, entries.drop_last());
        let value = entries.last();
        let id = match label_named(catalog, value) {
            Some(id) => Some(id),
            None => fixed_label(value),
        };
        if id is Some && !done.contains(id->0) {
            done.push(id->0)
        } else {
            done
        }
    }
}

/// A label row without one id: unchanged where it does not have it, gone where nothing is left.
pub open spec fn row_without(raw: Seq<char>, id: Seq<char>) -> Option<Seq<char>> {
    let ids = decoded_ids(raw);
    if ids.contains(id) {
        label_row(others(ids, id))
    } else {
        Some(raw)
    }
}

/// A label row brought to the ids of a catalog.
pub open spec fn row_migrated(raw: Seq<char>, catalog: Seq<LabelModel>) -> Option<Seq<char>> {
    label_row(migrated_ids(catalog, decoded_ids(raw)))
}

impl LabelRule {
    spec fn row(&self, raw: Seq<char>) -> Option<Seq<char>> {
        match *self {
            LabelRule::Without { id } => row_without(raw, id@),
            LabelRule::Migrate { definitions } => row_migrated(raw, labels_of(definitions@)),
        }
    }

    fn apply(&self, raw: &str) -> (r: Option<String>)
        ensures
            opt_text(r) == self.row(raw@),
            self is Without && r is Some ==> decoded_ids(r->0@) == others(
                decoded_ids(raw@),
                self->Without_id@,
            ),
    {
        let ids = decode_label_ids(raw);
        assert(texts(ids@).len() == ids@.len());
        proof {
            lemma_decoded_tidy(raw@);
            if let LabelRule::Without { id } = self {
                lemma_others(texts(ids@), id@);
                tidy_lists_stay(others(texts(ids@), id@));
            }
        }
        let kept = match self {
            LabelRule::Without { id } => {
                if !list_contains(&ids, id.as_str()) {
                    return Some(raw.to_owned());
                }
                without(&ids, id.as_str())
            },
            LabelRule::Migrate { definitions } => migrate_ids(definitions, &ids),
        };
        assert(texts(kept@).len() == kept@.len());
        if kept.len() == 0 {
            None
        } else {
            Some(encode_label_ids(&kept))
        }
    }
}

fn migrate_ids(defs: &Vec<ColorLabelDefinition>, entries: &Vec<String>) -> (r: Vec<String>)
    ensures
        texts(r@) == migrated_ids(labels_of(defs@), texts(entries@)),
{
    let mut done: Vec<String> = Vec::new();
    let n: usize = entries.len();
    let mut i: usize = 0;
    let ghost all = texts(entries@);
    assert(texts(done@) =~= Seq::<Seq<char>>::empty());
    while i < n
        invariant
            i <= n,
            n == entries@.len(),
            all == texts(entries@),
            texts(done@) == migrated_ids(labels_of(defs@), all.take(i as int)),
        decreases n - i,
    {
        proof {
            assert(all.take(i + 1).drop_last() =~= all.take(i as int));
            assert(all.take(i + 1).last() == entries@[i as int]@);
        }
        let value = entries[i].as_str();
        let id = match find_label(defs, value) {
            Some(id) => Some(id),
            None => match normalize_label(value) {
                Some(word) => Some(word.to_owned()),
                None => None,
            },
        };
        if let Some(id) = id {
            if !list_contains(&done, id.as_str()) {
                let ghost before = texts(done@);
                done.push(id);
                assert(texts(done@) =~= before.push(id@));
            }
        }
        i += 1;
    }
    assert(all.take(n as int) =~= all);
    done
}

/// A table with every row rewritten, and without the rows of which nothing is left.
pub open spec fn rewritten(
    m: Map<Seq<char>, Seq<char>>,
    rule: spec_fn(Seq<char>) -> Option<Seq<char>>,
) -> Map<Seq<char>, Seq<char>> {
    Map::new(
        |k: Seq<char>| m.contains_key(k) && rule(m[k]) is Some,
        |k: Seq<char>| rule(m[k])->0,
    )
}

/// The same, for the rows under the given keys only.
spec fn rewritten_at(
    m: Map<Seq<char>, Seq<char>>,
    rule: spec_fn(Seq<char>) -> Option<Seq<char>>,
    keys: Seq<Seq<char>>,
) -> Map<Seq<char>, Seq<char>> {
    Map::new(
        |k: Seq<char>| m.contains_key(k) && (keys.contains(k) ==> rule(m[k]) is Some),
        |k: Seq<char>|
            if keys.contains(k) {
                rule(m[k])->0
            } else {
                m[k]
            },
    )
}

impl MediaDb {
    /// Rewrites every label row by a rule.
    fn rewrite_labels(&mut self, rule: &LabelRule)
        requires
            old(self).wf(),
        ensures
            final(self).wf(),
            final(self).same_frame(old(self)),
            final(self).tables() == (Tables {
                labels: rewritten(old(self).tables().labels, |raw: Seq<char>| rule.row(raw)),
                ..old(self).tables()
            }),
            rule is Without ==> forall|k: Seq<char>| #[trigger]
                final(self).tables().labels.contains_key(k) ==> decoded_ids(
                    final(self).tables().labels[k],
                ) == others(decoded_ids(old(self).tables().labels[k]), rule->Without_id@),
    {
        let ghost t0 = self.tables();
        let ghost m = t0.labels;
        let ghost f = |raw: Seq<char>| rule.row(raw);
        let mut found: Table<bool> = Table::new();
        collect_keys(&mut found, &self.labels);
        let keys = key_list(&found);
        let ghost all = texts(keys@);
        assert forall|k: Seq<char>| #[trigger] all.contains(k) <==> m.contains_key(k) by {
            assert(found@.contains_key(k) <==> self.labels@.contains_key(k));
        }
        let n: usize = keys.len();
        let mut i: usize = 0;
        assert(rewritten_at(m, f, all.take(0)) =~= m);
        assert(self.tables() =~= Tables { labels: rewritten_at(m, f, all.take(0)), ..t0 });
        while i < n
            invariant
                i <= n,
                n == keys@.len(),
                all == texts(keys@),
                in_text_order(all),
                forall|k: Seq<char>| #[trigger] all.contains(k) <==> m.contains_key(k),
                f == (|raw: Seq<char>| rule.row(raw)),
                m == t0.labels,
                self.wf(),
                self.same_frame(old(self)),
                self.tables() == (Tables { labels: rewritten_at(m, f, all.take(i as int)), ..t0 }),
                rule is Without ==> forall|k: Seq<char>| #[trigger]
                    all.take(i as int).contains(k) && f(m[k]) is Some ==> decoded_ids(f(m[k])->0)
                        == others(decoded_ids(m[k]), rule->Without_id@),
            decreases n - i,
        {
            let key = keys[i].clone();
            let ghost k = key@;
            let ghost before = all.take(i as int);
            proof {
                assert(all[i as int] == k);
                assert(all.contains(k));
                assert(!before.contains(k)) by {
                    if before.contains(k) {
                        let j = before.index_of(k);
                        assert(all[j] == k);
                        assert(text_rank(all[j], all[i as int]) == Rank::Less);
                        crate::text::text_order_is_total(k, k);
                    }
                }
                assert(all.take(i + 1) =~= before.push(k));
                assert forall|x: Seq<char>| all.take(i + 1).contains(x) <==> before.contains(x) || x
                    == k by {
                    if before.contains(x) {
                        let j = before.index_of(x);
                        assert(all.take(i + 1)[j] == x);
                    }
                    if x == k {
                        assert(all.take(i + 1)[i as int] == x);
                    }
                    if all.take(i + 1).contains(x) && x != k {
                        let j = all.take(i + 1).index_of(x);
                        assert(all.take(i + 1)[j] == x);
                        assert(before[j] == x);
                    }
                }
                assert(self.tables().labels.contains_key(k));
                assert(self.tables().labels[k] == m[k]);
            }
            let ghost now = self.tables().labels;
            match self.labels.get(key.as_str()) {
                Some(v) => {
                    let raw = v.clone();
                    assert(raw@ == m[k]);
                    match rule.apply(raw.as_str()) {
                        Some(row) => {
                            if !str_eq(row.as_str(), raw.as_str()) {
                                self.put(TableName::Labels, key, row);
                                assert(self.tables().labels == now.insert(k, row@));
                            } else {
                                assert(now =~= now.insert(k, row@));
                            }
                            assert(now.insert(k, row@) =~= rewritten_at(m, f, all.take(i + 1)));
                            assert(f(m[k]) == Some(row@));
                        },
                        None => {
                            assert(f(m[k]) is None);
                            self.delete(TableName::Labels, key.as_str());
                            assert(now.remove(k) =~= rewritten_at(m, f, all.take(i + 1)));
                        },
                    }
                },
                None => {
                    assert(false);
                },
            }
            assert(self.tables() =~= Tables {
                labels: rewritten_at(m, f, all.take(i + 1)),
                ..t0
            });
            proof {
                if rule is Without {
                    assert forall|x: Seq<char>| #[trigger]
                        all.take(i + 1).contains(x) && f(m[x]) is Some implies decoded_ids(
                        f(m[x])->0,
                    ) == others(decoded_ids(m[x]), rule->Without_id@) by {
                        if x != k {
                            assert(before.contains(x));
                        }
                    }
                }
            }
            i += 1;
        }
        assert(all.take(n as int) =~= all);
        assert(rewritten_at(m, f, all) =~= rewritten(m, f));
    }

    /// The first id in text order that some file carries and the catalog does not have.
    fn first_orphan(&self, defs: &Vec<ColorLabelDefinition>) -> (r: Option<String>)
        ensures
            match r {
                Some(id) => is_first_orphan(
                    self.seen(TableName::Labels),
                    labels_of(defs@),
                    id@,
                ),
                None => forall|id: Seq<char>|
                    !(#[trigger] is_orphan(self.seen(TableName::Labels), labels_of(defs@), id)),
            },
    {
        if matches!(self.access, Access::Unavailable) {
            return None;
        }
        let ghost m = self.seen(TableName::Labels);
        let ghost catalog = labels_of(defs@);
        self.labels.check_order();
        let n: usize = self.labels.len();
        let mut best: Option<String> = None;
        let mut i: usize = 0;
        while i < n
            invariant
                i <= n,
                n == self.labels.keys().len(),
                m == text_map(self.labels@),
                catalog == labels_of(defs@),
                forall|k: Seq<char>| #[trigger]
                    self.labels@.contains_key(k) <==> self.labels.keys().contains(k),
                match best {
                    Some(b) => is_orphan(m, catalog, b@) && forall|j: int, id: Seq<char>|
                        0 <= j < i && #[trigger] decoded_ids(m[self.labels.keys()[j]]).contains(id)
                            && !has_id(catalog, id) ==> id == b@ || text_rank(b@, id) == Rank::Less,
                    None => forall|j: int, id: Seq<char>|
                        0 <= j < i && #[trigger] decoded_ids(m[self.labels.keys()[j]]).contains(id)
                            ==> has_id(catalog, id),
                },
            decreases n - i,
        {
            let row = self.labels.value_at(i);
            let ghost key = self.labels.keys()[i as int];
            assert(m[key] == row@);
            assert(m.contains_key(key));
            let ids = decode_label_ids(row.as_str());
            let ghost list = texts(ids@);
            let c: usize = ids.len();
            let mut j: usize = 0;
            while j < c
                invariant
                    j <= c,
                    c == ids@.len(),
                    list == texts(ids@),
                    list == decoded_ids(m[key]),
                    m.contains_key(key),
                    catalog == labels_of(defs@),
                    match best {
                        Some(b) => is_orphan(m, catalog, b@) && (forall|p: int, id: Seq<char>|
                            0 <= p < i && #[trigger] decoded_ids(
                                m[self.labels.keys()[p]],
                            ).contains(id) && !has_id(catalog, id) ==> id == b@ || text_rank(b@, id)
                                == Rank::Less) && (forall|q: int|
                            0 <= q < j && !has_id(catalog, #[trigger] list[q]) ==> list[q] == b@
                                || text_rank(b@, list[q]) == Rank::Less),
                        None => (forall|p: int, id: Seq<char>|
                            0 <= p < i && #[trigger] decoded_ids(
                                m[self.labels.keys()[p]],
                            ).contains(id) ==> has_id(catalog, id)) && (forall|q: int|
                            0 <= q < j ==> has_id(catalog, #[trigger] list[q])),
                    },
                decreases c - j,
            {
                let id = ids[j].clone();
                assert(list[j as int] == id@);
                if find_place(defs, id.as_str()).is_none() {
                    assert(is_orphan(m, catalog, id@)) by {
                        assert(decoded_ids(m[key]).contains(id@));
                    }
                    let better = match &best {
                        None => true,
                        Some(b) => {
                            proof {
                                crate::text::text_order_is_total(id@, b@);
                                crate::text::text_order_is_total(b@, id@);
                            }
                            matches!(rank_text(id.as_str(), b.as_str()), Rank::Less)
                        },
                    };
                    if better {
                        proof {
                            if let Some(b) = best {
                                assert forall|other: Seq<char>| other == b@ || text_rank(b@, other)
                                    == Rank::Less implies text_rank(id@, other) == Rank::Less by {
                                    if other != b@ {
                                        crate::text::text_order_is_transitive(id@, b@, other);
                                    }
                                }
                            }
                        }
                        best = Some(id);
                    }
                }
                j += 1;
            }
            proof {
                assert forall|p: int, id: Seq<char>|
                    0 <= p < i + 1 && #[trigger] decoded_ids(m[self.labels.keys()[p]]).contains(id)
                        && !has_id(catalog, id) implies best is Some && (id == best->0@
                    || text_rank(best->0@, id) == Rank::Less) by {
                    if p == i {
                        let q = list.index_of(id);
                        assert(list[q] == id);
                    }
                }
            }
            i += 1;
        }
        proof {
            assert forall|id: Seq<char>| #[trigger] is_orphan(m, catalog, id) implies exists|j: int|
                0 <= j < n && #[trigger] decoded_ids(m[self.labels.keys()[j]]).contains(id) by {
                let k = choose|k: Seq<char>| #[trigger]
                    m.contains_key(k) && decoded_ids(m[k]).contains(id);
                assert(self.labels@.contains_key(k));
                let j = self.labels.keys().index_of(k);
                assert(self.labels.keys()[j] == k);
                assert(decoded_ids(m[self.labels.keys()[j]]).contains(id));
            }
        }
        best
    }

    /// What replacing the catalog does: the definitions must be valid and keep every label in
    /// use.
    pub open spec fn catalog_set(
        &self,
        after: &MediaDb,
        defs: Seq<LabelModel>,
        r: Result<Vec<ColorLabelDefinition>, String>,
    ) -> bool {
        let labels = self.seen(TableName::Labels);
        match checked_catalog(defs) {
            Err(e) => {
                &&& r is Err && r->Err_0@ == e
                &&& after.tables() == self.tables()
            },
            Ok(m) => if exists|id: Seq<char>| #[trigger] is_orphan(labels, m, id) {
                &&& r is Err && exists|id: Seq<char>| #[trigger]
                    is_first_orphan(labels, m, id) && r->Err_0@ == orphan_message(id)
                &&& after.tables() == self.tables()
            } else if !self.writable() {
                &&& r is Err && r->Err_0@ == refusal(self.status_of())
                &&& after.tables() == self.tables()
            } else {
                &&& r is Ok && labels_of(r->Ok_0@) == m
                &&& after.tables() == self.tables().with_catalog(m)
            },
        }
    }

    /// Replaces the catalog.
    pub fn set_color_label_definitions(&mut self, definitions: &Vec<ColorLabelDefinition>) -> (r:
        Result<Vec<ColorLabelDefinition>, String>)
        requires
            old(self).wf(),
        ensures
            final(self).wf(),
            final(self).same_frame(old(self)),
            old(self).catalog_set(final(self), labels_of(definitions@), r),
    {
        let normalized = match validate_color_label_definitions(definitions) {
            Ok(v) => v,
            Err(e) => return Err(e),
        };
        if let Some(orphan) = self.first_orphan(&normalized) {
            let ghost labels = self.seen(TableName::Labels);
            assert(is_orphan(labels, labels_of(normalized@), orphan@));
            return Err(
                cat3(
                    "cannot remove assigned color label ",
                    orphan.as_str(),
                    " through palette replacement; use delete_color_label",
                ),
            );
        }
        if !self.is_writable() {
            return Err(self.refuse());
        }
        let copy = copy_definitions(&normalized);
        self.put_catalog(copy);
        Ok(normalized)
    }

    /// What creating a label under a given id does.
    pub open spec fn label_created(
        &self,
        after: &MediaDb,
        id: Seq<char>,
        name: Seq<char>,
        hex: Seq<char>,
        r: Result<ColorLabelDefinition, String>,
    ) -> bool {
        match next_label(self.catalog_seen(), id, name, hex) {
            Err(e) => {
                &&& r is Err && r->Err_0@ == e
                &&& after.tables() == self.tables()
            },
            Ok(d) => match r {
                Ok(made) => {
                    &&& made@ == d
                    &&& exists|v: Vec<ColorLabelDefinition>| #[trigger]
                        self.catalog_set(
                            after,
                            self.catalog_seen().push(d),
                            Ok::<Vec<ColorLabelDefinition>, String>(v),
                        )
                },
                Err(e) => self.catalog_set(
                    after,
                    self.catalog_seen().push(d),
                    Err::<Vec<ColorLabelDefinition>, String>(e),
                ),
            },
        }
    }

    /// Creates a label under the given id.
    pub fn create_color_label_as(&mut self, id: &str, name: &str, hex: &str) -> (r: Result<
        ColorLabelDefinition,
        String,
    >)
        requires
            old(self).wf(),
        ensures
            final(self).wf(),
            final(self).same_frame(old(self)),
            old(self).label_created(final(self), id@, name@, hex@, r),
    {
        let mut defs = self.color_label_definitions();
        let d = match next_color_label_definition(&defs, id, name, hex) {
            Ok(d) => d,
            Err(e) => return Err(e),
        };
        let ghost before = labels_of(defs@);
        defs.push(d.clone());
        assert(labels_of(defs@) =~= before.push(d@));
        match self.set_color_label_definitions(&defs) {
            Ok(v) => {
                assert(old(self).catalog_set(
                    self,
                    before.push(d@),
                    Ok::<Vec<ColorLabelDefinition>, String>(v),
                ));
                Ok(d)
            },
            Err(e) => Err(e),
        }
    }

    /// Creates a label under a new random id.
    pub fn create_color_label(&mut self, name: &str, hex: &str) -> (r: Result<
        ColorLabelDefinition,
        String,
    >)
        requires
            old(self).wf(),
        ensures
            final(self).wf(),
            final(self).same_frame(old(self)),
            exists|id: Seq<char>|
                is_new_label_id(id) && !has_id(old(self).catalog_seen(), id) && #[trigger] old(
                    self,
                ).label_created(
                    final(self),
                    id,
                    name@,
                    hex@,
                    r,
                ),
    {
        let defs = self.color_label_definitions();
        let id = new_label_id(&defs);
        self.create_color_label_as(id.as_str(), name, hex)
    }

    /// What creating a label under a given id and giving it to a path does.
    pub open spec fn label_created_at(
        &self,
        after: &MediaDb,
        path: Seq<char>,
        id: Seq<char>,
        name: Seq<char>,
        hex: Seq<char>,
        r: Result<ColorLabelDefinition, String>,
    ) -> bool {
        if !self.writable() {
            &&& r is Err && r->Err_0@ == refusal(self.status_of())
            &&& after.tables() == self.tables()
        } else {
            match next_label(self.catalog_seen(), id, name, hex) {
                Err(e) => {
                    &&& r is Err && r->Err_0@ == e
                    &&& after.tables() == self.tables()
                },
                Ok(d) => match checked_catalog(self.catalog_seen().push(d)) {
                    Err(e) => {
                        &&& r is Err && r->Err_0@ == e
                        &&& after.tables() == self.tables()
                    },
                    Ok(m) => {
                        &&& r is Ok && r->Ok_0@ == d
                        &&& after.tables() == (Tables {
                            labels: written(
                                self.tables().labels,
                                self.root(),
                                path,
                                Some(json_of_strings(self.labels_with(path, d.id))),
                            ),
                            ..self.tables().with_catalog(m)
                        })
                    },
                },
            }
        }
    }

    /// Creates a label under the given id and gives it to a path, together.
    pub fn create_color_label_and_assign_as(
        &mut self,
        path: &str,
        id: &str,
        name: &str,
        hex: &str,
    ) -> (r: Result<ColorLabelDefinition, String>)
        requires
            old(self).wf(),
        ensures
            final(self).wf(),
            final(self).same_frame(old(self)),
            old(self).label_created_at(final(self), path@, id@, name@, hex@, r),
    {
        if !self.is_writable() {
            return Err(self.refuse());
        }
        let mut defs = self.color_label_definitions();
        let d = match next_color_label_definition(&defs, id, name, hex) {
            Ok(d) => d,
            Err(e) => return Err(e),
        };
        let ghost before = labels_of(defs@);
        defs.push(d.clone());
        assert(labels_of(defs@) =~= before.push(d@));
        let catalog = match validate_color_label_definitions(&defs) {
            Ok(v) => v,
            Err(e) => return Err(e),
        };
        let mut assigned = self.labels(path);
        if !list_contains(&assigned, d.id.as_str()) {
            let ghost list = texts(assigned@);
            let added = d.id.clone();
            assigned.push(added);
            assert(texts(assigned@) =~= list.push(added@));
        }
        let row = encode_label_ids(&assigned);
        self.put_catalog(catalog);
        self.store(TableName::Labels, path, Some(row.as_str()));
        Ok(d)
    }

    /// Creates a label under a new random id and gives it to a path, together.
    pub fn create_color_label_and_assign(&mut self, path: &str, name: &str, hex: &str) -> (r: Result<
        ColorLabelDefinition,
        String,
    >)
        requires
            old(self).wf(),
        ensures
            final(self).wf(),
            final(self).same_frame(old(self)),
            exists|id: Seq<char>|
                is_new_label_id(id) && !has_id(old(self).catalog_seen(), id) && #[trigger] old(
                    self,
                ).label_created_at(
                    final(self),
                    path@,
                    id,
                    name@,
                    hex@,
                    r,
                ),
    {
        let defs = self.color_label_definitions();
        let id = new_label_id(&defs);
        self.create_color_label_and_assign_as(path, id.as_str(), name, hex)
    }

    /// The catalog with the name and the color of one label changed.
    pub open spec fn catalog_changed(
        &self,
        id: Seq<char>,
        name: Option<Seq<char>>,
        hex: Option<Seq<char>>,
    ) -> Seq<LabelModel> {
        let defs = self.catalog_seen();
        let i = place_of_id(defs, id)->0;
        defs.update(
            i,
            LabelModel {
                id: defs[i].id,
                name: if name is Some {
                    name->0
                } else {
                    defs[i].name
                },
                hex: if hex is Some {
                    hex->0
                } else {
                    defs[i].hex
                },
            },
        )
    }

    /// Changes the name or the color of a label; its id stays.
    pub fn update_color_label(&mut self, id: &str, name: Option<&str>, hex: Option<&str>) -> (r:
        Result<ColorLabelDefinition, String>)
        requires
            old(self).wf(),
        ensures
            final(self).wf(),
            final(self).same_frame(old(self)),
            ({
                let n = match name {
                    Some(v) => Some(v@),
                    None => None,
                };
                let h = match hex {
                    Some(v) => Some(v@),
                    None => None,
                };
                if n is None && h is None {
                    &&& r is Err && r->Err_0@ == "color label update requires a name and/or color"@
                    &&& final(self).tables() == old(self).tables()
                } else if place_of_id(old(self).catalog_seen(), id@) is None {
                    &&& r is Err && r->Err_0@ == "unknown stable color-label id: "@ + id@
                    &&& final(self).tables() == old(self).tables()
                } else {
                    match checked_catalog(old(self).catalog_changed(id@, n, h)) {
                        Err(e) => {
                            &&& r is Err && r->Err_0@ == e
                            &&& final(self).tables() == old(self).tables()
                        },
                        Ok(m) => if !old(self).writable() {
                            &&& r is Err && r->Err_0@ == refusal(old(self).status_of())
                            &&& final(self).tables() == old(self).tables()
                        } else {
                            &&& r is Ok && label_with_id(m, id@) == Some(r->Ok_0@)
                            &&& final(self).tables() == old(self).tables().with_catalog(m)
                        },
                    }
                }
            }),
    {
        if name.is_none() && hex.is_none() {
            return Err("color label update requires a name and/or color".to_owned());
        }
        let mut defs = self.color_label_definitions();
        let ghost all = labels_of(defs@);
        let i: usize = match find_place(&defs, id) {
            Some(i) => i,
            None => return Err(cat("unknown stable color-label id: ", id)),
        };
        let mut d = defs[i].clone();
        if let Some(v) = name {
            d.name = v.to_owned();
        }
        if let Some(v) = hex {
            d.hex = v.to_owned();
        }
        let ghost dm = d@;
        defs.set(i, d);
        assert(labels_of(defs@) =~= all.update(i as int, dm));
        let normalized = match validate_color_label_definitions(&defs) {
            Ok(v) => v,
            Err(e) => return Err(e),
        };
        proof {
            current_ids_are_valid(
                if self.access_of() == Access::Unavailable {
                    None
                } else {
                    self.tables().catalog
                },
            );
            accepted_ids_keep_their_places(labels_of(defs@));
            assert(is_label_id(all[i as int].id));
            crate::color_labels::lemma_label_id_trimmed(all[i as int].id);
            assert(labels_of(normalized@)[i as int].id == id@);
            assert(has_id(labels_of(normalized@), id@));
        }
        match find_place(&normalized, id) {
            Some(k) => {
                let updated = normalized[k].clone();
                if !self.is_writable() {
                    return Err(self.refuse());
                }
                self.put_catalog(normalized);
                Ok(updated)
            },
            None => Err(String::new()),
        }
    }
}

/// Whether an id has the form of a new label id.
pub open spec fn is_new_label_id(id: Seq<char>) -> bool {
    &&& id.len() == 38
    &&& begins(id, "label-"@)
    &&& forall|i: int| 6 <= i < 38 ==> is_lower_hex(#[trigger] id[i])
}

/// The label id with a given number.
spec fn counted_label_id(n: nat) -> Seq<char> {
    "label-0000000000000000"@ + hex_fixed(n, 16)
}

fn counted_label(n: u64) -> (r: String)
    ensures
        r@ == counted_label_id(n as nat),
        is_new_label_id(r@),
{
    let digits = hex_text(n, 16);
    let r = cat("label-0000000000000000", digits.as_str());
    proof {
        reveal_strlit("label-");
        reveal_strlit("label-0000000000000000");
        lemma_hex_len(n as nat, 16);
        assert(r@.take(6) =~= "label-"@);
        assert forall|i: int| 6 <= i < 38 implies is_lower_hex(#[trigger] r@[i]) by {
            if i >= 22 {
                assert(r@[i] == digits@[i - 22]);
            }
        }
    }
    r
}

/// Different numbers give different ids.
proof fn lemma_counted_ids_differ(a: nat, b: nat)
    requires
        a < b < 0x1_0000_0000_0000_0000,
    ensures
        counted_label_id(a) != counted_label_id(b),
{
    crate::media_inventory::lemma_item_keys(Seq::empty(), a, b);
    let x = crate::media_inventory::item_key(Seq::empty(), a);
    let y = crate::media_inventory::item_key(Seq::empty(), b);
    crate::text::text_order_is_total(x, y);
    lemma_hex_len(a, 16);
    lemma_hex_len(b, 16);
    reveal_strlit("label-0000000000000000");
    if counted_label_id(a) == counted_label_id(b) {
        let p = "label-0000000000000000"@;
        assert(hex_fixed(a, 16) =~= counted_label_id(a).skip(p.len() as int));
        assert(hex_fixed(b, 16) =~= counted_label_id(b).skip(p.len() as int));
    }
}

/// Of more ids than a catalog has definitions, one is free.
proof fn lemma_some_id_is_free(defs: Seq<LabelModel>)
    requires
        defs.len() < 0x1_0000_0000_0000_0000,
    ensures
        exists|k: int|
            0 <= k <= defs.len() && !has_id(defs, #[trigger] counted_label_id(k as nat)),
{
    let n = defs.len();
    if forall|k: int| 0 <= k <= n ==> has_id(defs, #[trigger] counted_label_id(k as nat)) {
        let at = |k: int|
            choose|p: int| 0 <= p < n && (#[trigger] defs[p]).id == counted_label_id(k as nat);
        let places = Seq::new((n + 1) as nat, at);
        assert forall|k: int| 0 <= k <= n implies 0 <= #[trigger] places[k] < n && defs[places[k]].id
            == counted_label_id(k as nat) by {
            assert(has_id(defs, counted_label_id(k as nat)));
        }
        assert(places.no_duplicates()) by {
            assert forall|i: int, j: int| 0 <= i < j < places.len() implies places[i] != places[j] by {
                lemma_counted_ids_differ(i as nat, j as nat);
            }
        }
        places.unique_seq_to_set();
        let range = vstd::set_lib::set_int_range(0, n as int);
        vstd::set_lib::lemma_int_range(0, n as int);
        assert(places.to_set().subset_of(range)) by {
            assert forall|x: int| places.to_set().contains(x) implies range.contains(x) by {
                let i = choose|i: int| 0 <= i < places.len() && places[i] == x;
                assert(places[i] == x);
            }
        }
        vstd::set_lib::lemma_len_subset(places.to_set(), range);
    }
}

/// The first label id that the catalog does not have, counted up from zero.
fn free_label_id(defs: &Vec<ColorLabelDefinition>) -> (r: String)
    ensures
        is_new_label_id(r@),
        !has_id(labels_of(defs@), r@),
{
    let n: usize = defs.len();
    let mut i: usize = 0;
    while i < n
        invariant
            i <= n,
            n == defs@.len(),
            forall|k: int|
                0 <= k < i ==> has_id(labels_of(defs@), #[trigger] counted_label_id(k as nat)),
        decreases n - i,
    {
        let id = counted_label(i as u64);
        if find_place(defs, id.as_str()).is_none() {
            return id;
        }
        i += 1;
    }
    let id = counted_label(n as u64);
    if find_place(defs, id.as_str()).is_some() {
        proof {
            assert forall|k: int| 0 <= k <= n implies has_id(
                labels_of(defs@),
                #[trigger] counted_label_id(k as nat),
            ) by {}
            lemma_some_id_is_free(labels_of(defs@));
        }
    }
    id
}

/// A new random label id that the catalog does not have.
fn new_label_id(defs: &Vec<ColorLabelDefinition>) -> (r: String)
    ensures
        is_new_label_id(r@),
        !has_id(labels_of(defs@), r@),
{
    let mut tries: usize = 0;
    while tries < 16
        decreases 16 - tries,
    {
        let id = label_token();
        if find_place(defs, id.as_str()).is_none() {
            return id;
        }
        tries += 1;
    }
    free_label_id(defs)
}

fn label_token() -> (r: String)
    ensures
        is_new_label_id(r@),
{
    let token = random_token();
    let r = cat("label-", token.as_str());
    proof {
        reveal_strlit("label-");
        assert(r@.take(6) =~= "label-"@);
        assert forall|i: int| 6 <= i < 38 implies is_lower_hex(#[trigger] r@[i]) by {
            assert(r@[i] == token@[i - 6]);
        }
    }
    r
}

/// A new label id can be a stable id.
pub proof fn new_ids_are_stable(id: Seq<char>)
    requires
        is_new_label_id(id),
    ensures
        is_label_id(id),
{
    reveal_strlit("label-");
    assert forall|i: int| 0 <= i < id.len() implies ('a' <= #[trigger] id[i] && id[i] <= 'z') || (
    '0' <= id[i] && id[i] <= '9') || id[i] == '-' || id[i] == '_' by {
        if i < 6 {
            assert(id.take(6)[i] == id[i]);
        } else {
            assert(is_lower_hex(id[i]));
        }
    }
}

/// The keys among the first `n` whose row has the id.
spec fn users(
    keys: Seq<Seq<char>>,
    m: Map<Seq<char>, Seq<char>>,
    id: Seq<char>,
    n: int,
) -> Set<Seq<char>>
    decreases n,
{
    if n <= 0 {
        Set::empty()
    } else if decoded_ids(m[keys[n - 1]]).contains(id) {
        users(keys, m, id, n - 1).insert(keys[n - 1])
    } else {
        users(keys, m, id, n - 1)
    }
}

proof fn lemma_users(keys: Seq<Seq<char>>, m: Map<Seq<char>, Seq<char>>, id: Seq<char>, n: int)
    requires
        in_text_order(keys),
        0 <= n <= keys.len(),
    ensures
        users(keys, m, id, n).finite(),
        users(keys, m, id, n).len() <= n,
        forall|k: Seq<char>| #[trigger]
            users(keys, m, id, n).contains(k) <==> exists|j: int|
                0 <= j < n && #[trigger] keys[j] == k && decoded_ids(m[k]).contains(id),
        n > 0 ==> users(keys, m, id, n).len() == users(keys, m, id, n - 1).len() + if decoded_ids(
            m[keys[n - 1]],
        ).contains(id) {
            1int
        } else {
            0int
        },
    decreases n,
{
    if n > 0 {
        lemma_users(keys, m, id, n - 1);
        let before = users(keys, m, id, n - 1);
        let k = keys[n - 1];
        assert(!before.contains(k)) by {
            if before.contains(k) {
                let j = choose|j: int|
                    0 <= j < n - 1 && #[trigger] keys[j] == k && decoded_ids(m[k]).contains(id);
                assert(text_rank(keys[j], keys[n - 1]) == Rank::Less);
                crate::text::text_order_is_total(k, k);
            }
        }
        assert forall|x: Seq<char>| #[trigger]
            users(keys, m, id, n).contains(x) <==> exists|j: int|
                0 <= j < n && #[trigger] keys[j] == x && decoded_ids(m[x]).contains(id) by {
            if before.contains(x) {
                let j = choose|j: int|
                    0 <= j < n - 1 && #[trigger] keys[j] == x && decoded_ids(m[x]).contains(id);
                assert(keys[j] == x);
            }
            if x == k && decoded_ids(m[k]).contains(id) {
                assert(keys[n - 1] == x);
            }
        }
    }
}

proof fn lemma_usage(keys: Seq<Seq<char>>, m: Map<Seq<char>, Seq<char>>, id: Seq<char>)
    requires
        in_text_order(keys),
        forall|k: Seq<char>| #[trigger] m.contains_key(k) <==> keys.contains(k),
    ensures
        usage(m, id) == users(keys, m, id, keys.len() as int).len(),
{
    let n = keys.len() as int;
    lemma_users(keys, m, id, n);
    let f = |k: Seq<char>| decoded_ids(m[k]).contains(id);
    assert(m.dom().filter(f) =~= users(keys, m, id, n)) by {
        assert forall|k: Seq<char>| m.dom().filter(f).contains(k) <==> #[trigger] users(
            keys,
            m,
            id,
            n,
        ).contains(k) by {
            if m.dom().filter(f).contains(k) {
                assert(m.contains_key(k));
                let j = keys.index_of(k);
                assert(keys[j] == k);
            }
            if users(keys, m, id, n).contains(k) {
                let j = choose|j: int|
                    0 <= j < n && #[trigger] keys[j] == k && decoded_ids(m[k]).contains(id);
                assert(keys.contains(k));
                assert(m.contains_key(k));
            }
        }
    }
}

/// What deleting a label came to.
#[derive(Debug)]
pub struct ColorLabelDeleteResult {
    pub id: String,
    pub usage_count: usize,
    pub assignments_removed: usize,
}

/// The message of a deletion that needs to be confirmed.
pub open spec fn confirmation_message(id: Seq<char>, count: nat) -> Seq<char> {
    "color label "@ + id + " is assigned to "@ + decimal(count)
        + " asset(s); confirmation required"@
}

/// The catalog without one label.
pub open spec fn catalog_without(defs: Seq<LabelModel>, id: Seq<char>) -> Seq<LabelModel> {
    defs.filter(|d: LabelModel| d.id != id)
}

fn remove_definition(defs: &Vec<ColorLabelDefinition>, id: &str) -> (r: Vec<ColorLabelDefinition>)
    ensures
        labels_of(r@) == catalog_without(labels_of(defs@), id@),
{
    let mut out: Vec<ColorLabelDefinition> = Vec::new();
    let n: usize = defs.len();
    let mut i: usize = 0;
    let ghost all = labels_of(defs@);
    let ghost f = |d: LabelModel| d.id != id@;
    proof {
        reveal(Seq::filter);
        assert(all.take(0).filter(f) =~= Seq::<LabelModel>::empty());
        assert(labels_of(out@) =~= Seq::<LabelModel>::empty());
    }
    while i < n
        invariant
            i <= n,
            n == defs@.len(),
            all == labels_of(defs@),
            f == (|d: LabelModel| d.id != id@),
            labels_of(out@) == all.take(i as int).filter(f),
        decreases n - i,
    {
        proof {
            reveal(Seq::filter);
            assert(all.take(i + 1).drop_last() =~= all.take(i as int));
            assert(all.take(i + 1).last() == defs@[i as int]@);
        }
        if !str_eq(defs[i].id.as_str(), id) {
            let ghost before = labels_of(out@);
            let d = defs[i].clone();
            out.push(d);
            assert(labels_of(out@) =~= before.push(d@));
        }
        i += 1;
    }
    assert(all.take(n as int) =~= all);
    out
}

impl MediaDb {
    /// How many files carry an id.
    fn usage_count(&self, id: &str) -> (r: usize)
        ensures
            r == usage(self.seen(TableName::Labels), id@),
    {
        if matches!(self.access, Access::Unavailable) {
            proof {
                let m = self.seen(TableName::Labels);
                let f = |k: Seq<char>| decoded_ids(m[k]).contains(id@);
                assert(m.dom().filter(f) =~= Set::<Seq<char>>::empty());
            }
            return 0;
        }
        let ghost m = self.seen(TableName::Labels);
        self.labels.check_order();
        let n: usize = self.labels.len();
        let mut count: usize = 0;
        let mut i: usize = 0;
        while i < n
            invariant
                i <= n,
                n == self.labels.keys().len(),
                m == text_map(self.labels@),
                in_text_order(self.labels.keys()),
                count == users(self.labels.keys(), m, id@, i as int).len(),
                count <= i,
            decreases n - i,
        {
            let row = self.labels.value_at(i);
            assert(m[self.labels.keys()[i as int]] == row@);
            let ids = decode_label_ids(row.as_str());
            proof {
                lemma_users(self.labels.keys(), m, id@, i + 1);
            }
            if list_contains(&ids, id) {
                count += 1;
            }
            i += 1;
        }
        proof {
            lemma_usage(self.labels.keys(), m, id@);
        }
        count
    }

    /// How many files carry each id that is in use.
    pub fn color_label_usage_counts(&self) -> (r: Table<usize>)
        ensures
            forall|id: Seq<char>| #[trigger]
                r@.contains_key(id) <==> usage(self.seen(TableName::Labels), id) > 0,
            forall|id: Seq<char>| #[trigger]
                r@.contains_key(id) ==> r@[id] == usage(self.seen(TableName::Labels), id),
    {
        let mut counts: Table<usize> = Table::new();
        let ghost m = self.seen(TableName::Labels);
        if matches!(self.access, Access::Unavailable) {
            proof {
                assert forall|id: Seq<char>| #[trigger] counts@.contains_key(id) <==> usage(m, id)
                    > 0 by {
                    let f = |k: Seq<char>| decoded_ids(m[k]).contains(id);
                    assert(m.dom().filter(f) =~= Set::<Seq<char>>::empty());
                }
            }
            return counts;
        }
        self.labels.check_order();
        let ghost keys = self.labels.keys();
        let n: usize = self.labels.len();
        let mut i: usize = 0;
        while i < n
            invariant
                i <= n,
                n == keys.len(),
                keys == self.labels.keys(),
                m == text_map(self.labels@),
                in_text_order(keys),
                forall|id: Seq<char>| #[trigger]
                    counts@.contains_key(id) <==> users(keys, m, id, i as int).len() > 0,
                forall|id: Seq<char>| #[trigger]
                    counts@.contains_key(id) ==> counts@[id] == users(keys, m, id, i as int).len(),
            decreases n - i,
        {
            let row = self.labels.value_at(i);
            assert(m[keys[i as int]] == row@);
            let ids = decode_label_ids(row.as_str());
            let ghost list = texts(ids@);
            let ghost start = counts@;
            proof {
                lemma_decoded_distinct(row@);
            }
            let c: usize = ids.len();
            let mut j: usize = 0;
            while j < c
                invariant
                    j <= c,
                    c == ids@.len(),
                    list == texts(ids@),
                    i < n,
                    n == keys.len(),
                    in_text_order(keys),
                    forall|a: int, b: int|
                        0 <= a < b < list.len() ==> #[trigger] list[a] != #[trigger] list[b],
                    forall|id: Seq<char>| #[trigger]
                        start.contains_key(id) <==> users(keys, m, id, i as int).len() > 0,
                    forall|id: Seq<char>| #[trigger]
                        start.contains_key(id) ==> start[id] == users(keys, m, id, i as int).len(),
                    forall|id: Seq<char>| #[trigger]
                        counts@.contains_key(id) <==> start.contains_key(id) || list.take(
                            j as int,
                        ).contains(id),
                    forall|id: Seq<char>| #[trigger]
                        counts@.contains_key(id) ==> counts@[id] == users(
                            keys,
                            m,
                            id,
                            i as int,
                        ).len() + if list.take(j as int).contains(id) {
                            1int
                        } else {
                            0int
                        },
                decreases c - j,
            {
                let id = ids[j].clone();
                let ghost x = id@;
                let ghost before = counts@;
                let ghost prefix = list.take(j as int);
                proof {
                    assert(list[j as int] == x);
                    assert(!prefix.contains(x)) by {
                        if prefix.contains(x) {
                            let q = prefix.index_of(x);
                            assert(list[q] == x);
                            assert(list[q] != list[j as int]);
                        }
                    }
                    lemma_users(keys, m, x, i as int);
                    assert(list.take(j + 1) =~= prefix.push(x));
                    assert forall|y: Seq<char>| #[trigger]
                        list.take(j + 1).contains(y) <==> prefix.contains(y) || y == x by {
                        if prefix.contains(y) {
                            let q = prefix.index_of(y);
                            assert(list.take(j + 1)[q] == y);
                        }
                        if y == x {
                            assert(list.take(j + 1)[j as int] == y);
                        }
                        if list.take(j + 1).contains(y) && y != x {
                            let q = list.take(j + 1).index_of(y);
                            assert(list.take(j + 1)[q] == y);
                            assert(prefix[q] == y);
                        }
                    }
                }
                let have: usize = match counts.get(id.as_str()) {
                    Some(v) => *v,
                    None => 0,
                };
                assert(have == users(keys, m, x, i as int).len());
                counts.insert(id, have + 1);
                proof {
                    assert forall|y: Seq<char>| #[trigger]
                        counts@.contains_key(y) <==> start.contains_key(y) || list.take(
                            j + 1,
                        ).contains(y) by {
                        assert(list.take(j + 1).contains(y) <==> prefix.contains(y) || y == x);
                        if y != x {
                            assert(before.contains_key(y) <==> counts@.contains_key(y));
                        }
                    }
                    assert forall|y: Seq<char>| #[trigger] counts@.contains_key(y) implies counts@[y]
                        == users(keys, m, y, i as int).len() + if list.take(j + 1).contains(y) {
                        1int
                    } else {
                        0int
                    } by {
                        assert(list.take(j + 1).contains(y) <==> prefix.contains(y) || y == x);
                        if y != x {
                            assert(before.contains_key(y));
                        }
                    }
                }
                j += 1;
            }
            proof {
                assert(list.take(c as int) =~= list);
                assert forall|id: Seq<char>| #[trigger]
                    counts@.contains_key(id) <==> users(keys, m, id, i + 1).len() > 0 by {
                    lemma_users(keys, m, id, i + 1);
                    lemma_users(keys, m, id, i as int);
                    assert(start.contains_key(id) <==> users(keys, m, id, i as int).len() > 0);
                }
                assert forall|id: Seq<char>| #[trigger] counts@.contains_key(id) implies counts@[id]
                    == users(keys, m, id, i + 1).len() by {
                    lemma_users(keys, m, id, i + 1);
                }
            }
            i += 1;
        }
        proof {
            assert forall|id: Seq<char>| #[trigger] counts@.contains_key(id) <==> usage(m, id)
                > 0 by {
                lemma_usage(keys, m, id);
            }
            assert forall|id: Seq<char>| #[trigger] counts@.contains_key(id) implies counts@[id]
                == usage(m, id) by {
                lemma_usage(keys, m, id);
            }
        }
        counts
    }

    /// Removes a label from the catalog and from every file, together. A label in use is only
    /// removed when that is confirmed.
    pub fn delete_color_label(&mut self, id: &str, confirmed: bool) -> (r: Result<
        ColorLabelDeleteResult,
        String,
    >)
        requires
            old(self).wf(),
        ensures
            final(self).wf(),
            final(self).same_frame(old(self)),
            ({
                let catalog = old(self).catalog_seen();
                let count = usage(old(self).tables().labels, id@);
                if !old(self).writable() {
                    &&& r is Err && r->Err_0@ == refusal(old(self).status_of())
                    &&& final(self).tables() == old(self).tables()
                } else if !has_id(catalog, id@) {
                    &&& r is Err && r->Err_0@ == "unknown stable color-label id: "@ + id@
                    &&& final(self).tables() == old(self).tables()
                } else if count > 0 && !confirmed {
                    &&& r is Err && r->Err_0@ == confirmation_message(id@, count)
                    &&& final(self).tables() == old(self).tables()
                } else {
                    match checked_catalog(catalog_without(catalog, id@)) {
                        Err(e) => {
                            &&& r is Err && r->Err_0@ == e
                            &&& final(self).tables() == old(self).tables()
                        },
                        Ok(m) => {
                            &&& r is Ok
                            &&& r->Ok_0.id@ == id@
                            &&& r->Ok_0.usage_count == count
                            &&& r->Ok_0.assignments_removed == count
                            &&& forall|k: Seq<char>| #[trigger]
                                final(self).tables().labels.contains_key(k) ==> decoded_ids(
                                    final(self).tables().labels[k],
                                ) == others(decoded_ids(old(self).tables().labels[k]), id@)
                            &&& final(self).tables() == (Tables {
                                labels: rewritten(
                                    old(self).tables().labels,
                                    |raw: Seq<char>| row_without(raw, id@),
                                ),
                                ..old(self).tables().with_catalog(m)
                            })
                        },
                    }
                }
            }),
    {
        if !self.is_writable() {
            return Err(self.refuse());
        }
        let defs = self.color_label_definitions();
        if find_place(&defs, id).is_none() {
            return Err(cat("unknown stable color-label id: ", id));
        }
        let count: usize = self.usage_count(id);
        if count > 0 && !confirmed {
            let digits = decimal_text(count as u64);
            let mut text = cat3("color label ", id, " is assigned to ");
            text.append(digits.as_str());
            text.append(" asset(s); confirmation required");
            return Err(text);
        }
        let rest = remove_definition(&defs, id);
        let catalog = match validate_color_label_definitions(&rest) {
            Ok(v) => v,
            Err(e) => return Err(e),
        };
        let ghost t0 = self.tables();
        let rule = LabelRule::Without { id: id.to_owned() };
        self.rewrite_labels(&rule);
        self.put_catalog(catalog);
        proof {
            let f = |raw: Seq<char>| rule.row(raw);
            let g = |raw: Seq<char>| row_without(raw, id@);
            assert(rewritten(t0.labels, f) =~= rewritten(t0.labels, g));
        }
        Ok(
            ColorLabelDeleteResult {
                id: id.to_owned(),
                usage_count: count,
                assignments_removed: count,
            },
        )
    }

    /// Brings the stored catalog and the label rows to their present form, once.
    pub fn migrate_color_labels_v2(&mut self)
        requires
            old(self).wf(),
        ensures
            final(self).wf(),
            final(self).same_frame(old(self)),
            ({
                let t = old(self).tables();
                let marker = "color_label_schema_v2_migrated"@;
                let done = t.settings.contains_key(marker) && t.settings[marker] == "1"@;
                final(self).tables() == if !old(self).writable() || done {
                    t
                } else {
                    let moved = t.with_catalog(old(self).catalog_seen());
                    Tables {
                        labels: rewritten(
                            t.labels,
                            |raw: Seq<char>| row_migrated(raw, old(self).catalog_seen()),
                        ),
                        settings: moved.settings.insert(marker, "1"@),
                        ..moved
                    }
                }
            }),
    {
        if !self.is_writable() {
            return;
        }
        if let Some(v) = self.setting("color_label_schema_v2_migrated") {
            if str_eq(v.as_str(), "1") {
                return;
            }
        }
        let ghost t0 = self.tables();
        let defs = self.color_label_definitions();
        let ghost catalog = self.catalog_seen();
        let rule = LabelRule::Migrate { definitions: copy_definitions(&defs) };
        self.rewrite_labels(&rule);
        self.put_catalog(defs);
        self.put(TableName::Settings, "color_label_schema_v2_migrated".to_owned(), "1".to_owned());
        proof {
            let f = |raw: Seq<char>| rule.row(raw);
            let g = |raw: Seq<char>| row_migrated(raw, catalog);
            assert(rewritten(t0.labels, f) =~= rewritten(t0.labels, g));
            let moved = t0.with_catalog(catalog);
            assert(self.tables() =~= Tables {
                labels: rewritten(t0.labels, g),
                settings: moved.settings.insert("color_label_schema_v2_migrated"@, "1"@),
                ..moved
            });
        }
    }
}

proof fn lemma_decoded_tidy(raw: Seq<char>)
    ensures
        is_tidy(decoded_ids(raw)),
{
    let value = trimmed(raw);
    crate::color_labels::tidying_makes_tidy(seq![value]);
    match crate::outside::strings_of_json(value) {
        Some(list) => {
            crate::color_labels::tidying_makes_tidy(list);
        },
        None => {},
    }
}

proof fn lemma_decoded_distinct(raw: Seq<char>)
    ensures
        forall|a: int, b: int|
            0 <= a < b < decoded_ids(raw).len() ==> #[trigger] decoded_ids(raw)[a]
                != #[trigger] decoded_ids(raw)[b],
{
    lemma_decoded_tidy(raw);
}

/// A label that has been taken out of a list of ids is not in it any more; every other one is.
pub proof fn deleted_label_is_gone(ids: Seq<Seq<char>>, id: Seq<char>, other: Seq<char>)
    requires
        other != id,
    ensures
        !others(ids, id).contains(id),
        others(ids, id).contains(other) <==> ids.contains(other),
{
    lemma_others(ids, id);
}

/// Taking an id out of a tidy list leaves it tidy, and takes out that id alone.
pub proof fn lemma_others(ids: Seq<Seq<char>>, id: Seq<char>)
    ensures
        forall|x: Seq<char>| #[trigger] others(ids, id).contains(x) <==> ids.contains(x) && x != id,
        is_tidy(ids) ==> is_tidy(others(ids, id)),
        !ids.contains(id) ==> others(ids, id) == ids,
    decreases ids.len(),
{
    reveal(Seq::filter);
    if ids.len() == 0 {
        assert(others(ids, id) =~= ids);
    } else {
        let front = ids.drop_last();
        let last = ids.last();
        lemma_others(front, id);
        let rest = others(front, id);
        assert forall|x: Seq<char>| #[trigger] ids.contains(x) <==> front.contains(x) || x
            == last by {
            if front.contains(x) {
                let j = front.index_of(x);
                assert(ids[j] == x);
            }
            if x == last {
                assert(ids[ids.len() - 1] == x);
            }
            if ids.contains(x) && x != last {
                let j = ids.index_of(x);
                assert(ids[j] == x);
                assert(front[j] == x);
            }
        }
        if last == id {
            assert(others(ids, id) =~= rest);
        } else {
            assert(others(ids, id) =~= rest.push(last));
            assert forall|x: Seq<char>| #[trigger] rest.push(last).contains(x) <==> rest.contains(x)
                || x == last by {
                if rest.contains(x) {
                    let j = rest.index_of(x);
                    assert(rest.push(last)[j] == x);
                }
                if x == last {
                    assert(rest.push(last)[rest.len() as int] == x);
                }
                if rest.push(last).contains(x) && x != last {
                    let j = rest.push(last).index_of(x);
                    assert(rest.push(last)[j] == x);
                    assert(rest[j] == x);
                }
            }
            if !ids.contains(id) {
                assert(!front.contains(id));
                assert(rest.push(last) =~= ids);
            }
        }
        if is_tidy(ids) {
            assert forall|i: int| 0 <= i < front.len() implies (#[trigger] front[i]).len() > 0
                && trimmed(front[i]) == front[i] by {
                assert(front[i] == ids[i]);
            }
            assert forall|i: int, j: int| 0 <= i < j < front.len() implies #[trigger] front[i]
                != #[trigger] front[j] by {
                assert(front[i] == ids[i] && front[j] == ids[j]);
            }
            assert(ids[ids.len() - 1] == last);
            if last != id {
                let out = rest.push(last);
                assert forall|i: int| 0 <= i < out.len() implies (#[trigger] out[i]).len() > 0
                    && trimmed(out[i]) == out[i] by {
                    if i < rest.len() {
                        assert(out[i] == rest[i]);
                    }
                }
                assert forall|i: int, j: int| 0 <= i < j < out.len() implies #[trigger] out[i]
                    != #[trigger] out[j] by {
                    assert(out[i] == rest[i]);
                    if j < rest.len() {
                        assert(out[j] == rest[j]);
                    } else {
                        assert(rest.contains(rest[i]));
                        assert(front.contains(rest[i]));
                        let q = front.index_of(rest[i]);
                        assert(front[q] == rest[i]);
                        assert(ids[q] != ids[ids.len() - 1]);
                    }
                }
            }
        }
    }
}

/// The metadata of an older JSON store.
#[derive(Debug)]
pub struct LegacyMetadata {
    pub notes: Vec<(String, String)>,
    pub tags: Vec<(String, String)>,
    pub color_labels: Vec<(String, String)>,
    pub favorites: Vec<String>,
}

/// What was found in the file of an older JSON store.
#[derive(Debug)]
pub enum LegacyFile {
    /// The file does not hold such a store.
    Unreadable,
    Parsed(LegacyMetadata),
}

pub open spec fn pair_texts(v: Seq<(String, String)>) -> Seq<(Seq<char>, Seq<char>)> {
    v.map_values(|p: (String, String)| (p.0@, p.1@))
}

/// What an entry of each older list becomes: notes unless they are white space, tags in their
/// clean form, labels in the fixed vocabulary.
pub open spec fn legacy_row(name: TableName, value: Seq<char>) -> Option<Seq<char>> {
    match name {
        TableName::Notes => if trimmed(value).len() > 0 {
            Some(value)
        } else {
            None
        },
        TableName::Tags => if clean_tags(value).len() > 0 {
            Some(clean_tags(value))
        } else {
            None
        },
        TableName::Labels => fixed_label(value),
        _ => None,
    }
}

/// A table with the entries of an older list, later ones in place of earlier ones.
pub open spec fn imported(
    m: Map<Seq<char>, Seq<char>>,
    root: Seq<char>,
    name: TableName,
    list: Seq<(Seq<char>, Seq<char>)>,
) -> Map<Seq<char>, Seq<char>>
    decreases list.len(),
{
    if list.len() == 0 {
        m
    } else {
        let before = imported(m, root, name, list.drop_last());
        match legacy_row(name, list.last().1) {
            Some(row) => before.insert(key_of(root, list.last().0), row),
            None => before,
        }
    }
}

/// The favorites with those of an older list.
pub open spec fn imported_favorites(
    m: Map<Seq<char>, Seq<char>>,
    root: Seq<char>,
    list: Seq<Seq<char>>,
) -> Map<Seq<char>, Seq<char>>
    decreases list.len(),
{
    if list.len() == 0 {
        m
    } else {
        imported_favorites(m, root, list.drop_last()).insert(
            key_of(root, list.last()),
            slash_form(list.last()),
        )
    }
}

pub open spec fn legacy_imported(t: Tables, root: Seq<char>, legacy: LegacyMetadata, now: Seq<char>) -> Tables {
    Tables {
        notes: imported(t.notes, root, TableName::Notes, pair_texts(legacy.notes@)),
        tags: imported(t.tags, root, TableName::Tags, pair_texts(legacy.tags@)),
        labels: imported(t.labels, root, TableName::Labels, pair_texts(legacy.color_labels@)),
        favorites: imported_favorites(t.favorites, root, texts(legacy.favorites@)),
        settings: t.settings.insert("legacy_json_migrated"@, now),
        ..t
    }
}

pub open spec fn legacy_done_message(json_path: Seq<char>) -> Seq<char> {
    "legacy media_metadata.json present but already migrated \u{2014} left untouched: "@ + json_path
}

pub open spec fn legacy_unreadable_message(json_path: Seq<char>) -> Seq<char> {
    "legacy media_metadata.json is unreadable and was left in place: "@ + json_path
}

impl MediaDb {
    fn import_list(&mut self, name: TableName, list: &Vec<(String, String)>)
        requires
            old(self).wf(),
        ensures
            final(self).wf(),
            final(self).same_frame(old(self)),
            final(self).tables() == old(self).tables().with(
                name,
                imported(old(self).tables().of(name), old(self).root(), name, pair_texts(list@)),
            ),
    {
        let ghost t0 = self.tables();
        let ghost m = t0.of(name);
        let ghost all = pair_texts(list@);
        let n: usize = list.len();
        let mut i: usize = 0;
        assert(all.take(0) =~= Seq::<(Seq<char>, Seq<char>)>::empty());
        assert(self.tables() =~= t0.with(name, m));
        while i < n
            invariant
                i <= n,
                n == list@.len(),
                all == pair_texts(list@),
                m == t0.of(name),
                self.wf(),
                self.same_frame(old(self)),
                self.tables() == t0.with(
                    name,
                    imported(m, self.root(), name, all.take(i as int)),
                ),
            decreases n - i,
        {
            proof {
                assert(all.take(i + 1).drop_last() =~= all.take(i as int));
                assert(all.take(i + 1).last() == (list@[i as int].0@, list@[i as int].1@));
            }
            let value = list[i].1.as_str();
            let row = match name {
                TableName::Notes => {
                    let tidy = trim(value);
                    if tidy.as_str().is_empty() {
                        None
                    } else {
                        Some(value.to_owned())
                    }
                },
                TableName::Tags => {
                    let cleaned = clean_tag_list(value);
                    if cleaned.as_str().is_empty() {
                        None
                    } else {
                        Some(cleaned)
                    }
                },
                TableName::Labels => match normalize_label(value) {
                    Some(word) => Some(word.to_owned()),
                    None => None,
                },
                _ => None,
            };
            assert(opt_text(row) == legacy_row(name, value@));
            if let Some(text) = row {
                let key = self.key_for(list[i].0.as_str());
                self.put(name, key, text);
            }
            assert(self.tables() =~= t0.with(
                name,
                imported(m, self.root(), name, all.take(i + 1)),
            ));
            i += 1;
        }
        assert(all.take(n as int) =~= all);
    }

    /// Takes the metadata of an older JSON store over, once; whether its file can be put away. A
    /// file that comes back after that never overwrites newer edits.
    pub fn migrate_legacy_json_at(&mut self, json_path: &str, file: &LegacyFile, now: &str) -> (r:
        bool)
        requires
            old(self).wf(),
        ensures
            final(self).wf(),
            final(self).root() == old(self).root(),
            final(self).path_style() == old(self).path_style(),
            final(self).access_of() == old(self).access_of(),
            final(self).stored_tables() == old(self).stored_tables(),
            ({
                let marked = old(self).seen(TableName::Settings).contains_key(
                    "legacy_json_migrated"@,
                );
                if marked {
                    &&& !r
                    &&& final(self).tables() == old(self).tables()
                    &&& final(self).status_of() == Some(legacy_done_message(json_path@))
                } else {
                    match *file {
                        LegacyFile::Unreadable => {
                            &&& !r
                            &&& final(self).tables() == old(self).tables()
                            &&& final(self).status_of() == Some(
                                legacy_unreadable_message(json_path@),
                            )
                        },
                        LegacyFile::Parsed(legacy) => {
                            &&& r == old(self).writable()
                            &&& final(self).status_of() == old(self).status_of()
                            &&& final(self).tables() == if old(self).writable() {
                                legacy_imported(old(self).tables(), old(self).root(), legacy, now@)
                            } else {
                                old(self).tables()
                            }
                        },
                    }
                }
            }),
    {
        if self.setting("legacy_json_migrated").is_some() {
            self.status = Some(
                cat(
                    "legacy media_metadata.json present but already migrated \u{2014} left untouched: ",
                    json_path,
                ),
            );
            return false;
        }
        let legacy = match file {
            LegacyFile::Unreadable => {
                self.status = Some(
                    cat(
                        "legacy media_metadata.json is unreadable and was left in place: ",
                        json_path,
                    ),
                );
                return false;
            },
            LegacyFile::Parsed(legacy) => legacy,
        };
        if !self.is_writable() {
            return false;
        }
        let ghost t0 = self.tables();
        self.import_list(TableName::Notes, &legacy.notes);
        self.import_list(TableName::Tags, &legacy.tags);
        self.import_list(TableName::Labels, &legacy.color_labels);
        let ghost t1 = self.tables();
        let ghost all = texts(legacy.favorites@);
        let n: usize = legacy.favorites.len();
        let mut i: usize = 0;
        assert(all.take(0) =~= Seq::<Seq<char>>::empty());
        while i < n
            invariant
                i <= n,
                n == legacy.favorites@.len(),
                all == texts(legacy.favorites@),
                self.wf(),
                self.same_frame(old(self)),
                self.tables() == (Tables {
                    favorites: imported_favorites(t1.favorites, self.root(), all.take(i as int)),
                    ..t1
                }),
            decreases n - i,
        {
            proof {
                assert(all.take(i + 1).drop_last() =~= all.take(i as int));
                assert(all.take(i + 1).last() == legacy.favorites@[i as int]@);
            }
            let path = legacy.favorites[i].as_str();
            let key = self.key_for(path);
            let display = slashify(path);
            self.put(TableName::Favorites, key, display);
            assert(self.tables() =~= Tables {
                favorites: imported_favorites(t1.favorites, self.root(), all.take(i + 1)),
                ..t1
            });
            i += 1;
        }
        assert(all.take(n as int) =~= all);
        self.put(TableName::Settings, "legacy_json_migrated".to_owned(), now.to_owned());
        assert(self.tables() =~= legacy_imported(t0, self.root(), *legacy, now@));
        true
    }

    /// Takes the metadata of an older JSON store over, once, at the present time.
    pub fn migrate_legacy_json(&mut self, json_path: &str, file: &LegacyFile) -> (r: bool)
        requires
            old(self).wf(),
        ensures
            final(self).wf(),
            final(self).root() == old(self).root(),
            final(self).access_of() == old(self).access_of(),
            final(self).stored_tables() == old(self).stored_tables(),
            r == (old(self).writable() && file is Parsed && !old(self).seen(
                TableName::Settings,
            ).contains_key("legacy_json_migrated"@)),
            final(self).path_style() == old(self).path_style(),
            final(self).status_of() == if old(self).seen(TableName::Settings).contains_key(
                "legacy_json_migrated"@,
            ) {
                Some(legacy_done_message(json_path@))
            } else if file is Unreadable {
                Some(legacy_unreadable_message(json_path@))
            } else {
                old(self).status_of()
            },
            !r ==> final(self).tables() == old(self).tables(),
            r ==> exists|now: Seq<char>|
                final(self).tables() == #[trigger] legacy_imported(
                    old(self).tables(),
                    old(self).root(),
                    file->Parsed_0,
                    now,
                ),
    {
        let now = now_rfc3339();
        self.migrate_legacy_json_at(json_path, file, now.as_str())
    }
}

/// What went wrong when an older store was taken over.
#[derive(Debug)]
pub enum MigrationFailure {
    /// Its metadata could not be stored.
    Import(String),
    /// Its file could not be put away.
    Archive(String),
    /// The labels could not be stored in their present form.
    Labels(String),
}

pub open spec fn migration_message(failure: MigrationFailure) -> Seq<char> {
    match failure {
        MigrationFailure::Import(e) => "media metadata migration failed: "@ + e@,
        MigrationFailure::Archive(e) => "migrated media_metadata.json but could not archive it: "@
            + e@,
        MigrationFailure::Labels(e) => "color-label v2 migration failed: "@ + e@,
    }
}

impl MediaDb {
    /// Notes what went wrong, for the status to show.
    pub fn note_migration_failure(&mut self, failure: &MigrationFailure)
        requires
            old(self).wf(),
        ensures
            final(self).wf(),
            final(self).root() == old(self).root(),
            final(self).path_style() == old(self).path_style(),
            final(self).access_of() == old(self).access_of(),
            final(self).stored_tables() == old(self).stored_tables(),
            final(self).tables() == old(self).tables(),
            final(self).pending() == old(self).pending(),
            final(self).status_of() == Some(migration_message(*failure)),
    {
        let message = match failure {
            MigrationFailure::Import(e) => cat("media metadata migration failed: ", e.as_str()),
            MigrationFailure::Archive(e) => cat(
                "migrated media_metadata.json but could not archive it: ",
                e.as_str(),
            ),
            MigrationFailure::Labels(e) => cat("color-label v2 migration failed: ", e.as_str()),
        };
        self.status = Some(message);
    }
}

/// The catalog is kept among the settings: storing one writes its text there, and touches no other
/// setting.
pub proof fn the_catalog_is_a_setting(t: Tables, defs: Seq<LabelModel>, key: Seq<char>)
    ensures
        t.with_catalog(defs).catalog == Some(defs),
        t.with_catalog(defs).settings.contains_pair(
            "color_label_definitions_v2"@,
            catalog_json(defs),
        ),
        key != "color_label_definitions_v2"@ ==> {
            &&& t.with_catalog(defs).settings.contains_key(key) == t.settings.contains_key(key)
            &&& t.with_catalog(defs).settings[key] == t.settings[key]
        },
{
}

/// A key leads back to its file: the path that a key below the root stands for has that key again,
/// its case aside, whichever separators the root is written with.
pub proof fn keys_lead_back(style: PathStyle, root: Seq<char>, key: Seq<char>)
    requires
        normal_root(replaced(root, '\\', '/')),
        plain_names(key),
        !has_drive(key),
    ensures
        key_of(root, path_of_key(style, root, key)) == unicode_lower(key),
{
    let written = replaced(root, '\\', '/');
    let path = path_of_key(style, root, key);
    let whole = written.push('/') + key;
    reveal_strlit("/");
    crate::text::lemma_split_first(key, '/');
    assert(key[0] != '/') by {
        if key[0] == '/' {
            assert(split(key, '/')[0] == Seq::<char>::empty());
        }
    }
    if begins(key, "/"@) {
        assert(key.take(1)[0] == '/');
    }
    assert(key.contains(key[0]));
    assert(written.last() != '/' && root.last() != '/' && root.last() != '\\');
    assert(!(root.len() == 2 && has_drive(root))) by {
        assert(has_drive(written) == has_drive(root));
        assert(slash_form(written) == written);
    }
    assert(path == replaced(root.push(style.glue()) + key, '/', style.glue()));
    assert(replaced(path, '\\', '/') =~= whole) by {
        assert forall|i: int| 0 <= i < key.len() implies key[i] != '\\' by {
            assert(key.contains(key[i]));
        }
    }
    crate::media_keys::separators_do_not_matter(root, path);
    crate::media_keys::separators_do_not_matter(root, root);
    crate::media_keys::key_is_relative_to_the_root(written, key);
}

/// A key in full leads back to its file too: the path that it stands for is keyed as the key itself
/// is, and a normal key outside the root is its own key, its case aside.
pub proof fn whole_keys_lead_back(style: PathStyle, root: Seq<char>, key: Seq<char>)
    requires
        begins(key, "/"@) || has_drive(key),
    ensures
        key_of(root, path_of_key(style, root, key)) == key_of(root, key),
        slash_form(key) == key && (slash_form(root).len() == 0 || !is_inside(key, slash_form(root)))
            ==> key_of(root, path_of_key(style, root, key)) == unicode_lower(key),
{
    let path = path_of_key(style, root, key);
    reveal_strlit("/");
    assert(replaced(path, '\\', '/') =~= replaced(key, '\\', '/'));
    crate::media_keys::separators_do_not_matter(root, path);
    crate::media_keys::separators_do_not_matter(root, key);
}

/// The migration is taken once: after it the marker is set, and a second one changes no row.
pub proof fn legacy_import_is_marked(t: Tables, root: Seq<char>, legacy: LegacyMetadata, now: Seq<char>)
    ensures
        legacy_imported(t, root, legacy, now).settings.contains_key("legacy_json_migrated"@),
{
}

} // verus!
