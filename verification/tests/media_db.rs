use std::collections::BTreeMap;

use facial::color_labels::{
    decode_label_ids, default_color_label_definitions, encode_label_ids, find_label,
    normalize_assigned_label_ids, normalize_hex_color, normalize_label,
    validate_color_label_definitions, ColorLabelDefinition,
};
use facial::media_db::{
    clean_tag_list, next_color_label_definition, Access, Change, LegacyFile, LegacyMetadata,
    MediaDb, MigrationFailure, TableName,
};
use facial::media_keys::{
    canonical_key, drive_root_of, key_for_root, lexical_media_root_identity, mapped_path,
    rebase_inventory_files, slashify, stable_media_path_identity, stable_media_root_identity,
};
use facial::paths::PathStyle;
use facial::table::Table;

const WS: &str = "C:\\Temp\\facial-ws";

/// What a database file holds between two openings.
#[derive(Default)]
struct Disk {
    rows: BTreeMap<(u8, String), String>,
    catalog: Option<Vec<ColorLabelDefinition>>,
}

fn number(table: TableName) -> u8 {
    match table {
        TableName::Notes => 0,
        TableName::Tags => 1,
        TableName::Labels => 2,
        TableName::Favorites => 3,
        TableName::Settings => 4,
    }
}

impl Disk {
    fn table(&self, name: TableName) -> Table<String> {
        let mut t = Table::new();
        for ((n, key), value) in &self.rows {
            if *n == number(name) {
                t.insert(key.clone(), value.clone());
            }
        }
        t
    }

    fn open_as(&self, root: &str, access: Access, status: Option<String>) -> MediaDb {
        MediaDb::open(
            root.to_string(),
            PathStyle::Windows,
            access,
            status,
            self.table(TableName::Notes),
            self.table(TableName::Tags),
            self.table(TableName::Labels),
            self.table(TableName::Favorites),
            self.table(TableName::Settings),
            self.catalog.clone(),
        )
    }

    fn open(&self, root: &str) -> MediaDb {
        self.open_as(root, Access::ReadWrite, None)
    }

    fn save(&mut self, db: &mut MediaDb) {
        for change in db.take_changes() {
            match change {
                Change::Put { table, key, value } => {
                    self.rows.insert((number(table), key), value);
                }
                Change::Delete { table, key } => {
                    self.rows.remove(&(number(table), key));
                }
                Change::Catalog { key, text, definitions } => {
                    let row = (number(TableName::Settings), key);
                    match text {
                        Some(text) => self.rows.insert(row, text),
                        None => self.rows.remove(&row),
                    };
                    self.catalog = definitions;
                }
            }
        }
    }

    fn value(&self, table: TableName, key: &str) -> Option<&str> {
        self.rows.get(&(number(table), key.to_string())).map(|v| v.as_str())
    }
}

fn fresh() -> MediaDb {
    Disk::default().open(WS)
}

fn at(name: &str) -> String {
    format!("{WS}\\{name}")
}

fn same(a: &ColorLabelDefinition, b: &ColorLabelDefinition) -> bool {
    a.id == b.id && a.name == b.name && a.hex == b.hex
}

#[test]
fn key_normalization_relative_inside_workspace_absolute_outside() {
    let db = fresh();
    let inside = at("sub\\a.jpg");
    assert_eq!(db.key_for(&inside), "sub/a.jpg");
    assert_eq!(db.key_for("E:/Elsewhere/B.jpg"), "e:/elsewhere/b.jpg", "casefolded");
    assert_eq!(db.key_for(&inside.to_uppercase()), "sub/a.jpg");
    assert_eq!(db.key_for(&inside.replace('\\', "/")), "sub/a.jpg");
}

#[test]
fn key_normalization_dotdot_verbatim_and_drive_root() {
    assert_eq!(slashify("D:/ws/../other/x.jpg"), "D:/other/x.jpg");
    assert_eq!(slashify("D:\\ws\\.\\a\\..\\b.jpg"), "D:/ws/b.jpg");
    assert_eq!(slashify("\\\\?\\D:\\ws\\a.jpg"), "D:/ws/a.jpg");
    assert_eq!(slashify("\\\\server\\share\\x.jpg"), "//server/share/x.jpg");
    assert_eq!(slashify("\\\\?\\UNC\\server\\share\\x.jpg"), "//server/share/x.jpg");
    assert_eq!(slashify("\\\\server\\share\\a\\..\\..\\b.jpg"), "//server/share/../b.jpg");
    let key = key_for_root("D:\\", "D:\\shoot\\IMG.jpg");
    assert_eq!(key, "shoot/img.jpg");
}

#[test]
fn external_unicode_path_never_slices_inside_a_character() {
    let workspace = format!("C:/{}", "a".repeat(55));
    let outside = "D:/Tumblr/kpop vids/#AB6IX #박우진 선배님과 지금 우린 Sticky🦋 #KISSOFLIFE #NATTY #PARKWOOJIN #Sticky #Sticky_Challenge #Shorts.mkv";
    assert_eq!(key_for_root(&workspace, outside), outside.to_lowercase());
}

#[test]
fn case_and_separator_variants_hit_the_same_row() {
    let mut db = fresh();
    let mixed = at("Shoot\\IMG_01.JPG");
    db.set_tags(&mixed, "hero").unwrap();
    let lower = mixed.to_lowercase().replace('\\', "/");
    assert_eq!(db.tags(&lower).as_deref(), Some("hero"));
    db.set_tags(&lower, "hero, extra").unwrap();
    assert_eq!(db.list_meta(None, None).len(), 1, "one row, not two");
}

#[test]
fn label_vocabulary_mapping() {
    assert_eq!(normalize_label("Red "), Some("red"));
    assert_eq!(normalize_label("purple"), Some("purple"));
    assert_eq!(normalize_label("chartreuse"), Some("gray"));
    assert_eq!(normalize_label("  "), None);
}

#[test]
fn named_color_palette_keeps_stable_asset_ids() {
    let mut db = fresh();
    let path = at("asset.jpg");
    db.set_label(&path, "red").unwrap();
    let mut definitions = db.color_label_definitions();
    let red = definitions.iter_mut().find(|item| item.id == "red").unwrap();
    red.name = "Selects".to_string();
    red.hex = "#123ABC".to_string();
    db.set_color_label_definitions(&definitions).unwrap();

    assert_eq!(db.label(&path).as_deref(), Some("red"));
    assert_eq!(db.resolve_color_label_id("Selects").as_deref(), Some("red"));
    let saved = db.color_label_definitions();
    let red = saved.iter().find(|item| item.id == "red").unwrap();
    assert_eq!(red.name, "Selects");
    assert_eq!(red.hex, "#123ABC");
}

#[test]
fn color_hex_is_canonical_and_invalid_palette_is_rejected() {
    assert_eq!(
        normalize_hex_color("12abef"),
        Some(("#12ABEF".to_string(), [0x12, 0xAB, 0xEF]))
    );
    assert!(normalize_hex_color("#fff").is_none());
    let mut definitions = default_color_label_definitions();
    definitions[0].name.clear();
    assert!(validate_color_label_definitions(&definitions).is_err());
    let mut duplicate_hex = default_color_label_definitions();
    duplicate_hex[1].hex = duplicate_hex[0].hex.clone();
    assert!(validate_color_label_definitions(&duplicate_hex)
        .unwrap_err()
        .contains("duplicate color label hex"));
}

#[test]
fn arbitrary_catalog_crud_enforces_unique_name_and_hex() {
    let mut disk = Disk::default();
    let mut db = disk.open(WS);
    let created = db.create_color_label(" selects ", "12abef").unwrap();
    assert!(created.id.starts_with("label-"));
    assert_eq!(created.name, "selects");
    assert_eq!(created.hex, "#12ABEF");
    assert!(db.create_color_label("SELECTS", "#112233").is_err());
    assert!(db.create_color_label("another", "#12abef").is_err());

    let updated = db
        .update_color_label(&created.id, Some("Keepers"), Some("#ABCDEF"))
        .unwrap();
    assert_eq!(updated.name, "Keepers");
    assert_eq!(updated.hex, "#ABCDEF");
    assert_eq!(db.find_color_label_id("keepers").as_deref(), Some(created.id.as_str()));
    disk.save(&mut db);
    let reopened = disk.open(WS);
    assert!(reopened
        .color_label_definitions()
        .iter()
        .any(|definition| same(definition, &updated)));
}

#[test]
fn ordered_multi_assignments_are_deduped_and_independently_removed() {
    let mut db = fresh();
    let path = at("asset.jpg");
    let custom = db.create_color_label("Selects", "#123ABC").unwrap();
    db.add_label(&path, "red").unwrap();
    db.add_label(&path, &custom.id).unwrap();
    db.add_label(&path, "RED").unwrap();
    assert_eq!(db.labels(&path), vec!["red", custom.id.as_str()]);
    assert_eq!(db.label(&path).as_deref(), Some("red"));
    assert_eq!(db.meta(&path).labels, vec!["red", custom.id.as_str()]);

    db.remove_label(&path, "Red").unwrap();
    assert_eq!(db.labels(&path), vec![custom.id.as_str()]);
    db.clear_labels(&path).unwrap();
    assert!(db.labels(&path).is_empty());
}

#[test]
fn legacy_singular_assignment_migrates_once_to_v2_json() {
    let mut disk = Disk::default();
    let path = at("asset.jpg");
    disk.rows.insert((number(TableName::Labels), "asset.jpg".to_string()), "red".to_string());
    for _ in 0..2 {
        let mut db = disk.open(WS);
        db.migrate_color_labels_v2();
        assert_eq!(db.labels(&path), vec!["red"]);
        disk.save(&mut db);
        assert_eq!(disk.value(TableName::Labels, "asset.jpg"), Some("[\"red\"]"));
    }
}

#[test]
fn usage_aware_delete_requires_confirmation_and_cleans_all_assets() {
    let mut db = fresh();
    let a = at("a.jpg");
    let b = at("b.jpg");
    let custom = db.create_color_label("Delete me", "#102030").unwrap();
    db.add_label(&a, &custom.id).unwrap();
    db.add_label(&a, "red").unwrap();
    db.add_label(&b, &custom.id).unwrap();
    assert_eq!(db.color_label_usage_counts().get(&custom.id), Some(&2));
    assert!(db.delete_color_label(&custom.id, false).is_err());
    assert_eq!(db.labels(&a), vec![custom.id.as_str(), "red"]);

    let deleted = db.delete_color_label(&custom.id, true).unwrap();
    assert_eq!(deleted.usage_count, 2);
    assert_eq!(deleted.assignments_removed, 2);
    assert_eq!(db.labels(&a), vec!["red"]);
    assert!(db.labels(&b).is_empty());
    assert!(db.find_color_label_id("Delete me").is_none());
}

#[test]
fn round_trip_notes_tags_labels_favorites() {
    let mut db = fresh();
    let p = at("x.png");
    db.set_notes(&p, "a note").unwrap();
    db.set_tags(&p, "B, a , b,").unwrap();
    db.set_label(&p, "Blue").unwrap();
    db.add_favorite(&p).unwrap();
    let meta = db.meta(&p);
    assert_eq!(meta.notes, "a note");
    assert_eq!(meta.tags, "a, b");
    assert_eq!(meta.label, "blue");
    assert!(meta.favorite);
    assert_eq!(db.tag_vocab(), vec!["a".to_string(), "b".to_string()]);
    db.set_notes(&p, "").unwrap();
    assert!(db.notes(&p).is_none());
    db.remove_favorite(&p).unwrap();
    assert!(!db.is_favorite(&p));
}

#[test]
fn reopen_persists() {
    let mut disk = Disk::default();
    let p = at("keep.jpg");
    let mut db = disk.open(WS);
    db.set_notes(&p, "still here").unwrap();
    disk.save(&mut db);
    assert_eq!(disk.open(WS).notes(&p).as_deref(), Some("still here"));
}

fn legacy_notes(path: &str, note: &str) -> LegacyFile {
    LegacyFile::Parsed(LegacyMetadata {
        notes: vec![(path.to_string(), note.to_string())],
        tags: vec![],
        color_labels: vec![],
        favorites: vec![],
    })
}

#[test]
fn legacy_json_migrates_once_and_archives() {
    let mut db = fresh();
    let p = at("img\\c.jpg");
    let file = LegacyFile::Parsed(LegacyMetadata {
        notes: vec![(p.clone(), "legacy note".to_string())],
        tags: vec![(p.clone(), "Zed, alpha".to_string())],
        color_labels: vec![(p.clone(), "somecolor".to_string())],
        favorites: vec![p.clone()],
    });
    let json_path = MediaDb::legacy_json_path(PathStyle::Windows, WS);
    assert!(db.migrate_legacy_json(&json_path, &file), "json should be archived");
    db.migrate_color_labels_v2();
    assert_eq!(db.notes(&p).as_deref(), Some("legacy note"));
    assert_eq!(db.tags(&p).as_deref(), Some("alpha, zed"));
    assert_eq!(db.label(&p).as_deref(), Some("gray"));
    assert!(db.is_favorite(&p));
    assert!(db.setting("legacy_json_migrated").is_some());
}

#[test]
fn relocated_workspace_keeps_relative_metadata() {
    let mut disk = Disk::default();
    let mut db = disk.open("C:\\move-a");
    let file_a = "C:\\move-a\\shoot\\d.jpg";
    db.set_tags(file_a, "keeper").unwrap();
    db.set_labels(file_a, &vec!["red".to_string(), "blue".to_string()]).unwrap();
    disk.save(&mut db);
    let db = disk.open("D:\\elsewhere\\move-b");
    let file_b = "D:\\elsewhere\\move-b\\shoot\\d.jpg";
    assert_eq!(db.tags(file_b).as_deref(), Some("keeper"));
    assert_eq!(db.labels(file_b), vec!["red", "blue"]);
}

#[test]
fn migration_marker_prevents_reimport_clobber() {
    let mut disk = Disk::default();
    let p = at("x.jpg");
    let legacy = legacy_notes(&p, "old note");
    let json_path = MediaDb::legacy_json_path(PathStyle::Windows, WS);
    let mut db = disk.open(WS);
    assert!(db.migrate_legacy_json(&json_path, &legacy));
    assert_eq!(db.notes(&p).as_deref(), Some("old note"));
    db.set_notes(&p, "newer note").unwrap();
    disk.save(&mut db);
    let mut db = disk.open(WS);
    assert!(!db.migrate_legacy_json(&json_path, &legacy));
    assert_eq!(
        db.notes(&p).as_deref(),
        Some("newer note"),
        "reappearing legacy JSON must not clobber newer edits"
    );
    assert!(db.status().is_some(), "stale JSON surfaced in status");
}

#[test]
fn set_meta_writes_trio_atomically_and_clears() {
    let mut db = fresh();
    let p = at("y.png");
    db.set_meta(&p, Some("n"), Some("T2, t1"), Some("Red")).unwrap();
    let meta = db.meta(&p);
    assert_eq!(
        (meta.notes.as_str(), meta.tags.as_str(), meta.label.as_str()),
        ("n", "t1, t2", "red")
    );
    db.set_meta(&p, None, Some(""), None).unwrap();
    let meta = db.meta(&p);
    assert_eq!(meta.notes, "n");
    assert!(meta.tags.is_empty());
    assert_eq!(meta.label, "red");
}

#[test]
fn favorites_keep_display_case_and_key_casefolds() {
    let mut db = fresh();
    db.add_favorite("E:/Shoots/BestOf").unwrap();
    assert!(db.is_favorite("e:/shoots/bestof"), "casefolded membership");
    let listed = db.favorites();
    assert_eq!(listed.len(), 1);
    assert!(listed[0].contains("BestOf"), "display keeps original case: {}", listed[0]);
    db.add_favorite("e:\\shoots\\bestof").unwrap();
    assert_eq!(db.favorites().len(), 1);
}

#[test]
fn unc_paths_round_trip_through_keys() {
    let db = fresh();
    let key = db.key_for("\\\\server\\share\\Shoot\\a.jpg");
    assert_eq!(key, "//server/share/shoot/a.jpg");
    assert_eq!(db.path_for_key(&key), "\\\\server\\share\\shoot\\a.jpg");
}

#[test]
fn the_catalog_is_kept_among_the_settings() {
    let mut db = fresh();
    assert!(db.setting("color_label_definitions_v2").is_none());
    let one = ColorLabelDefinition {
        id: "mine".to_string(),
        name: "My \"best\"".to_string(),
        hex: "#102030".to_string(),
    };
    db.set_color_label_definitions(&vec![one.clone()]).unwrap();
    assert_eq!(
        db.setting("color_label_definitions_v2").as_deref(),
        Some("[{\"id\":\"mine\",\"name\":\"My \\\"best\\\"\",\"hex\":\"#102030\"}]")
    );
    let other = ColorLabelDefinition {
        id: "other".to_string(),
        name: "Other".to_string(),
        hex: "#405060".to_string(),
    };
    let text = "[{\"id\":\"other\",\"name\":\"Other\",\"hex\":\"#405060\"}]";
    db.set_setting("color_label_definitions_v2", text, Some(vec![other.clone()])).unwrap();
    assert_eq!(db.setting("color_label_definitions_v2").as_deref(), Some(text));
    assert!(same(&db.color_label_definitions()[0], &other));
    db.set_setting("color_label_definitions_v2", "", None).unwrap();
    assert!(db.setting("color_label_definitions_v2").is_none());
    assert_eq!(db.color_label_definitions().len(), default_color_label_definitions().len());
}

#[test]
fn normalizing_twice_is_normalizing_once() {
    for path in [
        "D:",
        "./D:/../..",
        "D:/../../x",
        "/:/x/..",
        "a/../../b/./c//",
        "\\\\server\\share\\..\\..\\x",
        "\\\\?\\unc\\server\\share\\x",
        "//",
        "/",
        "",
    ] {
        let once = slashify(path);
        assert_eq!(slashify(&once), once, "{path}");
        assert_eq!(canonical_key(WS, &once), canonical_key(WS, path), "{path}");
    }
    assert_eq!(slashify("D:"), "D:/");
    assert_eq!(slashify("a/../../b/./c//"), "../b/c");
    assert_eq!(slashify("////?/x"), "//?/x");
    assert_eq!(slashify("//?/x"), "x");
}

#[test]
fn keys_lead_back_to_their_files() {
    let db = fresh();
    let key = db.key_for("C:/temp/FACIAL-WS/Shoot/a.jpg");
    assert_eq!(key, "shoot/a.jpg");
    assert_eq!(db.path_for_key(&key), "C:\\Temp\\facial-ws\\shoot\\a.jpg");
    assert_eq!(db.key_for(&db.path_for_key(&key)), key);
    let outside = db.key_for("E:\\Other\\b.jpg");
    assert_eq!(outside, "e:/other/b.jpg");
    assert_eq!(db.key_for(&db.path_for_key(&outside)), outside);
}

#[test]
fn settings_round_trip() {
    let mut db = fresh();
    db.set_setting("media_split_ratio", "0.58", None).unwrap();
    assert_eq!(db.setting("media_split_ratio").as_deref(), Some("0.58"));
    db.set_setting("media_split_ratio", "", None).unwrap();
    assert!(db.setting("media_split_ratio").is_none());
}

#[test]
fn inventory_rows_rebase_to_the_requested_root_spelling() {
    let stored = vec!["Z:/library/a.jpg".to_string(), "Z:/library/nested/b.mkv".to_string()];
    for style in [PathStyle::Unix, PathStyle::Windows] {
        let rebased =
            rebase_inventory_files(style, &stored, "Z:/library", "//nas/media/library")
                .expect("all inventory rows stay beneath their stored root");
        let sep = if style == PathStyle::Unix { "/" } else { "\\" };
        assert_eq!(
            rebased,
            vec![
                format!("//nas/media/library{sep}a.jpg"),
                format!("//nas/media/library{sep}nested/b.mkv"),
            ]
        );
        assert!(rebase_inventory_files(
            style,
            &vec!["Z:/outside.jpg".to_string()],
            "Z:/library",
            "//nas/media/library",
        )
        .is_none());
    }
    assert_eq!(
        rebase_inventory_files(
            PathStyle::Windows,
            &vec!["z:\\LIBRARY\\Nested\\Case.JPG".to_string()],
            "Z:/library",
            "//nas/media/library",
        )
        .expect("Windows root comparison is case/separator insensitive"),
        vec!["//nas/media/library\\Nested/Case.JPG".to_string()]
    );
}

#[test]
fn stable_media_identity_merges_only_normalized_or_proven_aliases() {
    assert_eq!(
        stable_media_path_identity("\\\\MIR\\home\\Video\\A.MKV", None),
        stable_media_path_identity("//mir/home/video/a.mkv", None)
    );
    assert_ne!(
        stable_media_path_identity("//mir/home/video/a.mkv", None),
        stable_media_path_identity("//mir/other/video/a.mkv", None)
    );
    let mapped = stable_media_path_identity(
        "Z:\\Video\\alias-test.jpg",
        Some(&mapped_path("Z:\\Video\\alias-test.jpg", "\\\\mir\\home\\")),
    );
    let unc = stable_media_path_identity("\\\\mir\\home\\Video\\alias-test.jpg", None);
    assert_eq!(mapped, unc, "proven mapped/UNC alias identity");
}

#[test]
fn list_meta_filters_by_tag_and_label() {
    let mut db = fresh();
    let p1 = at("one.jpg");
    let p2 = at("two.jpg");
    db.set_tags(&p1, "hero, red-dress").unwrap();
    db.set_label(&p1, "red").unwrap();
    db.set_tags(&p2, "b-roll").unwrap();
    assert_eq!(db.list_meta(None, None).len(), 2);
    let hero = db.list_meta(Some("hero"), None);
    assert_eq!(hero.len(), 1);
    assert!(hero[0].0.ends_with("one.jpg"));
    assert_eq!(db.list_meta(None, Some("red")).len(), 1);
    assert!(db.list_meta(Some("missing"), None).is_empty());
}

#[test]
fn closed_databases_refuse_writes_and_read_nothing() {
    let mut disk = Disk::default();
    let mut db = disk.open(WS);
    db.set_notes(&at("a.jpg"), "n").unwrap();
    disk.save(&mut db);

    let mut read_only = disk.open_as(WS, Access::ReadOnly, Some("opened read-only".to_string()));
    assert!(read_only.is_available() && !read_only.is_writable());
    assert_eq!(read_only.notes(&at("a.jpg")).as_deref(), Some("n"));
    assert_eq!(read_only.set_notes(&at("a.jpg"), "x").unwrap_err(), "opened read-only");
    assert_eq!(read_only.notes(&at("a.jpg")).as_deref(), Some("n"));

    let mut gone = disk.open_as(WS, Access::Unavailable, None);
    assert!(!gone.is_available());
    assert!(gone.notes(&at("a.jpg")).is_none());
    assert_eq!(gone.set_tags(&at("a.jpg"), "x").unwrap_err(), "media db is not writable");
    assert!(gone.take_changes().is_empty());
}

#[test]
fn empty_label_list_clears_the_row() {
    let mut disk = Disk::default();
    let mut db = disk.open(WS);
    let p = at("c.jpg");
    db.set_labels(&p, &vec!["red".to_string()]).unwrap();
    db.set_meta_labels(&p, None, None, Some(&vec![])).unwrap();
    assert!(db.labels(&p).is_empty());
    disk.save(&mut db);
    assert_eq!(disk.value(TableName::Labels, "c.jpg"), None);
}

#[test]
fn toggling_a_favorite_twice_leaves_none() {
    let mut db = fresh();
    assert_eq!(db.toggle_favorite("E:/x"), Ok(true));
    assert!(db.is_favorite("E:/x"));
    assert_eq!(db.toggle_favorite("E:/x"), Ok(false));
    assert!(!db.is_favorite("E:/x"));
}

#[test]
fn unknown_labels_are_refused_on_assignment() {
    let mut db = fresh();
    assert!(db.add_label(&at("a.jpg"), "no such label").is_err());
    assert!(db.labels(&at("a.jpg")).is_empty());
    assert!(db.delete_color_label("no such label", true).is_err());
    assert!(db.update_color_label("no such label", Some("x"), None).is_err());
}

#[test]
fn created_labels_can_be_assigned_at_once() {
    let mut db = fresh();
    let p = at("a.jpg");
    let label = db.create_color_label_and_assign(&p, "Both", "#010203").unwrap();
    assert_eq!(db.labels(&p), vec![label.id.clone()]);
    let other = db.create_color_label_as("fixed-id", "Other", "#010204").unwrap();
    assert_eq!(other.id, "fixed-id");
}

#[test]
fn tag_lists_are_sorted_and_deduplicated() {
    assert_eq!(clean_tag_list("B, a , b,"), "a, b");
    assert_eq!(clean_tag_list(" , ,"), "");
    assert_eq!(clean_tag_list("Über, zoo"), "zoo, Über");
}

#[test]
fn label_lists_are_stored_as_json() {
    let ids = vec!["red".to_string(), "a\"b".to_string()];
    assert_eq!(encode_label_ids(&ids), "[\"red\",\"a\\\"b\"]");
    assert_eq!(decode_label_ids(&encode_label_ids(&ids)), ids);
    assert_eq!(decode_label_ids("red"), vec!["red".to_string()]);
    assert!(decode_label_ids("").is_empty());
    assert_eq!(
        decode_label_ids("[\"red\",\" red \",\"\"]"),
        vec!["red".to_string()]
    );
}

#[test]
fn labels_are_found_by_id_and_by_name() {
    let defs = default_color_label_definitions();
    assert_eq!(find_label(&defs, "RED").as_deref(), Some("red"));
    assert_eq!(find_label(&defs, "nope"), None);
    assert_eq!(
        normalize_assigned_label_ids(&defs, &vec!["Red".to_string(), "red".to_string()]),
        Ok(vec!["red".to_string()])
    );
    assert!(normalize_assigned_label_ids(&defs, &vec!["nope".to_string()]).is_err());
}

#[test]
fn new_definitions_are_checked_against_the_catalog() {
    let defs = default_color_label_definitions();
    let made = next_color_label_definition(&defs, "mine", " Mine ", "00ff00").unwrap();
    assert_eq!((made.id.as_str(), made.name.as_str(), made.hex.as_str()), ("mine", "Mine", "#00FF00"));
    assert!(next_color_label_definition(&defs, "mine", "", "00ff00").is_err());
    assert!(next_color_label_definition(&defs, "mine", "x", "green").is_err());
}

#[test]
fn media_roots_have_one_identity() {
    assert_eq!(lexical_media_root_identity("D:\\Media\\"), "d:/media");
    assert_eq!(stable_media_root_identity("Z:\\", Some("\\\\nas\\Media")), "//nas/media");
    assert_eq!(drive_root_of("z:/x/y").as_deref(), Some("Z:\\"));
    assert_eq!(drive_root_of("//nas/share"), None);
    assert_eq!(canonical_key("D:/ws", "D:\\ws\\A.JPG"), "a.jpg");
}

#[test]
fn lower_casing_is_unicode_aware() {
    assert_eq!(key_for_root("D:/ws", "E:/ÄÖ/Σ.JPG"), "e:/äö/σ.jpg");
}

#[test]
fn migration_failures_show_in_the_status() {
    let mut db = fresh();
    db.note_migration_failure(&MigrationFailure::Archive("busy".to_string()));
    assert_eq!(
        db.status().map(|s| s.as_str()),
        Some("migrated media_metadata.json but could not archive it: busy")
    );
    db.note_migration_failure(&MigrationFailure::Import("full".to_string()));
    assert_eq!(db.status().map(|s| s.as_str()), Some("media metadata migration failed: full"));
    db.note_migration_failure(&MigrationFailure::Labels("full".to_string()));
    assert_eq!(db.status().map(|s| s.as_str()), Some("color-label v2 migration failed: full"));
    let path = MediaDb::legacy_json_path(PathStyle::Windows, WS);
    assert!(!db.migrate_legacy_json(&path, &LegacyFile::Unreadable));
    assert!(db.status().unwrap().contains("is unreadable and was left in place"));
}

#[test]
fn accepted_catalogs_are_accepted_again() {
    let mut raw = default_color_label_definitions();
    raw[0].hex = " c63e35 ".to_string();
    raw[0].name = " Red ".to_string();
    let once = validate_color_label_definitions(&raw).unwrap();
    let twice = validate_color_label_definitions(&once).unwrap();
    assert!(once.iter().zip(&twice).all(|(a, b)| same(a, b)));
    let (hex, rgb) = normalize_hex_color(" #0a0B0c ").unwrap();
    assert_eq!(normalize_hex_color(&hex), Some((hex.clone(), rgb)));
}

#[test]
fn catalog_errors_name_what_is_wrong() {
    let one = |id: &str, name: &str, hex: &str| {
        vec![ColorLabelDefinition {
            id: id.to_string(),
            name: name.to_string(),
            hex: hex.to_string(),
        }]
    };
    let error = |defs: Vec<ColorLabelDefinition>| {
        validate_color_label_definitions(&defs).unwrap_err()
    };
    assert_eq!(error(one("Bad Id", "x", "#000000")), "invalid stable color label id: Bad Id");
    assert_eq!(
        error(one("a", "", "#000000")),
        "color label a needs a name between 1 and 48 characters"
    );
    assert_eq!(error(one("a", "x", "red")), "invalid color label hex for a");
    let mut twice = one("a", "x", "#000000");
    twice.extend(one("a", "y", "#000001"));
    assert_eq!(error(twice), "duplicate color label id: a");
    let mut named = one("a", "X", "#000000");
    named.extend(one("b", "x", "#000001"));
    assert_eq!(error(named), "duplicate color label name: x");
}

#[test]
fn verbatim_shares_have_one_key_in_any_casing() {
    let upper = canonical_key("D:/ws", "\\\\?\\UNC\\s\\h\\A.jpg");
    assert_eq!(upper, "//s/h/a.jpg");
    assert_eq!(canonical_key("D:/ws", "\\\\?\\unc\\S\\H\\a.JPG"), upper);
    assert_eq!(canonical_key("D:/ws", "//?/Unc/s/h/a.jpg"), upper);
    assert_eq!(canonical_key("D:/ws", "//s/h/a.jpg"), upper);
}
