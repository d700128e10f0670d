use facial::cancel::CancelSignal;
use facial::media_inventory::{InventoryChange, MediaInventoryStore, StoredManifest};
use facial::paths::PathStyle;
use facial::table::Table;

fn store() -> MediaInventoryStore {
    MediaInventoryStore::open_as(
        PathStyle::Windows,
        "session".to_string(),
        Table::new(),
        Table::new(),
        Table::new(),
    )
}

#[test]
fn inventory_generations_replace_exactly_and_survive_cancelled_stage() {
    let mut store = store();
    let root = "Z:/library";
    let first = vec!["Z:/library/a.jpg".to_string(), "Z:/library/b.mkv".to_string()];
    let commit = store.replace(root, None, true, "all", &first, 120, Some(8)).unwrap();
    assert_eq!(commit.generation, 1);
    let cached = store.load(root, None, true, "all").unwrap().unwrap();
    assert_eq!(cached.generation, 1);
    assert_eq!(cached.files, first);

    let replacement: Vec<String> =
        (0..5_000).map(|index| format!("Z:/library/{index:05}.jpg")).collect();
    let mut checks = 0usize;
    let mut signal = CancelSignal::new(|| {
        checks += 1;
        checks >= 3
    });
    let cancelled =
        store.replace_cancellable(root, None, true, "all", &replacement, 200, Some(5), &mut signal);
    assert!(cancelled.is_none());
    assert_eq!(checks, 3, "the answer to stop is the last one");
    let still_cached = store.load(root, None, true, "all").unwrap().unwrap();
    assert_eq!(still_cached.generation, 1);
    assert_eq!(still_cached.files, first, "cancel never swaps manifest");
}

#[test]
fn inventory_store_is_worker_sendable_and_commits_large_row_set() {
    fn sendable<T: Send>(value: T) -> T {
        value
    }
    let mut store = sendable(store());
    let root = "C:\\ws\\remote-like-root";
    let files: Vec<String> = (0..10_000).map(|index| format!("{root}\\{index:05}.jpg")).collect();
    let commit = store.replace(root, None, true, "all", &files, 50, Some(2)).unwrap();
    assert_eq!(commit.generation, 1);
    assert_eq!(store.load(root, None, true, "all").unwrap().unwrap().files, files);
}

#[test]
fn abandoned_staging_marker_reclaims_orphan_rows() {
    let namespace = "abandoned-test-namespace";
    let mut items = Table::new();
    items.insert(format!("{namespace}:0000000000000000"), "orphan.jpg".to_string());
    items.insert("another:0000000000000000".to_string(), "kept.jpg".to_string());
    let mut staging = Table::new();
    staging.insert(namespace.to_string(), "crashed".to_string());
    let mut store = MediaInventoryStore::open_as(
        PathStyle::Windows,
        "session".to_string(),
        Table::new(),
        items,
        staging,
    );
    store.cleanup_abandoned_staging();
    let changes = store.take_changes();
    assert!(changes
        .iter()
        .any(|c| matches!(c, InventoryChange::DeleteMarker { key } if key == namespace)));
    let gone: Vec<&InventoryChange> =
        changes.iter().filter(|c| matches!(c, InventoryChange::DeleteItem { .. })).collect();
    assert_eq!(gone.len(), 1);
    assert!(matches!(gone[0], InventoryChange::DeleteItem { key }
        if key.as_str() == "abandoned-test-namespace:0000000000000000"));
}

#[test]
fn other_inventories_are_untouched_by_a_replacement() {
    let mut store = store();
    let files = vec!["Z:/a/1.jpg".to_string()];
    store.replace("Z:/a", None, true, "all", &files, 1, None).unwrap();
    store.replace("Z:/b", None, true, "all", &vec!["Z:/b/2.jpg".to_string()], 1, None).unwrap();
    store.replace("Z:/a", None, false, "all", &vec![], 1, None).unwrap();
    assert_eq!(store.load("Z:/a", None, true, "all").unwrap().unwrap().files, files);
    assert!(store.load("Z:/a", None, false, "all").unwrap().unwrap().files.is_empty());
    assert!(store.load("Z:/a", None, true, "video").unwrap().is_none());
}

#[test]
fn a_second_replacement_supersedes_the_first() {
    let mut store = store();
    let one = vec!["Z:/a/1.jpg".to_string()];
    let two = vec!["Z:/a/2.jpg".to_string(), "Z:/a/3.jpg".to_string()];
    let first = store.replace("Z:/a", None, true, "all", &one, 1, None).unwrap();
    assert!(first.superseded_namespace.is_none());
    let second = store.replace("Z:/a", None, true, "all", &two, 1, None).unwrap();
    assert_eq!(second.generation, 2);
    assert!(second.superseded_namespace.is_some());
    store.take_changes();
    store.cleanup_superseded(&second);
    let deleted = store
        .take_changes()
        .iter()
        .filter(|c| matches!(c, InventoryChange::DeleteItem { .. }))
        .count();
    assert_eq!(deleted, 1);
    assert_eq!(store.load("z:\\A", None, true, "all").unwrap().unwrap().files.len(), 2);
}

#[test]
fn broken_manifests_are_errors() {
    let mut store = store();
    store.replace("Z:/a", None, true, "all", &vec!["Z:/a/1.jpg".to_string()], 1, None).unwrap();
    let mut manifests = Table::new();
    let mut items = Table::new();
    for change in store.take_changes() {
        match change {
            InventoryChange::PutItem { key, value } => items.insert(key, value),
            InventoryChange::PutManifest { key, .. } => {
                manifests.insert(key, StoredManifest::Invalid("bad json".to_string()))
            }
            _ => {}
        }
    }
    let store = MediaInventoryStore::open(PathStyle::Windows, manifests, items, Table::new());
    assert!(store.load("Z:/a", None, true, "all").is_err());
}

#[test]
fn identities_decide_which_inventory_is_read() {
    let mut store = store();
    let files = vec!["Z:/lib/x.jpg".to_string()];
    let commit = store
        .replace_in_namespace(
            "Z:/lib",
            "//nas/lib",
            true,
            "all",
            &files,
            7,
            Some(3),
            "ns-1",
            "2024-01-01T00:00:00Z",
            &mut CancelSignal::new(|| false),
        )
        .unwrap();
    assert_eq!(commit.generation, 1);
    let found = store.load_with_identity("//nas/lib", "//nas/lib", true, "all").unwrap().unwrap();
    assert_eq!(found.files, vec!["//nas/lib\\x.jpg".to_string()]);
    assert_eq!(found.completed_at, "2024-01-01T00:00:00Z");
    assert_eq!((found.scan_elapsed_ms, found.first_batch_ms), (7, Some(3)));
    assert!(store.load_with_identity("//nas/lib", "z:/lib", true, "all").unwrap().is_none());
}

#[test]
fn every_step_of_a_replacement_can_be_stopped() {
    let root = "Z:/library";
    let old = vec!["Z:/library/a.jpg".to_string()];
    let files: Vec<String> = (0..5_000).map(|i| format!("Z:/library/{i}.jpg")).collect();
    for stop_at in 1..=6usize {
        let mut store = store();
        store.replace(root, None, true, "all", &old, 1, None).unwrap();
        let mut asked = 0usize;
        let mut signal = CancelSignal::new(|| {
            asked += 1;
            asked == stop_at
        });
        let told = store.replace_cancellable_with_identity(
            root, "z:/library", true, "all", &files, 1, None, &mut signal,
        );
        assert!(told.is_none());
        assert_eq!(asked, stop_at);
        let kept = store.load_with_identity(root, "z:/library", true, "all").unwrap().unwrap();
        assert_eq!((kept.generation, kept.files), (1, old.clone()));
    }
    let mut store = store();
    let mut asked = 0usize;
    let mut signal = CancelSignal::new(|| {
        asked += 1;
        false
    });
    let done = store.replace_cancellable_with_identity(
        root, "z:/library", true, "all", &files, 1, None, &mut signal,
    );
    assert_eq!(done.unwrap().generation, 1);
    assert_eq!(asked, 6);
    assert_eq!(store.load(root, None, true, "all").unwrap().unwrap().files, files);
}

#[test]
fn inventory_keys_have_no_ambiguity() {
    let mut store = store();
    let one = vec!["//a/b/1.jpg".to_string()];
    let two = vec!["//a/b\",true,\"x/2.jpg".to_string()];
    store.replace("//a/b", None, true, "x", &one, 1, None).unwrap();
    store.replace("//a/b\",true,\"x", None, true, "x", &two, 1, None).unwrap();
    let keys: Vec<String> = store
        .take_changes()
        .into_iter()
        .filter_map(|c| match c {
            InventoryChange::PutManifest { key, .. } => Some(key),
            _ => None,
        })
        .collect();
    assert_eq!(keys[0], "[1,\"//a/b\",true,\"x\"]");
    assert_ne!(keys[0], keys[1]);
    assert_eq!(store.load("//a/b", None, true, " X ").unwrap().unwrap().files, one);
}

#[test]
fn generations_without_all_their_rows_count_as_none() {
    let mut store = store();
    let files = vec!["Z:/a/1.jpg".to_string(), "Z:/a/2.jpg".to_string()];
    store.replace("Z:/a", None, true, "all", &files, 1, None).unwrap();
    let mut manifests = Table::new();
    let mut items = Table::new();
    for change in store.take_changes() {
        match change {
            InventoryChange::PutItem { key, value } => items.insert(key, value),
            InventoryChange::PutManifest { key, manifest } => {
                manifests.insert(key, StoredManifest::Valid(manifest))
            }
            _ => {}
        }
    }
    let first = items.key_at(0).clone();
    items.remove(&first);
    let store = MediaInventoryStore::open(PathStyle::Windows, manifests, items, Table::new());
    assert!(matches!(store.load("Z:/a", None, true, "all"), Ok(None)));
}
