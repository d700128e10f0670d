use facial::lanes::{
    collect_image_paths, default_lane, ClaimFile, FolderListing, LaneBatchResult, LaneClaim,
    LaneMode, LaneStore, LaneUpdate,
};
use facial::paths::PathStyle;

const UNIX: PathStyle = PathStyle::Unix;

fn store() -> LaneStore {
    LaneStore::new(UNIX, "/ws".to_string())
}

fn folder(files: &[&str]) -> FolderListing {
    FolderListing::Folder { files: files.iter().map(|f| f.to_string()).collect(), dir_errors: 0 }
}

fn at_source(lane_id: &str) -> LaneUpdate {
    LaneUpdate {
        lane_id: lane_id.to_string(),
        folder: Some("/ws/source".to_string()),
        recursive: Some(true),
        ..LaneUpdate::default()
    }
}

#[test]
fn lane_registry_defaults_and_persists_updates() {
    let mut store = store();
    let lanes = store.list_lanes();
    assert_eq!(lanes.len(), 2);
    assert_eq!(lanes[0].lane_id, "lane-001");
    assert_eq!(lanes[0].mode, LaneMode::Compare);

    store
        .set_lane(LaneUpdate {
            lane_id: "lane-003".to_string(),
            name: Some("Shoot A".to_string()),
            mode: Some(LaneMode::Batch),
            folder: Some("D:/shoot-a".to_string()),
            recursive: Some(false),
            feature_keys: Some(vec!["facet:quality_pass".to_string()]),
        })
        .unwrap();

    assert_eq!(store.registry_path(), "/ws/.facial/lanes/lanes.json");
    let reloaded = LaneStore {
        style: store.style,
        workspace_root: store.workspace_root,
        lanes: store.lanes,
        claims: store.claims,
    }
    .list_lanes();
    let lane = reloaded.iter().find(|lane| lane.lane_id == "lane-003").unwrap();
    assert_eq!(lane.name, "Shoot A");
    assert_eq!(lane.mode, LaneMode::Batch);
    assert_eq!(lane.folder, "D:/shoot-a");
    assert!(!lane.recursive);
    assert_eq!(lane.feature_keys, vec!["facet:quality_pass"]);
}

#[test]
fn scan_lane_records_sorted_supported_images_only() {
    let mut store = store();
    store.set_lane(at_source("lane-001")).unwrap();
    let listing = folder(&["/ws/source/nested/a.jpg", "/ws/source/ignore.txt", "/ws/source/b.png"]);
    let scanned = store.scan_lane("lane-001", &listing).unwrap();

    assert_eq!(scanned.item_count, 2);
    let mut sorted = scanned.files.clone();
    sorted.sort();
    assert_eq!(scanned.files, sorted);
    assert!(scanned.files.iter().any(|path| path.ends_with("b.png")));
    assert!(scanned.files.iter().any(|path| path.ends_with("nested/a.jpg")));
    assert!(!scanned.files.iter().any(|path| path.ends_with("ignore.txt")));
    let status = store.lane_status(Some("lane-001"));
    assert_eq!(status[0].item_count, 2);
    assert!(status[0].last_error.is_empty());
}

#[test]
fn lane_claims_are_exclusive_until_stolen_or_released() {
    let mut store = store();
    let first = store.claim_lane("lane-001", "agent-a", false).unwrap();
    assert_eq!(first.claim_owner.as_deref(), Some("agent-a"));
    assert!(store.claim_lane("lane-001", "agent-b", false).is_err());

    let stolen = store.claim_lane("lane-001", "agent-b", true).unwrap();
    assert_eq!(stolen.claim_owner.as_deref(), Some("agent-b"));
    assert!(store.release_lane("lane-001", "agent-a", false).is_err());

    let released = store.release_lane("lane-001", "agent-b", false).unwrap();
    assert_eq!(released.claim_owner, None);
}

#[test]
fn claimed_lanes_reject_non_owner_mutation_and_scan() {
    let mut store = store();
    let listing = folder(&["/ws/source/a.jpg"]);
    store.claim_lane("lane-001", "agent-a", false).unwrap();

    assert!(store
        .set_lane_for_actor(
            LaneUpdate {
                lane_id: "lane-001".to_string(),
                name: Some("hijack".to_string()),
                ..LaneUpdate::default()
            },
            Some("agent-b"),
            false,
        )
        .is_err());
    assert!(store.scan_lane_for_actor("lane-001", Some("agent-b"), false, &listing).is_err());

    let updated = store
        .set_lane_for_actor(
            LaneUpdate {
                lane_id: "lane-001".to_string(),
                folder: Some("/ws/source".to_string()),
                ..LaneUpdate::default()
            },
            Some("agent-a"),
            false,
        )
        .unwrap();
    assert_eq!(updated.claim_owner.as_deref(), Some("agent-a"));
    let scanned =
        store.scan_lane_for_actor("lane-001", Some("agent-a"), false, &listing).unwrap();
    assert_eq!(scanned.item_count, 1);
}

#[test]
fn lane_status_reconciles_stranded_claim_file() {
    let mut store = store();
    store.claims.insert(
        "lane-001".to_string(),
        ClaimFile::Valid(LaneClaim {
            lane_id: "lane-001".to_string(),
            actor: "stranded-agent".to_string(),
            claimed_at: "2026-07-03T00:00:00Z".to_string(),
        }),
    );
    let status = store.lane_status(Some("lane-001"));
    assert_eq!(status[0].claim_owner.as_deref(), Some("stranded-agent"));
    assert_eq!(status[0].claim_updated_at.as_deref(), Some("2026-07-03T00:00:00Z"));
}

#[test]
fn scan_all_lanes_reports_errors_per_lane() {
    let mut store = store();
    store.set_lane(at_source("lane-001")).unwrap();
    let results =
        store.scan_all_lanes(&vec![folder(&["/ws/source/a.jpg"]), FolderListing::Missing]);

    assert_eq!(results.len(), 2);
    let ok = results.iter().find(|result| result.lane_id == "lane-001").unwrap();
    assert_eq!(ok.item_count, 1);
    assert!(ok.last_error.is_empty());
    let empty = results.iter().find(|result| result.lane_id == "lane-002").unwrap();
    assert_eq!(empty.item_count, 0);
    assert!(empty.last_error.contains("lane folder is empty"));
}

#[test]
fn scan_all_lanes_allows_owner_actor_to_scan_owned_claims() {
    let mut store = store();
    store.set_lane(at_source("lane-001")).unwrap();
    store.claim_lane("lane-001", "agent-a", false).unwrap();
    let results = store.scan_all_lanes_for_actor(
        Some("agent-a"),
        false,
        &vec![folder(&["/ws/source/a.jpg"]), FolderListing::Missing],
    );
    let owned = results.iter().find(|result| result.lane_id == "lane-001").unwrap();
    assert_eq!(owned.item_count, 1);
    assert!(owned.last_error.is_empty());
}

#[test]
fn set_lane_partial_json_update_preserves_existing_fields() {
    let mut store = store();
    store
        .set_lane(LaneUpdate {
            lane_id: "lane-001".to_string(),
            name: Some("Before".to_string()),
            mode: Some(LaneMode::Batch),
            folder: Some("/ws/shoot-a".to_string()),
            recursive: Some(false),
            feature_keys: Some(vec![
                "facet:quality_pass".to_string(),
                "deepface:detect".to_string(),
            ]),
        })
        .unwrap();
    let after = store
        .set_lane(LaneUpdate {
            lane_id: "lane-001".to_string(),
            name: Some("After".to_string()),
            ..LaneUpdate::default()
        })
        .unwrap();
    assert_eq!(after.name, "After");
    assert_eq!(after.mode, LaneMode::Batch);
    assert!(!after.recursive);
    assert_eq!(after.feature_keys, vec!["facet:quality_pass", "deepface:detect"]);
    assert_eq!(after.folder, "/ws/shoot-a");
}

#[test]
fn unreadable_claims_keep_everyone_out() {
    let mut store = store();
    store.claims.insert("lane-002".to_string(), ClaimFile::Unreadable("bad json".to_string()));
    assert!(store.claim_lane("lane-002", "agent-a", false).is_err());
    assert!(store.claim_lane_at("lane-002", "agent-a", true, "now").is_ok());
}

#[test]
fn unknown_lanes_and_blank_actors_are_refused() {
    let mut store = store();
    assert!(store.scan_lane("lane-009", &FolderListing::Missing).is_err());
    assert!(store.claim_lane("lane-001", "  ", false).is_err());
    assert!(store.lane_for_actor("lane-009", None, false).is_err());
    assert!(store.lane_status(Some("lane-009")).is_empty());
    assert_eq!(store.lane_status(None).len(), 2);
}

#[test]
fn batch_results_are_recorded() {
    let mut store = store();
    let started = store.record_batch_started("lane-001", "act-1").unwrap();
    assert_eq!(started.batch_status, "running");
    assert_eq!(started.batch_action_id.as_deref(), Some("act-1"));
    let done = store
        .record_batch_result(&LaneBatchResult {
            lane_id: "lane-001".to_string(),
            action_id: "act-1".to_string(),
            status: "error".to_string(),
            item_count: 3,
            feature_keys: vec![],
            run_id: Some("run-1".to_string()),
            output_path: None,
            error: Some("needs a scanned inventory".to_string()),
        })
        .unwrap();
    assert_eq!(done.batch_status, "error");
    assert_eq!(done.last_run_id.as_deref(), Some("run-1"));
    assert_eq!(done.last_batch_error, "needs a scanned inventory");
    assert!(store.record_batch_started("lane-009", "act-2").is_err());
}

#[test]
fn direct_failed_lane_batch_status_points_at_command_receipt() {
    let mut store = store();
    store
        .set_lane(LaneUpdate {
            lane_id: "lane-003".to_string(),
            name: Some("Missing Scan".to_string()),
            mode: Some(LaneMode::Batch),
            folder: None,
            recursive: Some(true),
            feature_keys: Some(vec!["invalid-feature-key".to_string()]),
        })
        .unwrap();
    store
        .record_batch_result(&LaneBatchResult {
            lane_id: "lane-003".to_string(),
            action_id: "direct-lane-batch-failure".to_string(),
            status: "error".to_string(),
            item_count: 0,
            feature_keys: vec![],
            run_id: None,
            output_path: None,
            error: Some("lane has no scanned inventory".to_string()),
        })
        .unwrap();
    let status = store.lane_status(Some("lane-003"));
    assert_eq!(status[0].batch_action_id.as_deref(), Some("direct-lane-batch-failure"));
    assert_eq!(status[0].batch_status, "error");
    assert!(status[0].last_batch_error.contains("scanned inventory"));
}

#[test]
fn folders_are_listed_by_kind() {
    assert!(collect_image_paths(UNIX, "/x", &FolderListing::Missing).is_err());
    assert!(collect_image_paths(UNIX, "/x", &FolderListing::Other).is_err());
    let (files, errors) = collect_image_paths(
        UNIX,
        "/x",
        &FolderListing::Folder {
            files: vec!["/x/b.PNG".to_string(), "/x/a.webp".to_string(), "/x/c.md".to_string()],
            dir_errors: 2,
        },
    )
    .unwrap();
    assert_eq!(files, vec!["/x/a.webp", "/x/b.PNG"]);
    assert_eq!(errors, 2);
    assert_eq!(collect_image_paths(UNIX, "/x/a.jpg", &FolderListing::File).unwrap().0, vec!["/x/a.jpg"]);
}

#[test]
fn default_lanes_are_empty() {
    let lane = default_lane("lane-007");
    assert_eq!(lane.lane_id, "lane-007");
    assert_eq!(lane.item_count, 0);
    assert!(lane.recursive);
    assert_eq!(store().claim_path("lane-007"), "/ws/.facial/lanes/claims/lane-007.json");
}
