use facial::api::{
    artifact_receipt, artifacts_receipt, default_dedup_threshold, default_lane_batch_concurrency,
    default_protocol_version, default_review_repeats, default_review_shards, effective_lane_actor,
    error_receipt, event_message, lane_batches_receipt, lane_child_receipt, ok_receipt,
    quarantine_receipt, read_artifact, read_run_results, run_status_receipt, run_summary_receipt, service_receipt,
    unhandled_receipt, with_action_id, ActionStatus, ArtifactText, Command, CommandKind, Receipt,
    Reply, RunFolder, RunResults, API_PROTOCOL_VERSION,
};
use facial::dispatch::{
    collect_image_files, dispatch, index_receipt, IndexOutcome, IndexTally, Route,
};
use facial::intents::{
    accepted_receipt_written, check_intent, dispatch_ui_intent, dispatch_ui_intent_started,
    intent_order, intent_stored, mark_intent_applied, recover_claim, ui_intent_claim_identity,
    ui_intent_claim_path, ClaimRecovery, ClosingError, IntentFile, IntentStep, StoreFailure,
};
use facial::lanes::{FolderListing, LaneMode, LaneStore, LaneUpdate};
use facial::media_commands::{dispatch_media, MediaReply};
use facial::media_db::{Access, MediaDb};
use facial::paths::PathStyle;
use facial::queue::{
    poll_interval, processing_action, queue_action, queue_file, queue_files, receipt_is_due,
    ApiPaths, ProcessingAction, QueueAction,
};
use facial::table::Table;

const ROOT: &str = "/ws/data/api";

fn paths() -> ApiPaths {
    ApiPaths::from_root(PathStyle::Unix, ROOT)
}

fn command(kind: CommandKind) -> Command {
    Command {
        action_id: "action-1".to_string(),
        protocol_version: API_PROTOCOL_VERSION,
        actor: Some("api-test".to_string()),
        issued_at: None,
        command: kind,
    }
}

fn media_tab() -> Command {
    command(CommandKind::SelectTab { tab: "media".to_string() })
}

fn terminal(command: &Command, status: ActionStatus) -> Receipt {
    Receipt {
        action_id: command.action_id.clone(),
        kind: command.command.id_str().to_string(),
        status,
        actor: command.actor.clone(),
        protocol_version: command.protocol_version,
        started_at: "t".to_string(),
        finished_at: "t".to_string(),
        result: Reply::Nothing,
        error: None,
        note: Some("test terminal UI receipt".to_string()),
    }
}

/// The receipt that a command for a window is answered with.
fn intent_receipt(kind: CommandKind) -> Receipt {
    let cmd = command(kind);
    assert!(matches!(dispatch(&cmd, 0), Route::Intent));
    match dispatch_ui_intent(&paths(), &cmd) {
        IntentStep::Refused(receipt) => receipt,
        IntentStep::Accept { receipt, .. } => receipt,
    }
}

fn db() -> MediaDb {
    MediaDb::open(
        "/ws".to_string(),
        PathStyle::Unix,
        Access::ReadWrite,
        None,
        Table::new(),
        Table::new(),
        Table::new(),
        Table::new(),
        Table::new(),
        None,
    )
}

fn media(db: &mut MediaDb, kind: CommandKind) -> Receipt {
    let cmd = command(kind);
    assert!(matches!(dispatch(&cmd, 0), Route::Metadata));
    dispatch_media(db, &cmd, "start").unwrap()
}

fn reply(receipt: Receipt) -> MediaReply {
    match receipt.result {
        Reply::Media(r) => r,
        other => panic!("{other:?}"),
    }
}

#[test]
fn live_ui_snapshot_is_a_receipt_backed_ui_intent() {
    let command = CommandKind::UiSnapshot {
        output: Some(".facial/ui-snapshots/live-ui/proof.png".to_string()),
    };
    assert!(command.is_ui_intent());
    assert_eq!(command.id_str(), "ui_snapshot");
}

#[test]
fn ui_intent_claim_moves_atomically_and_finalizes_only_after_receipt() {
    let paths = paths();
    let command = media_tab();
    let step = dispatch_ui_intent_started(&paths, &command, "t0");
    let IntentStep::Accept { receipt_path, receipt } = step else { panic!("refused") };
    assert_eq!(receipt.status, ActionStatus::Accepted);
    assert_eq!(receipt_path, paths.receipt_path(&command.action_id));
    let intent_path = accepted_receipt_written(&paths, &command, "t0", Ok(())).unwrap();
    assert_eq!(intent_path, paths.intent_path(&command.action_id));
    let stored = intent_stored(&command, "t0", receipt, Ok(()));
    assert_eq!(stored.status, ActionStatus::Accepted);

    let processing = ui_intent_claim_path(&paths, &command.action_id, 77);
    assert_eq!(processing, format!("{ROOT}/intents/processing/action-1.77.json"));
    let done = terminal(&command, ActionStatus::Applied);
    let closing = mark_intent_applied(&paths, &done, 77, true).unwrap();
    assert_eq!(closing.claim_path, processing);
    assert_eq!(closing.receipt_path, paths.receipt_path(&command.action_id));
    assert_eq!(closing.record_path, paths.applied_path(&command.action_id));
}

#[test]
fn ui_intent_finalization_requires_terminal_status_and_current_process_claim() {
    let paths = paths();
    let command = media_tab();
    let done = terminal(&command, ActionStatus::Applied);
    assert!(matches!(
        mark_intent_applied(&paths, &done, 77, false),
        Err(ClosingError::NotOwned(_))
    ));
    let IntentStep::Accept { receipt, .. } = dispatch_ui_intent(&paths, &command) else {
        panic!("refused")
    };
    assert!(matches!(
        mark_intent_applied(&paths, &receipt, 77, true),
        Err(ClosingError::NotFinal(_))
    ));
}

#[test]
fn failed_terminal_receipt_write_keeps_claim_and_recovery_requeues_it() {
    let paths = paths();
    let name = format!("action-1.{}.json", u32::MAX);
    // Only the accepted receipt was written, so the intent was never closed.
    let step = recover_claim(
        &paths,
        &name,
        false,
        Some((ActionStatus::Accepted, "action-1")),
        false,
    );
    assert!(matches!(step, ClaimRecovery::Requeue { target }
        if target == paths.intent_path("action-1")));
    let step = recover_claim(&paths, &name, false, None, true);
    assert!(matches!(step, ClaimRecovery::Conflict(_)));
}

#[test]
fn recovery_does_not_steal_a_claim_from_a_live_gui_process() {
    let paths = paths();
    let step = recover_claim(&paths, "action-1.77.json", true, None, false);
    assert!(matches!(step, ClaimRecovery::Leave));
}

#[test]
fn recovery_finishes_auditing_terminal_receipt_without_reapplying_intent() {
    let paths = paths();
    let name = format!("action-1.{}.json", u32::MAX);
    let step = recover_claim(
        &paths,
        &name,
        false,
        Some((ActionStatus::Rejected, "action-1")),
        false,
    );
    assert!(matches!(step, ClaimRecovery::Finish { record_path }
        if record_path == paths.applied_path("action-1")));
}

#[test]
fn select_tab_accepts_media_vocab() {
    let receipt = intent_receipt(CommandKind::SelectTab { tab: "media".to_string() });
    assert_eq!(receipt.status, ActionStatus::Accepted);
    assert!(matches!(receipt.result, Reply::Echo));
    let refused = intent_receipt(CommandKind::SelectTab { tab: "nowhere".to_string() });
    assert_eq!(refused.status, ActionStatus::Rejected);
}

#[test]
fn color_label_api_persists_backend_hex_and_rejects_invalid_input() {
    let mut db = db();
    let configure = |hex: &str| CommandKind::MediaLabelConfigure {
        id: "red".to_string(),
        name: "Selects".to_string(),
        hex: hex.to_string(),
    };
    let configured = media(&mut db, configure("12abef"));
    assert_eq!(configured.status, ActionStatus::Completed);
    let MediaReply::Labels { labels } = reply(configured) else { panic!("labels expected") };
    let red = labels.iter().find(|label| label.id == "red").unwrap();
    assert_eq!(red.name, "Selects");
    assert_eq!(red.hex, "#12ABEF");

    let listed = media(&mut db, CommandKind::MediaLabelsList);
    assert_eq!(listed.status, ActionStatus::Completed);
    let MediaReply::Catalog { labels, .. } = reply(listed) else { panic!("catalog expected") };
    let red = labels.iter().find(|label| label.id == "red").unwrap();
    assert_eq!(red.name, "Selects");
    assert_eq!(red.hex, "#12ABEF");

    let invalid = media(&mut db, configure("#xyz"));
    assert_eq!(invalid.status, ActionStatus::Rejected);
    assert!(invalid
        .error
        .as_deref()
        .is_some_and(|error| error.contains("invalid color label hex")));
    assert_eq!(
        db.color_label_definitions().into_iter().find(|label| label.id == "red").unwrap().hex,
        "#12ABEF"
    );
}

#[test]
fn dynamic_label_api_crud_multi_assignment_and_confirmed_delete() {
    let mut db = db();
    let asset = "/ws/asset.jpg".to_string();
    let created = media(
        &mut db,
        CommandKind::MediaLabelCreate {
            name: "Selects".to_string(),
            hex: "#123ABC".to_string(),
            path: Some(asset.clone()),
        },
    );
    assert_eq!(created.status, ActionStatus::Completed);
    let MediaReply::Created { label, assigned_labels, .. } = reply(created) else {
        panic!("created expected")
    };
    let id = label.id;
    assert_eq!(assigned_labels.unwrap()[0], id);

    let add = media(
        &mut db,
        CommandKind::MediaLabelAssign {
            path: asset.clone(),
            id: Some("blue".to_string()),
            action: "add".to_string(),
        },
    );
    assert_eq!(add.status, ActionStatus::Completed);
    let MediaReply::Assigned { labels, .. } = reply(add) else { panic!("assigned expected") };
    assert_eq!(labels.len(), 2);

    let meta = media(&mut db, CommandKind::MediaMetaGet { path: asset.clone() });
    let MediaReply::MetaRead { meta, .. } = reply(meta) else { panic!("meta expected") };
    assert_eq!(meta.label, id);
    assert_eq!(meta.labels.len(), 2);

    let updated = media(
        &mut db,
        CommandKind::MediaLabelUpdate {
            id: id.clone(),
            name: Some("Keepers".to_string()),
            hex: Some("#ABCDEF".to_string()),
        },
    );
    assert_eq!(updated.status, ActionStatus::Completed);
    let MediaReply::Updated { label, .. } = reply(updated) else { panic!("updated expected") };
    assert_eq!(label.name, "Keepers");

    let refused =
        media(&mut db, CommandKind::MediaLabelDelete { id: id.clone(), confirmed: false });
    assert_eq!(refused.status, ActionStatus::Rejected);
    let MediaReply::DeleteRefused { usage_count, confirmation_required, .. } = reply(refused)
    else {
        panic!("refusal expected")
    };
    assert_eq!(usage_count, 1);
    assert!(confirmation_required);

    let deleted =
        media(&mut db, CommandKind::MediaLabelDelete { id: id.clone(), confirmed: true });
    assert_eq!(deleted.status, ActionStatus::Completed);
    let MediaReply::Deleted { deleted, .. } = reply(deleted) else { panic!("deletion expected") };
    assert_eq!(deleted.assignments_removed, 1);
    assert_eq!(db.labels(&asset), vec!["blue"]);
    assert!(db.find_color_label_id("Keepers").is_none());
}

#[test]
fn live_label_mutation_validates_and_persists_as_ui_intent() {
    let accepted = intent_receipt(CommandKind::MediaLabelMutation {
        action: "add".to_string(),
        path: Some("/ws/asset.jpg".to_string()),
        id: Some("red".to_string()),
        name: None,
        hex: None,
        confirmed: false,
    });
    assert_eq!(accepted.status, ActionStatus::Accepted);

    let rejected = intent_receipt(CommandKind::MediaLabelMutation {
        action: "create".to_string(),
        path: None,
        id: None,
        name: Some("missing color".to_string()),
        hex: None,
        confirmed: false,
    });
    assert_eq!(rejected.status, ActionStatus::Rejected);
}

#[test]
fn folder_navigator_intent_accepts_actions_and_rejects_unknown_vocab() {
    let accepted = intent_receipt(CommandKind::MediaFolderNavigate { action: "down".to_string() });
    assert_eq!(accepted.status, ActionStatus::Accepted);
    assert!(matches!(accepted.result, Reply::Echo));

    let rejected =
        intent_receipt(CommandKind::MediaFolderNavigate { action: "teleport".to_string() });
    assert_eq!(rejected.status, ActionStatus::Rejected);
    assert!(rejected
        .error
        .as_deref()
        .is_some_and(|error| error.contains("unknown folder navigator action")));
}

fn tabs(action: &str, tab_id: Option<&str>, path: Option<&str>) -> Receipt {
    intent_receipt(CommandKind::MediaTabs {
        action: action.to_string(),
        tab_id: tab_id.map(|s| s.to_string()),
        path: path.map(|s| s.to_string()),
    })
}

#[test]
fn media_tabs_intent_validates_stable_id_and_path_fields() {
    assert_eq!(tabs("list", None, None).status, ActionStatus::Accepted);
    assert_eq!(tabs("open", None, Some("/ws/folder")).status, ActionStatus::Accepted);
    assert_eq!(tabs("select", Some("media-tab-7"), None).status, ActionStatus::Accepted);
    assert_eq!(tabs("navigate_grid", None, Some("page_down")).status, ActionStatus::Accepted);
    assert_eq!(tabs("navigate_grid", None, None).status, ActionStatus::Rejected);
    assert_eq!(tabs("set_chrome", None, Some("hidden")).status, ActionStatus::Accepted);
    assert_eq!(tabs("set_split", None, Some("0.55")).status, ActionStatus::Accepted);
    assert_eq!(tabs("set_split", None, None).status, ActionStatus::Rejected);
    assert_eq!(tabs("set_chrome", None, None).status, ActionStatus::Rejected);
    let rejected = tabs("close", None, None);
    assert_eq!(rejected.status, ActionStatus::Rejected);
    assert!(rejected
        .error
        .as_deref()
        .is_some_and(|error| error.contains("invalid media_tabs intent")));
}

fn video(action: &str, value: Option<i64>, output: Option<&str>) -> Receipt {
    intent_receipt(CommandKind::MediaVideoControl {
        action: action.to_string(),
        value,
        output: output.map(|s| s.to_string()),
    })
}

#[test]
fn video_control_intent_validates_actions_and_numeric_values() {
    let accepted = video("seek_ms", Some(2_500), None);
    assert_eq!(accepted.status, ActionStatus::Accepted);
    assert!(matches!(accepted.result, Reply::Echo));
    let library_play = video("play_library", None, None);
    assert_eq!(library_play.status, ActionStatus::Accepted);
    assert!(matches!(library_play.result, Reply::Echo));
    assert_eq!(video("volume", None, None).status, ActionStatus::Rejected);
    assert_eq!(video("rewind_the_world", None, None).status, ActionStatus::Rejected);
    let capture = video("capture_frame", None, Some(".facial/ui-snapshots/proof.png"));
    assert_eq!(capture.status, ActionStatus::Accepted);
    assert!(matches!(capture.result, Reply::Echo));
}

/// A lane command carried out as the backend does it.
fn claim(store: &mut LaneStore, cmd: &Command) -> Receipt {
    let Route::Service { actor } = dispatch(cmd, 0) else { panic!("service expected") };
    let CommandKind::ClaimLane { lane_id, steal, .. } = &cmd.command else { panic!("a claim") };
    let outcome = store
        .claim_lane(lane_id, &actor.unwrap(), *steal)
        .map(|lane| Reply::Document(lane.claim_owner.unwrap_or_default()));
    service_receipt(cmd, "start", outcome)
}

#[test]
fn lane_dispatch_receipts_and_state_snapshot_include_lanes() {
    let mut store = LaneStore::new(PathStyle::Unix, "/ws".to_string());
    let set = command(CommandKind::SetLane {
        lane_id: "lane-001".to_string(),
        name: Some("Shoot A".to_string()),
        mode: Some("batch".to_string()),
        folder: Some("/ws/shoot-a".to_string()),
        recursive: Some(true),
        steal: false,
        feature_keys: Some(vec!["facet:quality_pass".to_string()]),
    });
    let Route::Service { actor } = dispatch(&set, 0) else { panic!("service expected") };
    let lane = store
        .set_lane_for_actor(
            LaneUpdate {
                lane_id: "lane-001".to_string(),
                name: Some("Shoot A".to_string()),
                mode: Some(LaneMode::Batch),
                folder: Some("/ws/shoot-a".to_string()),
                recursive: Some(true),
                feature_keys: Some(vec!["facet:quality_pass".to_string()]),
            },
            actor.as_deref(),
            false,
        )
        .unwrap();
    assert_eq!(lane.lane_id, "lane-001");

    let listing = FolderListing::Folder {
        files: vec!["/ws/shoot-a/a.jpg".to_string(), "/ws/shoot-a/ignore.txt".to_string()],
        dir_errors: 0,
    };
    let scan =
        store.scan_lane_for_actor("lane-001", actor.as_deref(), false, &listing).unwrap();
    assert_eq!(scan.item_count, 1);

    let by = |name: &str| Command {
        actor: None,
        ..command(CommandKind::ClaimLane {
            lane_id: "lane-001".to_string(),
            actor: name.to_string(),
            steal: false,
        })
    };
    let claimed = claim(&mut store, &by("agent-a"));
    assert_eq!(claimed.status, ActionStatus::Completed);
    assert!(matches!(claimed.result, Reply::Document(owner) if owner == "agent-a"));
    let blocked = claim(&mut store, &by("agent-b"));
    assert_eq!(blocked.status, ActionStatus::Error);
    assert!(blocked.error.unwrap().contains("already claimed"));

    let lanes = store.list_lanes();
    assert!(lanes.len() >= 2);
    assert_eq!(lanes[0].lane_id, "lane-001");
    assert_eq!(lanes[0].item_count, 1);
}

#[test]
fn json_lane_claim_uses_top_level_actor_for_ownership() {
    let mut store = LaneStore::new(PathStyle::Unix, "/ws".to_string());
    let cmd = Command {
        action_id: "claim-from-json".to_string(),
        protocol_version: API_PROTOCOL_VERSION,
        actor: Some("json-agent".to_string()),
        issued_at: None,
        command: CommandKind::ClaimLane {
            lane_id: "lane-001".to_string(),
            actor: String::new(),
            steal: false,
        },
    };
    assert_eq!(effective_lane_actor(&cmd, ""), "json-agent");
    let receipt = claim(&mut store, &cmd);
    assert_eq!(receipt.status, ActionStatus::Completed);
    assert_eq!(receipt.actor.as_deref(), Some("json-agent"));
    assert!(matches!(receipt.result, Reply::Document(owner) if owner == "json-agent"));
}

fn all_batches() -> Command {
    command(CommandKind::StartAllLaneBatches {
        project_name: "Batch Project".to_string(),
        feature_keys: Vec::new(),
        concurrency_limit: 2,
        in_place: false,
        steal: false,
    })
}

#[test]
fn start_all_lane_batches_dispatches_aggregate_receipt() {
    let cmd = all_batches();
    let done = lane_batches_receipt(&cmd, "t", Reply::Document("{}".to_string()), None);
    assert_eq!(done.status, ActionStatus::Completed);
    let unwritten = Some(("child-1".to_string(), "disk full".to_string()));
    let failed = lane_batches_receipt(&cmd, "t", Reply::Document("{}".to_string()), unwritten);
    assert_eq!(failed.status, ActionStatus::Error);
    assert_eq!(failed.error.as_deref(), Some("write child lane receipt child-1: disk full"));
    assert!(matches!(failed.result, Reply::Document(_)));
}

#[test]
fn start_all_lane_batches_writes_child_lane_receipts() {
    let cmd = all_batches();
    let child =
        lane_child_receipt(&cmd, "child-1", "t", Reply::Document("{}".to_string()), None);
    assert_eq!(child.action_id, "child-1");
    assert_eq!(child.kind, "start_lane_batch");
    assert_eq!(child.status, ActionStatus::Completed);
    assert_eq!(
        child.note.as_deref(),
        Some("child receipt for start_all_lane_batches action-1")
    );
    let failed = lane_child_receipt(&cmd, "child-2", "t", Reply::Nothing, Some("x".to_string()));
    assert_eq!(failed.status, ActionStatus::Error);
    assert_eq!(paths().receipt_path(&child.action_id), format!("{ROOT}/receipts/child-1.json"));
}

#[test]
fn receipts_carry_what_the_command_says() {
    let cmd = command(CommandKind::ListModels);
    let ok = ok_receipt(&cmd, "t0", Reply::Document("[]".to_string()));
    assert_eq!((ok.action_id.as_str(), ok.kind.as_str()), ("action-1", "list_models"));
    assert_eq!(ok.started_at, "t0");
    assert!(ok.finished_at.contains('T'), "a time: {}", ok.finished_at);
    assert_eq!(ok.status.as_str(), "ok");
    let err = error_receipt(&cmd, "t0", "broken".to_string());
    assert_eq!(err.error.as_deref(), Some("broken"));
    assert_eq!(event_message(&err), "command error list_models");
    assert_eq!(unhandled_receipt(&cmd, "t0").status, ActionStatus::Rejected);
    let dead = quarantine_receipt("bad", "no json".to_string());
    assert_eq!((dead.action_id.as_str(), dead.status), ("bad", ActionStatus::Rejected));
}

#[test]
fn runs_are_found_or_not() {
    let cmd = command(CommandKind::GetRunStatus { run_id: "r".to_string() });
    assert!(matches!(run_status_receipt(&cmd, "t", true).result,
        Reply::RunStatus { status, found: true } if status == "completed"));
    assert!(matches!(run_status_receipt(&cmd, "t", false).result,
        Reply::RunStatus { status, found: false } if status == "unknown"));
    let missing = run_summary_receipt(&cmd, "t", "r", RunResults::Missing);
    assert_eq!(missing.status, ActionStatus::Error);
    let bad = run_summary_receipt(&cmd, "t", "r", RunResults::Malformed("eof".to_string()));
    assert_eq!(bad.error.as_deref(), Some("results.json parse error: eof"));
    assert!(run_summary_receipt(&cmd, "t", "r", RunResults::Unreadable("io".to_string()))
        .error
        .is_some());
    let found = run_summary_receipt(&cmd, "t", "r", RunResults::Found("{}".to_string()));
    assert_eq!(found.status, ActionStatus::Completed);
}

#[test]
fn files_are_told_apart_by_their_text() {
    assert!(matches!(read_run_results("{\"a\": [1, null]}".to_string()),
        RunResults::Found(text) if text == "{\"a\": [1, null]}"));
    assert!(matches!(read_run_results("{\"a\":".to_string()),
        RunResults::Malformed(e) if e == "EOF while parsing a value at line 1 column 5"));
    assert!(matches!(read_artifact(" [true] ".to_string()),
        ArtifactText::Json(text) if text == " [true] "));
    assert!(matches!(read_artifact("plain words".to_string()),
        ArtifactText::Plain(text) if text == "plain words"));
}

#[test]
fn artifacts_stay_within_the_roots() {
    let cmd = command(CommandKind::ListArtifacts { run_id: "r".to_string() });
    let outside = artifacts_receipt(&cmd, "t", "r", RunFolder::Outside("escapes".to_string()));
    assert_eq!(outside.status, ActionStatus::Rejected);
    assert_eq!(artifacts_receipt(&cmd, "t", "r", RunFolder::Missing).status, ActionStatus::Error);
    assert_eq!(artifacts_receipt(&cmd, "t", "r", RunFolder::NoParent).status, ActionStatus::Error);
    let listed = artifacts_receipt(&cmd, "t", "r", RunFolder::Listed(vec!["/a".to_string()]));
    assert!(matches!(listed.result, Reply::Files(files) if files == vec!["/a"]));
    assert_eq!(
        artifact_receipt(&cmd, "t", ArtifactText::Outside("escapes".to_string())).status,
        ActionStatus::Rejected
    );
    assert_eq!(
        artifact_receipt(&cmd, "t", ArtifactText::Unreadable("io".to_string())).status,
        ActionStatus::Error
    );
    assert!(matches!(
        artifact_receipt(&cmd, "t", ArtifactText::Plain("hi".to_string())).result,
        Reply::Text(text) if text == "hi"
    ));
    assert!(matches!(
        artifact_receipt(&cmd, "t", ArtifactText::Json("{}".to_string())).result,
        Reply::Document(_)
    ));
}

#[test]
fn commands_get_an_id_where_they_have_none() {
    let mut cmd = command(CommandKind::GetState);
    cmd.action_id = "  ".to_string();
    let named = with_action_id(cmd);
    assert_eq!(named.action_id.len(), 36);
    assert_eq!(with_action_id(command(CommandKind::GetState)).action_id, "action-1");
    assert_eq!(default_protocol_version(), 1);
    assert_eq!((default_review_shards(), default_review_repeats()), (1, 10));
    assert_eq!(default_lane_batch_concurrency(), 2);
    assert_eq!(default_dedup_threshold(), "0.9");
}

#[test]
fn routes_hold_what_is_needed() {
    let search = command(CommandKind::MediaSemanticSearch {
        query: "cat".to_string(),
        dir: "/d".to_string(),
        limit: None,
    });
    assert!(matches!(dispatch(&search, 0), Route::Search { limit: 50, .. }));
    let sweep = command(CommandKind::ThumbsGc { cap_mb: None });
    assert!(matches!(dispatch(&sweep, 2048), Route::SweepThumbnails { cap_mb: 2048 }));
    let read = command(CommandKind::ReadArtifact { path: "/p".to_string() });
    assert!(matches!(dispatch(&read, 0), Route::File { path } if path == "/p"));
}

#[test]
fn index_runs_are_summed_up() {
    let mut tally = IndexTally::new();
    tally.record("/a.jpg", IndexOutcome::Indexed);
    tally.record("/b.jpg", IndexOutcome::Cached);
    tally.record("/c.jpg", IndexOutcome::Failed("bad".to_string()));
    assert_eq!((tally.indexed, tally.cached), (1, 1));
    let cmd = command(CommandKind::MediaIndexBuild { dir: "/d".to_string(), recursive: true });
    let receipt = index_receipt(&cmd, "t", "/d", true, 3, &tally, 512, "/i.redb");
    let Reply::Index(r) = receipt.result else { panic!("an index reply") };
    assert_eq!((r.files, r.indexed, r.already_cached, r.failed), (3, 1, 1, 1));
    assert_eq!(r.failures, vec!["/c.jpg: bad"]);
    let files = vec!["/d/b.PNG".to_string(), "/d/a.txt".to_string(), "/d/a.jpg".to_string()];
    assert_eq!(collect_image_files(PathStyle::Unix, &files), vec!["/d/a.jpg", "/d/b.PNG"]);
}

#[test]
fn notes_written_by_command_are_read_back() {
    let mut db = db();
    let set = media(
        &mut db,
        CommandKind::MediaMetaSet {
            path: "/ws/a.jpg".to_string(),
            notes: Some("hello".to_string()),
            tags: Some("b, A".to_string()),
            label: None,
        },
    );
    assert_eq!(set.status, ActionStatus::Completed);
    let get = media(&mut db, CommandKind::MediaMetaGet { path: "/WS/A.jpg".to_string() });
    let MediaReply::MetaRead { meta, key, .. } = reply(get) else { panic!("meta expected") };
    assert_eq!((meta.notes.as_str(), meta.tags.as_str(), key.as_str()), ("hello", "a, b", "a.jpg"));
    let list = media(&mut db, CommandKind::MediaMetaList { tag: Some("a".to_string()), label: None });
    let MediaReply::Rows { rows, tag_vocab, .. } = reply(list) else { panic!("rows expected") };
    assert_eq!(rows.len(), 1);
    assert_eq!(tag_vocab, vec!["a", "b"]);
}

#[test]
fn favorites_are_kept_by_command() {
    let mut db = db();
    media(&mut db, CommandKind::MediaFavAdd { path: "/ws/a.jpg".to_string() });
    let list = media(&mut db, CommandKind::MediaFavList);
    let MediaReply::Favorites { favorites, .. } = reply(list) else { panic!("favorites") };
    assert_eq!(favorites.len(), 1);
    media(&mut db, CommandKind::MediaFavRemove { path: "/ws/a.jpg".to_string() });
    assert!(!db.is_favorite("/ws/a.jpg"));
}

#[test]
fn label_commands_are_refused_without_a_database() {
    let mut db = MediaDb::open(
        "/ws".to_string(),
        PathStyle::Unix,
        Access::Unavailable,
        Some("locked".to_string()),
        Table::new(),
        Table::new(),
        Table::new(),
        Table::new(),
        Table::new(),
        None,
    );
    let refused = media(&mut db, CommandKind::MediaLabelsList);
    assert_eq!(refused.status, ActionStatus::Error);
    assert_eq!(refused.error.as_deref(), Some("locked"));
    assert!(refused.note.unwrap().contains("media db is locked or unavailable"));
    assert!(dispatch_media(&mut db, &command(CommandKind::GetState), "t").is_none());
}

#[test]
fn assignments_say_what_they_lack() {
    let mut db = db();
    let assign = |id: Option<&str>, action: &str| CommandKind::MediaLabelAssign {
        path: "/ws/a.jpg".to_string(),
        id: id.map(|s| s.to_string()),
        action: action.to_string(),
    };
    let r = media(&mut db, assign(None, "add"));
    assert_eq!(r.error.as_deref(), Some("media_label_assign add requires --label"));
    let r = media(&mut db, assign(None, "remove"));
    assert_eq!(r.error.as_deref(), Some("media_label_assign remove requires --label"));
    let r = media(&mut db, assign(Some("red"), "paint"));
    assert_eq!(
        r.error.as_deref(),
        Some("unknown media label assignment action: paint (expected add|remove|clear)")
    );
    assert_eq!(media(&mut db, assign(None, "clear")).status, ActionStatus::Completed);
}

#[test]
fn failed_intent_stores_are_errors() {
    let cmd = media_tab();
    let refused = accepted_receipt_written(&paths(), &cmd, "t", Err("disk full".to_string()));
    assert_eq!(refused.unwrap_err().status, ActionStatus::Error);
    for failure in
        [StoreFailure::Serialize("bad".to_string()), StoreFailure::Persist("full".to_string())]
    {
        let accepted = terminal(&cmd, ActionStatus::Accepted);
        let r = intent_stored(&cmd, "t", accepted, Err(failure));
        assert_eq!(r.status, ActionStatus::Error);
    }
    assert!(check_intent(&CommandKind::SelectTab { tab: "media".to_string() }).is_none());
}

#[test]
fn claims_name_their_owner() {
    assert_eq!(ui_intent_claim_identity("a.b.77.json"), ("a.b".to_string(), Some(77)));
    assert_eq!(ui_intent_claim_identity("plain.json"), ("plain".to_string(), None));
}

#[test]
fn the_oldest_intent_comes_first() {
    let file = |name: &str, modified: Option<u64>| IntentFile { name: name.to_string(), modified };
    let files = vec![file("b.json", Some(5)), file("a.json", Some(9)), file("c.json", Some(5))];
    assert_eq!(intent_order(&files), vec![0, 2, 1]);
}

#[test]
fn queue_files_are_taken_in_order() {
    let names: Vec<String> =
        ["b.json", "a.json.tmp", "a.json", "note.txt"].iter().map(|s| s.to_string()).collect();
    assert_eq!(queue_files(&names), vec!["a.json", "b.json"]);
    assert!(queue_file("x.json") && !queue_file("x.tmp"));
    let paths = paths();
    assert!(matches!(queue_action(&paths, "a.json", true), QueueAction::Drop));
    assert!(matches!(queue_action(&paths, "a.json", false), QueueAction::Claim { target }
        if target == format!("{ROOT}/processing/a.json")));
    assert!(matches!(processing_action(&paths, "a.tmp", false), ProcessingAction::Ignore));
    assert!(matches!(processing_action(&paths, "a.json", true), ProcessingAction::Drop));
    assert!(matches!(processing_action(&paths, "a.json", false), ProcessingAction::Requeue { target }
        if target == format!("{ROOT}/commands/a.json")));
}

#[test]
fn queue_places_lie_below_the_root() {
    let paths = paths();
    assert_eq!(paths.state_file, format!("{ROOT}/state/state.json"));
    assert_eq!(paths.dead_path("x"), format!("{ROOT}/dead/x.json"));
    assert_eq!(paths.stop_file(), format!("{ROOT}/stop"));
    assert_eq!(poll_interval(0), 1);
    assert_eq!(poll_interval(900), 900);
    assert!(!receipt_is_due(&terminal(&media_tab(), ActionStatus::Accepted)));
}
