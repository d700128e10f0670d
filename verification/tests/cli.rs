use facial::api::{ActionStatus, CommandKind};
use facial::cli::{
    build_command_from_flags, cli_entry, command_kind_from_flags, command_source,
    exit_code_for_status, flags_of_tokens, parse_flags, parse_inspect_options,
    parse_queue_options, worst_exit_code, CommandSource, Entry, ReviewFlags,
};

fn words(list: &[&str]) -> Vec<String> {
    list.iter().map(|s| s.to_string()).collect()
}

fn empty_review_flags() -> ReviewFlags {
    flags_of_tokens(&vec![]).review
}

#[test]
fn lane_command_builders_accept_core_lane_verbs() {
    let list = command_kind_from_flags(
        "list_lanes",
        None,
        None,
        None,
        None,
        None,
        Vec::new(),
        Vec::new(),
        None,
        false,
        None,
        None,
        None,
        false,
        empty_review_flags(),
    )
    .expect("list_lanes should build");
    assert_eq!(list.id_str(), "list_lanes");

    let set = command_kind_from_flags(
        "set_lane",
        None,
        None,
        None,
        None,
        None,
        vec!["facet:quality_pass".to_string()],
        Vec::new(),
        Some("D:/shoot-a".to_string()),
        false,
        None,
        None,
        None,
        false,
        ReviewFlags {
            lane_id: Some("lane-001".to_string()),
            lane_name: Some("Shoot A".to_string()),
            lane_mode: Some("batch".to_string()),
            lane_recursive: Some(true),
            ..empty_review_flags()
        },
    )
    .expect("set_lane should build");
    assert_eq!(set.id_str(), "set_lane");

    let claim = command_kind_from_flags(
        "claim_lane",
        None,
        None,
        None,
        None,
        None,
        Vec::new(),
        Vec::new(),
        None,
        false,
        None,
        None,
        None,
        false,
        ReviewFlags {
            lane_id: Some("lane-001".to_string()),
            actor: Some("agent-a".to_string()),
            ..empty_review_flags()
        },
    )
    .expect("claim_lane should build");
    assert_eq!(claim.id_str(), "claim_lane");
}

#[test]
fn dynamic_label_cli_flags_build_typed_commands() {
    let create = build_command_from_flags(
        "media_label_create",
        &words(&["--name", "Selects", "--hex", "#123ABC", "--path", "D:\\asset.jpg"]),
    )
    .unwrap();
    match create.command {
        CommandKind::MediaLabelCreate { name, hex, path } => {
            assert_eq!(name, "Selects");
            assert_eq!(hex, "#123ABC");
            assert_eq!(path.as_deref(), Some("D:\\asset.jpg"));
        }
        other => panic!("unexpected command: {}", other.id_str()),
    }

    let delete = build_command_from_flags(
        "media_label_delete",
        &words(&["--label", "label-abc", "--confirm"]),
    )
    .unwrap();
    assert!(matches!(
        delete.command,
        CommandKind::MediaLabelDelete { id, confirmed: true } if id == "label-abc"
    ));

    let assign = build_command_from_flags(
        "media_label_assign",
        &words(&["--path", "D:\\asset.jpg", "--action", "ADD", "--label", "Selects"]),
    )
    .unwrap();
    assert!(matches!(
        assign.command,
        CommandKind::MediaLabelAssign { action, .. } if action == "add"
    ));
}

#[test]
fn set_lane_flags_leave_recursion_unset() {
    let parsed = build_command_from_flags(
        "set_lane",
        &words(&["--lane-id", "lane-001", "--dir", "D:/shoot-a", "--action-id", "set-lane"]),
    )
    .unwrap();
    assert_eq!(parsed.action_id, "set-lane");
    match parsed.command {
        CommandKind::SetLane { recursive, .. } => assert_eq!(recursive, None),
        other => panic!("expected set_lane, got {}", other.id_str()),
    }
}

#[test]
fn commands_get_ids_actors_and_times() {
    let cmd = build_command_from_flags("list_lanes", &words(&["--actor", "swarm-1"])).unwrap();
    assert_eq!(cmd.actor.as_deref(), Some("swarm-1"));
    assert_eq!(cmd.action_id.len(), 36);
    assert!(cmd.issued_at.unwrap().contains('T'));
    let other = build_command_from_flags("list_lanes", &vec![]).unwrap();
    assert_ne!(other.action_id, cmd.action_id);
}

#[test]
fn the_last_flag_wins_and_lists_collect() {
    let cmd = build_command_from_flags(
        "start_run",
        &words(&[
            "--project", "a", "--project", "b", "--image", "x.jpg", "--image", "y.jpg",
            "--feature", "f", "--in-place",
        ]),
    )
    .unwrap();
    match cmd.command {
        CommandKind::StartRun { project_name, image_paths, feature_keys, in_place, .. } => {
            assert_eq!(project_name, "b");
            assert_eq!(image_paths, vec!["x.jpg", "y.jpg"]);
            assert_eq!(feature_keys, vec!["f"]);
            assert!(in_place);
        }
        other => panic!("unexpected command: {}", other.id_str()),
    }
}

#[test]
fn bad_flags_are_refused() {
    assert!(build_command_from_flags("start_run", &words(&["--nonsense"])).is_err());
    assert!(build_command_from_flags("start_run", &words(&["--project"])).is_err());
    assert!(build_command_from_flags("review_init", &words(&["--shards", "two"])).is_err());
    assert!(build_command_from_flags("no_such_kind", &vec![]).is_err());
    assert!(build_command_from_flags("get_run_status", &vec![]).is_err());
    assert!(build_command_from_flags("identity_dedup", &words(&["--threshold", "x"])).is_err());
    assert!(parse_flags("list_lanes", &words(&["--actor", "a"])).is_ok());
}

#[test]
fn exit_codes_follow_the_status() {
    assert_eq!(exit_code_for_status(ActionStatus::Completed), 0);
    assert_eq!(exit_code_for_status(ActionStatus::Accepted), 0);
    assert_eq!(exit_code_for_status(ActionStatus::Applied), 0);
    assert_eq!(exit_code_for_status(ActionStatus::Error), 1);
    assert_eq!(exit_code_for_status(ActionStatus::Rejected), 1);
    assert_eq!(worst_exit_code(&vec![ActionStatus::Completed, ActionStatus::Error]), 1);
    assert_eq!(worst_exit_code(&vec![]), 0);
}

#[test]
fn queue_and_inspection_options_are_read() {
    let o = parse_queue_options(&words(&["--watch", "--poll-ms", "250"])).unwrap();
    assert!(o.watch && o.poll_ms == 250);
    assert!(!parse_queue_options(&vec![]).unwrap().watch);
    assert!(parse_queue_options(&words(&["--poll-ms", "x"])).is_err());
    assert!(parse_queue_options(&words(&["--wat"])).is_err());
    let i = parse_inspect_options(&words(&["--out", "/o"])).unwrap();
    assert_eq!(i.out_dir.as_deref(), Some("/o"));
    assert!(parse_inspect_options(&words(&["--wat"])).is_err());
}

#[test]
fn the_first_word_selects_the_entry() {
    assert!(matches!(cli_entry(None), Entry::Nothing));
    assert!(matches!(cli_entry(Some("--help")), Entry::Help));
    assert!(matches!(cli_entry(Some("run-queue")), Entry::RunQueue));
    assert!(matches!(cli_entry(Some("command")), Entry::CommandDocument));
    assert!(matches!(cli_entry(Some("list_lanes")), Entry::Kind));
}

#[test]
fn command_documents_come_from_text_or_file() {
    assert!(matches!(command_source(&words(&["--json", "{}"])), Ok(CommandSource::Json(s)) if s == "{}"));
    assert!(matches!(command_source(&words(&["/c.json"])), Ok(CommandSource::File(s)) if s == "/c.json"));
    assert!(command_source(&vec![]).is_err());
    assert!(command_source(&words(&["--json"])).is_err());
}

#[test]
fn other_flags_do_not_change_a_value() {
    let build = |flags: &[&str]| match build_command_from_flags("get_run_status", &words(flags)) {
        Ok(cmd) => match cmd.command {
            CommandKind::GetRunStatus { run_id } => run_id,
            other => panic!("unexpected command: {}", other.id_str()),
        },
        Err(error) => panic!("{error}"),
    };
    assert_eq!(build(&["--run-id", "r"]), "r");
    assert_eq!(build(&["--tab", "x", "--run-id", "r", "--in-place"]), "r");
}

#[test]
fn flag_errors_say_what_was_wrong() {
    let error = |kind: &str, flags: &[&str]| build_command_from_flags(kind, &words(flags)).unwrap_err();
    assert_eq!(error("get_state", &["--wat"]), "unknown flag --wat for kind get_state");
    assert_eq!(error("get_run_status", &["--run-id"]), "flag --run-id requires a value");
    assert_eq!(error("get_run_status", &[]), "get_run_status requires --run-id");
    assert_eq!(
        error("review_init", &["--shards", "two"]),
        "--shards expects a number, got 'two'"
    );
    assert_eq!(
        error("media_video_control", &["--value", "1.5"]),
        "--value expects an integer, got '1.5'"
    );
    assert_eq!(error("nope", &[]), "unknown command kind: nope");
    assert_eq!(
        error("media_select", &[]),
        "media_select requires one or more --file PATH"
    );
}
