//! Which flags a command cannot do without.

use crate::cli::{kind_refusal, CommandFlags};
use vstd::prelude::*;

verus! {

#[verifier::spinoff_prover]
proof fn lemma_names_a()
    ensures
        "list_features"@.len() == 13,
        "list_features"@[0] == 'l',
        "list_models"@.len() == 11,
        "list_models"@[0] == 'l',
        "list_models"@[1] == 'i',
        "list_worktrees"@.len() == 14,
        "list_worktrees"@[0] == 'l',
        "list_worktrees"@[5] == 'w',
        "get_state"@.len() == 9,
        "get_state"@[0] == 'g',
        "identity_status"@.len() == 15,
        "identity_status"@[0] == 'i',
        "calibrate_threshold"@.len() == 19,
        "calibrate_threshold"@[0] == 'c',
        "list_lanes"@.len() == 10,
        "list_lanes"@[0] == 'l',
        "scan_all_lanes"@.len() == 14,
        "scan_all_lanes"@[0] == 's',
        "lane_status"@.len() == 11,
        "lane_status"@[0] == 'l',
        "lane_status"@[1] == 'a',
        "start_all_lane_batches"@.len() == 22,
        "media_meta_list"@.len() == 15,
        "media_meta_list"@[0] == 'm',
        "media_labels_list"@.len() == 17,
        "media_labels_list"@[0] == 'm',
        "media_labels_list"@[6] == 'l',
        "media_fav_list"@.len() == 14,
        "media_fav_list"@[0] == 'm',
        "media_fav_list"@[6] == 'f',
{
    reveal_strlit("list_features");
    reveal_strlit("list_models");
    reveal_strlit("list_worktrees");
    reveal_strlit("get_state");
    reveal_strlit("identity_status");
    reveal_strlit("calibrate_threshold");
    reveal_strlit("list_lanes");
    reveal_strlit("scan_all_lanes");
    reveal_strlit("lane_status");
    reveal_strlit("start_all_lane_batches");
    reveal_strlit("media_meta_list");
    reveal_strlit("media_labels_list");
    reveal_strlit("media_fav_list");
}

#[verifier::spinoff_prover]
proof fn lemma_names_b()
    ensures
        "thumbs_gc"@.len() == 9,
        "thumbs_gc"@[0] == 't',
        "set_features"@.len() == 12,
        "set_features"@[4] == 'f',
        "set_in_place"@.len() == 12,
        "set_in_place"@[4] == 'i',
        "start_run_ui"@.len() == 12,
        "start_run_ui"@[4] == 't',
        "ui_snapshot"@.len() == 11,
        "ui_snapshot"@[0] == 'u',
        "media_open_selected"@.len() == 19,
        "media_open_selected"@[0] == 'm',
        "media_open_selected"@[6] == 'o',
        "start_run"@.len() == 9,
        "start_run"@[0] == 's',
        "start_run"@[1] == 't',
        "set_project"@.len() == 11,
        "set_project"@[0] == 's',
        "import_paths"@.len() == 12,
        "import_paths"@[4] == 'r',
        "get_run_status"@.len() == 14,
        "get_run_status"@[0] == 'g',
        "get_run_summary"@.len() == 15,
        "get_run_summary"@[0] == 'g',
        "list_artifacts"@.len() == 14,
        "list_artifacts"@[0] == 'l',
        "list_artifacts"@[5] == 'a',
        "sort_run"@.len() == 8,
        "sort_run"@[1] == 'o',
{
    reveal_strlit("thumbs_gc");
    reveal_strlit("set_features");
    reveal_strlit("set_in_place");
    reveal_strlit("start_run_ui");
    reveal_strlit("ui_snapshot");
    reveal_strlit("media_open_selected");
    reveal_strlit("start_run");
    reveal_strlit("set_project");
    reveal_strlit("import_paths");
    reveal_strlit("get_run_status");
    reveal_strlit("get_run_summary");
    reveal_strlit("list_artifacts");
    reveal_strlit("sort_run");
}

#[verifier::spinoff_prover]
proof fn lemma_names_c()
    ensures
        "read_artifact"@.len() == 13,
        "read_artifact"@[0] == 'r',
        "read_artifact"@[2] == 'a',
        "set_workspace_root"@.len() == 18,
        "set_workspace_root"@[0] == 's',
        "set_copy_location"@.len() == 17,
        "set_copy_location"@[0] == 's',
        "media_meta_get"@.len() == 14,
        "media_meta_get"@[0] == 'm',
        "media_meta_get"@[6] == 'm',
        "media_meta_get"@[11] == 'g',
        "media_meta_set"@.len() == 14,
        "media_meta_set"@[0] == 'm',
        "media_meta_set"@[6] == 'm',
        "media_meta_set"@[11] == 's',
        "media_fav_add"@.len() == 13,
        "media_fav_add"@[0] == 'm',
        "media_fav_remove"@.len() == 16,
        "media_fav_remove"@[6] == 'f',
        "identity_gate"@.len() == 13,
        "identity_gate"@[0] == 'i',
        "anchor_montage"@.len() == 14,
        "anchor_montage"@[0] == 'a',
        "identity_gate_dir"@.len() == 17,
        "identity_gate_dir"@[0] == 'i',
        "identity_dedup"@.len() == 14,
        "identity_dedup"@[0] == 'i',
        "render_eval"@.len() == 11,
        "render_eval"@[0] == 'r',
        "render_eval"@[2] == 'n',
        "review_init"@.len() == 11,
        "review_init"@[0] == 'r',
        "review_init"@[2] == 'v',
{
    reveal_strlit("read_artifact");
    reveal_strlit("set_workspace_root");
    reveal_strlit("set_copy_location");
    reveal_strlit("media_meta_get");
    reveal_strlit("media_meta_set");
    reveal_strlit("media_fav_add");
    reveal_strlit("media_fav_remove");
    reveal_strlit("identity_gate");
    reveal_strlit("anchor_montage");
    reveal_strlit("identity_gate_dir");
    reveal_strlit("identity_dedup");
    reveal_strlit("render_eval");
    reveal_strlit("review_init");
}

#[verifier::spinoff_prover]
proof fn lemma_names_d()
    ensures
        "media_index_build"@.len() == 17,
        "media_index_build"@[0] == 'm',
        "media_index_build"@[6] == 'i',
        "media_set_folder"@.len() == 16,
        "media_set_folder"@[6] == 's',
        "review_montage"@.len() == 14,
        "review_montage"@[0] == 'r',
        "review_claim"@.len() == 12,
        "review_claim"@[4] == 'e',
        "review_status"@.len() == 13,
        "review_status"@[0] == 'r',
        "review_status"@[2] == 'v',
        "review_status"@[7] == 's',
        "review_export"@.len() == 13,
        "review_export"@[0] == 'r',
        "review_export"@[2] == 'v',
        "review_export"@[7] == 'e',
        "review_decide"@.len() == 13,
        "review_decide"@[0] == 'r',
        "review_decide"@[2] == 'v',
        "review_decide"@[7] == 'd',
        "set_lane"@.len() == 8,
        "set_lane"@[1] == 'e',
        "scan_lane"@.len() == 9,
        "scan_lane"@[0] == 's',
        "scan_lane"@[1] == 'c',
        "claim_lane"@.len() == 10,
        "claim_lane"@[0] == 'c',
        "release_lane"@.len() == 12,
        "release_lane"@[0] == 'r',
        "release_lane"@[4] == 'a',
        "start_lane_batch"@.len() == 16,
        "start_lane_batch"@[6] == 'l',
        "media_label_configure"@.len() == 21,
        "media_label_configure"@[6] == 'l',
{
    reveal_strlit("media_index_build");
    reveal_strlit("media_set_folder");
    reveal_strlit("review_montage");
    reveal_strlit("review_claim");
    reveal_strlit("review_status");
    reveal_strlit("review_export");
    reveal_strlit("review_decide");
    reveal_strlit("set_lane");
    reveal_strlit("scan_lane");
    reveal_strlit("claim_lane");
    reveal_strlit("release_lane");
    reveal_strlit("start_lane_batch");
    reveal_strlit("media_label_configure");
}

#[verifier::spinoff_prover]
proof fn lemma_names_e()
    ensures
        "media_label_create"@.len() == 18,
        "media_label_create"@[0] == 'm',
        "media_label_create"@[12] == 'c',
        "media_label_update"@.len() == 18,
        "media_label_update"@[0] == 'm',
        "media_label_update"@[12] == 'u',
        "media_label_delete"@.len() == 18,
        "media_label_delete"@[0] == 'm',
        "media_label_delete"@[12] == 'd',
        "media_label_assign"@.len() == 18,
        "media_label_assign"@[0] == 'm',
        "media_label_assign"@[12] == 'a',
        "media_semantic_search"@.len() == 21,
        "media_semantic_search"@[6] == 's',
        "set_worktree"@.len() == 12,
        "set_worktree"@[4] == 'w',
        "select_tab"@.len() == 10,
        "select_tab"@[0] == 's',
        "media_search"@.len() == 12,
        "media_search"@[0] == 'm',
        "media_search"@[4] == 'a',
        "media_search"@[8] == 'a',
        "media_select"@.len() == 12,
        "media_select"@[0] == 'm',
        "media_select"@[4] == 'a',
        "media_select"@[8] == 'l',
        "media_tabs"@.len() == 10,
        "media_tabs"@[0] == 'm',
        "media_folder_navigate"@.len() == 21,
        "media_folder_navigate"@[6] == 'f',
        "media_video_control"@.len() == 19,
        "media_video_control"@[0] == 'm',
        "media_video_control"@[6] == 'v',
        "media_label_mutation"@.len() == 20,
{
    reveal_strlit("media_label_create");
    reveal_strlit("media_label_update");
    reveal_strlit("media_label_delete");
    reveal_strlit("media_label_assign");
    reveal_strlit("media_semantic_search");
    reveal_strlit("set_worktree");
    reveal_strlit("select_tab");
    reveal_strlit("media_search");
    reveal_strlit("media_select");
    reveal_strlit("media_tabs");
    reveal_strlit("media_folder_navigate");
    reveal_strlit("media_video_control");
    reveal_strlit("media_label_mutation");
}

/// These commands are never refused for want of a flag.
#[verifier::spinoff_prover]
pub proof fn some_commands_need_no_flags(kind: Seq<char>, f: CommandFlags)
    ensures
        kind == "list_features"@ || kind == "list_models"@ || kind == "list_worktrees"@
            || kind == "get_state"@ || kind == "identity_status"@ || kind == "calibrate_threshold"@
            || kind == "list_lanes"@ || kind == "scan_all_lanes"@ || kind == "lane_status"@
            || kind == "start_all_lane_batches"@ || kind == "media_meta_list"@
            || kind == "media_labels_list"@ || kind == "media_fav_list"@ || kind == "thumbs_gc"@
            || kind == "set_features"@ || kind == "set_in_place"@ || kind == "start_run_ui"@
            || kind == "ui_snapshot"@ || kind == "media_open_selected"@
            ==> kind_refusal(kind, f) is None,
{
    lemma_names_a();
    lemma_names_b();
    lemma_names_c();
    lemma_names_d();
    lemma_names_e();
}

/// A command on runs, files or faces is built exactly where the line names what it works on.
#[verifier::spinoff_prover]
pub proof fn runs_and_faces_need_their_flags(kind: Seq<char>, f: CommandFlags)
    ensures
        kind == "start_run"@ || kind == "set_project"@ || kind == "import_paths"@
            ==> (kind_refusal(kind, f) is None <==> f.project is Some),
        kind == "get_run_status"@ || kind == "get_run_summary"@ || kind == "list_artifacts"@
            || kind == "sort_run"@
            ==> (kind_refusal(kind, f) is None <==> f.run_id is Some),
        kind == "read_artifact"@ || kind == "set_workspace_root"@ || kind == "set_copy_location"@
            || kind == "media_meta_get"@ || kind == "media_meta_set"@ || kind == "media_fav_add"@
            || kind == "media_fav_remove"@
            ==> (kind_refusal(kind, f) is None <==> f.artifact_path is Some),
        kind == "identity_gate"@ || kind == "anchor_montage"@
            ==> (kind_refusal(kind, f) is None <==> (f.images@.len() > 0 || f.artifact_path is Some)),
        kind == "identity_gate_dir"@ || kind == "identity_dedup"@ || kind == "render_eval"@
            || kind == "review_init"@ || kind == "media_index_build"@ || kind == "media_set_folder"@
            ==> (kind_refusal(kind, f) is None <==> (f.dir is Some || f.artifact_path is Some)),
{
    lemma_names_a();
    lemma_names_b();
    lemma_names_c();
    lemma_names_d();
    lemma_names_e();
}

/// A command on a review or a lane is built exactly where the line names the review or the lane, and
/// all that the command is to do with it.
#[verifier::spinoff_prover]
pub proof fn reviews_and_lanes_need_their_flags(kind: Seq<char>, f: CommandFlags)
    ensures
        kind == "review_montage"@ || kind == "review_claim"@ || kind == "review_status"@
            ==> (kind_refusal(kind, f) is None <==> f.review.session is Some),
        kind == "review_export"@
            ==> (kind_refusal(kind, f) is None
                <==> f.review.session is Some && f.review.out is Some && f.review.name is Some),
        kind == "review_decide"@
            ==> (kind_refusal(kind, f) is None
                <==> f.review.session is Some && f.review.id is Some && f.review.decision is Some),
        kind == "set_lane"@ || kind == "scan_lane"@ || kind == "claim_lane"@
            || kind == "release_lane"@ || kind == "start_lane_batch"@
            ==> (kind_refusal(kind, f) is None <==> f.review.lane_id is Some),
{
    lemma_names_a();
    lemma_names_b();
    lemma_names_c();
    lemma_names_d();
    lemma_names_e();
}

/// A command on labels, and a search for media, is built exactly where the line names all of what it
/// is about.
#[verifier::spinoff_prover]
pub proof fn labels_and_searches_need_their_flags(kind: Seq<char>, f: CommandFlags)
    ensures
        kind == "media_label_configure"@
            ==> (kind_refusal(kind, f) is None
                <==> f.review.media_label is Some && f.review.name is Some
                && f.review.media_hex is Some),
        kind == "media_label_create"@
            ==> (kind_refusal(kind, f) is None
                <==> f.review.name is Some && f.review.media_hex is Some),
        kind == "media_label_update"@ || kind == "media_label_delete"@
            ==> (kind_refusal(kind, f) is None <==> f.review.media_label is Some),
        kind == "media_label_assign"@
            ==> (kind_refusal(kind, f) is None
                <==> f.artifact_path is Some && f.review.media_nav_action is Some),
        kind == "media_semantic_search"@
            ==> (kind_refusal(kind, f) is None <==> f.review.media_query is Some && (f.dir is Some || f.artifact_path is Some)),
{
    lemma_names_a();
    lemma_names_b();
    lemma_names_c();
    lemma_names_d();
    lemma_names_e();
}

/// A command for a live window is built exactly where the line names what the window is to do.
#[verifier::spinoff_prover]
pub proof fn windows_need_their_flags(kind: Seq<char>, f: CommandFlags)
    ensures
        kind == "set_worktree"@
            ==> (kind_refusal(kind, f) is None <==> f.worktree is Some),
        kind == "select_tab"@
            ==> (kind_refusal(kind, f) is None <==> f.tab is Some),
        kind == "media_search"@
            ==> (kind_refusal(kind, f) is None <==> f.review.media_query is Some),
        kind == "media_select"@
            ==> (kind_refusal(kind, f) is None <==> f.review.media_files@.len() > 0),
        kind == "media_tabs"@
            ==> (kind_refusal(kind, f) is None
                <==> f.review.media_label is None && f.review.media_nav_action is Some),
        kind == "media_folder_navigate"@ || kind == "media_video_control"@
            || kind == "media_label_mutation"@
            ==> (kind_refusal(kind, f) is None <==> f.review.media_nav_action is Some),
{
    lemma_names_a();
    lemma_names_b();
    lemma_names_c();
    lemma_names_d();
    lemma_names_e();
}

/// A word that names no command is refused.
pub proof fn unknown_commands_are_refused(kind: Seq<char>, f: CommandFlags)
    requires
        kind != "list_features"@,
        kind != "list_models"@,
        kind != "list_worktrees"@,
        kind != "get_state"@,
        kind != "identity_status"@,
        kind != "calibrate_threshold"@,
        kind != "list_lanes"@,
        kind != "scan_all_lanes"@,
        kind != "lane_status"@,
        kind != "start_all_lane_batches"@,
        kind != "media_meta_list"@,
        kind != "media_labels_list"@,
        kind != "media_fav_list"@,
        kind != "thumbs_gc"@,
        kind != "set_features"@,
        kind != "set_in_place"@,
        kind != "start_run_ui"@,
        kind != "ui_snapshot"@,
        kind != "media_open_selected"@,
        kind != "start_run"@,
        kind != "set_project"@,
        kind != "import_paths"@,
        kind != "get_run_status"@,
        kind != "get_run_summary"@,
        kind != "list_artifacts"@,
        kind != "sort_run"@,
        kind != "read_artifact"@,
        kind != "set_workspace_root"@,
        kind != "set_copy_location"@,
        kind != "media_meta_get"@,
        kind != "media_meta_set"@,
        kind != "media_fav_add"@,
        kind != "media_fav_remove"@,
        kind != "identity_gate"@,
        kind != "anchor_montage"@,
        kind != "identity_gate_dir"@,
        kind != "identity_dedup"@,
        kind != "render_eval"@,
        kind != "review_init"@,
        kind != "media_index_build"@,
        kind != "media_set_folder"@,
        kind != "review_montage"@,
        kind != "review_claim"@,
        kind != "review_status"@,
        kind != "review_export"@,
        kind != "review_decide"@,
        kind != "set_lane"@,
        kind != "scan_lane"@,
        kind != "claim_lane"@,
        kind != "release_lane"@,
        kind != "start_lane_batch"@,
        kind != "media_label_configure"@,
        kind != "media_label_create"@,
        kind != "media_label_update"@,
        kind != "media_label_delete"@,
        kind != "media_label_assign"@,
        kind != "media_semantic_search"@,
        kind != "set_worktree"@,
        kind != "select_tab"@,
        kind != "media_search"@,
        kind != "media_select"@,
        kind != "media_tabs"@,
        kind != "media_folder_navigate"@,
        kind != "media_video_control"@,
        kind != "media_label_mutation"@,
    ensures
        kind_refusal(kind, f) is Some,
{
}

} // verus!
