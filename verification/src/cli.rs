//! The command line: flags become commands.

use crate::api::{
    copy_text, default_dedup_threshold, ActionStatus, Command, CommandKind, API_PROTOCOL_VERSION,
};
use crate::intents::{is_tab, tab_known};
use crate::number::{
    float_text, is_float_text, parse_i64, parse_unsigned, parse_usize, signed_value, unsigned_value,
};
use crate::outside::{is_hyphenated, now_rfc3339, random_id};
use crate::text::{ascii_lower, cat, cat3, opt_text, str_eq, texts, to_ascii_lowercase};
use vstd::prelude::*;

verus! {

/// The flags beyond the basic ones.
#[derive(Debug)]
pub struct ReviewFlags {
    pub session: Option<String>,
    pub shards: Option<usize>,
    pub shard: Option<usize>,
    pub id: Option<String>,
    pub decision: Option<String>,
    pub reason: Option<String>,
    pub steal: bool,
    pub actor: Option<String>,
    pub gate_manifest: Option<String>,
    pub clusters: Option<String>,
    pub page: Option<usize>,
    pub face_crop: bool,
    pub filters: Vec<String>,
    pub out: Option<String>,
    pub repeats: Option<usize>,
    pub name: Option<String>,
    pub allow_partial: bool,
    pub threshold: Option<String>,
    pub lane_id: Option<String>,
    pub lane_name: Option<String>,
    pub lane_mode: Option<String>,
    pub lane_recursive: Option<bool>,
    pub concurrency_limit: Option<usize>,
    pub media_notes: Option<String>,
    pub media_tags: Option<String>,
    pub media_label: Option<String>,
    pub media_hex: Option<String>,
    pub media_confirm: bool,
    pub media_tag_filter: Option<String>,
    pub media_query: Option<String>,
    pub media_mode: Option<String>,
    pub media_files: Vec<String>,
    pub media_cap_mb: Option<u64>,
    pub media_nav_action: Option<String>,
    pub media_video_value: Option<i64>,
    pub media_tab_id: Option<String>,
}

/// All flags that build a command.
#[derive(Debug)]
pub struct CommandFlags {
    pub project: Option<String>,
    pub worktree: Option<String>,
    pub tab: Option<String>,
    pub run_id: Option<String>,
    pub artifact_path: Option<String>,
    pub features: Vec<String>,
    pub images: Vec<String>,
    pub dir: Option<String>,
    pub in_place: bool,
    pub keep_dir: Option<String>,
    pub cull_dir: Option<String>,
    pub review_dir: Option<String>,
    pub in_parent: bool,
    pub review: ReviewFlags,
}

pub open spec fn or_nothing(o: Option<String>) -> Seq<char> {
    match o {
        Some(s) => s@,
        None => Seq::empty(),
    }
}

pub open spec fn number_in(o: Option<usize>, otherwise: usize) -> usize {
    match o {
        Some(n) => n,
        None => otherwise,
    }
}

/// The image that is asked for: the first image, or else the path.
pub open spec fn image_given(f: CommandFlags) -> Option<Seq<char>> {
    if f.images@.len() > 0 {
        Some(f.images@[0]@)
    } else {
        opt_text(f.artifact_path)
    }
}

/// The folder that is asked for: the folder, or else the path.
pub open spec fn folder_given(f: CommandFlags) -> Option<Seq<char>> {
    if f.dir is Some {
        opt_text(f.dir)
    } else {
        opt_text(f.artifact_path)
    }
}

pub open spec fn threshold_given(f: CommandFlags) -> Seq<char> {
    match f.review.threshold {
        Some(t) => t@,
        None => "0.9"@,
    }
}

/// What a kind is refused with that lacks a flag.
pub open spec fn lacks(kind: Seq<char>, value: Option<Seq<char>>, label: Seq<char>) -> Option<
    Seq<char>,
> {
    if value is None {
        Some(kind + " requires "@ + label)
    } else {
        None
    }
}

pub open spec fn first_of(a: Option<Seq<char>>, b: Option<Seq<char>>) -> Option<Seq<char>> {
    if a is Some {
        a
    } else {
        b
    }
}

/// What a kind in lower case is refused with; `None` where the flags are enough to build it.
pub open spec fn kind_refusal(kind: Seq<char>, f: CommandFlags) -> Option<Seq<char>> {
    if kind == "list_features"@ || kind == "list_models"@ || kind == "list_worktrees"@ || kind == "get_state"@ {
        None
    } else if kind == "start_run"@ {
        lacks(kind, opt_text(f.project), "--project"@)
    } else if kind == "get_run_status"@ || kind == "get_run_summary"@ || kind == "list_artifacts"@ {
        lacks(kind, opt_text(f.run_id), "--run-id"@)
    } else if kind == "read_artifact"@ || kind == "set_workspace_root"@ || kind == "set_copy_location"@ {
        lacks(kind, opt_text(f.artifact_path), "--path"@)
    } else if kind == "sort_run"@ {
        lacks(kind, opt_text(f.run_id), "--run-id"@)
    } else if kind == "identity_status"@ {
        None
    } else if kind == "identity_gate"@ {
        lacks(kind, image_given(f), "--image or --path"@)
    } else if kind == "identity_gate_dir"@ || kind == "identity_dedup"@ || kind == "render_eval"@ {
        lacks(kind, folder_given(f), "--dir or --path"@)
    } else if kind == "calibrate_threshold"@ {
        None
    } else if kind == "anchor_montage"@ {
        lacks(kind, image_given(f), "--image or --path"@)
    } else if kind == "review_init"@ {
        lacks(kind, folder_given(f), "--dir or --path"@)
    } else if kind == "review_montage"@ {
        lacks(kind, opt_text(f.review.session), "--session"@)
    } else if kind == "review_export"@ {
        first_of(lacks(kind, opt_text(f.review.session), "--session"@), first_of(lacks(kind, opt_text(f.review.out), "--out"@), lacks(kind, opt_text(f.review.name), "--name"@)))
    } else if kind == "review_claim"@ {
        lacks(kind, opt_text(f.review.session), "--session"@)
    } else if kind == "review_decide"@ {
        first_of(lacks(kind, opt_text(f.review.session), "--session"@), first_of(lacks(kind, opt_text(f.review.id), "--id"@), lacks(kind, opt_text(f.review.decision), "--decision"@)))
    } else if kind == "review_status"@ {
        lacks(kind, opt_text(f.review.session), "--session"@)
    } else if kind == "list_lanes"@ {
        None
    } else if kind == "set_lane"@ || kind == "scan_lane"@ {
        lacks(kind, opt_text(f.review.lane_id), "--lane-id"@)
    } else if kind == "scan_all_lanes"@ {
        None
    } else if kind == "claim_lane"@ || kind == "release_lane"@ {
        lacks(kind, opt_text(f.review.lane_id), "--lane-id"@)
    } else if kind == "lane_status"@ {
        None
    } else if kind == "start_lane_batch"@ {
        lacks(kind, opt_text(f.review.lane_id), "--lane-id"@)
    } else if kind == "start_all_lane_batches"@ {
        None
    } else if kind == "media_meta_get"@ || kind == "media_meta_set"@ {
        lacks(kind, opt_text(f.artifact_path), "--path"@)
    } else if kind == "media_meta_list"@ || kind == "media_labels_list"@ {
        None
    } else if kind == "media_label_configure"@ {
        first_of(lacks(kind, opt_text(f.review.media_label), "--label"@), first_of(lacks(kind, opt_text(f.review.name), "--name"@), lacks(kind, opt_text(f.review.media_hex), "--hex"@)))
    } else if kind == "media_label_create"@ {
        first_of(lacks(kind, opt_text(f.review.name), "--name"@), lacks(kind, opt_text(f.review.media_hex), "--hex"@))
    } else if kind == "media_label_update"@ || kind == "media_label_delete"@ {
        lacks(kind, opt_text(f.review.media_label), "--label"@)
    } else if kind == "media_label_assign"@ {
        first_of(lacks(kind, opt_text(f.artifact_path), "--path"@), lacks(kind, opt_text(f.review.media_nav_action), "--action"@))
    } else if kind == "media_fav_add"@ || kind == "media_fav_remove"@ {
        lacks(kind, opt_text(f.artifact_path), "--path"@)
    } else if kind == "media_fav_list"@ || kind == "thumbs_gc"@ {
        None
    } else if kind == "media_index_build"@ {
        lacks(kind, folder_given(f), "--dir or --path"@)
    } else if kind == "media_semantic_search"@ {
        first_of(lacks(kind, opt_text(f.review.media_query), "--query"@), lacks(kind, folder_given(f), "--dir or --path"@))
    } else if kind == "set_project"@ {
        lacks(kind, opt_text(f.project), "--project"@)
    } else if kind == "set_worktree"@ {
        lacks(kind, opt_text(f.worktree), "--worktree"@)
    } else if kind == "select_tab"@ {
        lacks(kind, opt_text(f.tab), "--tab"@)
    } else if kind == "set_features"@ || kind == "set_in_place"@ {
        None
    } else if kind == "import_paths"@ {
        lacks(kind, opt_text(f.project), "--project"@)
    } else if kind == "start_run_ui"@ || kind == "ui_snapshot"@ {
        None
    } else if kind == "media_set_folder"@ {
        lacks(kind, folder_given(f), "--dir or --path"@)
    } else if kind == "media_search"@ {
        lacks(kind, opt_text(f.review.media_query), "--query"@)
    } else if kind == "media_select"@ {
        if f.review.media_files@.len() == 0 {
            Some(kind + " requires one or more --file PATH"@)
        } else {
            None
        }
    } else if kind == "media_open_selected"@ {
        None
    } else if kind == "media_tabs"@ {
        if f.review.media_label is Some {
            Some(kind + " does not take --label; select a label with --action open_collection --path labels:LABEL_ID"@)
        } else {
            lacks(kind, opt_text(f.review.media_nav_action), "--action"@)
        }
    } else if kind == "media_folder_navigate"@ || kind == "media_video_control"@ || kind == "media_label_mutation"@ {
        lacks(kind, opt_text(f.review.media_nav_action), "--action"@)
    } else {
        Some("unknown command kind: "@ + kind)
    }
}

/// Whether a command is the one that the flags ask for.
pub open spec fn built_from(c: CommandKind, f: CommandFlags) -> bool {
    match c {
        CommandKind::ListFeatures => true,
        CommandKind::ListModels => true,
        CommandKind::ListWorktrees => true,
        CommandKind::GetState => true,
        CommandKind::StartRun { project_name, image_paths, feature_keys, worktree_path, in_place } => {
            &&& f.project is Some && project_name == f.project->0
            &&& image_paths == f.images
            &&& feature_keys == f.features
            &&& worktree_path == f.worktree
            &&& in_place == f.in_place
        },
        CommandKind::GetRunStatus { run_id } => {
            &&& f.run_id is Some && run_id == f.run_id->0
        },
        CommandKind::GetRunSummary { run_id } => {
            &&& f.run_id is Some && run_id == f.run_id->0
        },
        CommandKind::ListArtifacts { run_id } => {
            &&& f.run_id is Some && run_id == f.run_id->0
        },
        CommandKind::ReadArtifact { path } => {
            &&& f.artifact_path is Some && path == f.artifact_path->0
        },
        CommandKind::SetWorkspaceRoot { path } => {
            &&& f.artifact_path is Some && path == f.artifact_path->0
        },
        CommandKind::SetCopyLocation { path } => {
            &&& f.artifact_path is Some && path == f.artifact_path->0
        },
        CommandKind::SortRun { run_id, in_parent, keep_dir, cull_dir, review_dir } => {
            &&& f.run_id is Some && run_id == f.run_id->0
            &&& in_parent == f.in_parent
            &&& keep_dir@ == or_nothing(f.keep_dir)
            &&& cull_dir@ == or_nothing(f.cull_dir)
            &&& review_dir@ == or_nothing(f.review_dir)
        },
        CommandKind::IdentityStatus => true,
        CommandKind::IdentityGate { image } => {
            &&& Some(image@) == image_given(f)
        },
        CommandKind::IdentityGateDir { dir } => {
            &&& Some(dir@) == folder_given(f)
        },
        CommandKind::IdentityDedup { dir, threshold } => {
            &&& Some(dir@) == folder_given(f)
            &&& threshold@ == threshold_given(f)
        },
        CommandKind::RenderEval { dir } => {
            &&& Some(dir@) == folder_given(f)
        },
        CommandKind::CalibrateThreshold => true,
        CommandKind::AnchorMontage { image } => {
            &&& Some(image@) == image_given(f)
        },
        CommandKind::ReviewInit { dir, shards, gate_manifest, clusters } => {
            &&& Some(dir@) == folder_given(f)
            &&& shards == number_in(f.review.shards, 1)
            &&& gate_manifest == f.review.gate_manifest
            &&& clusters == f.review.clusters
        },
        CommandKind::ReviewMontage { session, shard, page, face_crop, filters } => {
            &&& f.review.session is Some && session == f.review.session->0
            &&& shard == f.review.shard
            &&& page == number_in(f.review.page, 0)
            &&& face_crop == f.review.face_crop
            &&& filters == f.review.filters
        },
        CommandKind::ReviewExport { session, out, repeats, name, allow_partial } => {
            &&& f.review.session is Some && session == f.review.session->0
            &&& f.review.out is Some && out == f.review.out->0
            &&& repeats == number_in(f.review.repeats, 10)
            &&& f.review.name is Some && name == f.review.name->0
            &&& allow_partial == f.review.allow_partial
        },
        CommandKind::ReviewClaim { session, shard, actor, steal } => {
            &&& f.review.session is Some && session == f.review.session->0
            &&& shard == f.review.shard
            &&& actor@ == or_nothing(f.review.actor)
            &&& steal == f.review.steal
        },
        CommandKind::ReviewDecide { session, id, decision, reason, actor } => {
            &&& f.review.session is Some && session == f.review.session->0
            &&& f.review.id is Some && id == f.review.id->0
            &&& f.review.decision is Some && decision == f.review.decision->0
            &&& reason@ == or_nothing(f.review.reason)
            &&& actor@ == or_nothing(f.review.actor)
        },
        CommandKind::ReviewStatus { session } => {
            &&& f.review.session is Some && session == f.review.session->0
        },
        CommandKind::ListLanes => true,
        CommandKind::SetLane { lane_id, name, mode, folder, recursive, steal, feature_keys } => {
            &&& f.review.lane_id is Some && lane_id == f.review.lane_id->0
            &&& name == f.review.lane_name
            &&& mode == f.review.lane_mode
            &&& opt_text(folder) == folder_given(f)
            &&& recursive == f.review.lane_recursive
            &&& steal == f.review.steal
            &&& feature_keys == (if f.features@.len() == 0 { None } else { Some(f.features) })
        },
        CommandKind::ScanLane { lane_id, steal } => {
            &&& f.review.lane_id is Some && lane_id == f.review.lane_id->0
            &&& steal == f.review.steal
        },
        CommandKind::ScanAllLanes { steal } => {
            &&& steal == f.review.steal
        },
        CommandKind::ClaimLane { lane_id, actor, steal } => {
            &&& f.review.lane_id is Some && lane_id == f.review.lane_id->0
            &&& actor@ == or_nothing(f.review.actor)
            &&& steal == f.review.steal
        },
        CommandKind::ReleaseLane { lane_id, actor, steal } => {
            &&& f.review.lane_id is Some && lane_id == f.review.lane_id->0
            &&& actor@ == or_nothing(f.review.actor)
            &&& steal == f.review.steal
        },
        CommandKind::LaneStatus { lane_id } => {
            &&& lane_id == f.review.lane_id
        },
        CommandKind::StartLaneBatch { lane_id, project_name, feature_keys, in_place, steal } => {
            &&& f.review.lane_id is Some && lane_id == f.review.lane_id->0
            &&& project_name@ == or_nothing(f.project)
            &&& feature_keys == f.features
            &&& in_place == f.in_place
            &&& steal == f.review.steal
        },
        CommandKind::StartAllLaneBatches { project_name, feature_keys, concurrency_limit, in_place, steal } => {
            &&& project_name@ == or_nothing(f.project)
            &&& feature_keys == f.features
            &&& concurrency_limit == number_in(f.review.concurrency_limit, 2)
            &&& in_place == f.in_place
            &&& steal == f.review.steal
        },
        CommandKind::MediaMetaGet { path } => {
            &&& f.artifact_path is Some && path == f.artifact_path->0
        },
        CommandKind::MediaMetaSet { path, notes, tags, label } => {
            &&& f.artifact_path is Some && path == f.artifact_path->0
            &&& notes == f.review.media_notes
            &&& tags == f.review.media_tags
            &&& label == f.review.media_label
        },
        CommandKind::MediaMetaList { tag, label } => {
            &&& tag == f.review.media_tag_filter
            &&& label == f.review.media_label
        },
        CommandKind::MediaLabelsList => true,
        CommandKind::MediaLabelConfigure { id, name, hex } => {
            &&& f.review.media_label is Some && id == f.review.media_label->0
            &&& f.review.name is Some && name == f.review.name->0
            &&& f.review.media_hex is Some && hex == f.review.media_hex->0
        },
        CommandKind::MediaLabelCreate { name, hex, path } => {
            &&& f.review.name is Some && name == f.review.name->0
            &&& f.review.media_hex is Some && hex == f.review.media_hex->0
            &&& path == f.artifact_path
        },
        CommandKind::MediaLabelUpdate { id, name, hex } => {
            &&& f.review.media_label is Some && id == f.review.media_label->0
            &&& name == f.review.name
            &&& hex == f.review.media_hex
        },
        CommandKind::MediaLabelDelete { id, confirmed } => {
            &&& f.review.media_label is Some && id == f.review.media_label->0
            &&& confirmed == f.review.media_confirm
        },
        CommandKind::MediaLabelAssign { path, id, action } => {
            &&& f.artifact_path is Some && path == f.artifact_path->0
            &&& id == f.review.media_label
            &&& f.review.media_nav_action is Some && action@ == ascii_lower(f.review.media_nav_action->0@)
        },
        CommandKind::MediaFavAdd { path } => {
            &&& f.artifact_path is Some && path == f.artifact_path->0
        },
        CommandKind::MediaFavRemove { path } => {
            &&& f.artifact_path is Some && path == f.artifact_path->0
        },
        CommandKind::MediaFavList => true,
        CommandKind::ThumbsGc { cap_mb } => {
            &&& cap_mb == f.review.media_cap_mb
        },
        CommandKind::MediaIndexBuild { dir, recursive } => {
            &&& Some(dir@) == folder_given(f)
            &&& recursive == (f.review.lane_recursive == Some(true))
        },
        CommandKind::MediaSemanticSearch { query, dir, limit } => {
            &&& f.review.media_query is Some && query == f.review.media_query->0
            &&& Some(dir@) == folder_given(f)
            &&& limit == f.review.concurrency_limit
        },
        CommandKind::SetProject { project_name } => {
            &&& f.project is Some && project_name == f.project->0
        },
        CommandKind::SetWorktree { worktree_path } => {
            &&& f.worktree is Some && worktree_path == f.worktree->0
        },
        CommandKind::SelectTab { tab } => {
            &&& f.tab is Some && tab == f.tab->0
        },
        CommandKind::SetFeatures { feature_keys } => {
            &&& feature_keys == f.features
        },
        CommandKind::SetInPlace { in_place } => {
            &&& in_place == f.in_place
        },
        CommandKind::ImportPaths { project_name, paths, in_place } => {
            &&& f.project is Some && project_name == f.project->0
            &&& paths == f.images
            &&& in_place == f.in_place
        },
        CommandKind::StartRunUi => true,
        CommandKind::UiSnapshot { output } => {
            &&& output == f.review.out
        },
        CommandKind::MediaSetFolder { path } => {
            &&& Some(path@) == folder_given(f)
        },
        CommandKind::MediaSearch { query, mode } => {
            &&& f.review.media_query is Some && query == f.review.media_query->0
            &&& mode == f.review.media_mode
        },
        CommandKind::MediaSelect { paths } => {
            &&& paths == f.review.media_files
        },
        CommandKind::MediaOpenSelected => true,
        CommandKind::MediaTabs { action, tab_id, path } => {
            &&& f.review.media_nav_action is Some && action@ == ascii_lower(f.review.media_nav_action->0@)
            &&& tab_id == f.review.media_tab_id
            &&& path == f.artifact_path
        },
        CommandKind::MediaFolderNavigate { action } => {
            &&& f.review.media_nav_action is Some && action@ == ascii_lower(f.review.media_nav_action->0@)
        },
        CommandKind::MediaVideoControl { action, value, output } => {
            &&& f.review.media_nav_action is Some && action@ == ascii_lower(f.review.media_nav_action->0@)
            &&& value == f.review.media_video_value
            &&& output == f.review.out
        },
        CommandKind::MediaLabelMutation { action, path, id, name, hex, confirmed } => {
            &&& f.review.media_nav_action is Some && action@ == ascii_lower(f.review.media_nav_action->0@)
            &&& path == f.artifact_path
            &&& id == f.review.media_label
            &&& name == f.review.name
            &&& hex == f.review.media_hex
            &&& confirmed == f.review.media_confirm
        },
    }
}

fn missing(k: &str, given: bool, label: &str) -> (r: Option<String>)
    ensures
        match r {
            Some(e) => !given && e@ == k@ + " requires "@ + label@,
            None => given,
        },
{
    if given {
        None
    } else {
        Some(cat3(k, " requires ", label))
    }
}

fn refuse_kind(k: &str, f: &CommandFlags) -> (r: Option<String>)
    ensures
        opt_text(r) == kind_refusal(k@, *f),
{
    if str_eq(k, "list_features") || str_eq(k, "list_models") || str_eq(k, "list_worktrees") || str_eq(k, "get_state") {
        None
    } else if str_eq(k, "start_run") {
        missing(k, f.project.is_some(), "--project")
    } else if str_eq(k, "get_run_status") || str_eq(k, "get_run_summary") || str_eq(k, "list_artifacts") {
        missing(k, f.run_id.is_some(), "--run-id")
    } else if str_eq(k, "read_artifact") || str_eq(k, "set_workspace_root") || str_eq(k, "set_copy_location") {
        missing(k, f.artifact_path.is_some(), "--path")
    } else if str_eq(k, "sort_run") {
        missing(k, f.run_id.is_some(), "--run-id")
    } else if str_eq(k, "identity_status") {
        None
    } else if str_eq(k, "identity_gate") {
        missing(k, f.images.len() > 0 || f.artifact_path.is_some(), "--image or --path")
    } else if str_eq(k, "identity_gate_dir") || str_eq(k, "identity_dedup") || str_eq(k, "render_eval") {
        missing(k, f.dir.is_some() || f.artifact_path.is_some(), "--dir or --path")
    } else if str_eq(k, "calibrate_threshold") {
        None
    } else if str_eq(k, "anchor_montage") {
        missing(k, f.images.len() > 0 || f.artifact_path.is_some(), "--image or --path")
    } else if str_eq(k, "review_init") {
        missing(k, f.dir.is_some() || f.artifact_path.is_some(), "--dir or --path")
    } else if str_eq(k, "review_montage") {
        missing(k, f.review.session.is_some(), "--session")
    } else if str_eq(k, "review_export") {
        match missing(k, f.review.session.is_some(), "--session") {
            Some(e) => Some(e),
            None => match missing(k, f.review.out.is_some(), "--out") {
            Some(e) => Some(e),
            None => missing(k, f.review.name.is_some(), "--name"),
        },
        }
    } else if str_eq(k, "review_claim") {
        missing(k, f.review.session.is_some(), "--session")
    } else if str_eq(k, "review_decide") {
        match missing(k, f.review.session.is_some(), "--session") {
            Some(e) => Some(e),
            None => match missing(k, f.review.id.is_some(), "--id") {
            Some(e) => Some(e),
            None => missing(k, f.review.decision.is_some(), "--decision"),
        },
        }
    } else if str_eq(k, "review_status") {
        missing(k, f.review.session.is_some(), "--session")
    } else if str_eq(k, "list_lanes") {
        None
    } else if str_eq(k, "set_lane") || str_eq(k, "scan_lane") {
        missing(k, f.review.lane_id.is_some(), "--lane-id")
    } else if str_eq(k, "scan_all_lanes") {
        None
    } else if str_eq(k, "claim_lane") || str_eq(k, "release_lane") {
        missing(k, f.review.lane_id.is_some(), "--lane-id")
    } else if str_eq(k, "lane_status") {
        None
    } else if str_eq(k, "start_lane_batch") {
        missing(k, f.review.lane_id.is_some(), "--lane-id")
    } else if str_eq(k, "start_all_lane_batches") {
        None
    } else if str_eq(k, "media_meta_get") || str_eq(k, "media_meta_set") {
        missing(k, f.artifact_path.is_some(), "--path")
    } else if str_eq(k, "media_meta_list") || str_eq(k, "media_labels_list") {
        None
    } else if str_eq(k, "media_label_configure") {
        match missing(k, f.review.media_label.is_some(), "--label") {
            Some(e) => Some(e),
            None => match missing(k, f.review.name.is_some(), "--name") {
            Some(e) => Some(e),
            None => missing(k, f.review.media_hex.is_some(), "--hex"),
        },
        }
    } else if str_eq(k, "media_label_create") {
        match missing(k, f.review.name.is_some(), "--name") {
            Some(e) => Some(e),
            None => missing(k, f.review.media_hex.is_some(), "--hex"),
        }
    } else if str_eq(k, "media_label_update") || str_eq(k, "media_label_delete") {
        missing(k, f.review.media_label.is_some(), "--label")
    } else if str_eq(k, "media_label_assign") {
        match missing(k, f.artifact_path.is_some(), "--path") {
            Some(e) => Some(e),
            None => missing(k, f.review.media_nav_action.is_some(), "--action"),
        }
    } else if str_eq(k, "media_fav_add") || str_eq(k, "media_fav_remove") {
        missing(k, f.artifact_path.is_some(), "--path")
    } else if str_eq(k, "media_fav_list") || str_eq(k, "thumbs_gc") {
        None
    } else if str_eq(k, "media_index_build") {
        missing(k, f.dir.is_some() || f.artifact_path.is_some(), "--dir or --path")
    } else if str_eq(k, "media_semantic_search") {
        match missing(k, f.review.media_query.is_some(), "--query") {
            Some(e) => Some(e),
            None => missing(k, f.dir.is_some() || f.artifact_path.is_some(), "--dir or --path"),
        }
    } else if str_eq(k, "set_project") {
        missing(k, f.project.is_some(), "--project")
    } else if str_eq(k, "set_worktree") {
        missing(k, f.worktree.is_some(), "--worktree")
    } else if str_eq(k, "select_tab") {
        missing(k, f.tab.is_some(), "--tab")
    } else if str_eq(k, "set_features") || str_eq(k, "set_in_place") {
        None
    } else if str_eq(k, "import_paths") {
        missing(k, f.project.is_some(), "--project")
    } else if str_eq(k, "start_run_ui") || str_eq(k, "ui_snapshot") {
        None
    } else if str_eq(k, "media_set_folder") {
        missing(k, f.dir.is_some() || f.artifact_path.is_some(), "--dir or --path")
    } else if str_eq(k, "media_search") {
        missing(k, f.review.media_query.is_some(), "--query")
    } else if str_eq(k, "media_select") {
        if f.review.media_files.len() == 0 {
            Some(cat(k, " requires one or more --file PATH"))
        } else {
            None
        }
    } else if str_eq(k, "media_open_selected") {
        None
    } else if str_eq(k, "media_tabs") {
        if f.review.media_label.is_some() {
            Some(cat(k, " does not take --label; select a label with --action open_collection --path labels:LABEL_ID"))
        } else {
            missing(k, f.review.media_nav_action.is_some(), "--action")
        }
    } else if str_eq(k, "media_folder_navigate") || str_eq(k, "media_video_control") || str_eq(k, "media_label_mutation") {
        missing(k, f.review.media_nav_action.is_some(), "--action")
    } else {
        Some(cat("unknown command kind: ", k))
    }
}

fn take(o: Option<String>) -> (r: String)
    requires
        o is Some,
    ensures
        o == Some(r),
{
    match o {
        Some(s) => s,
        None => String::new(),
    }
}

fn text_or_empty(o: Option<String>) -> (r: String)
    ensures
        r@ == or_nothing(o),
{
    match o {
        Some(s) => s,
        None => {
            let r = String::new();
            assert(r@ =~= Seq::<char>::empty());
            r
        },
    }
}

fn number_or(o: Option<usize>, otherwise: usize) -> (r: usize)
    ensures
        r == number_in(o, otherwise),
{
    match o {
        Some(n) => n,
        None => otherwise,
    }
}

fn either(a: Option<String>, b: Option<String>) -> (r: Option<String>)
    ensures
        r == if a is Some {
            a
        } else {
            b
        },
{
    match a {
        Some(s) => Some(s),
        None => b,
    }
}

fn first_or(list: Vec<String>, otherwise: Option<String>) -> (r: String)
    requires
        list@.len() > 0 || otherwise is Some,
    ensures
        r@ == if list@.len() > 0 {
            list@[0]@
        } else {
            otherwise->0@
        },
{
    if list.len() > 0 {
        list[0].clone()
    } else {
        take(otherwise)
    }
}

fn lowered(o: Option<String>) -> (r: String)
    requires
        o is Some,
    ensures
        r@ == ascii_lower(o->0@),
{
    let s = take(o);
    to_ascii_lowercase(s.as_str())
}

#[verifier::rlimit(40)]
fn build_kind(k: &str, f: CommandFlags) -> (r: CommandKind)
    requires
        kind_refusal(k@, f) is None,
    ensures
        r.id() == k@,
        built_from(r, f),
{
    if str_eq(k, "list_features") {
        CommandKind::ListFeatures
    } else if str_eq(k, "list_models") {
        CommandKind::ListModels
    } else if str_eq(k, "list_worktrees") {
        CommandKind::ListWorktrees
    } else if str_eq(k, "get_state") {
        CommandKind::GetState
    } else if str_eq(k, "start_run") {
        CommandKind::StartRun {
            project_name: take(f.project),
            image_paths: f.images,
            feature_keys: f.features,
            worktree_path: f.worktree,
            in_place: f.in_place,
        }
    } else if str_eq(k, "get_run_status") {
        CommandKind::GetRunStatus {
            run_id: take(f.run_id),
        }
    } else if str_eq(k, "get_run_summary") {
        CommandKind::GetRunSummary {
            run_id: take(f.run_id),
        }
    } else if str_eq(k, "list_artifacts") {
        CommandKind::ListArtifacts {
            run_id: take(f.run_id),
        }
    } else if str_eq(k, "read_artifact") {
        CommandKind::ReadArtifact {
            path: take(f.artifact_path),
        }
    } else if str_eq(k, "set_workspace_root") {
        CommandKind::SetWorkspaceRoot {
            path: take(f.artifact_path),
        }
    } else if str_eq(k, "set_copy_location") {
        CommandKind::SetCopyLocation {
            path: take(f.artifact_path),
        }
    } else if str_eq(k, "sort_run") {
        CommandKind::SortRun {
            run_id: take(f.run_id),
            in_parent: f.in_parent,
            keep_dir: text_or_empty(f.keep_dir),
            cull_dir: text_or_empty(f.cull_dir),
            review_dir: text_or_empty(f.review_dir),
        }
    } else if str_eq(k, "identity_status") {
        CommandKind::IdentityStatus
    } else if str_eq(k, "identity_gate") {
        CommandKind::IdentityGate {
            image: first_or(f.images, f.artifact_path),
        }
    } else if str_eq(k, "identity_gate_dir") {
        CommandKind::IdentityGateDir {
            dir: take(either(f.dir, f.artifact_path)),
        }
    } else if str_eq(k, "identity_dedup") {
        CommandKind::IdentityDedup {
            dir: take(either(f.dir, f.artifact_path)),
            threshold: match f.review.threshold {
                Some(t) => t,
                None => default_dedup_threshold().to_owned(),
            },
        }
    } else if str_eq(k, "render_eval") {
        CommandKind::RenderEval {
            dir: take(either(f.dir, f.artifact_path)),
        }
    } else if str_eq(k, "calibrate_threshold") {
        CommandKind::CalibrateThreshold
    } else if str_eq(k, "anchor_montage") {
        CommandKind::AnchorMontage {
            image: first_or(f.images, f.artifact_path),
        }
    } else if str_eq(k, "review_init") {
        CommandKind::ReviewInit {
            dir: take(either(f.dir, f.artifact_path)),
            shards: number_or(f.review.shards, 1),
            gate_manifest: f.review.gate_manifest,
            clusters: f.review.clusters,
        }
    } else if str_eq(k, "review_montage") {
        CommandKind::ReviewMontage {
            session: take(f.review.session),
            shard: f.review.shard,
            page: number_or(f.review.page, 0),
            face_crop: f.review.face_crop,
            filters: f.review.filters,
        }
    } else if str_eq(k, "review_export") {
        CommandKind::ReviewExport {
            session: take(f.review.session),
            out: take(f.review.out),
            repeats: number_or(f.review.repeats, 10),
            name: take(f.review.name),
            allow_partial: f.review.allow_partial,
        }
    } else if str_eq(k, "review_claim") {
        CommandKind::ReviewClaim {
            session: take(f.review.session),
            shard: f.review.shard,
            actor: text_or_empty(f.review.actor),
            steal: f.review.steal,
        }
    } else if str_eq(k, "review_decide") {
        CommandKind::ReviewDecide {
            session: take(f.review.session),
            id: take(f.review.id),
            decision: take(f.review.decision),
            reason: text_or_empty(f.review.reason),
            actor: text_or_empty(f.review.actor),
        }
    } else if str_eq(k, "review_status") {
        CommandKind::ReviewStatus {
            session: take(f.review.session),
        }
    } else if str_eq(k, "list_lanes") {
        CommandKind::ListLanes
    } else if str_eq(k, "set_lane") {
        CommandKind::SetLane {
            lane_id: take(f.review.lane_id),
            name: f.review.lane_name,
            mode: f.review.lane_mode,
            folder: either(f.dir, f.artifact_path),
            recursive: f.review.lane_recursive,
            steal: f.review.steal,
            feature_keys: if f.features.len() == 0 {
                None
            } else {
                Some(f.features)
            },
        }
    } else if str_eq(k, "scan_lane") {
        CommandKind::ScanLane {
            lane_id: take(f.review.lane_id),
            steal: f.review.steal,
        }
    } else if str_eq(k, "scan_all_lanes") {
        CommandKind::ScanAllLanes {
            steal: f.review.steal,
        }
    } else if str_eq(k, "claim_lane") {
        CommandKind::ClaimLane {
            lane_id: take(f.review.lane_id),
            actor: text_or_empty(f.review.actor),
            steal: f.review.steal,
        }
    } else if str_eq(k, "release_lane") {
        CommandKind::ReleaseLane {
            lane_id: take(f.review.lane_id),
            actor: text_or_empty(f.review.actor),
            steal: f.review.steal,
        }
    } else if str_eq(k, "lane_status") {
        CommandKind::LaneStatus {
            lane_id: f.review.lane_id,
        }
    } else if str_eq(k, "start_lane_batch") {
        CommandKind::StartLaneBatch {
            lane_id: take(f.review.lane_id),
            project_name: text_or_empty(f.project),
            feature_keys: f.features,
            in_place: f.in_place,
            steal: f.review.steal,
        }
    } else if str_eq(k, "start_all_lane_batches") {
        CommandKind::StartAllLaneBatches {
            project_name: text_or_empty(f.project),
            feature_keys: f.features,
            concurrency_limit: number_or(f.review.concurrency_limit, 2),
            in_place: f.in_place,
            steal: f.review.steal,
        }
    } else if str_eq(k, "media_meta_get") {
        CommandKind::MediaMetaGet {
            path: take(f.artifact_path),
        }
    } else if str_eq(k, "media_meta_set") {
        CommandKind::MediaMetaSet {
            path: take(f.artifact_path),
            notes: f.review.media_notes,
            tags: f.review.media_tags,
            label: f.review.media_label,
        }
    } else if str_eq(k, "media_meta_list") {
        CommandKind::MediaMetaList {
            tag: f.review.media_tag_filter,
            label: f.review.media_label,
        }
    } else if str_eq(k, "media_labels_list") {
        CommandKind::MediaLabelsList
    } else if str_eq(k, "media_label_configure") {
        CommandKind::MediaLabelConfigure {
            id: take(f.review.media_label),
            name: take(f.review.name),
            hex: take(f.review.media_hex),
        }
    } else if str_eq(k, "media_label_create") {
        CommandKind::MediaLabelCreate {
            name: take(f.review.name),
            hex: take(f.review.media_hex),
            path: f.artifact_path,
        }
    } else if str_eq(k, "media_label_update") {
        CommandKind::MediaLabelUpdate {
            id: take(f.review.media_label),
            name: f.review.name,
            hex: f.review.media_hex,
        }
    } else if str_eq(k, "media_label_delete") {
        CommandKind::MediaLabelDelete {
            id: take(f.review.media_label),
            confirmed: f.review.media_confirm,
        }
    } else if str_eq(k, "media_label_assign") {
        CommandKind::MediaLabelAssign {
            path: take(f.artifact_path),
            id: f.review.media_label,
            action: lowered(f.review.media_nav_action),
        }
    } else if str_eq(k, "media_fav_add") {
        CommandKind::MediaFavAdd {
            path: take(f.artifact_path),
        }
    } else if str_eq(k, "media_fav_remove") {
        CommandKind::MediaFavRemove {
            path: take(f.artifact_path),
        }
    } else if str_eq(k, "media_fav_list") {
        CommandKind::MediaFavList
    } else if str_eq(k, "thumbs_gc") {
        CommandKind::ThumbsGc {
            cap_mb: f.review.media_cap_mb,
        }
    } else if str_eq(k, "media_index_build") {
        CommandKind::MediaIndexBuild {
            dir: take(either(f.dir, f.artifact_path)),
            recursive: match f.review.lane_recursive {
                Some(b) => b,
                None => false,
            },
        }
    } else if str_eq(k, "media_semantic_search") {
        CommandKind::MediaSemanticSearch {
            query: take(f.review.media_query),
            dir: take(either(f.dir, f.artifact_path)),
            limit: f.review.concurrency_limit,
        }
    } else if str_eq(k, "set_project") {
        CommandKind::SetProject {
            project_name: take(f.project),
        }
    } else if str_eq(k, "set_worktree") {
        CommandKind::SetWorktree {
            worktree_path: take(f.worktree),
        }
    } else if str_eq(k, "select_tab") {
        CommandKind::SelectTab {
            tab: take(f.tab),
        }
    } else if str_eq(k, "set_features") {
        CommandKind::SetFeatures {
            feature_keys: f.features,
        }
    } else if str_eq(k, "set_in_place") {
        CommandKind::SetInPlace {
            in_place: f.in_place,
        }
    } else if str_eq(k, "import_paths") {
        CommandKind::ImportPaths {
            project_name: take(f.project),
            paths: f.images,
            in_place: f.in_place,
        }
    } else if str_eq(k, "start_run_ui") {
        CommandKind::StartRunUi
    } else if str_eq(k, "ui_snapshot") {
        CommandKind::UiSnapshot {
            output: f.review.out,
        }
    } else if str_eq(k, "media_set_folder") {
        CommandKind::MediaSetFolder {
            path: take(either(f.dir, f.artifact_path)),
        }
    } else if str_eq(k, "media_search") {
        CommandKind::MediaSearch {
            query: take(f.review.media_query),
            mode: f.review.media_mode,
        }
    } else if str_eq(k, "media_select") {
        CommandKind::MediaSelect {
            paths: f.review.media_files,
        }
    } else if str_eq(k, "media_open_selected") {
        CommandKind::MediaOpenSelected
    } else if str_eq(k, "media_tabs") {
        CommandKind::MediaTabs {
            action: lowered(f.review.media_nav_action),
            tab_id: f.review.media_tab_id,
            path: f.artifact_path,
        }
    } else if str_eq(k, "media_folder_navigate") {
        CommandKind::MediaFolderNavigate {
            action: lowered(f.review.media_nav_action),
        }
    } else if str_eq(k, "media_video_control") {
        CommandKind::MediaVideoControl {
            action: lowered(f.review.media_nav_action),
            value: f.review.media_video_value,
            output: f.review.out,
        }
    } else {
        CommandKind::MediaLabelMutation {
            action: lowered(f.review.media_nav_action),
            path: f.artifact_path,
            id: f.review.media_label,
            name: f.review.name,
            hex: f.review.media_hex,
            confirmed: f.review.media_confirm,
        }
    }
}

/// The command that a kind and its flags ask for. The kind may be written in any case.
pub fn kind_from_flags(kind: &str, flags: CommandFlags) -> (r: Result<CommandKind, String>)
    ensures
        match r {
            Ok(c) => {
                &&& kind_refusal(ascii_lower(kind@), flags) is None
                &&& c.id() == ascii_lower(kind@)
                &&& built_from(c, flags)
            },
            Err(e) => kind_refusal(ascii_lower(kind@), flags) == Some(e@),
        },
{
    let lower = to_ascii_lowercase(kind);
    match refuse_kind(lower.as_str(), &flags) {
        Some(e) => Err(e),
        None => Ok(build_kind(lower.as_str(), flags)),
    }
}

/// The command that a kind and its flags ask for.
pub fn command_kind_from_flags(
    kind: &str,
    project: Option<String>,
    worktree: Option<String>,
    tab: Option<String>,
    run_id: Option<String>,
    artifact_path: Option<String>,
    features: Vec<String>,
    images: Vec<String>,
    dir: Option<String>,
    in_place: bool,
    keep_dir: Option<String>,
    cull_dir: Option<String>,
    review_dir: Option<String>,
    in_parent: bool,
    review: ReviewFlags,
) -> (r: Result<CommandKind, String>)
    ensures
        ({
            let flags = CommandFlags {
                project,
                worktree,
                tab,
                run_id,
                artifact_path,
                features,
                images,
                dir,
                in_place,
                keep_dir,
                cull_dir,
                review_dir,
                in_parent,
                review,
            };
            match r {
                Ok(c) => {
                    &&& kind_refusal(ascii_lower(kind@), flags) is None
                    &&& c.id() == ascii_lower(kind@)
                    &&& built_from(c, flags)
                },
                Err(e) => kind_refusal(ascii_lower(kind@), flags) == Some(e@),
            }
        }),
{
    kind_from_flags(
        kind,
        CommandFlags {
            project,
            worktree,
            tab,
            run_id,
            artifact_path,
            features,
            images,
            dir,
            in_place,
            keep_dir,
            cull_dir,
            review_dir,
            in_parent,
            review,
        },
    )
}

/// What a flag takes.
#[derive(Clone, Copy, Debug, PartialEq, Eq, Structural)]
pub enum FlagShape {
    Switch,
    Text,
    /// A count of the machine's word.
    Count,
    /// A count of 64 bits.
    Wide,
    Signed,
    /// A decimal fraction.
    Fraction,
}

/// What a flag takes; `None` for one that is not known.
pub open spec fn shape_of(flag: Seq<char>) -> Option<FlagShape> {
    if flag == "--in-place"@ || flag == "--in-parent"@ || flag == "--steal"@
        || flag == "--face-crop"@ || flag == "--allow-partial"@ || flag == "--recursive"@
        || flag == "--no-recursive"@ || flag == "--confirm"@ || flag == "--confirmed"@ {
        Some(FlagShape::Switch)
    } else if flag == "--action-id"@ || flag == "--actor"@ || flag == "--project"@
        || flag == "--worktree"@ || flag == "--tab"@ || flag == "--run-id"@ || flag == "--path"@
        || flag == "--feature"@ || flag == "--features"@ || flag == "--image"@
        || flag == "--images"@ || flag == "--dir"@ || flag == "--session"@ || flag == "--id"@
        || flag == "--decision"@ || flag == "--reason"@ || flag == "--gate-manifest"@
        || flag == "--clusters"@ || flag == "--filter"@ || flag == "--out"@ || flag == "--name"@
        || flag == "--lane-id"@ || flag == "--lane-name"@ || flag == "--lane-mode"@
        || flag == "--keep-dir"@ || flag == "--cull-dir"@ || flag == "--review-dir"@
        || flag == "--notes"@ || flag == "--tags"@ || flag == "--label"@ || flag == "--hex"@
        || flag == "--tag"@ || flag == "--query"@ || flag == "--mode"@ || flag == "--file"@
        || flag == "--files"@ || flag == "--action"@ || flag == "--tab-id"@ {
        Some(FlagShape::Text)
    } else if flag == "--shards"@ || flag == "--shard"@ || flag == "--page"@
        || flag == "--repeats"@ || flag == "--concurrency"@ || flag == "--concurrency-limit"@ {
        Some(FlagShape::Count)
    } else if flag == "--cap-mb"@ {
        Some(FlagShape::Wide)
    } else if flag == "--value"@ {
        Some(FlagShape::Signed)
    } else if flag == "--threshold"@ {
        Some(FlagShape::Fraction)
    } else {
        None
    }
}

fn find_shape(flag: &str) -> (r: Option<FlagShape>)
    ensures
        r == shape_of(flag@),
{
    if str_eq(flag, "--in-place") || str_eq(flag, "--in-parent") || str_eq(flag, "--steal")
        || str_eq(flag, "--face-crop") || str_eq(flag, "--allow-partial")
        || str_eq(flag, "--recursive") || str_eq(flag, "--no-recursive")
        || str_eq(flag, "--confirm") || str_eq(flag, "--confirmed") {
        Some(FlagShape::Switch)
    } else if str_eq(flag, "--action-id") || str_eq(flag, "--actor") || str_eq(flag, "--project")
        || str_eq(flag, "--worktree") || str_eq(flag, "--tab") || str_eq(flag, "--run-id")
        || str_eq(flag, "--path") || str_eq(flag, "--feature") || str_eq(flag, "--features")
        || str_eq(flag, "--image") || str_eq(flag, "--images") || str_eq(flag, "--dir")
        || str_eq(flag, "--session") || str_eq(flag, "--id") || str_eq(flag, "--decision")
        || str_eq(flag, "--reason") || str_eq(flag, "--gate-manifest")
        || str_eq(flag, "--clusters") || str_eq(flag, "--filter") || str_eq(flag, "--out")
        || str_eq(flag, "--name") || str_eq(flag, "--lane-id") || str_eq(flag, "--lane-name")
        || str_eq(flag, "--lane-mode") || str_eq(flag, "--keep-dir") || str_eq(flag, "--cull-dir")
        || str_eq(flag, "--review-dir") || str_eq(flag, "--notes") || str_eq(flag, "--tags")
        || str_eq(flag, "--label") || str_eq(flag, "--hex") || str_eq(flag, "--tag")
        || str_eq(flag, "--query") || str_eq(flag, "--mode") || str_eq(flag, "--file")
        || str_eq(flag, "--files") || str_eq(flag, "--action") || str_eq(flag, "--tab-id") {
        Some(FlagShape::Text)
    } else if str_eq(flag, "--shards") || str_eq(flag, "--shard") || str_eq(flag, "--page")
        || str_eq(flag, "--repeats") || str_eq(flag, "--concurrency")
        || str_eq(flag, "--concurrency-limit") {
        Some(FlagShape::Count)
    } else if str_eq(flag, "--cap-mb") {
        Some(FlagShape::Wide)
    } else if str_eq(flag, "--value") {
        Some(FlagShape::Signed)
    } else if str_eq(flag, "--threshold") {
        Some(FlagShape::Fraction)
    } else {
        None
    }
}

/// The one name of a flag that has several.
pub open spec fn flag_label(flag: Seq<char>) -> Seq<char> {
    if flag == "--features"@ {
        "--feature"@
    } else if flag == "--images"@ {
        "--image"@
    } else if flag == "--concurrency"@ {
        "--concurrency-limit"@
    } else if flag == "--files"@ {
        "--file"@
    } else if flag == "--confirmed"@ {
        "--confirm"@
    } else {
        flag
    }
}

fn find_label(flag: &str) -> (r: String)
    ensures
        r@ == flag_label(flag@),
{
    if str_eq(flag, "--features") {
        "--feature".to_owned()
    } else if str_eq(flag, "--images") {
        "--image".to_owned()
    } else if str_eq(flag, "--concurrency") {
        "--concurrency-limit".to_owned()
    } else if str_eq(flag, "--files") {
        "--file".to_owned()
    } else if str_eq(flag, "--confirmed") {
        "--confirm".to_owned()
    } else {
        flag.to_owned()
    }
}

/// Whether a value has the shape that its flag asks for.
pub open spec fn fits(shape: FlagShape, value: Seq<char>) -> bool {
    match shape {
        FlagShape::Switch => true,
        FlagShape::Text => true,
        FlagShape::Count => unsigned_value(value, usize::MAX as nat) is Some,
        FlagShape::Wide => unsigned_value(value, u64::MAX as nat) is Some,
        FlagShape::Signed => signed_value(value) is Some,
        FlagShape::Fraction => is_float_text(value),
    }
}

fn value_fits(shape: FlagShape, value: &str) -> (r: bool)
    ensures
        r == fits(shape, value@),
{
    match shape {
        FlagShape::Switch => true,
        FlagShape::Text => true,
        FlagShape::Count => parse_usize(value).is_some(),
        FlagShape::Wide => parse_unsigned(value, u64::MAX).is_some(),
        FlagShape::Signed => parse_i64(value).is_some(),
        FlagShape::Fraction => float_text(value),
    }
}

/// One flag with its value; a switch has none.
#[derive(Debug)]
pub struct FlagToken {
    pub label: String,
    pub value: String,
}

#[verifier::ext_equal]
pub ghost struct TokenModel {
    pub label: Seq<char>,
    pub value: Seq<char>,
}

impl View for FlagToken {
    type V = TokenModel;

    open spec fn view(&self) -> TokenModel {
        TokenModel { label: self.label@, value: self.value@ }
    }
}

pub open spec fn tokens_of(v: Seq<FlagToken>) -> Seq<TokenModel> {
    v.map_values(|t: FlagToken| t@)
}

pub open spec fn expectation(shape: FlagShape) -> Seq<char> {
    if shape == FlagShape::Signed {
        " expects an integer, got '"@
    } else {
        " expects a number, got '"@
    }
}

/// The flags of a command line from place `i` on, or what is wrong with the first bad one.
pub open spec fn read_flags(kind: Seq<char>, args: Seq<Seq<char>>, i: nat) -> Result<
    Seq<TokenModel>,
    Seq<char>,
>
    decreases args.len() - i,
{
    if i >= args.len() {
        Ok(Seq::empty())
    } else {
        let flag = args[i as int];
        let label = flag_label(flag);
        match shape_of(flag) {
            None => Err("unknown flag "@ + flag + " for kind "@ + kind),
            Some(FlagShape::Switch) => prepended(
                TokenModel { label, value: Seq::empty() },
                read_flags(kind, args, i + 1),
            ),
            Some(shape) => if i + 1 >= args.len() {
                Err("flag "@ + label + " requires a value"@)
            } else if !fits(shape, args[i as int + 1]) {
                Err(label + expectation(shape) + args[i as int + 1] + "'"@)
            } else {
                prepended(
                    TokenModel { label, value: args[i as int + 1] },
                    read_flags(kind, args, i + 2),
                )
            },
        }
    }
}

pub open spec fn prepended(t: TokenModel, rest: Result<Seq<TokenModel>, Seq<char>>) -> Result<
    Seq<TokenModel>,
    Seq<char>,
> {
    match rest {
        Ok(ts) => Ok(seq![t] + ts),
        Err(e) => Err(e),
    }
}

/// Tokens that were read before a rest.
spec fn with_head(head: Seq<TokenModel>, rest: Result<Seq<TokenModel>, Seq<char>>) -> Result<
    Seq<TokenModel>,
    Seq<char>,
> {
    match rest {
        Ok(ts) => Ok(head + ts),
        Err(e) => Err(e),
    }
}

/// Reads the flags of a command line.
pub fn parse_flags(kind: &str, args: &Vec<String>) -> (r: Result<Vec<FlagToken>, String>)
    ensures
        match r {
            Ok(ts) => read_flags(kind@, texts(args@), 0) == Ok::<Seq<TokenModel>, Seq<char>>(
                tokens_of(ts@),
            ),
            Err(e) => read_flags(kind@, texts(args@), 0) == Err::<Seq<TokenModel>, Seq<char>>(e@),
        },
{
    let n: usize = args.len();
    let ghost all = texts(args@);
    let ghost whole = read_flags(kind@, all, 0);
    let mut out: Vec<FlagToken> = Vec::new();
    let mut i: usize = 0;
    proof {
        assert(tokens_of(out@) =~= Seq::<TokenModel>::empty());
        if let Ok(ts) = whole {
            assert(Seq::<TokenModel>::empty() + ts =~= ts);
        }
    }
    while i < n
        invariant
            i <= n,
            n == args@.len(),
            all == texts(args@),
            whole == read_flags(kind@, all, 0),
            whole == with_head(tokens_of(out@), read_flags(kind@, all, i as nat)),
        decreases n - i,
    {
        let flag = args[i].as_str();
        assert(all[i as int] == flag@);
        let shape = match find_shape(flag) {
            None => {
                let mut e = cat3("unknown flag ", flag, " for kind ");
                e.append(kind);
                return Err(e);
            },
            Some(s) => s,
        };
        let label = find_label(flag);
        let ghost before = tokens_of(out@);
        if matches!(shape, FlagShape::Switch) {
            let value = String::new();
            assert(value@ =~= Seq::<char>::empty());
            let t = FlagToken { label, value };
            let ghost tm = t@;
            out.push(t);
            proof {
                assert(tokens_of(out@) =~= before.push(tm));
                if let Ok(ts) = read_flags(kind@, all, (i + 1) as nat) {
                    assert(before + (seq![tm] + ts) =~= before.push(tm) + ts);
                }
            }
            i += 1;
        } else {
            if n - i < 2 {
                return Err(cat3("flag ", label.as_str(), " requires a value"));
            }
            let value = args[i + 1].clone();
            assert(all[i + 1] == value@);
            if !value_fits(shape, value.as_str()) {
                let what = match shape {
                    FlagShape::Signed => " expects an integer, got '",
                    _ => " expects a number, got '",
                };
                let mut e = cat3(label.as_str(), what, value.as_str());
                e.append("'");
                return Err(e);
            }
            let t = FlagToken { label, value };
            let ghost tm = t@;
            out.push(t);
            proof {
                assert(tokens_of(out@) =~= before.push(tm));
                if let Ok(ts) = read_flags(kind@, all, (i + 2) as nat) {
                    assert(before + (seq![tm] + ts) =~= before.push(tm) + ts);
                }
            }
            i += 2;
        }
    }
    assert(tokens_of(out@) + Seq::<TokenModel>::empty() =~= tokens_of(out@));
    Ok(out)
}

/// The value of a flag: that of its last use.
pub open spec fn last_value(t: Seq<TokenModel>, label: Seq<char>) -> Option<Seq<char>>
    decreases t.len(),
{
    if t.len() == 0 {
        None
    } else if t.last().label == label {
        Some(t.last().value)
    } else {
        last_value(t.drop_last(), label)
    }
}

/// The values of a flag, in order.
pub open spec fn all_values(t: Seq<TokenModel>, label: Seq<char>) -> Seq<Seq<char>>
    decreases t.len(),
{
    if t.len() == 0 {
        Seq::empty()
    } else if t.last().label == label {
        all_values(t.drop_last(), label).push(t.last().value)
    } else {
        all_values(t.drop_last(), label)
    }
}

pub open spec fn was_given(t: Seq<TokenModel>, label: Seq<char>) -> bool {
    last_value(t, label) is Some
}

pub open spec fn number_given(t: Seq<TokenModel>, label: Seq<char>, max: nat) -> Option<nat> {
    match last_value(t, label) {
        Some(v) => unsigned_value(v, max),
        None => None,
    }
}

pub open spec fn integer_given(t: Seq<TokenModel>, label: Seq<char>) -> Option<int> {
    match last_value(t, label) {
        Some(v) => signed_value(v),
        None => None,
    }
}

/// Whether subfolders are asked for, by the last of the two switches.
pub open spec fn recursion_given(t: Seq<TokenModel>) -> Option<bool>
    decreases t.len(),
{
    if t.len() == 0 {
        None
    } else if t.last().label == "--recursive"@ {
        Some(true)
    } else if t.last().label == "--no-recursive"@ {
        Some(false)
    } else {
        recursion_given(t.drop_last())
    }
}

pub open spec fn count_of(o: Option<usize>) -> Option<nat> {
    match o {
        Some(n) => Some(n as nat),
        None => None,
    }
}

pub open spec fn wide_of(o: Option<u64>) -> Option<nat> {
    match o {
        Some(n) => Some(n as nat),
        None => None,
    }
}

pub open spec fn signed_of(o: Option<i64>) -> Option<int> {
    match o {
        Some(n) => Some(n as int),
        None => None,
    }
}

fn find_value(t: &Vec<FlagToken>, label: &str) -> (r: Option<String>)
    ensures
        opt_text(r) == last_value(tokens_of(t@), label@),
{
    let ghost all = tokens_of(t@);
    let mut i: usize = t.len();
    assert(all.take(i as int) =~= all);
    while i > 0
        invariant
            i <= t@.len(),
            all == tokens_of(t@),
            last_value(all, label@) == last_value(all.take(i as int), label@),
        decreases i,
    {
        i -= 1;
        assert(all.take(i + 1).last() == t@[i as int]@);
        assert(all.take(i + 1).drop_last() =~= all.take(i as int));
        if str_eq(t[i].label.as_str(), label) {
            return Some(t[i].value.clone());
        }
    }
    None
}

fn find_values(t: &Vec<FlagToken>, label: &str) -> (r: Vec<String>)
    ensures
        texts(r@) == all_values(tokens_of(t@), label@),
{
    let ghost all = tokens_of(t@);
    let mut out: Vec<String> = Vec::new();
    let n: usize = t.len();
    let mut i: usize = 0;
    assert(texts(out@) =~= all_values(all.take(0), label@));
    while i < n
        invariant
            i <= n,
            n == t@.len(),
            all == tokens_of(t@),
            texts(out@) == all_values(all.take(i as int), label@),
        decreases n - i,
    {
        let ghost before = texts(out@);
        assert(all.take(i + 1).last() == t@[i as int]@);
        assert(all.take(i + 1).drop_last() =~= all.take(i as int));
        if str_eq(t[i].label.as_str(), label) {
            let copy = t[i].value.clone();
            out.push(copy);
            assert(texts(out@) =~= before.push(copy@));
        }
        i += 1;
    }
    assert(all.take(n as int) =~= all);
    out
}

fn find_switch(t: &Vec<FlagToken>, label: &str) -> (r: bool)
    ensures
        r == was_given(tokens_of(t@), label@),
{
    find_value(t, label).is_some()
}

fn find_count(t: &Vec<FlagToken>, label: &str) -> (r: Option<usize>)
    ensures
        count_of(r) == number_given(tokens_of(t@), label@, usize::MAX as nat),
{
    match find_value(t, label) {
        Some(v) => parse_usize(v.as_str()),
        None => None,
    }
}

fn find_wide(t: &Vec<FlagToken>, label: &str) -> (r: Option<u64>)
    ensures
        wide_of(r) == number_given(tokens_of(t@), label@, u64::MAX as nat),
{
    match find_value(t, label) {
        Some(v) => parse_unsigned(v.as_str(), u64::MAX),
        None => None,
    }
}

fn find_signed(t: &Vec<FlagToken>, label: &str) -> (r: Option<i64>)
    ensures
        signed_of(r) == integer_given(tokens_of(t@), label@),
{
    match find_value(t, label) {
        Some(v) => parse_i64(v.as_str()),
        None => None,
    }
}

fn find_recursion(t: &Vec<FlagToken>) -> (r: Option<bool>)
    ensures
        r == recursion_given(tokens_of(t@)),
{
    let ghost all = tokens_of(t@);
    let mut i: usize = t.len();
    assert(all.take(i as int) =~= all);
    while i > 0
        invariant
            i <= t@.len(),
            all == tokens_of(t@),
            recursion_given(all) == recursion_given(all.take(i as int)),
        decreases i,
    {
        i -= 1;
        assert(all.take(i + 1).last() == t@[i as int]@);
        assert(all.take(i + 1).drop_last() =~= all.take(i as int));
        if str_eq(t[i].label.as_str(), "--recursive") {
            return Some(true);
        }
        if str_eq(t[i].label.as_str(), "--no-recursive") {
            return Some(false);
        }
    }
    None
}

/// Whether flags hold what the tokens of a command line say.
pub open spec fn holds_tokens(f: CommandFlags, t: Seq<TokenModel>) -> bool {
    &&& opt_text(f.project) == last_value(t, "--project"@)
    &&& opt_text(f.worktree) == last_value(t, "--worktree"@)
    &&& opt_text(f.tab) == last_value(t, "--tab"@)
    &&& opt_text(f.run_id) == last_value(t, "--run-id"@)
    &&& opt_text(f.artifact_path) == last_value(t, "--path"@)
    &&& texts(f.features@) == all_values(t, "--feature"@)
    &&& texts(f.images@) == all_values(t, "--image"@)
    &&& opt_text(f.dir) == last_value(t, "--dir"@)
    &&& f.in_place == was_given(t, "--in-place"@)
    &&& opt_text(f.keep_dir) == last_value(t, "--keep-dir"@)
    &&& opt_text(f.cull_dir) == last_value(t, "--cull-dir"@)
    &&& opt_text(f.review_dir) == last_value(t, "--review-dir"@)
    &&& f.in_parent == was_given(t, "--in-parent"@)
    &&& opt_text(f.review.session) == last_value(t, "--session"@)
    &&& count_of(f.review.shards) == number_given(t, "--shards"@, usize::MAX as nat)
    &&& count_of(f.review.shard) == number_given(t, "--shard"@, usize::MAX as nat)
    &&& opt_text(f.review.id) == last_value(t, "--id"@)
    &&& opt_text(f.review.decision) == last_value(t, "--decision"@)
    &&& opt_text(f.review.reason) == last_value(t, "--reason"@)
    &&& f.review.steal == was_given(t, "--steal"@)
    &&& opt_text(f.review.actor) == last_value(t, "--actor"@)
    &&& opt_text(f.review.gate_manifest) == last_value(t, "--gate-manifest"@)
    &&& opt_text(f.review.clusters) == last_value(t, "--clusters"@)
    &&& count_of(f.review.page) == number_given(t, "--page"@, usize::MAX as nat)
    &&& f.review.face_crop == was_given(t, "--face-crop"@)
    &&& texts(f.review.filters@) == all_values(t, "--filter"@)
    &&& opt_text(f.review.out) == last_value(t, "--out"@)
    &&& count_of(f.review.repeats) == number_given(t, "--repeats"@, usize::MAX as nat)
    &&& opt_text(f.review.name) == last_value(t, "--name"@)
    &&& f.review.allow_partial == was_given(t, "--allow-partial"@)
    &&& opt_text(f.review.threshold) == last_value(t, "--threshold"@)
    &&& opt_text(f.review.lane_id) == last_value(t, "--lane-id"@)
    &&& opt_text(f.review.lane_name) == last_value(t, "--lane-name"@)
    &&& opt_text(f.review.lane_mode) == last_value(t, "--lane-mode"@)
    &&& f.review.lane_recursive == recursion_given(t)
    &&& count_of(f.review.concurrency_limit) == number_given(t, "--concurrency-limit"@, usize::MAX as nat)
    &&& opt_text(f.review.media_notes) == last_value(t, "--notes"@)
    &&& opt_text(f.review.media_tags) == last_value(t, "--tags"@)
    &&& opt_text(f.review.media_label) == last_value(t, "--label"@)
    &&& opt_text(f.review.media_hex) == last_value(t, "--hex"@)
    &&& f.review.media_confirm == was_given(t, "--confirm"@)
    &&& opt_text(f.review.media_tag_filter) == last_value(t, "--tag"@)
    &&& opt_text(f.review.media_query) == last_value(t, "--query"@)
    &&& opt_text(f.review.media_mode) == last_value(t, "--mode"@)
    &&& texts(f.review.media_files@) == all_values(t, "--file"@)
    &&& wide_of(f.review.media_cap_mb) == number_given(t, "--cap-mb"@, u64::MAX as nat)
    &&& opt_text(f.review.media_nav_action) == last_value(t, "--action"@)
    &&& signed_of(f.review.media_video_value) == integer_given(t, "--value"@)
    &&& opt_text(f.review.media_tab_id) == last_value(t, "--tab-id"@)
}

/// The flags that the tokens of a command line set.
pub fn flags_of_tokens(t: &Vec<FlagToken>) -> (r: CommandFlags)
    ensures
        holds_tokens(r, tokens_of(t@)),
{
    CommandFlags {
        project: find_value(t, "--project"),
        worktree: find_value(t, "--worktree"),
        tab: find_value(t, "--tab"),
        run_id: find_value(t, "--run-id"),
        artifact_path: find_value(t, "--path"),
        features: find_values(t, "--feature"),
        images: find_values(t, "--image"),
        dir: find_value(t, "--dir"),
        in_place: find_switch(t, "--in-place"),
        keep_dir: find_value(t, "--keep-dir"),
        cull_dir: find_value(t, "--cull-dir"),
        review_dir: find_value(t, "--review-dir"),
        in_parent: find_switch(t, "--in-parent"),
        review: ReviewFlags {
            session: find_value(t, "--session"),
            shards: find_count(t, "--shards"),
            shard: find_count(t, "--shard"),
            id: find_value(t, "--id"),
            decision: find_value(t, "--decision"),
            reason: find_value(t, "--reason"),
            steal: find_switch(t, "--steal"),
            actor: find_value(t, "--actor"),
            gate_manifest: find_value(t, "--gate-manifest"),
            clusters: find_value(t, "--clusters"),
            page: find_count(t, "--page"),
            face_crop: find_switch(t, "--face-crop"),
            filters: find_values(t, "--filter"),
            out: find_value(t, "--out"),
            repeats: find_count(t, "--repeats"),
            name: find_value(t, "--name"),
            allow_partial: find_switch(t, "--allow-partial"),
            threshold: find_value(t, "--threshold"),
            lane_id: find_value(t, "--lane-id"),
            lane_name: find_value(t, "--lane-name"),
            lane_mode: find_value(t, "--lane-mode"),
            lane_recursive: find_recursion(t),
            concurrency_limit: find_count(t, "--concurrency-limit"),
            media_notes: find_value(t, "--notes"),
            media_tags: find_value(t, "--tags"),
            media_label: find_value(t, "--label"),
            media_hex: find_value(t, "--hex"),
            media_confirm: find_switch(t, "--confirm"),
            media_tag_filter: find_value(t, "--tag"),
            media_query: find_value(t, "--query"),
            media_mode: find_value(t, "--mode"),
            media_files: find_values(t, "--file"),
            media_cap_mb: find_wide(t, "--cap-mb"),
            media_nav_action: find_value(t, "--action"),
            media_video_value: find_signed(t, "--value"),
            media_tab_id: find_value(t, "--tab-id"),
        },
    }
}

/// What a command line is refused with; `None` where it makes a command.
pub open spec fn line_outcome(
    kind: Seq<char>,
    args: Seq<Seq<char>>,
    f: CommandFlags,
    r: Result<Command, String>,
) -> bool {
    match read_flags(kind, args, 0) {
        Err(e) => r is Err && r->Err_0@ == e,
        Ok(t) => {
            &&& holds_tokens(f, t)
            &&& match kind_refusal(ascii_lower(kind), f) {
                Some(e) => r is Err && r->Err_0@ == e,
                None => {
                    &&& r is Ok
                    &&& r->Ok_0.command.id() == ascii_lower(kind)
                    &&& built_from(r->Ok_0.command, f)
                    &&& r->Ok_0.protocol_version == API_PROTOCOL_VERSION
                    &&& opt_text(r->Ok_0.actor) == last_value(t, "--actor"@)
                    &&& r->Ok_0.issued_at is Some
                    &&& match last_value(t, "--action-id"@) {
                        Some(id) => r->Ok_0.action_id@ == id,
                        None => is_hyphenated(r->Ok_0.action_id@),
                    }
                },
            }
        },
    }
}

/// The command of a command line: a kind and its flags. A command without an identity gets a new
/// one.
pub fn build_command_from_flags(kind: &str, args: &Vec<String>) -> (r: Result<Command, String>)
    ensures
        exists|f: CommandFlags| #[trigger] line_outcome(kind@, texts(args@), f, r),
{
    let tokens = match parse_flags(kind, args) {
        Ok(t) => t,
        Err(e) => {
            let ghost f: CommandFlags = arbitrary();
            let r: Result<Command, String> = Err(e);
            assert(line_outcome(kind@, texts(args@), f, r));
            return r;
        },
    };
    let flags = flags_of_tokens(&tokens);
    let ghost f = flags;
    let actor = copy_text(&flags.review.actor);
    let command = match kind_from_flags(kind, flags) {
        Ok(c) => c,
        Err(e) => {
            let r: Result<Command, String> = Err(e);
            assert(line_outcome(kind@, texts(args@), f, r));
            return r;
        },
    };
    let action_id = match find_value(&tokens, "--action-id") {
        Some(id) => id,
        None => random_id(),
    };
    let r: Result<Command, String> = Ok(
        Command {
            action_id,
            protocol_version: API_PROTOCOL_VERSION,
            actor,
            issued_at: Some(now_rfc3339()),
            command,
        },
    );
    assert(line_outcome(kind@, texts(args@), f, r));
    r
}

/// The exit code of a status: zero for what was or will be carried out.
pub fn exit_code_for_status(status: ActionStatus) -> (r: i32)
    ensures
        r == if status.is_applied() {
            0i32
        } else {
            1i32
        },
{
    if status.counts_as_applied() {
        0
    } else {
        1
    }
}

/// How the queue is worked off.
#[derive(Debug)]
pub struct QueueOptions {
    pub watch: bool,
    pub poll_ms: u64,
}

/// The options of working off the queue, from place `i` of the arguments on.
pub open spec fn queue_options(args: Seq<Seq<char>>, i: nat, watch: bool, poll_ms: nat) -> Result<
    (bool, nat),
    Seq<char>,
>
    decreases args.len() - i,
{
    if i >= args.len() {
        Ok((watch, poll_ms))
    } else if args[i as int] == "--once"@ {
        queue_options(args, i + 1, false, poll_ms)
    } else if args[i as int] == "--watch"@ {
        queue_options(args, i + 1, true, poll_ms)
    } else if args[i as int] == "--poll-ms"@ {
        if i + 1 < args.len() && unsigned_value(args[i as int + 1], u64::MAX as nat) is Some {
            queue_options(args, i + 2, watch, unsigned_value(args[i as int + 1], u64::MAX as nat)->0)
        } else {
            Err("--poll-ms requires a number"@)
        }
    } else {
        Err("unknown flag "@ + args[i as int])
    }
}

/// Reads the options of working off the queue; one pass where none is given.
pub fn parse_queue_options(args: &Vec<String>) -> (r: Result<QueueOptions, String>)
    ensures
        match r {
            Ok(o) => queue_options(texts(args@), 0, false, 250) == Ok::<(bool, nat), Seq<char>>(
                (o.watch, o.poll_ms as nat),
            ),
            Err(e) => queue_options(texts(args@), 0, false, 250) == Err::<(bool, nat), Seq<char>>(
                e@,
            ),
        },
{
    let n: usize = args.len();
    let ghost all = texts(args@);
    let mut watch: bool = false;
    let mut poll_ms: u64 = 250;
    let mut i: usize = 0;
    while i < n
        invariant
            i <= n,
            n == args@.len(),
            all == texts(args@),
            queue_options(all, 0, false, 250) == queue_options(
                all,
                i as nat,
                watch,
                poll_ms as nat,
            ),
        decreases n - i,
    {
        let arg = args[i].as_str();
        assert(all[i as int] == arg@);
        if str_eq(arg, "--once") {
            watch = false;
            i += 1;
        } else if str_eq(arg, "--watch") {
            watch = true;
            i += 1;
        } else if str_eq(arg, "--poll-ms") {
            if n - i < 2 {
                return Err("--poll-ms requires a number".to_owned());
            }
            assert(all[i + 1] == args@[i + 1]@);
            match parse_unsigned(args[i + 1].as_str(), u64::MAX) {
                Some(v) => {
                    poll_ms = v;
                },
                None => return Err("--poll-ms requires a number".to_owned()),
            }
            i += 2;
        } else {
            return Err(cat("unknown flag ", arg));
        }
    }
    Ok(QueueOptions { watch, poll_ms })
}

/// What a look at the window without a window takes.
#[derive(Debug)]
pub struct InspectOptions {
    pub out_dir: Option<String>,
    /// The tabs, or none for all of them.
    pub tabs: Vec<String>,
}

/// The options of inspecting the window, from place `i` of the arguments on.
pub open spec fn inspect_options(
    args: Seq<Seq<char>>,
    i: nat,
    out_dir: Option<Seq<char>>,
    tabs: Seq<Seq<char>>,
) -> Result<(Option<Seq<char>>, Seq<Seq<char>>), Seq<char>>
    decreases args.len() - i,
{
    if i >= args.len() {
        Ok((out_dir, tabs))
    } else if args[i as int] == "--out"@ {
        if i + 1 < args.len() {
            inspect_options(args, i + 2, Some(args[i as int + 1]), tabs)
        } else {
            Err("--out requires a value"@)
        }
    } else if args[i as int] == "--tab"@ {
        if i + 1 < args.len() && is_tab(args[i as int + 1]) {
            inspect_options(args, i + 2, out_dir, tabs.push(args[i as int + 1]))
        } else {
            Err(tab_usage())
        }
    } else {
        Err("unknown flag "@ + args[i as int])
    }
}

pub open spec fn tab_usage() -> Seq<char> {
    "--tab requires a valid vocab (project|quality_iq|identity|duplicates|run_debug|manual|media|compare|lanes|options)"@
}

/// Reads the options of inspecting the window.
pub fn parse_inspect_options(args: &Vec<String>) -> (r: Result<InspectOptions, String>)
    ensures
        match r {
            Ok(o) => inspect_options(texts(args@), 0, None, Seq::empty()) == Ok::<
                (Option<Seq<char>>, Seq<Seq<char>>),
                Seq<char>,
            >((opt_text(o.out_dir), texts(o.tabs@))),
            Err(e) => inspect_options(texts(args@), 0, None, Seq::empty()) == Err::<
                (Option<Seq<char>>, Seq<Seq<char>>),
                Seq<char>,
            >(e@),
        },
{
    let n: usize = args.len();
    let ghost all = texts(args@);
    let mut out_dir: Option<String> = None;
    let mut tabs: Vec<String> = Vec::new();
    let mut i: usize = 0;
    assert(texts(tabs@) =~= Seq::<Seq<char>>::empty());
    while i < n
        invariant
            i <= n,
            n == args@.len(),
            all == texts(args@),
            inspect_options(all, 0, None, Seq::empty()) == inspect_options(
                all,
                i as nat,
                opt_text(out_dir),
                texts(tabs@),
            ),
        decreases n - i,
    {
        let arg = args[i].as_str();
        assert(all[i as int] == arg@);
        if str_eq(arg, "--out") {
            if n - i < 2 {
                return Err("--out requires a value".to_owned());
            }
            assert(all[i + 1] == args@[i + 1]@);
            out_dir = Some(args[i + 1].clone());
            i += 2;
        } else if str_eq(arg, "--tab") {
            if n - i < 2 {
                return Err(
                    "--tab requires a valid vocab (project|quality_iq|identity|duplicates|run_debug|manual|media|compare|lanes|options)".to_owned(),
                );
            }
            assert(all[i + 1] == args@[i + 1]@);
            if !tab_known(args[i + 1].as_str()) {
                return Err(
                    "--tab requires a valid vocab (project|quality_iq|identity|duplicates|run_debug|manual|media|compare|lanes|options)".to_owned(),
                );
            }
            let ghost before = texts(tabs@);
            let copy = args[i + 1].clone();
            tabs.push(copy);
            assert(texts(tabs@) =~= before.push(copy@));
            i += 2;
        } else {
            return Err(cat("unknown flag ", arg));
        }
    }
    Ok(InspectOptions { out_dir, tabs })
}

/// What a command line asks for.
#[derive(Debug)]
pub enum Entry {
    /// Nothing was asked: the usage is shown as a failure.
    Nothing,
    ControllerProbe,
    UiInspect,
    Help,
    RunQueue,
    /// The rest of the line names a command file or holds the command itself.
    CommandDocument,
    /// The first word is the kind of a command.
    Kind,
}

/// What the first word of a command line asks for.
pub fn cli_entry(first: Option<&str>) -> (r: Entry)
    ensures
        match first {
            None => r is Nothing,
            Some(w) => if w@ == "controller-probe"@ {
                r is ControllerProbe
            } else if w@ == "ui-inspect"@ {
                r is UiInspect
            } else if w@ == "help"@ || w@ == "--help"@ || w@ == "-h"@ {
                r is Help
            } else if w@ == "run-queue"@ {
                r is RunQueue
            } else if w@ == "command"@ {
                r is CommandDocument
            } else {
                r is Kind
            },
        },
{
    match first {
        None => Entry::Nothing,
        Some(w) => if str_eq(w, "controller-probe") {
            Entry::ControllerProbe
        } else if str_eq(w, "ui-inspect") {
            Entry::UiInspect
        } else if str_eq(w, "help") || str_eq(w, "--help") || str_eq(w, "-h") {
            Entry::Help
        } else if str_eq(w, "run-queue") {
            Entry::RunQueue
        } else if str_eq(w, "command") {
            Entry::CommandDocument
        } else {
            Entry::Kind
        },
    }
}

/// Where a command on the command line comes from.
#[derive(Debug)]
pub enum CommandSource {
    Json(String),
    File(String),
}

/// Where a command on the command line comes from, or what is missing.
pub fn command_source(args: &Vec<String>) -> (r: Result<CommandSource, String>)
    ensures
        if args@.len() == 0 {
            r is Err && r->Err_0@ == "facial command: missing <path> or --json <json>"@
        } else if args@[0]@ != "--json"@ {
            r is Ok && r->Ok_0 is File && r->Ok_0->File_0@ == args@[0]@
        } else if args@.len() == 1 {
            r is Err && r->Err_0@ == "facial command --json: missing JSON argument"@
        } else {
            r is Ok && r->Ok_0 is Json && r->Ok_0->Json_0@ == args@[1]@
        },
{
    if args.len() == 0 {
        return Err("facial command: missing <path> or --json <json>".to_owned());
    }
    if !str_eq(args[0].as_str(), "--json") {
        return Ok(CommandSource::File(args[0].clone()));
    }
    if args.len() == 1 {
        return Err("facial command --json: missing JSON argument".to_owned());
    }
    Ok(CommandSource::Json(args[1].clone()))
}

/// The exit code of several receipts: that of the worst.
pub fn worst_exit_code(statuses: &Vec<ActionStatus>) -> (r: i32)
    ensures
        r == if exists|i: int| 0 <= i < statuses@.len() && !(#[trigger] statuses@[i]).is_applied() {
            1i32
        } else {
            0i32
        },
{
    let n: usize = statuses.len();
    let mut i: usize = 0;
    while i < n
        invariant
            i <= n,
            n == statuses@.len(),
            forall|j: int| 0 <= j < i ==> (#[trigger] statuses@[j]).is_applied(),
        decreases n - i,
    {
        if !statuses[i].counts_as_applied() {
            return 1;
        }
        i += 1;
    }
    0
}

/// A flag that is given again replaces its value.
pub proof fn last_flag_wins(t: Seq<TokenModel>, label: Seq<char>, value: Seq<char>)
    ensures
        last_value(t.push(TokenModel { label, value }), label) == Some(value),
        all_values(t.push(TokenModel { label, value }), label) == all_values(t, label).push(value),
{
    let s = t.push(TokenModel { label, value });
    assert(s.drop_last() =~= t);
}

/// The flags of other names do not matter for a flag.
pub proof fn other_flags_do_not_matter(t: Seq<TokenModel>, label: Seq<char>, other: TokenModel)
    requires
        other.label != label,
    ensures
        last_value(t.push(other), label) == last_value(t, label),
        all_values(t.push(other), label) == all_values(t, label),
{
    let s = t.push(other);
    assert(s.drop_last() =~= t);
}

} // verus!
