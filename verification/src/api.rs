//! The command and receipt protocol.
//!
//! A command is a small file that a client drops into a folder, and a receipt is what comes back.
//! This module holds the commands, the receipts, where their files lie, and what to do with each
//! file of the queue. An intent is a command that only a live window can carry out.

use crate::dispatch::IndexReply;
use crate::media_commands::MediaReply;
use crate::outside::{check_json, is_hyphenated, json_fault, now_rfc3339, random_id};
use crate::text::{cat, cat3, opt_text, trim, trimmed};
use vstd::prelude::*;

verus! {

pub const API_PROTOCOL_VERSION: u32 = 1;

#[derive(Clone, Copy, Debug, PartialEq, Eq, Structural)]
pub enum ActionStatus {
    /// The command was carried out.
    Completed,
    /// The command failed.
    Error,
    /// An intent is stored and waits for a live window.
    Accepted,
    /// An intent was carried out by a live window.
    Applied,
    /// The command was refused.
    Rejected,
}

impl ActionStatus {
    /// The status as it is written in files.
    pub open spec fn word(self) -> Seq<char> {
        match self {
            ActionStatus::Completed => "ok"@,
            ActionStatus::Error => "error"@,
            ActionStatus::Accepted => "accepted"@,
            ActionStatus::Applied => "applied"@,
            ActionStatus::Rejected => "rejected"@,
        }
    }

    pub fn as_str(self) -> (r: &'static str)
        ensures
            r@ == self.word(),
    {
        match self {
            ActionStatus::Completed => "ok",
            ActionStatus::Error => "error",
            ActionStatus::Accepted => "accepted",
            ActionStatus::Applied => "applied",
            ActionStatus::Rejected => "rejected",
        }
    }

    /// Whether an event of this status counts as carried out.
    pub open spec fn is_applied(self) -> bool {
        self == ActionStatus::Completed || self == ActionStatus::Accepted || self == ActionStatus::Applied
    }

    /// Whether a live window is done with an intent of this status.
    pub open spec fn closes_an_intent(self) -> bool {
        self == ActionStatus::Applied || self == ActionStatus::Rejected
    }

    pub fn counts_as_applied(self) -> (r: bool)
        ensures
            r == self.is_applied(),
    {
        matches!(self, ActionStatus::Completed | ActionStatus::Accepted | ActionStatus::Applied)
    }

    pub fn is_final_for_intent(self) -> (r: bool)
        ensures
            r == self.closes_an_intent(),
    {
        matches!(self, ActionStatus::Applied | ActionStatus::Rejected)
    }
}

#[allow(inconsistent_fields)]
#[derive(Debug)]
pub enum CommandKind {
    // Commands that run without a window and end in a final receipt.
    ListFeatures,
    ListModels,
    ListWorktrees,
    GetState,
    StartRun {
        project_name: String,
        image_paths: Vec<String>,
        feature_keys: Vec<String>,
        worktree_path: Option<String>,
        in_place: bool,
    },
    GetRunStatus {
        run_id: String,
    },
    GetRunSummary {
        run_id: String,
    },
    ListArtifacts {
        run_id: String,
    },
    ReadArtifact {
        path: String,
    },
    SetWorkspaceRoot {
        path: String,
    },
    SetCopyLocation {
        path: String,
    },
    SortRun {
        run_id: String,
        in_parent: bool,
        keep_dir: String,
        cull_dir: String,
        review_dir: String,
    },
    IdentityStatus,
    IdentityGate {
        image: String,
    },
    IdentityGateDir {
        dir: String,
    },
    IdentityDedup {
        dir: String,
        /// The threshold as it was written: a decimal number.
        threshold: String,
    },
    RenderEval {
        dir: String,
    },
    CalibrateThreshold,
    AnchorMontage {
        image: String,
    },
    ReviewInit {
        dir: String,
        shards: usize,
        gate_manifest: Option<String>,
        clusters: Option<String>,
    },
    ReviewMontage {
        session: String,
        shard: Option<usize>,
        page: usize,
        face_crop: bool,
        filters: Vec<String>,
    },
    ReviewExport {
        session: String,
        out: String,
        repeats: usize,
        name: String,
        allow_partial: bool,
    },
    ReviewClaim {
        session: String,
        shard: Option<usize>,
        actor: String,
        steal: bool,
    },
    ReviewDecide {
        session: String,
        id: String,
        decision: String,
        reason: String,
        actor: String,
    },
    ReviewStatus {
        session: String,
    },
    ListLanes,
    SetLane {
        lane_id: String,
        name: Option<String>,
        mode: Option<String>,
        folder: Option<String>,
        recursive: Option<bool>,
        steal: bool,
        feature_keys: Option<Vec<String>>,
    },
    ScanLane {
        lane_id: String,
        steal: bool,
    },
    ScanAllLanes {
        steal: bool,
    },
    ClaimLane {
        lane_id: String,
        actor: String,
        steal: bool,
    },
    ReleaseLane {
        lane_id: String,
        actor: String,
        steal: bool,
    },
    LaneStatus {
        lane_id: Option<String>,
    },
    StartLaneBatch {
        lane_id: String,
        project_name: String,
        feature_keys: Vec<String>,
        in_place: bool,
        steal: bool,
    },
    StartAllLaneBatches {
        project_name: String,
        feature_keys: Vec<String>,
        concurrency_limit: usize,
        in_place: bool,
        steal: bool,
    },
    MediaMetaGet {
        path: String,
    },
    MediaMetaSet {
        path: String,
        notes: Option<String>,
        tags: Option<String>,
        label: Option<String>,
    },
    MediaMetaList {
        tag: Option<String>,
        label: Option<String>,
    },
    /// List stable label ids with their names and colors.
    MediaLabelsList,
    /// Older form of updating one label of the catalog, without touching assignments.
    MediaLabelConfigure {
        id: String,
        name: String,
        hex: String,
    },
    MediaLabelCreate {
        name: String,
        hex: String,
        /// Where given, the new label is assigned to this file in the same step.
        path: Option<String>,
    },
    MediaLabelUpdate {
        id: String,
        name: Option<String>,
        hex: Option<String>,
    },
    MediaLabelDelete {
        id: String,
        confirmed: bool,
    },
    MediaLabelAssign {
        path: String,
        /// Stable id or current name; left out only for `clear`.
        id: Option<String>,
        /// add | remove | clear
        action: String,
    },
    MediaFavAdd {
        path: String,
    },
    MediaFavRemove {
        path: String,
    },
    MediaFavList,
    /// Sweep the thumbnail cache by age and size.
    ThumbsGc {
        cap_mb: Option<u64>,
    },
    /// Build or refresh the embedding index of a folder.
    MediaIndexBuild {
        dir: String,
        recursive: bool,
    },
    /// Search the cached embeddings of a folder.
    MediaSemanticSearch {
        query: String,
        dir: String,
        limit: Option<usize>,
    },
    // Intents, which a live window applies.
    SetProject {
        project_name: String,
    },
    SetWorktree {
        worktree_path: String,
    },
    SelectTab {
        tab: String,
    },
    SetFeatures {
        feature_keys: Vec<String>,
    },
    SetInPlace {
        in_place: bool,
    },
    ImportPaths {
        project_name: String,
        paths: Vec<String>,
        in_place: bool,
    },
    /// Ask the live window to start the selected features.
    StartRunUi,
    /// Capture the live window without focusing it.
    UiSnapshot {
        output: Option<String>,
    },
    MediaSetFolder {
        path: String,
    },
    MediaSearch {
        query: String,
        /// name | fuzzy | tags | notes | semantic
        mode: Option<String>,
    },
    MediaSelect {
        paths: Vec<String>,
    },
    MediaOpenSelected,
    /// Manage the media tabs of the live window.
    MediaTabs {
        action: String,
        tab_id: Option<String>,
        path: Option<String>,
    },
    /// Drive the folder navigator.
    MediaFolderNavigate {
        action: String,
    },
    MediaVideoControl {
        action: String,
        /// Milliseconds, percent or a track id.
        value: Option<i64>,
        /// Where a captured frame goes.
        output: Option<String>,
    },
    MediaLabelMutation {
        /// create | update | delete | add | remove | clear
        action: String,
        path: Option<String>,
        id: Option<String>,
        name: Option<String>,
        hex: Option<String>,
        confirmed: bool,
    },
}

impl CommandKind {
    /// The name of the kind in files and on the command line.
    pub open spec fn id(&self) -> Seq<char> {
        match self {
            CommandKind::ListFeatures => "list_features"@,
            CommandKind::ListModels => "list_models"@,
            CommandKind::ListWorktrees => "list_worktrees"@,
            CommandKind::GetState => "get_state"@,
            CommandKind::StartRun { .. } => "start_run"@,
            CommandKind::GetRunStatus { .. } => "get_run_status"@,
            CommandKind::GetRunSummary { .. } => "get_run_summary"@,
            CommandKind::ListArtifacts { .. } => "list_artifacts"@,
            CommandKind::ReadArtifact { .. } => "read_artifact"@,
            CommandKind::SetWorkspaceRoot { .. } => "set_workspace_root"@,
            CommandKind::SetCopyLocation { .. } => "set_copy_location"@,
            CommandKind::SortRun { .. } => "sort_run"@,
            CommandKind::IdentityStatus => "identity_status"@,
            CommandKind::IdentityGate { .. } => "identity_gate"@,
            CommandKind::IdentityGateDir { .. } => "identity_gate_dir"@,
            CommandKind::IdentityDedup { .. } => "identity_dedup"@,
            CommandKind::RenderEval { .. } => "render_eval"@,
            CommandKind::CalibrateThreshold => "calibrate_threshold"@,
            CommandKind::AnchorMontage { .. } => "anchor_montage"@,
            CommandKind::ReviewInit { .. } => "review_init"@,
            CommandKind::ReviewMontage { .. } => "review_montage"@,
            CommandKind::ReviewExport { .. } => "review_export"@,
            CommandKind::ReviewClaim { .. } => "review_claim"@,
            CommandKind::ReviewDecide { .. } => "review_decide"@,
            CommandKind::ReviewStatus { .. } => "review_status"@,
            CommandKind::ListLanes => "list_lanes"@,
            CommandKind::SetLane { .. } => "set_lane"@,
            CommandKind::ScanLane { .. } => "scan_lane"@,
            CommandKind::ScanAllLanes { .. } => "scan_all_lanes"@,
            CommandKind::ClaimLane { .. } => "claim_lane"@,
            CommandKind::ReleaseLane { .. } => "release_lane"@,
            CommandKind::LaneStatus { .. } => "lane_status"@,
            CommandKind::StartLaneBatch { .. } => "start_lane_batch"@,
            CommandKind::StartAllLaneBatches { .. } => "start_all_lane_batches"@,
            CommandKind::MediaMetaGet { .. } => "media_meta_get"@,
            CommandKind::MediaMetaSet { .. } => "media_meta_set"@,
            CommandKind::MediaMetaList { .. } => "media_meta_list"@,
            CommandKind::MediaLabelsList => "media_labels_list"@,
            CommandKind::MediaLabelConfigure { .. } => "media_label_configure"@,
            CommandKind::MediaLabelCreate { .. } => "media_label_create"@,
            CommandKind::MediaLabelUpdate { .. } => "media_label_update"@,
            CommandKind::MediaLabelDelete { .. } => "media_label_delete"@,
            CommandKind::MediaLabelAssign { .. } => "media_label_assign"@,
            CommandKind::MediaFavAdd { .. } => "media_fav_add"@,
            CommandKind::MediaFavRemove { .. } => "media_fav_remove"@,
            CommandKind::MediaFavList => "media_fav_list"@,
            CommandKind::ThumbsGc { .. } => "thumbs_gc"@,
            CommandKind::MediaIndexBuild { .. } => "media_index_build"@,
            CommandKind::MediaSemanticSearch { .. } => "media_semantic_search"@,
            CommandKind::SetProject { .. } => "set_project"@,
            CommandKind::SetWorktree { .. } => "set_worktree"@,
            CommandKind::SelectTab { .. } => "select_tab"@,
            CommandKind::SetFeatures { .. } => "set_features"@,
            CommandKind::SetInPlace { .. } => "set_in_place"@,
            CommandKind::ImportPaths { .. } => "import_paths"@,
            CommandKind::StartRunUi => "start_run_ui"@,
            CommandKind::UiSnapshot { .. } => "ui_snapshot"@,
            CommandKind::MediaSetFolder { .. } => "media_set_folder"@,
            CommandKind::MediaSearch { .. } => "media_search"@,
            CommandKind::MediaSelect { .. } => "media_select"@,
            CommandKind::MediaOpenSelected => "media_open_selected"@,
            CommandKind::MediaTabs { .. } => "media_tabs"@,
            CommandKind::MediaFolderNavigate { .. } => "media_folder_navigate"@,
            CommandKind::MediaVideoControl { .. } => "media_video_control"@,
            CommandKind::MediaLabelMutation { .. } => "media_label_mutation"@,
        }
    }

    /// Whether only a live window can carry the command out.
    pub open spec fn for_window(&self) -> bool {
        ||| self is SetProject
        ||| self is SetWorktree
        ||| self is SelectTab
        ||| self is SetFeatures
        ||| self is SetInPlace
        ||| self is ImportPaths
        ||| self is StartRunUi
        ||| self is UiSnapshot
        ||| self is MediaSetFolder
        ||| self is MediaSearch
        ||| self is MediaSelect
        ||| self is MediaOpenSelected
        ||| self is MediaTabs
        ||| self is MediaFolderNavigate
        ||| self is MediaVideoControl
        ||| self is MediaLabelMutation
    }

    /// The stable name of the kind.
    pub fn id_str(&self) -> (r: &'static str)
        ensures
            r@ == self.id(),
    {
        match self {
            CommandKind::ListFeatures => "list_features",
            CommandKind::ListModels => "list_models",
            CommandKind::ListWorktrees => "list_worktrees",
            CommandKind::GetState => "get_state",
            CommandKind::StartRun { .. } => "start_run",
            CommandKind::GetRunStatus { .. } => "get_run_status",
            CommandKind::GetRunSummary { .. } => "get_run_summary",
            CommandKind::ListArtifacts { .. } => "list_artifacts",
            CommandKind::ReadArtifact { .. } => "read_artifact",
            CommandKind::SetWorkspaceRoot { .. } => "set_workspace_root",
            CommandKind::SetCopyLocation { .. } => "set_copy_location",
            CommandKind::SortRun { .. } => "sort_run",
            CommandKind::IdentityStatus => "identity_status",
            CommandKind::IdentityGate { .. } => "identity_gate",
            CommandKind::IdentityGateDir { .. } => "identity_gate_dir",
            CommandKind::IdentityDedup { .. } => "identity_dedup",
            CommandKind::RenderEval { .. } => "render_eval",
            CommandKind::CalibrateThreshold => "calibrate_threshold",
            CommandKind::AnchorMontage { .. } => "anchor_montage",
            CommandKind::ReviewInit { .. } => "review_init",
            CommandKind::ReviewMontage { .. } => "review_montage",
            CommandKind::ReviewExport { .. } => "review_export",
            CommandKind::ReviewClaim { .. } => "review_claim",
            CommandKind::ReviewDecide { .. } => "review_decide",
            CommandKind::ReviewStatus { .. } => "review_status",
            CommandKind::ListLanes => "list_lanes",
            CommandKind::SetLane { .. } => "set_lane",
            CommandKind::ScanLane { .. } => "scan_lane",
            CommandKind::ScanAllLanes { .. } => "scan_all_lanes",
            CommandKind::ClaimLane { .. } => "claim_lane",
            CommandKind::ReleaseLane { .. } => "release_lane",
            CommandKind::LaneStatus { .. } => "lane_status",
            CommandKind::StartLaneBatch { .. } => "start_lane_batch",
            CommandKind::StartAllLaneBatches { .. } => "start_all_lane_batches",
            CommandKind::MediaMetaGet { .. } => "media_meta_get",
            CommandKind::MediaMetaSet { .. } => "media_meta_set",
            CommandKind::MediaMetaList { .. } => "media_meta_list",
            CommandKind::MediaLabelsList => "media_labels_list",
            CommandKind::MediaLabelConfigure { .. } => "media_label_configure",
            CommandKind::MediaLabelCreate { .. } => "media_label_create",
            CommandKind::MediaLabelUpdate { .. } => "media_label_update",
            CommandKind::MediaLabelDelete { .. } => "media_label_delete",
            CommandKind::MediaLabelAssign { .. } => "media_label_assign",
            CommandKind::MediaFavAdd { .. } => "media_fav_add",
            CommandKind::MediaFavRemove { .. } => "media_fav_remove",
            CommandKind::MediaFavList => "media_fav_list",
            CommandKind::ThumbsGc { .. } => "thumbs_gc",
            CommandKind::MediaIndexBuild { .. } => "media_index_build",
            CommandKind::MediaSemanticSearch { .. } => "media_semantic_search",
            CommandKind::SetProject { .. } => "set_project",
            CommandKind::SetWorktree { .. } => "set_worktree",
            CommandKind::SelectTab { .. } => "select_tab",
            CommandKind::SetFeatures { .. } => "set_features",
            CommandKind::SetInPlace { .. } => "set_in_place",
            CommandKind::ImportPaths { .. } => "import_paths",
            CommandKind::StartRunUi => "start_run_ui",
            CommandKind::UiSnapshot { .. } => "ui_snapshot",
            CommandKind::MediaSetFolder { .. } => "media_set_folder",
            CommandKind::MediaSearch { .. } => "media_search",
            CommandKind::MediaSelect { .. } => "media_select",
            CommandKind::MediaOpenSelected => "media_open_selected",
            CommandKind::MediaTabs { .. } => "media_tabs",
            CommandKind::MediaFolderNavigate { .. } => "media_folder_navigate",
            CommandKind::MediaVideoControl { .. } => "media_video_control",
            CommandKind::MediaLabelMutation { .. } => "media_label_mutation",
        }
    }

    /// Whether the command is an intent, which needs a live window.
    pub fn is_ui_intent(&self) -> (r: bool)
        ensures
            r == self.for_window(),
    {
        matches!(
            self,
            CommandKind::SetProject { .. }
                | CommandKind::SetWorktree { .. }
                | CommandKind::SelectTab { .. }
                | CommandKind::SetFeatures { .. }
                | CommandKind::SetInPlace { .. }
                | CommandKind::ImportPaths { .. }
                | CommandKind::StartRunUi
                | CommandKind::UiSnapshot { .. }
                | CommandKind::MediaSetFolder { .. }
                | CommandKind::MediaSearch { .. }
                | CommandKind::MediaSelect { .. }
                | CommandKind::MediaOpenSelected
                | CommandKind::MediaTabs { .. }
                | CommandKind::MediaFolderNavigate { .. }
                | CommandKind::MediaVideoControl { .. }
                | CommandKind::MediaLabelMutation { .. }
        )
    }
}

#[derive(Debug)]
pub struct Command {
    /// What ties the command, its receipt and its intent together.
    pub action_id: String,
    pub protocol_version: u32,
    /// Who sent the command.
    pub actor: Option<String>,
    pub issued_at: Option<String>,
    pub command: CommandKind,
}

pub fn default_protocol_version() -> (r: u32)
    ensures
        r == API_PROTOCOL_VERSION,
{
    API_PROTOCOL_VERSION
}

pub fn default_review_shards() -> (r: usize)
    ensures
        r == 1,
{
    1
}

pub fn default_review_repeats() -> (r: usize)
    ensures
        r == 10,
{
    10
}

pub fn default_dedup_threshold() -> (r: &'static str)
    ensures
        r@ == "0.9"@,
{
    "0.9"
}

pub fn default_lane_batch_concurrency() -> (r: usize)
    ensures
        r == 2,
{
    2
}

/// Who acts on a lane: the one that the command names, or else its sender.
pub open spec fn lane_actor(sender: Option<Seq<char>>, named: Seq<char>) -> Seq<char> {
    if trimmed(named).len() > 0 {
        named
    } else {
        match sender {
            Some(a) => a,
            None => Seq::empty(),
        }
    }
}

/// Who acts on a lane: the one that the command names, or else its sender.
pub fn effective_lane_actor(cmd: &Command, variant_actor: &str) -> (r: String)
    ensures
        r@ == lane_actor(opt_text(cmd.actor), variant_actor@),
{
    let tidy = trim(variant_actor);
    if tidy.as_str().is_empty() {
        match &cmd.actor {
            Some(a) => a.clone(),
            None => {
                let r = String::new();
                assert(r@ =~= Seq::<char>::empty());
                r
            },
        }
    } else {
        variant_actor.to_owned()
    }
}

/// What a receipt carries beside its status.
#[derive(Debug)]
pub enum Reply {
    Nothing,
    /// A document in JSON.
    Document(String),
    /// The command itself.
    Echo,
    RunStatus { status: String, found: bool },
    Files(Vec<String>),
    Text(String),
    WorkspaceRoots { workspace_root: String, worktrees_root: String, api_root: String },
    CopyLocation(String),
    Media(MediaReply),
    Index(IndexReply),
    Sweep { cache_root: String, cap_mb: u64, removed_files: usize, removed_bytes: u64 },
}

#[derive(Debug)]
pub struct Receipt {
    pub action_id: String,
    pub kind: String,
    pub status: ActionStatus,
    pub actor: Option<String>,
    pub protocol_version: u32,
    pub started_at: String,
    pub finished_at: String,
    pub result: Reply,
    pub error: Option<String>,
    pub note: Option<String>,
}

pub fn copy_text(o: &Option<String>) -> (r: Option<String>)
    ensures
        opt_text(r) == opt_text(*o),
{
    match o {
        Some(s) => Some(s.clone()),
        None => None,
    }
}

/// Whether a receipt answers a command: it carries the command's identity, kind and sender.
pub open spec fn answers(r: Receipt, cmd: Command, started_at: Seq<char>) -> bool {
    &&& r.action_id@ == cmd.action_id@
    &&& r.kind@ == cmd.command.id()
    &&& opt_text(r.actor) == opt_text(cmd.actor)
    &&& r.protocol_version == cmd.protocol_version
    &&& r.started_at@ == started_at
}

/// Whether a receipt says what it should, beside its result.
pub open spec fn says(
    r: Receipt,
    status: ActionStatus,
    error: Option<Seq<char>>,
    note: Option<Seq<char>>,
) -> bool {
    &&& r.status == status
    &&& opt_text(r.error) == error
    &&& opt_text(r.note) == note
}

/// A receipt for a command, finished at the time of the machine.
pub fn make_receipt(
    cmd: &Command,
    status: ActionStatus,
    started_at: &str,
    result: Reply,
    error: Option<String>,
    note: Option<String>,
) -> (r: Receipt)
    ensures
        answers(r, *cmd, started_at@),
        says(r, status, opt_text(error), opt_text(note)),
        r.result == result,
{
    Receipt {
        action_id: cmd.action_id.clone(),
        kind: cmd.command.id_str().to_owned(),
        status,
        actor: copy_text(&cmd.actor),
        protocol_version: cmd.protocol_version,
        started_at: started_at.to_owned(),
        finished_at: now_rfc3339(),
        result,
        error,
        note,
    }
}

/// The receipt of a command that failed with a message.
pub fn error_receipt(cmd: &Command, started_at: &str, error: String) -> (r: Receipt)
    ensures
        answers(r, *cmd, started_at@),
        says(r, ActionStatus::Error, Some(error@), None),
        r.result is Nothing,
{
    make_receipt(cmd, ActionStatus::Error, started_at, Reply::Nothing, Some(error), None)
}

/// The receipt of a command that was carried out.
pub fn ok_receipt(cmd: &Command, started_at: &str, result: Reply) -> (r: Receipt)
    ensures
        answers(r, *cmd, started_at@),
        says(r, ActionStatus::Completed, None, None),
        r.result == result,
{
    make_receipt(cmd, ActionStatus::Completed, started_at, result, None, None)
}

/// The receipt of a command that a service carried out or failed.
pub fn service_receipt(cmd: &Command, started_at: &str, outcome: Result<Reply, String>) -> (r: Receipt)
    ensures
        answers(r, *cmd, started_at@),
        match outcome {
            Ok(result) => says(r, ActionStatus::Completed, None, None) && r.result == result,
            Err(e) => says(r, ActionStatus::Error, Some(e@), None) && r.result is Nothing,
        },
{
    match outcome {
        Ok(result) => ok_receipt(cmd, started_at, result),
        Err(e) => error_receipt(cmd, started_at, e),
    }
}

/// The receipt of one lane of a batch over all lanes.
pub fn lane_child_receipt(
    cmd: &Command,
    action_id: &str,
    started_at: &str,
    result: Reply,
    error: Option<String>,
) -> (r: Receipt)
    ensures
        r.action_id@ == action_id@,
        r.kind@ == "start_lane_batch"@,
        opt_text(r.actor) == opt_text(cmd.actor),
        r.protocol_version == cmd.protocol_version,
        r.started_at@ == started_at@,
        r.result == result,
        says(
            r,
            if error is Some {
                ActionStatus::Error
            } else {
                ActionStatus::Completed
            },
            opt_text(error),
            Some("child receipt for start_all_lane_batches "@ + cmd.action_id@),
        ),
{
    Receipt {
        action_id: action_id.to_owned(),
        kind: "start_lane_batch".to_owned(),
        status: if error.is_some() {
            ActionStatus::Error
        } else {
            ActionStatus::Completed
        },
        actor: copy_text(&cmd.actor),
        protocol_version: cmd.protocol_version,
        started_at: started_at.to_owned(),
        finished_at: now_rfc3339(),
        result,
        error,
        note: Some(cat("child receipt for start_all_lane_batches ", cmd.action_id.as_str())),
    }
}

/// The receipt of a batch over all lanes, once the receipts of its lanes were written. Where one
/// of those could not be written, its action and the reason are given.
pub fn lane_batches_receipt(
    cmd: &Command,
    started_at: &str,
    result: Reply,
    unwritten: Option<(String, String)>,
) -> (r: Receipt)
    ensures
        answers(r, *cmd, started_at@),
        r.result == result,
        match unwritten {
            None => says(r, ActionStatus::Completed, None, None),
            Some((id, reason)) => says(
                r,
                ActionStatus::Error,
                Some("write child lane receipt "@ + id@ + ": "@ + reason@),
                Some("batch ran but one or more child receipts could not be written"@),
            ),
        },
{
    match unwritten {
        None => ok_receipt(cmd, started_at, result),
        Some((id, reason)) => {
            let mut e = cat3("write child lane receipt ", id.as_str(), ": ");
            e.append(reason.as_str());
            make_receipt(
                cmd,
                ActionStatus::Error,
                started_at,
                result,
                Some(e),
                Some("batch ran but one or more child receipts could not be written".to_owned()),
            )
        },
    }
}

/// The receipt of a question for a run.
pub fn run_status_receipt(cmd: &Command, started_at: &str, found: bool) -> (r: Receipt)
    ensures
        answers(r, *cmd, started_at@),
        says(r, ActionStatus::Completed, None, None),
        r.result is RunStatus,
        r.result->RunStatus_found == found,
        r.result->RunStatus_status@ == if found {
            "completed"@
        } else {
            "unknown"@
        },
{
    let status = if found {
        "completed".to_owned()
    } else {
        "unknown".to_owned()
    };
    ok_receipt(cmd, started_at, Reply::RunStatus { status, found })
}

/// What looking for the results of a run came to.
#[derive(Debug)]
pub enum RunResults {
    Missing,
    Unreadable(String),
    Malformed(String),
    /// The results, in JSON.
    Found(String),
}

/// What the results of a run are, given the text of their file: found where the text is JSON.
pub fn read_run_results(raw: String) -> (r: RunResults)
    ensures
        match json_fault(raw@) {
            None => r == RunResults::Found(raw),
            Some(e) => r is Malformed && r->Malformed_0@ == e,
        },
{
    match check_json(raw.as_str()) {
        None => RunResults::Found(raw),
        Some(e) => RunResults::Malformed(e),
    }
}

/// The receipt of a question for the results of a run.
pub fn run_summary_receipt(cmd: &Command, started_at: &str, run_id: &str, results: RunResults) -> (r:
    Receipt)
    ensures
        answers(r, *cmd, started_at@),
        match results {
            RunResults::Found(text) => {
                &&& says(r, ActionStatus::Completed, None, None)
                &&& r.result == Reply::Document(text)
            },
            RunResults::Missing => {
                &&& says(r, ActionStatus::Error, Some("run not found: "@ + run_id@), None)
                &&& r.result is Nothing
            },
            RunResults::Unreadable(e) => {
                &&& says(r, ActionStatus::Error, Some("results.json read error: "@ + e@), None)
                &&& r.result is Nothing
            },
            RunResults::Malformed(e) => {
                &&& says(r, ActionStatus::Error, Some("results.json parse error: "@ + e@), None)
                &&& r.result is Nothing
            },
        },
{
    match results {
        RunResults::Found(text) => ok_receipt(cmd, started_at, Reply::Document(text)),
        RunResults::Missing => error_receipt(cmd, started_at, cat("run not found: ", run_id)),
        RunResults::Unreadable(e) => error_receipt(
            cmd,
            started_at,
            cat("results.json read error: ", e.as_str()),
        ),
        RunResults::Malformed(e) => error_receipt(
            cmd,
            started_at,
            cat("results.json parse error: ", e.as_str()),
        ),
    }
}

/// What looking for the folder of a run came to.
#[derive(Debug)]
pub enum RunFolder {
    Missing,
    NoParent,
    /// The folder lies outside the allowed roots, for the given reason.
    Outside(String),
    /// The files of the folder.
    Listed(Vec<String>),
}

/// The receipt of a question for the files of a run.
pub fn artifacts_receipt(cmd: &Command, started_at: &str, run_id: &str, folder: RunFolder) -> (r:
    Receipt)
    ensures
        answers(r, *cmd, started_at@),
        match folder {
            RunFolder::Listed(files) => {
                &&& says(r, ActionStatus::Completed, None, None)
                &&& r.result == Reply::Files(files)
            },
            RunFolder::Missing => {
                &&& says(r, ActionStatus::Error, Some("run not found: "@ + run_id@), None)
                &&& r.result is Nothing
            },
            RunFolder::NoParent => {
                &&& says(r, ActionStatus::Error, Some("run dir has no parent"@), None)
                &&& r.result is Nothing
            },
            RunFolder::Outside(note) => {
                &&& says(r, ActionStatus::Rejected, None, Some(note@))
                &&& r.result is Nothing
            },
        },
{
    match folder {
        RunFolder::Listed(files) => ok_receipt(cmd, started_at, Reply::Files(files)),
        RunFolder::Missing => error_receipt(cmd, started_at, cat("run not found: ", run_id)),
        RunFolder::NoParent => error_receipt(cmd, started_at, "run dir has no parent".to_owned()),
        RunFolder::Outside(note) => make_receipt(
            cmd,
            ActionStatus::Rejected,
            started_at,
            Reply::Nothing,
            None,
            Some(note),
        ),
    }
}

/// What reading a file for a client came to.
#[derive(Debug)]
pub enum ArtifactText {
    /// The file lies outside the allowed roots, for the given reason.
    Outside(String),
    Unreadable(String),
    /// The file holds JSON.
    Json(String),
    /// The file holds something else.
    Plain(String),
}

/// What the text of a file holds: JSON or something else.
pub fn read_artifact(raw: String) -> (r: ArtifactText)
    ensures
        match json_fault(raw@) {
            None => r == ArtifactText::Json(raw),
            Some(_) => r == ArtifactText::Plain(raw),
        },
{
    match check_json(raw.as_str()) {
        None => ArtifactText::Json(raw),
        Some(_) => ArtifactText::Plain(raw),
    }
}

/// The receipt of a question for a file.
pub fn artifact_receipt(cmd: &Command, started_at: &str, text: ArtifactText) -> (r: Receipt)
    ensures
        answers(r, *cmd, started_at@),
        match text {
            ArtifactText::Json(t) => {
                &&& says(r, ActionStatus::Completed, None, None)
                &&& r.result == Reply::Document(t)
            },
            ArtifactText::Plain(t) => {
                &&& says(r, ActionStatus::Completed, None, None)
                &&& r.result == Reply::Text(t)
            },
            ArtifactText::Unreadable(e) => {
                &&& says(r, ActionStatus::Error, Some("artifact read error: "@ + e@), None)
                &&& r.result is Nothing
            },
            ArtifactText::Outside(note) => {
                &&& says(r, ActionStatus::Rejected, None, Some(note@))
                &&& r.result is Nothing
            },
        },
{
    match text {
        ArtifactText::Json(t) => ok_receipt(cmd, started_at, Reply::Document(t)),
        ArtifactText::Plain(t) => ok_receipt(cmd, started_at, Reply::Text(t)),
        ArtifactText::Unreadable(e) => error_receipt(
            cmd,
            started_at,
            cat("artifact read error: ", e.as_str()),
        ),
        ArtifactText::Outside(note) => make_receipt(
            cmd,
            ActionStatus::Rejected,
            started_at,
            Reply::Nothing,
            None,
            Some(note),
        ),
    }
}

/// The receipt of a command that no part of the program carries out.
pub fn unhandled_receipt(cmd: &Command, started_at: &str) -> (r: Receipt)
    ensures
        answers(r, *cmd, started_at@),
        says(r, ActionStatus::Rejected, None, Some("unhandled command kind"@)),
        r.result is Nothing,
{
    make_receipt(
        cmd,
        ActionStatus::Rejected,
        started_at,
        Reply::Nothing,
        None,
        Some("unhandled command kind".to_owned()),
    )
}

/// The receipt of a command file that cannot be read as a command.
pub fn quarantine_receipt(action_id: &str, error: String) -> (r: Receipt)
    ensures
        r.action_id@ == action_id@,
        r.kind@ == "unparseable"@,
        r.actor is None,
        r.protocol_version == API_PROTOCOL_VERSION,
        r.finished_at@ == r.started_at@,
        r.result is Nothing,
        says(r, ActionStatus::Rejected, Some(error@), Some("command quarantined to dead/"@)),
{
    let now = now_rfc3339();
    Receipt {
        action_id: action_id.to_owned(),
        kind: "unparseable".to_owned(),
        status: ActionStatus::Rejected,
        actor: None,
        protocol_version: API_PROTOCOL_VERSION,
        started_at: now.clone(),
        finished_at: now,
        result: Reply::Nothing,
        error: Some(error),
        note: Some("command quarantined to dead/".to_owned()),
    }
}

/// A command that came without an identity gets a new one; any other keeps its own.
pub fn with_action_id(cmd: Command) -> (r: Command)
    ensures
        trimmed(cmd.action_id@).len() > 0 ==> r == cmd,
        trimmed(cmd.action_id@).len() == 0 ==> is_hyphenated(r.action_id@),
        r.protocol_version == cmd.protocol_version,
        r.actor == cmd.actor,
        r.issued_at == cmd.issued_at,
        r.command == cmd.command,
{
    let tidy = trim(cmd.action_id.as_str());
    if tidy.as_str().is_empty() {
        Command {
            action_id: random_id(),
            protocol_version: cmd.protocol_version,
            actor: cmd.actor,
            issued_at: cmd.issued_at,
            command: cmd.command,
        }
    } else {
        cmd
    }
}

/// The line that a receipt leaves in the log.
pub fn event_message(receipt: &Receipt) -> (r: String)
    ensures
        r@ == "command "@ + receipt.status.word() + " "@ + receipt.kind@,
{
    let mut s = cat3("command ", receipt.status.as_str(), " ");
    s.append(receipt.kind.as_str());
    s
}

} // verus!
