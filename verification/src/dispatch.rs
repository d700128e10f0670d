//! What is done with each command.

use crate::api::{
    answers, effective_lane_actor, lane_actor, make_receipt, ok_receipt, says,
    ActionStatus, Command, CommandKind, Receipt, Reply,
};
use crate::media_commands::on_metadata;
use crate::number::{decimal, decimal_text};
use crate::paths::{extension, extension_of, PathStyle};
use crate::table::in_text_order;
use crate::text::{ascii_lower, cat, opt_text, str_eq, texts, to_ascii_lowercase};
use vstd::prelude::*;

verus! {

/// Which part of the program carries a command out, and with what.
#[derive(Debug)]
pub enum Route {
    /// The command is an intent for a live window.
    Intent,
    /// The command works on media metadata.
    Metadata,
    /// The results of a run are looked for.
    RunStatus { run_id: String },
    RunSummary { run_id: String },
    RunFiles { run_id: String },
    /// A file is read, where the roots allow it.
    File { path: String },
    /// The embedding index of a folder is built.
    BuildIndex { dir: String, recursive: bool },
    /// The embedding index of a folder is searched for the best `limit` files.
    Search { query: String, dir: String, limit: usize },
    /// The thumbnail cache is swept down to a size.
    SweepThumbnails { cap_mb: u64 },
    /// The backend service carries the command out, for the given actor where one matters.
    Service { actor: Option<String> },
}

/// Who a lane command is carried out for: the sender, or the one that it names.
pub open spec fn acting_for(cmd: Command) -> Option<Seq<char>> {
    match cmd.command {
        CommandKind::ClaimLane { lane_id, actor, steal } => Some(
            lane_actor(opt_text(cmd.actor), actor@),
        ),
        CommandKind::ReleaseLane { lane_id, actor, steal } => Some(
            lane_actor(opt_text(cmd.actor), actor@),
        ),
        CommandKind::SetLane { .. } => opt_text(cmd.actor),
        CommandKind::ScanLane { .. } => opt_text(cmd.actor),
        CommandKind::ScanAllLanes { .. } => opt_text(cmd.actor),
        CommandKind::StartLaneBatch { .. } => opt_text(cmd.actor),
        CommandKind::StartAllLaneBatches { .. } => opt_text(cmd.actor),
        _ => None,
    }
}

/// Whether a route is the one of a command.
pub open spec fn is_route(cmd: Command, default_cap_mb: u64, r: Route) -> bool {
    if cmd.command.for_window() {
        r is Intent
    } else if on_metadata(cmd.command) {
        r is Metadata
    } else {
        match cmd.command {
            CommandKind::GetRunStatus { run_id } => r is RunStatus && r->RunStatus_run_id@
                == run_id@,
            CommandKind::GetRunSummary { run_id } => r is RunSummary && r->RunSummary_run_id@
                == run_id@,
            CommandKind::ListArtifacts { run_id } => r is RunFiles && r->RunFiles_run_id@
                == run_id@,
            CommandKind::ReadArtifact { path } => r is File && r->path@ == path@,
            CommandKind::MediaIndexBuild { dir, recursive } => r is BuildIndex
                && r->BuildIndex_dir@ == dir@ && r->recursive == recursive,
            CommandKind::MediaSemanticSearch { query, dir, limit } => r is Search && r->query@
                == query@ && r->Search_dir@ == dir@ && r->limit == match limit {
                Some(n) => n,
                None => 50,
            },
            CommandKind::ThumbsGc { cap_mb } => r is SweepThumbnails && r->cap_mb
                == match cap_mb {
                Some(n) => n,
                None => default_cap_mb,
            },
            _ => r is Service && opt_text(r->actor) == acting_for(cmd),
        }
    }
}

fn sender(cmd: &Command) -> (r: Option<String>)
    ensures
        opt_text(r) == opt_text(cmd.actor),
{
    crate::api::copy_text(&cmd.actor)
}

/// The route of a command. `default_cap_mb` is the configured size of the thumbnail cache.
pub fn dispatch(cmd: &Command, default_cap_mb: u64) -> (r: Route)
    ensures
        is_route(*cmd, default_cap_mb, r),
{
    if cmd.command.is_ui_intent() {
        return Route::Intent;
    }
    match &cmd.command {
        CommandKind::MediaMetaGet { .. }
        | CommandKind::MediaMetaSet { .. }
        | CommandKind::MediaMetaList { .. }
        | CommandKind::MediaLabelsList
        | CommandKind::MediaLabelConfigure { .. }
        | CommandKind::MediaLabelCreate { .. }
        | CommandKind::MediaLabelUpdate { .. }
        | CommandKind::MediaLabelDelete { .. }
        | CommandKind::MediaLabelAssign { .. }
        | CommandKind::MediaFavAdd { .. }
        | CommandKind::MediaFavRemove { .. }
        | CommandKind::MediaFavList => Route::Metadata,
        CommandKind::GetRunStatus { run_id } => Route::RunStatus { run_id: run_id.clone() },
        CommandKind::GetRunSummary { run_id } => Route::RunSummary { run_id: run_id.clone() },
        CommandKind::ListArtifacts { run_id } => Route::RunFiles { run_id: run_id.clone() },
        CommandKind::ReadArtifact { path } => Route::File { path: path.clone() },
        CommandKind::MediaIndexBuild { dir, recursive } => Route::BuildIndex {
            dir: dir.clone(),
            recursive: *recursive,
        },
        CommandKind::MediaSemanticSearch { query, dir, limit } => Route::Search {
            query: query.clone(),
            dir: dir.clone(),
            limit: match limit {
                Some(n) => *n,
                None => 50,
            },
        },
        CommandKind::ThumbsGc { cap_mb } => Route::SweepThumbnails {
            cap_mb: match cap_mb {
                Some(n) => *n,
                None => default_cap_mb,
            },
        },
        CommandKind::ClaimLane { lane_id: _, actor, steal: _ } => Route::Service {
            actor: Some(effective_lane_actor(cmd, actor.as_str())),
        },
        CommandKind::ReleaseLane { lane_id: _, actor, steal: _ } => Route::Service {
            actor: Some(effective_lane_actor(cmd, actor.as_str())),
        },
        CommandKind::SetLane { .. }
        | CommandKind::ScanLane { .. }
        | CommandKind::ScanAllLanes { .. }
        | CommandKind::StartLaneBatch { .. }
        | CommandKind::StartAllLaneBatches { .. } => Route::Service { actor: sender(cmd) },
        _ => Route::Service { actor: None },
    }
}

/// Whether an extension is that of an image that can be embedded.
pub open spec fn is_image_extension(e: Seq<char>) -> bool {
    let l = ascii_lower(e);
    l == "jpg"@ || l == "jpeg"@ || l == "png"@ || l == "webp"@ || l == "bmp"@ || l == "tif"@ || l
        == "tiff"@ || l == "gif"@
}

pub open spec fn is_image_path(style: PathStyle, path: Seq<char>) -> bool {
    match extension_of(style, path) {
        Some(e) => is_image_extension(e),
        None => false,
    }
}

pub fn image_path(style: PathStyle, path: &str) -> (r: bool)
    ensures
        r == is_image_path(style, path@),
{
    match extension(style, path) {
        Some(e) => {
            let lower = to_ascii_lowercase(e.as_str());
            let l = lower.as_str();
            str_eq(l, "jpg") || str_eq(l, "jpeg") || str_eq(l, "png") || str_eq(l, "webp")
                || str_eq(l, "bmp") || str_eq(l, "tif") || str_eq(l, "tiff") || str_eq(l, "gif")
        },
        None => false,
    }
}

/// The images among the files of a folder, in order.
pub fn collect_image_files(style: PathStyle, files: &Vec<String>) -> (r: Vec<String>)
    ensures
        in_text_order(texts(r@)),
        forall|k: Seq<char>| #[trigger]
            texts(r@).contains(k) <==> texts(files@).contains(k) && is_image_path(style, k),
{
    let mut kept: Vec<String> = Vec::new();
    let n: usize = files.len();
    let mut i: usize = 0;
    assert(texts(kept@) =~= Seq::<Seq<char>>::empty());
    while i < n
        invariant
            i <= n,
            n == files@.len(),
            forall|k: Seq<char>| #[trigger]
                texts(kept@).contains(k) <==> texts(files@).take(i as int).contains(k)
                    && is_image_path(style, k),
        decreases n - i,
    {
        let ghost before = texts(kept@);
        let ghost name = files@[i as int]@;
        let keep = image_path(style, files[i].as_str());
        if keep {
            let copy = files[i].clone();
            kept.push(copy);
            assert(texts(kept@) =~= before.push(copy@));
        }
        proof {
            let after = texts(kept@);
            let head = texts(files@).take(i as int);
            let next = texts(files@).take(i + 1);
            assert(texts(files@)[i as int] == name);
            assert(next =~= head.push(name));
            assert forall|k: Seq<char>| #[trigger]
                after.contains(k) <==> next.contains(k) && is_image_path(style, k) by {
                assert(before.contains(k) <==> head.contains(k) && is_image_path(style, k));
                if head.contains(k) {
                    assert(next[head.index_of(k)] == k);
                }
                if before.contains(k) {
                    assert(after[before.index_of(k)] == k);
                }
                if k == name {
                    assert(next[i as int] == k);
                    if keep {
                        assert(after[before.len() as int] == k);
                    }
                }
                if next.contains(k) && k != name {
                    assert(head[next.index_of(k)] == k);
                }
                if after.contains(k) && !before.contains(k) {
                    let j = after.index_of(k);
                    if j < before.len() {
                        assert(before[j] == k);
                    }
                }
            }
        }
        i += 1;
    }
    assert(texts(files@).take(n as int) =~= texts(files@));
    crate::table::in_order(&kept)
}

/// What became of one file while the index was built.
#[derive(Debug)]
pub enum IndexOutcome {
    Cached,
    Indexed,
    Failed(String),
}

/// What building an index has come to so far.
#[derive(Debug)]
pub struct IndexTally {
    pub indexed: usize,
    pub cached: usize,
    pub failures: Vec<String>,
}

impl IndexTally {
    pub fn new() -> (r: Self)
        ensures
            r.indexed == 0,
            r.cached == 0,
            r.failures@.len() == 0,
    {
        IndexTally { indexed: 0, cached: 0, failures: Vec::new() }
    }

    /// How many files have been counted.
    pub open spec fn total(&self) -> nat {
        (self.indexed + self.cached + self.failures@.len()) as nat
    }

    /// Counts one file.
    pub fn record(&mut self, path: &str, outcome: IndexOutcome)
        requires
            old(self).total() < usize::MAX,
        ensures
            final(self).total() == old(self).total() + 1,
            match outcome {
                IndexOutcome::Cached => {
                    &&& final(self).cached == old(self).cached + 1
                    &&& final(self).indexed == old(self).indexed
                    &&& texts(final(self).failures@) == texts(old(self).failures@)
                },
                IndexOutcome::Indexed => {
                    &&& final(self).indexed == old(self).indexed + 1
                    &&& final(self).cached == old(self).cached
                    &&& texts(final(self).failures@) == texts(old(self).failures@)
                },
                IndexOutcome::Failed(e) => {
                    &&& final(self).indexed == old(self).indexed
                    &&& final(self).cached == old(self).cached
                    &&& texts(final(self).failures@) == texts(old(self).failures@).push(
                        path@ + ": "@ + e@,
                    )
                },
            },
    {
        match outcome {
            IndexOutcome::Cached => {
                self.cached = self.cached + 1;
            },
            IndexOutcome::Indexed => {
                self.indexed = self.indexed + 1;
            },
            IndexOutcome::Failed(e) => {
                let ghost before = texts(self.failures@);
                let text = crate::text::cat3(path, ": ", e.as_str());
                self.failures.push(text);
                assert(texts(self.failures@) =~= before.push(text@));
            },
        }
    }
}

/// What the receipt of building an index carries.
#[derive(Debug)]
pub struct IndexReply {
    pub dir: String,
    pub recursive: bool,
    pub files: usize,
    pub indexed: usize,
    pub already_cached: usize,
    pub failed: usize,
    /// The first failures.
    pub failures: Vec<String>,
    pub embedding_dim: usize,
    pub index_path: String,
}

/// How many failures a receipt shows.
pub const SHOWN_FAILURES: usize = 20;

/// The receipt of building an index over `files` files.
pub fn index_receipt(
    cmd: &Command,
    started_at: &str,
    dir: &str,
    recursive: bool,
    files: usize,
    tally: &IndexTally,
    embedding_dim: usize,
    index_path: &str,
) -> (r: Receipt)
    ensures
        answers(r, *cmd, started_at@),
        if tally.failures@.len() == 0 {
            says(r, ActionStatus::Completed, None, None)
        } else {
            says(
                r,
                ActionStatus::Error,
                Some(decimal(tally.failures@.len()) + " file(s) failed to embed"@),
                None,
            )
        },
        r.result matches Reply::Index(x) && x.dir@ == dir@ && x.recursive == recursive && x.files
            == files && x.indexed == tally.indexed && x.already_cached == tally.cached && x.failed
            == tally.failures@.len() && x.embedding_dim == embedding_dim && x.index_path@
            == index_path@ && texts(x.failures@) == texts(tally.failures@).take(
            if tally.failures@.len() < SHOWN_FAILURES {
                tally.failures@.len() as int
            } else {
                SHOWN_FAILURES as int
            },
        ),
{
    let failed: usize = tally.failures.len();
    let shown: usize = if failed < SHOWN_FAILURES {
        failed
    } else {
        SHOWN_FAILURES
    };
    let mut failures: Vec<String> = Vec::new();
    let mut i: usize = 0;
    while i < shown
        invariant
            i <= shown,
            shown <= tally.failures@.len(),
            failures@.len() == i,
            forall|j: int| 0 <= j < i ==> (#[trigger] failures@[j])@ == tally.failures@[j]@,
        decreases shown - i,
    {
        failures.push(tally.failures[i].clone());
        i += 1;
    }
    assert(texts(failures@) =~= texts(tally.failures@).take(shown as int));
    let reply = IndexReply {
        dir: dir.to_owned(),
        recursive,
        files,
        indexed: tally.indexed,
        already_cached: tally.cached,
        failed,
        failures,
        embedding_dim,
        index_path: index_path.to_owned(),
    };
    if failed == 0 {
        ok_receipt(cmd, started_at, Reply::Index(reply))
    } else {
        let digits = decimal_text(failed as u64);
        let error = cat(digits.as_str(), " file(s) failed to embed");
        make_receipt(
            cmd,
            ActionStatus::Error,
            started_at,
            Reply::Index(reply),
            Some(error),
            None,
        )
    }
}

/// Every command has one route, and only intents are left to a window.
pub proof fn windows_get_intents_only(cmd: Command, default_cap_mb: u64, r: Route)
    requires
        is_route(cmd, default_cap_mb, r),
    ensures
        r is Intent <==> cmd.command.for_window(),
        r is Metadata <==> on_metadata(cmd.command),
{
}

} // verus!
