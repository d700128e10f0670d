//! What the protocol promises of commands, intents and receipts.

use crate::api::{lane_actor, ActionStatus, Command, CommandKind};
use crate::dispatch::{is_image_extension, is_image_path, is_route, Route};
use crate::intents::{
    carries_nothing, claim_recovery, handed_out_before, intent_refusal, is_collection_view,
    is_label_action, is_navigation, is_search_mode, is_tab, is_tab_action, is_video_action,
    may_carry_path, must_carry_path, mutation_malformed, needs_value, tabs_malformed, ClaimRecovery,
    IntentFile,
};
use crate::paths::{extension_of, joined_path, PathStyle};
use crate::queue::{is_queue_file, with_json, ApiPaths};
use crate::text::{ascii_lower, opt_text, split, text_order_is_total, text_rank, trimmed, Rank};
use vstd::prelude::*;

verus! {

/// Whether a word is one of a list.
pub open spec fn one_of(words: Seq<Seq<char>>, s: Seq<char>) -> bool {
    exists|i: int| 0 <= i < words.len() && #[trigger] words[i] == s
}

/// A command for a live window becomes an intent, one on labels, notes or favorites goes to the
/// metadata, one that asks for the files of a run goes to them by its own run, and every other
/// goes to the service. Each takes along what it names.
pub proof fn commands_go_where_they_belong(cmd: Command, cap: u64, r: Route)
    requires
        is_route(cmd, cap, r),
    ensures
        match cmd.command {
            CommandKind::SetProject { .. } => r is Intent,
            CommandKind::SetWorktree { .. } => r is Intent,
            CommandKind::SelectTab { .. } => r is Intent,
            CommandKind::SetFeatures { .. } => r is Intent,
            CommandKind::SetInPlace { .. } => r is Intent,
            CommandKind::ImportPaths { .. } => r is Intent,
            CommandKind::StartRunUi => r is Intent,
            CommandKind::UiSnapshot { .. } => r is Intent,
            CommandKind::MediaSetFolder { .. } => r is Intent,
            CommandKind::MediaSearch { .. } => r is Intent,
            CommandKind::MediaSelect { .. } => r is Intent,
            CommandKind::MediaOpenSelected => r is Intent,
            CommandKind::MediaTabs { .. } => r is Intent,
            CommandKind::MediaFolderNavigate { .. } => r is Intent,
            CommandKind::MediaVideoControl { .. } => r is Intent,
            CommandKind::MediaLabelMutation { .. } => r is Intent,
            CommandKind::MediaMetaGet { .. } => r is Metadata,
            CommandKind::MediaMetaSet { .. } => r is Metadata,
            CommandKind::MediaMetaList { .. } => r is Metadata,
            CommandKind::MediaLabelsList => r is Metadata,
            CommandKind::MediaLabelConfigure { .. } => r is Metadata,
            CommandKind::MediaLabelCreate { .. } => r is Metadata,
            CommandKind::MediaLabelUpdate { .. } => r is Metadata,
            CommandKind::MediaLabelDelete { .. } => r is Metadata,
            CommandKind::MediaLabelAssign { .. } => r is Metadata,
            CommandKind::MediaFavAdd { .. } => r is Metadata,
            CommandKind::MediaFavRemove { .. } => r is Metadata,
            CommandKind::MediaFavList => r is Metadata,
            CommandKind::GetRunStatus { run_id } => r matches Route::RunStatus { run_id: x } && x@
                == run_id@,
            CommandKind::GetRunSummary { run_id } => r matches Route::RunSummary { run_id: x }
                && x@ == run_id@,
            CommandKind::ListArtifacts { run_id } => r matches Route::RunFiles { run_id: x } && x@
                == run_id@,
            CommandKind::ReadArtifact { path } => r matches Route::File { path: x } && x@ == path@,
            CommandKind::MediaIndexBuild { dir, recursive } => r matches Route::BuildIndex {
                dir: x,
                recursive: y,
            } && x@ == dir@ && y == recursive,
            CommandKind::MediaSemanticSearch { query, dir, limit } => r matches Route::Search {
                query: x,
                dir: y,
                limit: n,
            } && x@ == query@ && y@ == dir@ && (limit is Some ==> limit == Some(n)) && (limit
                is None ==> n == 50),
            CommandKind::ThumbsGc { cap_mb } => r matches Route::SweepThumbnails { cap_mb: n } && (
            cap_mb is Some ==> cap_mb == Some(n)) && (cap_mb is None ==> n == cap),
            _ => r is Service,
        },
{
}

/// A lane is changed in the name of the one that the command names, or of its sender where it
/// names nobody; the other commands of the service need no name.
pub proof fn lanes_are_changed_in_a_name(cmd: Command, cap: u64, r: Route)
    requires
        is_route(cmd, cap, r),
    ensures
        match cmd.command {
            CommandKind::ClaimLane { lane_id, actor, steal } => {
                &&& r is Service && opt_text(r->actor) is Some
                &&& trimmed(actor@).len() > 0 ==> opt_text(r->actor) == Some(actor@)
                &&& trimmed(actor@).len() == 0 && cmd.actor is Some ==> opt_text(r->actor)
                    == opt_text(cmd.actor)
                &&& trimmed(actor@).len() == 0 && cmd.actor is None ==> opt_text(r->actor)
                    == Some(Seq::<char>::empty())
            },
            CommandKind::ReleaseLane { lane_id, actor, steal } => {
                &&& r is Service && opt_text(r->actor) is Some
                &&& trimmed(actor@).len() > 0 ==> opt_text(r->actor) == Some(actor@)
                &&& trimmed(actor@).len() == 0 && cmd.actor is Some ==> opt_text(r->actor)
                    == opt_text(cmd.actor)
                &&& trimmed(actor@).len() == 0 && cmd.actor is None ==> opt_text(r->actor)
                    == Some(Seq::<char>::empty())
            },
            CommandKind::SetLane { .. } => opt_text(r->actor) == opt_text(cmd.actor),
            CommandKind::ScanLane { .. } => opt_text(r->actor) == opt_text(cmd.actor),
            CommandKind::ScanAllLanes { .. } => opt_text(r->actor) == opt_text(cmd.actor),
            CommandKind::StartLaneBatch { .. } => opt_text(r->actor) == opt_text(cmd.actor),
            CommandKind::StartAllLaneBatches { .. } => opt_text(r->actor) == opt_text(cmd.actor),
            _ => r is Service ==> opt_text(r->actor) is None,
        },
{
}

/// The name that a command gives comes before that of its sender, and white space is no name.
pub proof fn names_come_before_senders(
    a: Option<Seq<char>>,
    b: Option<Seq<char>>,
    named: Seq<char>,
    sender: Seq<char>,
)
    ensures
        trimmed(named).len() > 0 ==> lane_actor(a, named) == named && lane_actor(a, named)
            == lane_actor(b, named),
        trimmed(named).len() == 0 ==> lane_actor(Some(sender), named) == sender,
        trimmed(named).len() == 0 ==> lane_actor(None, named).len() == 0,
{
}

/// A file of the protocol ends with `.json`. One that is still being written does not.
pub proof fn protocol_files_end_with_json(name: Seq<char>)
    ensures
        is_queue_file(with_json(name)),
        with_json(name).len() == name.len() + 5,
        with_json(name).take(name.len() as int) == name,
        !is_queue_file(name + ".tmp"@),
        is_queue_file(name) <==> exists|stem: Seq<char>| name == #[trigger] with_json(stem),
{
    reveal_strlit(".json");
    reveal_strlit(".tmp");
    let whole = with_json(name);
    assert(whole.take(name.len() as int) =~= name);
    lemma_ends(name);
    let part = name + ".tmp"@;
    assert(part.skip(part.len() - 4) =~= ".tmp"@);
    if is_queue_file(name) {
        let stem = name.take(name.len() - 5);
        assert(name =~= with_json(stem));
    }
    if exists|stem: Seq<char>| name == #[trigger] with_json(stem) {
        let stem = choose|stem: Seq<char>| name == #[trigger] with_json(stem);
        lemma_ends(stem);
    }
}

proof fn lemma_ends(stem: Seq<char>)
    ensures
        is_queue_file(with_json(stem)),
{
    reveal_strlit(".json");
    reveal_strlit(".tmp");
    let whole = with_json(stem);
    let n = stem.len() as int;
    assert(whole.skip(whole.len() - 5) =~= ".json"@);
    let end = whole.skip(whole.len() - 4);
    assert(end[0] == whole[n + 1] && whole[n + 1] == 'j');
    assert(".tmp"@[0] == '.');
}

/// The files of one folder of the protocol are told apart by their stems.
pub proof fn protocol_files_are_told_apart(paths: ApiPaths, folder: String, a: Seq<char>, b: Seq<char>)
    requires
        a != b,
    ensures
        with_json(a) != with_json(b),
        paths.file_in(folder, a) == joined_path(paths.style, folder@, with_json(a)),
{
    reveal_strlit(".json");
    assert(with_json(a).take(with_json(a).len() - 5) =~= a);
    assert(with_json(b).take(with_json(b).len() - 5) =~= b);
}

/// Whether a path is an image depends on its extension alone, in any case of its letters.
pub proof fn images_are_told_by_their_extension(
    style: PathStyle,
    a: Seq<char>,
    b: Seq<char>,
    e: Seq<char>,
    f: Seq<char>,
)
    ensures
        is_image_extension(e) <==> one_of(
            seq![
                "jpg"@,
                "jpeg"@,
                "png"@,
                "webp"@,
                "bmp"@,
                "tif"@,
                "tiff"@,
                "gif"@,
            ],
            ascii_lower(e),
        ),
        ascii_lower(e) == ascii_lower(f) ==> is_image_extension(e) == is_image_extension(f),
        extension_of(style, a) == extension_of(style, b) ==> is_image_path(style, a)
            == is_image_path(style, b),
        extension_of(style, a) is None ==> !is_image_path(style, a),
        extension_of(style, a) == Some(e) ==> (is_image_path(style, a) <==> is_image_extension(e)),
{
    let w = seq!["jpg"@, "jpeg"@, "png"@, "webp"@, "bmp"@, "tif"@, "tiff"@, "gif"@];
    let l = ascii_lower(e);
    assert(w[0] == "jpg"@ && w[1] == "jpeg"@ && w[2] == "png"@ && w[3] == "webp"@ && w[4]
        == "bmp"@ && w[5] == "tif"@ && w[6] == "tiff"@ && w[7] == "gif"@);
}

/// An intent waits, is carried out or is refused: a window is done with it in the last two cases,
/// and what failed or was refused does not count as carried out.
pub proof fn every_status_has_its_meaning(s: ActionStatus)
    ensures
        s == ActionStatus::Error || s == ActionStatus::Rejected <==> !s.is_applied(),
        s == ActionStatus::Applied || s == ActionStatus::Rejected <==> s.closes_an_intent(),
        s == ActionStatus::Accepted ==> s.is_applied() && !s.closes_an_intent(),
{
}

/// No two statuses are written with the same word.
pub proof fn status_words_differ(a: ActionStatus, b: ActionStatus)
    requires
        a != b,
    ensures
        a.word() != b.word(),
{
    reveal_strlit("ok");
    reveal_strlit("error");
    reveal_strlit("accepted");
    reveal_strlit("applied");
    reveal_strlit("rejected");
    assert("ok"@.len() == 2 && "error"@.len() == 5 && "accepted"@.len() == 8 && "applied"@.len()
        == 7);
    assert("accepted"@[0] == 'a' && "rejected"@[0] == 'r');
}

/// The words that a window knows for its tabs, for searching and for the folder navigator.
pub proof fn windows_know_their_words(s: Seq<char>)
    ensures
        is_tab(s) <==> one_of(
            seq![
                "project"@,
                "quality_iq"@,
                "identity"@,
                "duplicates"@,
                "run_debug"@,
                "manual"@,
                "media"@,
                "lanes"@,
                "options"@,
                "compare"@,
            ],
            s,
        ),
        is_search_mode(s) <==> one_of(
            seq!["name"@, "fuzzy"@, "tags"@, "notes"@, "semantic"@],
            s,
        ),
        is_navigation(s) <==> one_of(
            seq![
                "open"@,
                "close"@,
                "toggle"@,
                "up"@,
                "down"@,
                "page_up"@,
                "page_down"@,
                "home"@,
                "end"@,
                "enter"@,
                "parent"@,
                "refresh"@,
                "commit"@,
                "open_new_tab"@,
            ],
            s,
        ),
        is_collection_view(s) <==> one_of(seq!["fav_videos"@, "fav_images"@, "labels"@], s),
{
    let a = seq![
        "project"@,
        "quality_iq"@,
        "identity"@,
        "duplicates"@,
        "run_debug"@,
        "manual"@,
        "media"@,
        "lanes"@,
        "options"@,
        "compare"@,
    ];
    assert(a[0] == "project"@ && a[1] == "quality_iq"@ && a[2] == "identity"@ && a[3]
        == "duplicates"@ && a[4] == "run_debug"@ && a[5] == "manual"@ && a[6] == "media"@ && a[7]
        == "lanes"@ && a[8] == "options"@ && a[9] == "compare"@);
    let b = seq!["name"@, "fuzzy"@, "tags"@, "notes"@, "semantic"@];
    assert(b[0] == "name"@ && b[1] == "fuzzy"@ && b[2] == "tags"@ && b[3] == "notes"@ && b[4]
        == "semantic"@);
    let c = seq![
        "open"@,
        "close"@,
        "toggle"@,
        "up"@,
        "down"@,
        "page_up"@,
        "page_down"@,
        "home"@,
        "end"@,
        "enter"@,
        "parent"@,
        "refresh"@,
        "commit"@,
        "open_new_tab"@,
    ];
    assert(c[0] == "open"@ && c[1] == "close"@ && c[2] == "toggle"@ && c[3] == "up"@ && c[4]
        == "down"@ && c[5] == "page_up"@ && c[6] == "page_down"@ && c[7] == "home"@ && c[8]
        == "end"@ && c[9] == "enter"@ && c[10] == "parent"@ && c[11] == "refresh"@ && c[12]
        == "commit"@ && c[13] == "open_new_tab"@);
    let d = seq!["fav_videos"@, "fav_images"@, "labels"@];
    assert(d[0] == "fav_videos"@ && d[1] == "fav_images"@ && d[2] == "labels"@);
}

/// The actions on the media tabs that name a tab.
pub open spec fn names_a_tab(s: Seq<char>) -> bool {
    one_of(seq!["select"@, "close"@], s)
}

/// The actions on the media tabs that carry nothing.
pub open spec fn is_bare(s: Seq<char>) -> bool {
    one_of(
        seq![
            "list"@,
            "labels"@,
            "remove_from_view"@,
            "export_sheet"@,
            "close_receiving_pane"@,
        ],
        s,
    )
}

/// The actions on the media tabs that carry a path.
pub open spec fn names_a_path(s: Seq<char>) -> bool {
    one_of(
        seq![
            "set_scope"@,
            "set_sort"@,
            "set_names"@,
            "set_tile_size"@,
            "navigate_grid"@,
            "set_chrome"@,
            "set_split"@,
            "delete_selected"@,
            "set_meta_height"@,
            "set_select_mode"@,
            "set_sheet"@,
            "move_to"@,
            "copy_to"@,
            "open_receiving_pane"@,
        ],
        s,
    )
}

#[verifier::spinoff_prover]
#[verifier::rlimit(40)]
proof fn lemma_sorts_of_actions(s: Seq<char>)
    ensures
        names_a_tab(s) <==> s == "select"@ || s == "close"@,
        is_bare(s) <==> carries_nothing(s),
        names_a_path(s) <==> must_carry_path(s),
        may_carry_path(s) <==> must_carry_path(s) || s == "open"@ || s == "open_collection"@,
        is_tab_action(s) <==> may_carry_path(s) || carries_nothing(s) || s == "select"@ || s
            == "close"@,
{
    let a = seq!["select"@, "close"@];
    assert(a[0] == "select"@ && a[1] == "close"@);
    let b = seq![
        "list"@,
        "labels"@,
        "remove_from_view"@,
        "export_sheet"@,
        "close_receiving_pane"@,
    ];
    assert(b[0] == "list"@ && b[1] == "labels"@ && b[2] == "remove_from_view"@ && b[3]
        == "export_sheet"@ && b[4] == "close_receiving_pane"@);
    let c = seq![
        "set_scope"@,
        "set_sort"@,
        "set_names"@,
        "set_tile_size"@,
        "navigate_grid"@,
        "set_chrome"@,
        "set_split"@,
        "delete_selected"@,
        "set_meta_height"@,
        "set_select_mode"@,
        "set_sheet"@,
        "move_to"@,
        "copy_to"@,
        "open_receiving_pane"@,
    ];
    assert(c[0] == "set_scope"@ && c[1] == "set_sort"@ && c[2] == "set_names"@ && c[3]
        == "set_tile_size"@ && c[4] == "navigate_grid"@ && c[5] == "set_chrome"@ && c[6]
        == "set_split"@ && c[7] == "delete_selected"@ && c[8] == "set_meta_height"@ && c[9]
        == "set_select_mode"@ && c[10] == "set_sheet"@ && c[11] == "move_to"@ && c[12]
        == "copy_to"@ && c[13] == "open_receiving_pane"@);
}

proof fn lemma_apart(s: Seq<char>)
    ensures
        s == "select"@ || s == "close"@ ==> !may_carry_path(s) && !carries_nothing(s),
        s == "open"@ || s == "open_collection"@ ==> !must_carry_path(s) && !carries_nothing(s),
        s == "open"@ ==> s != "open_collection"@,
        must_carry_path(s) ==> !carries_nothing(s),
{
    reveal_strlit("select");
    reveal_strlit("close");
    reveal_strlit("open");
    reveal_strlit("open_collection");
    reveal_strlit("set_scope");
    reveal_strlit("set_sort");
    reveal_strlit("set_names");
    reveal_strlit("set_tile_size");
    reveal_strlit("navigate_grid");
    reveal_strlit("set_chrome");
    reveal_strlit("set_split");
    reveal_strlit("delete_selected");
    reveal_strlit("set_meta_height");
    reveal_strlit("set_select_mode");
    reveal_strlit("set_sheet");
    reveal_strlit("move_to");
    reveal_strlit("copy_to");
    reveal_strlit("open_receiving_pane");
    reveal_strlit("list");
    reveal_strlit("labels");
    reveal_strlit("remove_from_view");
    reveal_strlit("export_sheet");
    reveal_strlit("close_receiving_pane");
    assert("select"@.len() == 6 && "close"@.len() == 5 && "open"@.len() == 4);
    assert("open_collection"@.len() == 15 && "open_collection"@[5] == 'c');
    assert("set_scope"@.len() == 9 && "set_scope"@[0] == 's');
    assert("set_sort"@.len() == 8);
    assert("set_names"@.len() == 9 && "set_names"@[0] == 's');
    assert("set_tile_size"@.len() == 13);
    assert("navigate_grid"@.len() == 13);
    assert("set_chrome"@.len() == 10);
    assert("set_split"@.len() == 9);
    assert("delete_selected"@.len() == 15 && "delete_selected"@[0] == 'd');
    assert("set_meta_height"@.len() == 15 && "set_meta_height"@[0] == 's');
    assert("set_select_mode"@.len() == 15 && "set_select_mode"@[0] == 's');
    assert("open_collection"@[0] == 'o');
    assert("set_sheet"@.len() == 9);
    assert("move_to"@.len() == 7);
    assert("copy_to"@.len() == 7);
    assert("open_receiving_pane"@.len() == 19);
    assert("list"@.len() == 4 && "list"@[0] == 'l' && "open"@[0] == 'o');
    assert("labels"@.len() == 6 && "labels"@[0] == 'l' && "select"@[0] == 's');
    assert("remove_from_view"@.len() == 16);
    assert("export_sheet"@.len() == 12);
    assert("close_receiving_pane"@.len() == 20);
}

/// A request for the media tabs is well formed where its action is known and carries what an
/// action of its sort carries, and nothing else.
pub proof fn tab_requests_carry_what_they_need(
    action: Seq<char>,
    tab: Option<Seq<char>>,
    path: Option<Seq<char>>,
)
    ensures
        !tabs_malformed(action, tab, path) <==> {
            ||| names_a_tab(action) && tab is Some && path is None
            ||| is_bare(action) && tab is None && path is None
            ||| names_a_path(action) && tab is None && path is Some
            ||| action == "open"@ && tab is None
            ||| action == "open_collection"@ && tab is None && (path is None || is_collection_view(
                split(path->0, ':')[0],
            ))
        },
{
    lemma_sorts_of_actions(action);
    lemma_apart(action);
}

/// A request to change labels is well formed where it carries what its action needs.
pub proof fn label_requests_carry_what_they_need(
    action: Seq<char>,
    path: Option<Seq<char>>,
    id: Option<Seq<char>>,
    name: Option<Seq<char>>,
    hex: Option<Seq<char>>,
)
    ensures
        !mutation_malformed(action, path, id, name, hex) <==> {
            ||| action == "create"@ && name is Some && hex is Some
            ||| action == "update"@ && id is Some && (name is Some || hex is Some)
            ||| action == "delete"@ && id is Some
            ||| one_of(seq!["add"@, "remove"@], action) && path is Some && id is Some
            ||| action == "clear"@ && path is Some
        },
        is_label_action(action) <==> !mutation_malformed(
            action,
            Some(action),
            Some(action),
            Some(action),
            Some(action),
        ),
{
    reveal_strlit("create");
    reveal_strlit("update");
    reveal_strlit("delete");
    reveal_strlit("add");
    reveal_strlit("remove");
    reveal_strlit("clear");
    assert("create"@.len() == 6 && "create"@[0] == 'c');
    assert("update"@.len() == 6 && "update"@[0] == 'u');
    assert("delete"@.len() == 6 && "delete"@[0] == 'd');
    assert("remove"@.len() == 6 && "remove"@[0] == 'r');
    assert("add"@.len() == 3);
    assert("clear"@.len() == 5);
    let w = seq!["add"@, "remove"@];
    assert(w[0] == "add"@ && w[1] == "remove"@);
}

/// The video actions, those that take a value and those that do not.
pub proof fn video_actions_are_known(s: Seq<char>)
    ensures
        needs_value(s) <==> one_of(
            seq!["seek_ms"@, "volume"@, "audio_track"@, "subtitle_track"@, "loop"@],
            s,
        ),
        is_video_action(s) <==> needs_value(s) || one_of(
            seq![
                "status"@,
                "play_pause"@,
                "play"@,
                "play_library"@,
                "pause"@,
                "stop"@,
                "capture_frame"@,
            ],
            s,
        ),
{
    let a = seq!["seek_ms"@, "volume"@, "audio_track"@, "subtitle_track"@, "loop"@];
    assert(a[0] == "seek_ms"@ && a[1] == "volume"@ && a[2] == "audio_track"@ && a[3]
        == "subtitle_track"@ && a[4] == "loop"@);
    let b = seq![
        "status"@,
        "play_pause"@,
        "play"@,
        "play_library"@,
        "pause"@,
        "stop"@,
        "capture_frame"@,
    ];
    assert(b[0] == "status"@ && b[1] == "play_pause"@ && b[2] == "play"@ && b[3]
        == "play_library"@ && b[4] == "pause"@ && b[5] == "stop"@ && b[6] == "capture_frame"@);
}

/// An intent is accepted unless it uses a word that a window does not know, lacks what its action
/// needs, or carries what its action cannot take. A refusal says one thing: an error or a note.
pub proof fn intents_are_refused_for_a_reason(k: CommandKind)
    ensures
        intent_refusal(k) is None <==> match k {
            CommandKind::SelectTab { tab } => is_tab(tab@),
            CommandKind::MediaSearch { query, mode } => mode is None || is_search_mode(mode->0@),
            CommandKind::MediaFolderNavigate { action } => is_navigation(action@),
            CommandKind::MediaTabs { action, tab_id, path } => !tabs_malformed(
                action@,
                opt_text(tab_id),
                opt_text(path),
            ),
            CommandKind::MediaVideoControl { action, value, output } => {
                &&& is_video_action(action@)
                &&& needs_value(action@) ==> value is Some
                &&& output is Some ==> action@ == "capture_frame"@
            },
            CommandKind::MediaLabelMutation { action, path, id, name, hex, confirmed } =>
            !mutation_malformed(
                action@,
                opt_text(path),
                opt_text(id),
                opt_text(name),
                opt_text(hex),
            ),
            _ => true,
        },
        intent_refusal(k) is Some ==> {
            let said = intent_refusal(k)->0;
            &&& said.error is Some <==> said.note is None
            &&& said.note is Some <==> k is SelectTab || k is MediaSearch
        },
{
}

/// A claim whose owner lives is left alone, an intent that was closed is not asked for again, and
/// one that was not goes back under its own identity unless it waits already.
pub proof fn claims_are_recovered_once(
    paths: ApiPaths,
    name: Seq<char>,
    alive: bool,
    status: ActionStatus,
    id: Seq<char>,
    waiting: bool,
    r: ClaimRecovery,
    s: ClaimRecovery,
)
    requires
        claim_recovery(paths, name, alive, Some((status, id)), waiting, r),
        claim_recovery(paths, name, alive, None, waiting, s),
    ensures
        !is_queue_file(name) ==> r is Leave && s is Leave,
        r is Leave <==> s is Leave,
        !(r is Leave) && (status == ActionStatus::Applied || status == ActionStatus::Rejected)
            ==> r is Finish && r->record_path@ == joined_path(
            paths.style,
            paths.intents_applied@,
            with_json(id),
        ),
        r is Finish ==> status == ActionStatus::Applied || status == ActionStatus::Rejected,
        !(s is Finish),
        !(s is Leave) ==> (s is Conflict <==> waiting) && (s is Requeue <==> !waiting),
        !alive && is_queue_file(name) ==> !(s is Leave),
{
}

/// Of two intents whose times are known the older comes first. Where their times are the same, or
/// one is not known, the name that comes first in order does; no intent comes before itself.
pub proof fn older_intents_come_first(a: IntentFile, b: IntentFile)
    ensures
        a.modified is Some && b.modified is Some && a.modified->0 < b.modified->0
            ==> handed_out_before(a, b) && !handed_out_before(b, a),
        a.modified == b.modified || a.modified is None || b.modified is None ==> (
        handed_out_before(a, b) <==> text_rank(a.name@, b.name@) == Rank::Less),
        !(handed_out_before(a, b) && handed_out_before(b, a)),
        a.name@ != b.name@ ==> handed_out_before(a, b) || handed_out_before(b, a),
        !handed_out_before(a, a),
{
    text_order_is_total(a.name@, b.name@);
    text_order_is_total(a.name@, a.name@);
    text_order_is_total(b.name@, a.name@);
}

} // verus!
