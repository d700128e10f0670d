//! Intents: commands that only a live window can carry out.
//!
//! An intent is checked, answered with an accepted receipt, and stored for the window to claim.
//! The window moves it aside under its own process number, applies it, writes the final receipt
//! and removes the claim. What a crash leaves behind is sorted out at the next start.

use crate::api::{
    answers, error_receipt, make_receipt, says, ActionStatus, Command, CommandKind, Receipt, Reply,
};
use crate::number::{decimal, decimal_round_trip, decimal_text, parse_unsigned, unsigned_value};
use crate::outside::now_rfc3339;
use crate::paths::{dot_place, join_path, joined_path, name_stem, stem_of_name};
use crate::queue::{is_queue_file, queue_file, with_json, ApiPaths};
use crate::text::{
    cat, cat3, chars_of, opt_text, rank_text, slice_of, split, split_char, str_eq, string_of,
    text_order_is_total, text_order_is_transitive, text_rank, texts, Rank,
};
use vstd::prelude::*;

verus! {

/// The tabs of the window; `compare` stands for one of them.
pub open spec fn is_tab(s: Seq<char>) -> bool {
    s == "project"@ || s == "quality_iq"@ || s == "identity"@ || s == "duplicates"@
        || s == "run_debug"@ || s == "manual"@ || s == "media"@ || s == "lanes"@ || s == "options"@
        || s == "compare"@
}

pub fn tab_known(s: &str) -> (r: bool)
    ensures
        r == is_tab(s@),
{
    str_eq(s, "project") || str_eq(s, "quality_iq") || str_eq(s, "identity")
        || str_eq(s, "duplicates") || str_eq(s, "run_debug") || str_eq(s, "manual")
        || str_eq(s, "media") || str_eq(s, "lanes") || str_eq(s, "options") || str_eq(s, "compare")
}

/// The ways to search.
pub open spec fn is_search_mode(s: Seq<char>) -> bool {
    s == "name"@ || s == "fuzzy"@ || s == "tags"@ || s == "notes"@ || s == "semantic"@
}

fn mode_known(s: &str) -> (r: bool)
    ensures
        r == is_search_mode(s@),
{
    str_eq(s, "name") || str_eq(s, "fuzzy") || str_eq(s, "tags") || str_eq(s, "notes")
        || str_eq(s, "semantic")
}

/// What the folder navigator can do.
pub open spec fn is_navigation(s: Seq<char>) -> bool {
    s == "open"@ || s == "close"@ || s == "toggle"@ || s == "up"@ || s == "down"@ || s == "page_up"@
        || s == "page_down"@ || s == "home"@ || s == "end"@ || s == "enter"@ || s == "parent"@
        || s == "refresh"@ || s == "commit"@ || s == "open_new_tab"@
}

fn navigation_known(s: &str) -> (r: bool)
    ensures
        r == is_navigation(s@),
{
    str_eq(s, "open") || str_eq(s, "close") || str_eq(s, "toggle") || str_eq(s, "up")
        || str_eq(s, "down") || str_eq(s, "page_up") || str_eq(s, "page_down") || str_eq(s, "home")
        || str_eq(s, "end") || str_eq(s, "enter") || str_eq(s, "parent") || str_eq(s, "refresh")
        || str_eq(s, "commit") || str_eq(s, "open_new_tab")
}

/// What can be done with the media tabs.
pub open spec fn is_tab_action(s: Seq<char>) -> bool {
    s == "list"@ || s == "select"@ || s == "open"@ || s == "close"@ || s == "open_collection"@
        || s == "set_scope"@ || s == "set_sort"@ || s == "navigate_grid"@ || s == "set_chrome"@
        || s == "set_split"@ || s == "labels"@ || s == "remove_from_view"@ || s == "set_names"@
        || s == "set_tile_size"@ || s == "delete_selected"@ || s == "set_meta_height"@
        || s == "set_select_mode"@ || s == "set_sheet"@ || s == "export_sheet"@ || s == "move_to"@
        || s == "copy_to"@ || s == "open_receiving_pane"@ || s == "close_receiving_pane"@
}

fn tab_action_known(s: &str) -> (r: bool)
    ensures
        r == is_tab_action(s@),
{
    str_eq(s, "list") || str_eq(s, "select") || str_eq(s, "open") || str_eq(s, "close")
        || str_eq(s, "open_collection") || str_eq(s, "set_scope") || str_eq(s, "set_sort")
        || str_eq(s, "navigate_grid") || str_eq(s, "set_chrome") || str_eq(s, "set_split")
        || str_eq(s, "labels") || str_eq(s, "remove_from_view") || str_eq(s, "set_names")
        || str_eq(s, "set_tile_size") || str_eq(s, "delete_selected")
        || str_eq(s, "set_meta_height") || str_eq(s, "set_select_mode") || str_eq(s, "set_sheet")
        || str_eq(s, "export_sheet") || str_eq(s, "move_to") || str_eq(s, "copy_to")
        || str_eq(s, "open_receiving_pane") || str_eq(s, "close_receiving_pane")
}

/// The tab actions that may carry a path.
pub open spec fn may_carry_path(s: Seq<char>) -> bool {
    s == "open"@ || s == "open_collection"@ || s == "set_scope"@ || s == "set_sort"@
        || s == "navigate_grid"@ || s == "set_chrome"@ || s == "set_split"@ || s == "set_names"@
        || s == "set_tile_size"@ || s == "delete_selected"@ || s == "set_meta_height"@
        || s == "set_select_mode"@ || s == "set_sheet"@ || s == "move_to"@ || s == "copy_to"@
        || s == "open_receiving_pane"@
}

fn takes_path(s: &str) -> (r: bool)
    ensures
        r == may_carry_path(s@),
{
    str_eq(s, "open") || str_eq(s, "open_collection") || str_eq(s, "set_scope")
        || str_eq(s, "set_sort") || str_eq(s, "navigate_grid") || str_eq(s, "set_chrome")
        || str_eq(s, "set_split") || str_eq(s, "set_names") || str_eq(s, "set_tile_size")
        || str_eq(s, "delete_selected") || str_eq(s, "set_meta_height")
        || str_eq(s, "set_select_mode") || str_eq(s, "set_sheet") || str_eq(s, "move_to")
        || str_eq(s, "copy_to") || str_eq(s, "open_receiving_pane")
}

/// The tab actions that must carry a path.
pub open spec fn must_carry_path(s: Seq<char>) -> bool {
    s == "set_scope"@ || s == "set_sort"@ || s == "set_names"@ || s == "set_tile_size"@
        || s == "navigate_grid"@ || s == "set_chrome"@ || s == "set_split"@
        || s == "delete_selected"@ || s == "set_meta_height"@ || s == "set_select_mode"@
        || s == "set_sheet"@ || s == "move_to"@ || s == "copy_to"@ || s == "open_receiving_pane"@
}

fn wants_path(s: &str) -> (r: bool)
    ensures
        r == must_carry_path(s@),
{
    str_eq(s, "set_scope") || str_eq(s, "set_sort") || str_eq(s, "set_names")
        || str_eq(s, "set_tile_size") || str_eq(s, "navigate_grid") || str_eq(s, "set_chrome")
        || str_eq(s, "set_split") || str_eq(s, "delete_selected") || str_eq(s, "set_meta_height")
        || str_eq(s, "set_select_mode") || str_eq(s, "set_sheet") || str_eq(s, "move_to")
        || str_eq(s, "copy_to") || str_eq(s, "open_receiving_pane")
}

/// The tab actions that carry nothing.
pub open spec fn carries_nothing(s: Seq<char>) -> bool {
    s == "list"@ || s == "labels"@ || s == "remove_from_view"@ || s == "export_sheet"@
        || s == "close_receiving_pane"@
}

fn takes_nothing(s: &str) -> (r: bool)
    ensures
        r == carries_nothing(s@),
{
    str_eq(s, "list") || str_eq(s, "labels") || str_eq(s, "remove_from_view")
        || str_eq(s, "export_sheet") || str_eq(s, "close_receiving_pane")
}

/// The collections that a tab can show.
pub open spec fn is_collection_view(s: Seq<char>) -> bool {
    s == "fav_videos"@ || s == "fav_images"@ || s == "labels"@
}

fn view_known(s: &str) -> (r: bool)
    ensures
        r == is_collection_view(s@),
{
    str_eq(s, "fav_videos") || str_eq(s, "fav_images") || str_eq(s, "labels")
}

/// What can be done with a video.
pub open spec fn is_video_action(s: Seq<char>) -> bool {
    s == "status"@ || s == "play_pause"@ || s == "play"@ || s == "play_library"@ || s == "pause"@
        || s == "stop"@ || s == "seek_ms"@ || s == "volume"@ || s == "audio_track"@
        || s == "subtitle_track"@ || s == "loop"@ || s == "capture_frame"@
}

fn video_known(s: &str) -> (r: bool)
    ensures
        r == is_video_action(s@),
{
    str_eq(s, "status") || str_eq(s, "play_pause") || str_eq(s, "play") || str_eq(s, "play_library")
        || str_eq(s, "pause") || str_eq(s, "stop") || str_eq(s, "seek_ms") || str_eq(s, "volume")
        || str_eq(s, "audio_track") || str_eq(s, "subtitle_track") || str_eq(s, "loop")
        || str_eq(s, "capture_frame")
}

/// The video actions that need a value.
pub open spec fn needs_value(s: Seq<char>) -> bool {
    s == "seek_ms"@ || s == "volume"@ || s == "audio_track"@ || s == "subtitle_track"@
        || s == "loop"@
}

fn video_wants_value(s: &str) -> (r: bool)
    ensures
        r == needs_value(s@),
{
    str_eq(s, "seek_ms") || str_eq(s, "volume") || str_eq(s, "audio_track")
        || str_eq(s, "subtitle_track") || str_eq(s, "loop")
}

/// What can be done with labels.
pub open spec fn is_label_action(s: Seq<char>) -> bool {
    s == "create"@ || s == "update"@ || s == "delete"@ || s == "add"@ || s == "remove"@
        || s == "clear"@
}

fn label_action_known(s: &str) -> (r: bool)
    ensures
        r == is_label_action(s@),
{
    str_eq(s, "create") || str_eq(s, "update") || str_eq(s, "delete") || str_eq(s, "add")
        || str_eq(s, "remove") || str_eq(s, "clear")
}

/// Whether a request for the media tabs is malformed.
pub open spec fn tabs_malformed(
    action: Seq<char>,
    tab_id: Option<Seq<char>>,
    path: Option<Seq<char>>,
) -> bool {
    ||| !is_tab_action(action)
    ||| (action == "select"@ || action == "close"@) && tab_id is None
    ||| !may_carry_path(action) && path is Some
    ||| must_carry_path(action) && path is None
    ||| may_carry_path(action) && tab_id is Some
    ||| carries_nothing(action) && (tab_id is Some || path is Some)
    ||| action == "open_collection"@ && path is Some && !is_collection_view(split(path->0, ':')[0])
}

/// Whether a request to change labels is malformed.
pub open spec fn mutation_malformed(
    action: Seq<char>,
    path: Option<Seq<char>>,
    id: Option<Seq<char>>,
    name: Option<Seq<char>>,
    hex: Option<Seq<char>>,
) -> bool {
    ||| !is_label_action(action)
    ||| (action == "add"@ || action == "remove"@) && (path is None || id is None)
    ||| action == "clear"@ && path is None
    ||| action == "create"@ && (name is None || hex is None)
    ||| (action == "update"@ || action == "delete"@) && id is None
    ||| action == "update"@ && name is None && hex is None
}

/// What an intent is refused with: an error or a note.
pub ghost struct Refusal {
    pub error: Option<Seq<char>>,
    pub note: Option<Seq<char>>,
}

pub open spec fn refused_with_error(message: Seq<char>) -> Option<Refusal> {
    Some(Refusal { error: Some(message), note: None })
}

pub open spec fn refused_with_note(message: Seq<char>) -> Option<Refusal> {
    Some(Refusal { error: None, note: Some(message) })
}

/// What an intent is refused with; `None` for one that is well formed.
pub open spec fn intent_refusal(k: CommandKind) -> Option<Refusal> {
    match k {
        CommandKind::SelectTab { tab } => if is_tab(tab@) {
            None
        } else {
            refused_with_note(
                "unknown tab vocab: "@ + tab@
                    + " (expected one of project|quality_iq|identity|duplicates|run_debug|manual|media|lanes|options; compare is accepted as an alias)"@,
            )
        },
        CommandKind::MediaSearch { query, mode } => if mode is Some && !is_search_mode(mode->0@) {
            refused_with_note(
                "unknown media search mode: "@ + mode->0@ + " (expected one of name|fuzzy|tags|notes|semantic)"@,
            )
        } else {
            None
        },
        CommandKind::MediaFolderNavigate { action } => if is_navigation(action@) {
            None
        } else {
            refused_with_error(
                "unknown folder navigator action: "@ + action@
                    + " (expected one of open|close|toggle|up|down|page_up|page_down|home|end|enter|parent|refresh|commit|open_new_tab)"@,
            )
        },
        CommandKind::MediaTabs { action, tab_id, path } => if tabs_malformed(
            action@,
            opt_text(tab_id),
            opt_text(path),
        ) {
            refused_with_error(tabs_usage())
        } else {
            None
        },
        CommandKind::MediaVideoControl { action, value, output } => if !is_video_action(action@) {
            refused_with_error(
                "unknown video action: "@ + action@
                    + " (expected one of status|play_pause|play|play_library|pause|stop|seek_ms|volume|audio_track|subtitle_track|loop|capture_frame)"@,
            )
        } else if needs_value(action@) && value is None {
            refused_with_error("video action "@ + action@ + " requires --value"@)
        } else if action@ != "capture_frame"@ && output is Some {
            refused_with_error("video action "@ + action@ + " does not accept --out"@)
        } else {
            None
        },
        CommandKind::MediaLabelMutation { action, path, id, name, hex, confirmed } => if mutation_malformed(
            action@,
            opt_text(path),
            opt_text(id),
            opt_text(name),
            opt_text(hex),
        ) {
            refused_with_error(mutation_usage())
        } else {
            None
        },
        _ => None,
    }
}

/// How the media tabs are asked.
pub open spec fn tabs_usage() -> Seq<char> {
    "invalid media_tabs intent; list takes no fields, select/close require tab_id, open accepts optional path, open_collection accepts path=fav_videos|fav_images|labels or labels:LABEL_ID, labels takes no fields, remove_from_view takes no fields (it acts on the current selection in the open collection tab; select rows first with media_select), set_scope requires path=folder|tab, set_sort requires path=name|modified|size|created[:asc|:desc], navigate_grid requires path=left|right|up|down|page_up|page_down|home|end, set_chrome requires path=hidden|visible, set_split requires path=<ratio>, set_names requires path=on|off, set_tile_size requires path=<points>, delete_selected requires the explicit confirmation path=recycle|permanent and acts on the current selection, set_meta_height requires path=<points>, set_select_mode requires path=on|off, set_sheet requires path=on|off|names_on|names_off, export_sheet takes no fields, move_to and copy_to require path=<destination folder> and act on the current selection, open_receiving_pane requires path=<tab id> of a non-active tab, close_receiving_pane takes no fields"@
}

/// How labels are changed.
pub open spec fn mutation_usage() -> Seq<char> {
    "invalid media label mutation; create needs name+hex, update/delete need id, add/remove need path+id, clear needs path"@
}

fn tabs_are_malformed(action: &str, tab_id: &Option<String>, path: &Option<String>) -> (r: bool)
    ensures
        r == tabs_malformed(action@, opt_text(*tab_id), opt_text(*path)),
{
    if !tab_action_known(action) {
        return true;
    }
    if (str_eq(action, "select") || str_eq(action, "close")) && tab_id.is_none() {
        return true;
    }
    if !takes_path(action) && path.is_some() {
        return true;
    }
    if wants_path(action) && path.is_none() {
        return true;
    }
    if takes_path(action) && tab_id.is_some() {
        return true;
    }
    if takes_nothing(action) && (tab_id.is_some() || path.is_some()) {
        return true;
    }
    if str_eq(action, "open_collection") {
        if let Some(view) = path {
            let pieces = split_char(view.as_str(), ':');
            assert(split(view@, ':').len() > 0);
            assert(texts(pieces@).len() == pieces@.len());
            assert(texts(pieces@)[0] == pieces@[0]@);
            return !view_known(pieces[0].as_str());
        }
    }
    false
}

fn mutation_is_malformed(
    action: &str,
    path: &Option<String>,
    id: &Option<String>,
    name: &Option<String>,
    hex: &Option<String>,
) -> (r: bool)
    ensures
        r == mutation_malformed(
            action@,
            opt_text(*path),
            opt_text(*id),
            opt_text(*name),
            opt_text(*hex),
        ),
{
    if !label_action_known(action) {
        return true;
    }
    if (str_eq(action, "add") || str_eq(action, "remove")) && (path.is_none() || id.is_none()) {
        return true;
    }
    if str_eq(action, "clear") && path.is_none() {
        return true;
    }
    if str_eq(action, "create") && (name.is_none() || hex.is_none()) {
        return true;
    }
    if (str_eq(action, "update") || str_eq(action, "delete")) && id.is_none() {
        return true;
    }
    str_eq(action, "update") && name.is_none() && hex.is_none()
}

/// An intent that is refused, with an error or a note.
#[derive(Debug)]
pub struct IntentRefusal {
    pub error: Option<String>,
    pub note: Option<String>,
}

fn with_error(message: String) -> (r: Option<IntentRefusal>)
    ensures
        r is Some,
        opt_text(r->0.error) == Some(message@),
        r->0.note is None,
{
    Some(IntentRefusal { error: Some(message), note: None })
}

fn with_note(message: String) -> (r: Option<IntentRefusal>)
    ensures
        r is Some,
        r->0.error is None,
        opt_text(r->0.note) == Some(message@),
{
    Some(IntentRefusal { error: None, note: Some(message) })
}

/// Checks the words of an intent. `None` means that it is well formed.
pub fn check_intent(k: &CommandKind) -> (r: Option<IntentRefusal>)
    ensures
        match r {
            Some(x) => intent_refusal(*k) == Some(
                Refusal { error: opt_text(x.error), note: opt_text(x.note) },
            ),
            None => intent_refusal(*k) is None,
        },
{
    match k {
        CommandKind::SelectTab { tab } => if tab_known(tab.as_str()) {
            None
        } else {
            with_note(
                cat3(
                    "unknown tab vocab: ",
                    tab.as_str(),
                    " (expected one of project|quality_iq|identity|duplicates|run_debug|manual|media|lanes|options; compare is accepted as an alias)",
                ),
            )
        },
        CommandKind::MediaSearch { query: _, mode } => match mode {
            Some(m) => if mode_known(m.as_str()) {
                None
            } else {
                with_note(
                    cat3(
                        "unknown media search mode: ",
                        m.as_str(),
                        " (expected one of name|fuzzy|tags|notes|semantic)",
                    ),
                )
            },
            None => None,
        },
        CommandKind::MediaFolderNavigate { action } => if navigation_known(action.as_str()) {
            None
        } else {
            with_error(
                cat3(
                    "unknown folder navigator action: ",
                    action.as_str(),
                    " (expected one of open|close|toggle|up|down|page_up|page_down|home|end|enter|parent|refresh|commit|open_new_tab)",
                ),
            )
        },
        CommandKind::MediaTabs { action, tab_id, path } => if tabs_are_malformed(
            action.as_str(),
            tab_id,
            path,
        ) {
            with_error("invalid media_tabs intent; list takes no fields, select/close require tab_id, open accepts optional path, open_collection accepts path=fav_videos|fav_images|labels or labels:LABEL_ID, labels takes no fields, remove_from_view takes no fields (it acts on the current selection in the open collection tab; select rows first with media_select), set_scope requires path=folder|tab, set_sort requires path=name|modified|size|created[:asc|:desc], navigate_grid requires path=left|right|up|down|page_up|page_down|home|end, set_chrome requires path=hidden|visible, set_split requires path=<ratio>, set_names requires path=on|off, set_tile_size requires path=<points>, delete_selected requires the explicit confirmation path=recycle|permanent and acts on the current selection, set_meta_height requires path=<points>, set_select_mode requires path=on|off, set_sheet requires path=on|off|names_on|names_off, export_sheet takes no fields, move_to and copy_to require path=<destination folder> and act on the current selection, open_receiving_pane requires path=<tab id> of a non-active tab, close_receiving_pane takes no fields".to_owned())
        } else {
            None
        },
        CommandKind::MediaVideoControl { action, value, output } => {
            let a = action.as_str();
            if !video_known(a) {
                with_error(
                    cat3(
                        "unknown video action: ",
                        a,
                        " (expected one of status|play_pause|play|play_library|pause|stop|seek_ms|volume|audio_track|subtitle_track|loop|capture_frame)",
                    ),
                )
            } else if video_wants_value(a) && value.is_none() {
                with_error(cat3("video action ", a, " requires --value"))
            } else if !str_eq(a, "capture_frame") && output.is_some() {
                with_error(cat3("video action ", a, " does not accept --out"))
            } else {
                None
            }
        },
        CommandKind::MediaLabelMutation { action, path, id, name, hex, confirmed: _ } => {
            if mutation_is_malformed(action.as_str(), path, id, name, hex) {
                with_error("invalid media label mutation; create needs name+hex, update/delete need id, add/remove need path+id, clear needs path".to_owned())
            } else {
                None
            }
        },
        _ => None,
    }
}

/// What comes after an intent has been checked.
#[derive(Debug)]
pub enum IntentStep {
    /// The intent is refused with this receipt.
    Refused(Receipt),
    /// This receipt is written first, and only then the intent is stored.
    Accept { receipt_path: String, receipt: Receipt },
}

/// Checks an intent. The receipt of one that is accepted must be on disk before the intent is
/// visible to a window.
pub fn dispatch_ui_intent_started(paths: &ApiPaths, cmd: &Command, started_at: &str) -> (r: IntentStep)
    ensures
        match r {
            IntentStep::Refused(receipt) => {
                &&& answers(receipt, *cmd, started_at@)
                &&& receipt.result is Nothing
                &&& receipt.status == ActionStatus::Rejected
                &&& intent_refusal(cmd.command) == Some(
                    Refusal { error: opt_text(receipt.error), note: opt_text(receipt.note) },
                )
            },
            IntentStep::Accept { receipt_path, receipt } => {
                &&& intent_refusal(cmd.command) is None
                &&& receipt_path@ == paths.file_in(paths.receipts, cmd.action_id@)
                &&& answers(receipt, *cmd, started_at@)
                &&& receipt.result is Echo
                &&& says(
                    receipt,
                    ActionStatus::Accepted,
                    None,
                    Some("ui-intent persisted; awaiting live GUI apply"@),
                )
            },
        },
{
    match check_intent(&cmd.command) {
        Some(refusal) => IntentStep::Refused(
            make_receipt(
                cmd,
                ActionStatus::Rejected,
                started_at,
                Reply::Nothing,
                refusal.error,
                refusal.note,
            ),
        ),
        None => IntentStep::Accept {
            receipt_path: paths.receipt_path(cmd.action_id.as_str()),
            receipt: make_receipt(
                cmd,
                ActionStatus::Accepted,
                started_at,
                Reply::Echo,
                None,
                Some("ui-intent persisted; awaiting live GUI apply".to_owned()),
            ),
        },
    }
}

/// Checks an intent, started at the time of the machine.
pub fn dispatch_ui_intent(paths: &ApiPaths, cmd: &Command) -> (r: IntentStep)
    ensures
        match r {
            IntentStep::Refused(receipt) => {
                &&& answers(receipt, *cmd, receipt.started_at@)
                &&& receipt.result is Nothing
                &&& receipt.status == ActionStatus::Rejected
                &&& intent_refusal(cmd.command) == Some(
                    Refusal { error: opt_text(receipt.error), note: opt_text(receipt.note) },
                )
            },
            IntentStep::Accept { receipt_path, receipt } => {
                &&& intent_refusal(cmd.command) is None
                &&& receipt_path@ == paths.file_in(paths.receipts, cmd.action_id@)
                &&& answers(receipt, *cmd, receipt.started_at@)
                &&& receipt.result is Echo
                &&& says(
                    receipt,
                    ActionStatus::Accepted,
                    None,
                    Some("ui-intent persisted; awaiting live GUI apply"@),
                )
            },
        },
{
    let now = now_rfc3339();
    dispatch_ui_intent_started(paths, cmd, now.as_str())
}

/// After the accepted receipt was written, or was not: where the intent is stored, or the receipt
/// that says why it is not.
pub fn accepted_receipt_written(
    paths: &ApiPaths,
    cmd: &Command,
    started_at: &str,
    written: Result<(), String>,
) -> (r: Result<String, Receipt>)
    ensures
        match r {
            Ok(target) => written is Ok && target@ == paths.file_in(paths.intents, cmd.action_id@),
            Err(receipt) => {
                &&& written is Err
                &&& answers(receipt, *cmd, started_at@)
                &&& says(
                    receipt,
                    ActionStatus::Error,
                    Some("accepted receipt persist error: "@ + written->Err_0@),
                    None,
                )
                &&& receipt.result is Nothing
            },
        },
{
    match written {
        Ok(()) => Ok(paths.intent_path(cmd.action_id.as_str())),
        Err(e) => Err(
            error_receipt(cmd, started_at, cat("accepted receipt persist error: ", e.as_str())),
        ),
    }
}

/// Why an intent could not be stored.
#[derive(Debug)]
pub enum StoreFailure {
    Serialize(String),
    Persist(String),
}

/// After the intent was stored, or was not: the accepted receipt, or one that says why not.
pub fn intent_stored(
    cmd: &Command,
    started_at: &str,
    accepted: Receipt,
    stored: Result<(), StoreFailure>,
) -> (r: Receipt)
    ensures
        match stored {
            Ok(()) => r == accepted,
            Err(StoreFailure::Serialize(e)) => {
                &&& answers(r, *cmd, started_at@)
                &&& says(r, ActionStatus::Error, Some("intent serialize error: "@ + e@), None)
                &&& r.result is Nothing
            },
            Err(StoreFailure::Persist(e)) => {
                &&& answers(r, *cmd, started_at@)
                &&& says(r, ActionStatus::Error, Some("intent persist error: "@ + e@), None)
                &&& r.result is Nothing
            },
        },
{
    match stored {
        Ok(()) => accepted,
        Err(StoreFailure::Serialize(e)) => error_receipt(
            cmd,
            started_at,
            cat("intent serialize error: ", e.as_str()),
        ),
        Err(StoreFailure::Persist(e)) => error_receipt(
            cmd,
            started_at,
            cat("intent persist error: ", e.as_str()),
        ),
    }
}

/// The name under which a process holds an intent.
pub open spec fn claim_name(action_id: Seq<char>, process_id: nat) -> Seq<char> {
    with_json(action_id + "."@ + decimal(process_id))
}

/// Where a process holds an intent.
pub fn ui_intent_claim_path(paths: &ApiPaths, action_id: &str, process_id: u32) -> (r: String)
    ensures
        r@ == joined_path(
            paths.style,
            paths.intents_processing@,
            claim_name(action_id@, process_id as nat),
        ),
{
    let digits = decimal_text(process_id as u64);
    let mut name = cat3(action_id, ".", digits.as_str());
    name.append(".json");
    join_path(paths.style, paths.intents_processing.as_str(), name.as_str())
}

/// The place of the last dot before `n`.
pub open spec fn last_dot(s: Seq<char>, n: nat) -> Option<nat>
    decreases n,
{
    if n == 0 {
        None
    } else if s[n - 1] == '.' {
        Some((n - 1) as nat)
    } else {
        last_dot(s, (n - 1) as nat)
    }
}

/// The intent that a claim of the given file name holds, and the process that holds it.
pub open spec fn claim_identity(name: Seq<char>) -> (Seq<char>, Option<nat>) {
    let stem = stem_of_name(name);
    match last_dot(stem, stem.len()) {
        Some(d) => match unsigned_value(stem.skip(d as int + 1), u32::MAX as nat) {
            Some(owner) => (stem.take(d as int), Some(owner)),
            None => (stem, None),
        },
        None => (stem, None),
    }
}

/// The intent that a claim of the given file name holds, and the process that holds it.
pub fn ui_intent_claim_identity(name: &str) -> (r: (String, Option<u32>))
    ensures
        r.0@ == claim_identity(name@).0,
        match r.1 {
            Some(owner) => claim_identity(name@).1 == Some(owner as nat),
            None => claim_identity(name@).1 is None,
        },
{
    let stem = name_stem(name);
    let cs = chars_of(stem.as_str());
    let n: usize = cs.len();
    let mut i: usize = n;
    let mut found: bool = false;
    while i > 0 && !found
        invariant
            i <= n,
            n == cs@.len(),
            cs@ == stem@,
            !found ==> last_dot(cs@, n as nat) == last_dot(cs@, i as nat),
            found ==> i < n && last_dot(cs@, n as nat) == Some(i as nat),
        decreases i,
    {
        let c: char = cs[i - 1];
        if c == '.' {
            found = true;
        }
        i -= 1;
    }
    if found {
        let tail = string_of(slice_of(&cs, i + 1, n));
        assert(tail@ =~= stem@.skip(i as int + 1));
        match parse_unsigned(tail.as_str(), u32::MAX as u64) {
            Some(owner) => {
                let head = string_of(slice_of(&cs, 0, i));
                assert(head@ =~= stem@.take(i as int));
                (head, Some(owner as u32))
            },
            None => (stem, None),
        }
    } else {
        (stem, None)
    }
}

proof fn lemma_last_dot(a: Seq<char>, b: Seq<char>, n: nat)
    requires
        n <= b.len(),
        forall|i: int| 0 <= i < b.len() ==> #[trigger] b[i] != '.',
    ensures
        last_dot(a.push('.') + b, a.len() + 1 + n) == Some(a.len()),
    decreases n,
{
    let s = a.push('.') + b;
    if n == 0 {
        assert(s[a.len() as int] == '.');
    } else {
        assert(s[(a.len() + n) as int] == b[n - 1]);
        lemma_last_dot(a, b, (n - 1) as nat);
    }
}

proof fn lemma_dot_place(a: Seq<char>, b: Seq<char>, n: nat)
    requires
        n <= b.len(),
        forall|i: int| 0 <= i < b.len() ==> #[trigger] b[i] != '.',
    ensures
        dot_place(a.push('.') + b, a.len() + 1 + n) == a.len(),
    decreases n,
{
    let s = a.push('.') + b;
    if n == 0 {
        assert(s[a.len() as int] == '.');
    } else {
        assert(s[(a.len() + n) as int] == b[n - 1]);
        lemma_dot_place(a, b, (n - 1) as nat);
    }
}

/// The name of a claim tells the intent and the process that holds it.
pub proof fn claims_name_their_owner(action_id: Seq<char>, process_id: nat)
    requires
        process_id <= u32::MAX,
    ensures
        claim_identity(claim_name(action_id, process_id)) == (action_id, Some(process_id)),
        is_queue_file(claim_name(action_id, process_id)),
{
    reveal_strlit(".");
    reveal_strlit(".json");
    reveal_strlit(".tmp");
    let digits = decimal(process_id);
    decimal_round_trip(process_id);
    let stem = action_id + "."@ + digits;
    let word = seq!['j', 's', 'o', 'n'];
    let name = claim_name(action_id, process_id);
    assert(name =~= stem.push('.') + word);
    lemma_dot_place(stem, word, 4);
    assert(stem_of_name(name) =~= stem);
    assert(stem =~= action_id.push('.') + digits);
    lemma_last_dot(action_id, digits, digits.len());
    assert(stem.skip(action_id.len() as int + 1) =~= digits);
    assert(stem.take(action_id.len() as int) =~= action_id);
    assert(name.skip(name.len() - 5) =~= ".json"@);
    assert(name.skip(name.len() - 4)[0] == 'j');
    assert(".tmp"@[0] == '.');
}

/// What a live window does to close an intent: the receipt is written first, then the copy for the
/// record, then the claim is removed.
#[derive(Debug)]
pub struct IntentClosing {
    pub receipt_path: String,
    pub record_path: String,
    pub claim_path: String,
}

/// Why an intent cannot be closed.
#[derive(Debug)]
pub enum ClosingError {
    NotFinal(String),
    NotOwned(String),
}

/// Closes an intent of the window that runs as the given process. `claim_exists` tells whether the
/// claim of that process lies in its place.
pub fn mark_intent_applied(
    paths: &ApiPaths,
    receipt: &Receipt,
    process_id: u32,
    claim_exists: bool,
) -> (r: Result<IntentClosing, ClosingError>)
    ensures
        match r {
            Ok(plan) => {
                &&& receipt.status.closes_an_intent()
                &&& claim_exists
                &&& plan.receipt_path@ == paths.file_in(paths.receipts, receipt.action_id@)
                &&& plan.record_path@ == paths.file_in(paths.intents_applied, receipt.action_id@)
                &&& plan.claim_path@ == joined_path(
                    paths.style,
                    paths.intents_processing@,
                    claim_name(receipt.action_id@, process_id as nat),
                )
            },
            Err(ClosingError::NotFinal(message)) => {
                &&& !receipt.status.closes_an_intent()
                &&& message@
                    == "UI intent finalization requires an applied or rejected receipt"@
            },
            Err(ClosingError::NotOwned(message)) => {
                &&& receipt.status.closes_an_intent()
                &&& !claim_exists
                &&& message@ == "current GUI process does not own UI intent claim "@
                    + receipt.action_id@
            },
        },
{
    if !receipt.status.is_final_for_intent() {
        return Err(
            ClosingError::NotFinal(
                "UI intent finalization requires an applied or rejected receipt".to_owned(),
            ),
        );
    }
    let id = receipt.action_id.as_str();
    if !claim_exists {
        return Err(
            ClosingError::NotOwned(cat("current GUI process does not own UI intent claim ", id)),
        );
    }
    Ok(
        IntentClosing {
            receipt_path: paths.receipt_path(id),
            record_path: paths.applied_path(id),
            claim_path: ui_intent_claim_path(paths, id, process_id),
        },
    )
}

/// What is done at the start with a claim that was left behind.
#[derive(Debug)]
pub enum ClaimRecovery {
    /// The file is no claim, or its owner is alive.
    Leave,
    /// The intent was closed: its receipt is copied to this place and the claim removed.
    Finish { record_path: String },
    /// The intent goes back to where windows look for it.
    Requeue { target: String },
    /// An intent of the same name waits already: the recovery stops with this message.
    Conflict(String),
}

/// The identity in a receipt that closed its intent.
pub open spec fn closed_as(receipt: Option<(ActionStatus, Seq<char>)>) -> Option<Seq<char>> {
    match receipt {
        Some((status, id)) => if status.closes_an_intent() {
            Some(id)
        } else {
            None
        },
        None => None,
    }
}

/// What is done at the start with a claim of the given file name. `receipt` is the status and the
/// identity in the receipt of its intent, where there is one; `waiting` tells whether an intent of
/// the same name waits already.
pub open spec fn claim_recovery(
    paths: ApiPaths,
    name: Seq<char>,
    owner_is_alive: bool,
    receipt: Option<(ActionStatus, Seq<char>)>,
    waiting: bool,
    r: ClaimRecovery,
) -> bool {
    let (id, owner) = claim_identity(name);
    if !is_queue_file(name) || (owner is Some && owner_is_alive) {
        r is Leave
    } else if closed_as(receipt) is Some {
        r is Finish && r->record_path@ == paths.file_in(
            paths.intents_applied,
            closed_as(receipt)->0,
        )
    } else if waiting {
        r is Conflict && r->Conflict_0@ == "cannot recover UI intent "@ + id
            + "; a queued intent with the same ID exists"@
    } else {
        r is Requeue && r->target@ == paths.file_in(paths.intents, id)
    }
}

/// What is done at the start with a claim that was left behind.
pub fn recover_claim(
    paths: &ApiPaths,
    name: &str,
    owner_is_alive: bool,
    receipt: Option<(ActionStatus, &str)>,
    waiting: bool,
) -> (r: ClaimRecovery)
    ensures
        claim_recovery(
            *paths,
            name@,
            owner_is_alive,
            match receipt {
                Some((status, id)) => Some((status, id@)),
                None => None,
            },
            waiting,
            r,
        ),
{
    let (id, owner) = ui_intent_claim_identity(name);
    if !queue_file(name) || (owner.is_some() && owner_is_alive) {
        return ClaimRecovery::Leave;
    }
    if let Some((status, receipt_id)) = receipt {
        if status.is_final_for_intent() {
            return ClaimRecovery::Finish { record_path: paths.applied_path(receipt_id) };
        }
    }
    if waiting {
        ClaimRecovery::Conflict(
            cat3(
                "cannot recover UI intent ",
                id.as_str(),
                "; a queued intent with the same ID exists",
            ),
        )
    } else {
        ClaimRecovery::Requeue { target: paths.intent_path(id.as_str()) }
    }
}

/// An intent is applied once: recovery neither takes it from a live window nor hands out again
/// one that was closed.
pub proof fn recovery_never_repeats_an_intent(
    paths: ApiPaths,
    action_id: Seq<char>,
    process_id: nat,
    owner_is_alive: bool,
    receipt: Option<(ActionStatus, Seq<char>)>,
    waiting: bool,
    r: ClaimRecovery,
)
    requires
        process_id <= u32::MAX,
        claim_recovery(
            paths,
            claim_name(action_id, process_id),
            owner_is_alive,
            receipt,
            waiting,
            r,
        ),
    ensures
        r is Requeue ==> !owner_is_alive && closed_as(receipt) is None,
        r is Requeue ==> r->target@ == paths.file_in(paths.intents, action_id),
        owner_is_alive ==> r is Leave,
        !owner_is_alive && !waiting ==> r is Finish || r is Requeue,
{
    claims_name_their_owner(action_id, process_id);
}

/// An intent file and the time of its last change.
#[derive(Debug)]
pub struct IntentFile {
    pub name: String,
    pub modified: Option<u64>,
}

/// Whether `a` is handed out before `b`: the older one, or the one whose name comes first where
/// the times are equal or one is not known.
pub open spec fn handed_out_before(a: IntentFile, b: IntentFile) -> bool {
    if a.modified is Some && b.modified is Some && a.modified->0 != b.modified->0 {
        a.modified->0 < b.modified->0
    } else {
        text_rank(a.name@, b.name@) == Rank::Less
    }
}

fn comes_before(a: &IntentFile, b: &IntentFile) -> (r: bool)
    ensures
        r == handed_out_before(*a, *b),
{
    if let Some(x) = a.modified {
        if let Some(y) = b.modified {
            if x != y {
                return x < y;
            }
        }
    }
    matches!(rank_text(a.name.as_str(), b.name.as_str()), Rank::Less)
}

/// Whether the times of all files are known, or none is.
pub open spec fn comparable(files: Seq<IntentFile>) -> bool {
    ||| forall|i: int| 0 <= i < files.len() ==> (#[trigger] files[i]).modified is Some
    ||| forall|i: int| 0 <= i < files.len() ==> (#[trigger] files[i]).modified is None
}

/// Whether a list holds each number below `n` once.
pub open spec fn is_arrangement(order: Seq<usize>, n: nat) -> bool {
    &&& order.len() == n
    &&& forall|i: int| 0 <= i < n ==> (#[trigger] order[i]) < n
    &&& order.no_duplicates()
}

proof fn lemma_before_is_transitive(files: Seq<IntentFile>, a: int, b: int, c: int)
    requires
        comparable(files),
        0 <= a < files.len(),
        0 <= b < files.len(),
        0 <= c < files.len(),
        !handed_out_before(files[b], files[a]),
        !handed_out_before(files[c], files[b]),
    ensures
        !handed_out_before(files[c], files[a]),
{
    let x = files[a].name@;
    let y = files[b].name@;
    let z = files[c].name@;
    text_order_is_total(x, y);
    text_order_is_total(y, z);
    text_order_is_total(x, z);
    text_order_is_total(y, x);
    text_order_is_total(z, y);
    text_order_is_total(z, x);
    if text_rank(x, y) == Rank::Less && text_rank(y, z) == Rank::Less {
        text_order_is_transitive(x, y, z);
    }
}

/// The order in which intents are handed out, oldest first.
pub fn intent_order(files: &Vec<IntentFile>) -> (r: Vec<usize>)
    ensures
        is_arrangement(r@, files@.len()),
        comparable(files@) ==> forall|i: int, j: int|
            0 <= i < j < r@.len() ==> !handed_out_before(
                files@[#[trigger] r@[j] as int],
                files@[#[trigger] r@[i] as int],
            ),
{
    let n: usize = files.len();
    let mut out: Vec<usize> = Vec::new();
    let mut i: usize = 0;
    while i < n
        invariant
            i <= n,
            n == files@.len(),
            is_arrangement(out@, i as nat),
            comparable(files@) ==> forall|a: int, b: int|
                0 <= a < b < out@.len() ==> !handed_out_before(
                    files@[#[trigger] out@[b] as int],
                    files@[#[trigger] out@[a] as int],
                ),
        decreases n - i,
    {
        let mut at: usize = 0;
        while at < i && !comes_before(&files[i], &files[out[at]])
            invariant
                at <= i,
                i < n,
                n == files@.len(),
                is_arrangement(out@, i as nat),
                forall|a: int|
                    0 <= a < at ==> !handed_out_before(
                        files@[i as int],
                        files@[#[trigger] out@[a] as int],
                    ),
            ensures
                at < i ==> handed_out_before(files@[i as int], files@[out@[at as int] as int]),
            decreases i - at,
        {
            at += 1;
        }
        let ghost before = out@;
        out.insert(at, i);
        proof {
            let after = out@;
            assert forall|a: int| 0 <= a < after.len() implies (#[trigger] after[a]) < i + 1 by {
                if a < at {
                    assert(after[a] == before[a]);
                } else if a > at {
                    assert(after[a] == before[a - 1]);
                }
            }
            assert forall|a: int, b: int| 0 <= a < b < after.len() implies after[a] != after[b] by {
                let x = if a < at { a } else { a - 1 };
                let y = if b < at { b } else { b - 1 };
                if a != at && b != at {
                    assert(before[x] != before[y]);
                } else if a == at {
                    assert(after[b] == before[y]);
                } else {
                    assert(after[a] == before[x]);
                }
            }
            if comparable(files@) {
                assert forall|a: int, b: int| 0 <= a < b < after.len() implies !handed_out_before(
                    files@[#[trigger] after[b] as int],
                    files@[#[trigger] after[a] as int],
                ) by {
                    if a < at && b < at {
                        assert(after[a] == before[a] && after[b] == before[b]);
                    } else if a < at && b == at {
                        assert(after[a] == before[a]);
                    } else if a < at {
                        assert(after[a] == before[a] && after[b] == before[b - 1]);
                    } else if a == at {
                        assert(after[b] == before[b - 1]);
                        let next = before[at as int] as int;
                        text_order_is_total(files@[i as int].name@, files@[next].name@);
                        assert(!handed_out_before(files@[next], files@[i as int]));
                        text_order_is_total(files@[next].name@, files@[next].name@);
                        if b - 1 > at {
                            assert(!handed_out_before(
                                files@[before[b - 1] as int],
                                files@[before[at as int] as int],
                            ));
                        }
                        lemma_before_is_transitive(files@, i as int, next, before[b - 1] as int);
                    } else {
                        assert(after[a] == before[a - 1] && after[b] == before[b - 1]);
                    }
                }
            }
        }
        i += 1;
    }
    out
}

} // verus!
