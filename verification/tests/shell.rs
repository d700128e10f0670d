use facial::debug::{DebugBus, DebugEvent};
use facial::folder_picker::{
    drive_label, initial_folder, FolderPicker, PickerEvent, PickerFrame, PickerPurpose,
    MAX_ENTRIES,
};
use facial::guard::{guard_path_under, rejoin, resolution_candidates};
use facial::number::{decimal_text, float_text, parse_i64, parse_unsigned, parse_usize};
use facial::order::stable_order;
use facial::paths::{
    components, extension, file_name, join_path, name_extension, name_stem, parent,
    path_starts_with, PathStyle,
};
use facial::queue::queue_file;
use facial::replacing::{
    first_replacement, next_replacement, temporary_name, temporary_name_as, FileFailure,
    ReplaceEvent, ReplaceNext, ReplaceStep, REPLACE_ATTEMPTS,
};
use facial::table::{in_order, Table};
use facial::text::{
    contains, ends_with, eq_ignore_ascii_case, join, rank_text, replace_char, split_char,
    starts_with, to_ascii_uppercase, trim, Rank,
};

const UNIX: PathStyle = PathStyle::Unix;
const WIN: PathStyle = PathStyle::Windows;

fn words(list: &[&str]) -> Vec<String> {
    list.iter().map(|s| s.to_string()).collect()
}

fn names(list: &[&str]) -> Result<Vec<Option<String>>, String> {
    Ok(list.iter().map(|s| Some(s.to_string())).collect())
}

fn quiet() -> PickerFrame {
    PickerFrame { nav_target: None, picked: false, cancelled: false, window_open: true }
}

#[test]
fn pickers_browse_and_pick() {
    let mut picker = FolderPicker::default();
    assert!(!picker.is_open());
    assert!(picker.current.is_empty() && picker.path_input.is_empty());
    assert!(picker.drives.is_empty());
    picker.open(2, "/start", true, words(&["/"]), &names(&["b", "A"]));
    assert!(picker.is_open());
    assert_eq!(picker.entries, vec!["A", "b"], "sorted without case");
    let target = picker.entry_target(UNIX, "A");
    assert_eq!(target, "/start/A");
    let frame = PickerFrame { nav_target: Some(target), ..quiet() };
    assert!(matches!(picker.show(&frame, &names(&[])), PickerEvent::Nothing));
    assert_eq!(picker.current, "/start/A");
    assert_eq!(picker.up_target(UNIX).as_deref(), Some("/start"));
    let picked = picker.show(&PickerFrame { picked: true, ..quiet() }, &names(&[]));
    assert!(matches!(picked, PickerEvent::Picked { lane_id: 2, folder, purpose: PickerPurpose::LaneFolder }
        if folder == "/start/A"));
    assert!(!picker.is_open());
}

#[test]
fn unreadable_folders_are_reported() {
    let mut picker = FolderPicker::default();
    picker.open_for_purpose(
        0,
        "/gone",
        PickerPurpose::MoveDestination,
        false,
        words(&["/"]),
        &Err("denied".to_string()),
    );
    assert_eq!(picker.current, "/");
    assert!(picker.error.contains("denied"));
    picker.refuse_typed();
    assert_eq!(picker.error, "Not a folder.");
    picker.show(&PickerFrame { cancelled: true, ..quiet() }, &names(&[]));
    assert!(!picker.is_open());
}

#[test]
fn long_folders_are_cut() {
    let many: Vec<Option<String>> = (0..MAX_ENTRIES + 5).map(|i| Some(format!("{i:05}"))).collect();
    let mut picker = FolderPicker::default();
    picker.open(0, "/x", true, vec![], &Ok(many));
    assert_eq!(picker.entries.len(), MAX_ENTRIES);
    assert!(picker.truncated);
}

#[test]
fn pickers_say_what_they_are_for() {
    assert_eq!(PickerPurpose::LaneFolder.title(0), "Select folder — lane 1");
    assert_eq!(PickerPurpose::MoveDestination.title(0), "Move to folder");
    assert_ne!(
        PickerPurpose::CopyDestination.commit_label(),
        PickerPurpose::MoveDestination.commit_label()
    );
    assert_eq!(initial_folder("  ", true, &words(&["C:\\"])), "C:\\");
    assert_eq!(initial_folder("", false, &vec![]), ".");
    assert_eq!(drive_label("C:\\"), "C:");
}

#[test]
fn debug_rings_keep_their_size() {
    let mut bus = DebugBus::new("/log".to_string(), 2);
    for i in 0..3 {
        bus.emit_at("info", "test", &format!("m{i}"), None, format!("t{i}"));
    }
    let recent: Vec<String> =
        bus.combined_recent(10, &vec![]).into_iter().map(|e| e.message).collect();
    assert_eq!(recent, vec!["m1", "m2"]);
    let event = bus.record_applied_action("id-1", "select_tab", true, "done", "{}".to_string());
    assert_eq!(event.level, "INFO");
    assert_eq!(event.message, "applied=true intent=select_tab id=id-1 :: done");
    assert!(event.ts.contains('T'));
}

#[test]
fn logged_events_are_merged_once_and_in_order() {
    let mut bus = DebugBus::new("/log".to_string(), 10);
    let kept = bus.emit_at("info", "test", "b", None, "t2".to_string());
    let logged = vec![
        DebugEvent { ts: "t1".to_string(), message: "a".to_string(), ..kept.clone() },
        kept,
    ];
    let all: Vec<String> =
        bus.combined_recent(10, &logged).into_iter().map(|e| e.message).collect();
    assert_eq!(all, vec!["a", "b"]);
    assert_eq!(bus.combined_recent(1, &logged)[0].message, "b");
}

#[test]
fn paths_are_guarded_by_their_roots() {
    let roots = words(&["/ws", "/repo"]);
    assert_eq!(guard_path_under(UNIX, "/ws/a", &roots), Ok("/ws/a".to_string()));
    assert_eq!(
        guard_path_under(UNIX, "/wsx/a", &roots),
        Err("path escapes allowed roots: /wsx/a".to_string())
    );
    let candidates = resolution_candidates(UNIX, "/ws/new/file.txt");
    assert_eq!(candidates[0].path, "/ws/new/file.txt");
    let up = candidates.iter().find(|c| c.path == "/ws").unwrap();
    assert_eq!(rejoin(UNIX, "/real/ws", up), "/real/ws/new/file.txt");
}

#[test]
fn paths_fall_into_names() {
    assert_eq!(file_name(UNIX, "/a/b.txt/").as_deref(), Some("b.txt"));
    assert_eq!(file_name(UNIX, "/a/..").as_deref(), None);
    assert_eq!(parent(UNIX, "/a/b").as_deref(), Some("/a"));
    assert_eq!(parent(UNIX, "/").as_deref(), None);
    assert_eq!(parent(WIN, "C:\\a").as_deref(), Some("C:\\"));
    assert_eq!(join_path(UNIX, "/a", "/b"), "/b");
    assert_eq!(join_path(WIN, "C:\\a", "b"), "C:\\a\\b");
    assert_eq!(extension(UNIX, "/a/b.tar.gz").as_deref(), Some("gz"));
    assert_eq!(extension(UNIX, "/a/.hidden"), None);
    assert_eq!((name_stem("b.tar.gz"), name_extension("b.")), ("b.tar".to_string(), Some(String::new())));
    assert_eq!(components(UNIX, "/a//./b").len(), 3);
    assert!(path_starts_with(UNIX, "/a/b/", "/a") && !path_starts_with(UNIX, "/ab", "/a"));
}

#[test]
fn numbers_are_read_strictly() {
    assert_eq!(decimal_text(0), "0");
    assert_eq!(decimal_text(u64::MAX), u64::MAX.to_string());
    assert_eq!(parse_unsigned("+12", 255), Some(12));
    assert_eq!(parse_unsigned("256", 255), None);
    assert_eq!(parse_usize(""), None);
    assert_eq!(parse_i64("-9223372036854775808"), Some(i64::MIN));
    assert_eq!(parse_i64("9223372036854775808"), None);
    assert!(float_text("1e-3") && float_text("-.5") && float_text("inf"));
    assert!(!float_text(".") && !float_text("1e") && !float_text(" 1"));
}

#[test]
fn orders_are_stable() {
    assert_eq!(stable_order(&words(&["b", "a", "b", "a"])), vec![1, 3, 0, 2]);
    assert_eq!(in_order(&words(&["b", "a", "b"])), vec!["a", "b"]);
    assert_eq!(rank_text("é", "z"), Rank::Greater);
}

#[test]
fn tables_keep_their_keys_in_order() {
    let mut t: Table<u8> = Table::new();
    t.insert("b".to_string(), 1);
    t.insert("a".to_string(), 2);
    t.insert("b".to_string(), 3);
    assert_eq!((t.len(), t.get("b"), t.get("c")), (2, Some(&3), None));
    assert_eq!((t.key_at(0).as_str(), *t.value_at(0)), ("a", 2));
    t.remove("a");
    assert!(!t.contains_key("a") && t.contains_key("b"));
}

#[test]
fn texts_are_cut_and_joined() {
    assert_eq!(trim("\u{3000} x\t\n"), "x");
    assert_eq!(split_char("a,,b", ','), vec!["a", "", "b"]);
    assert_eq!(join(&words(&["a", "b"]), ", "), "a, b");
    assert!(starts_with("abc", "ab") && ends_with("abc", "bc") && contains("abc", "b"));
    assert!(!contains("abc", "ac"));
    assert!(eq_ignore_ascii_case("ÄbC", "ÄBc") && !eq_ignore_ascii_case("ä", "Ä"));
    assert_eq!(replace_char("a/b", '/', '\\'), "a\\b");
    assert_eq!(to_ascii_uppercase("straße"), "STRAßE");
}

#[test]
fn held_files_are_tried_again() {
    let held = ReplaceEvent::Failed { failure: FileFailure::Other, os_code: Some(32) };
    let absent = ReplaceEvent::Failed { failure: FileFailure::NotFound, os_code: Some(2) };
    let first = first_replacement();
    assert_eq!(next_replacement(first, absent), ReplaceNext::Go(ReplaceStep::Place { attempt: 0 }));
    assert_eq!(next_replacement(first, held), ReplaceNext::Later(ReplaceStep::Clear { attempt: 1 }));
    let last = ReplaceStep::Place { attempt: REPLACE_ATTEMPTS - 1 };
    assert_eq!(next_replacement(last, held), ReplaceNext::GiveUp);
    assert_eq!(next_replacement(last, ReplaceEvent::Done), ReplaceNext::Replaced);
    let missing = ReplaceStep::Place { attempt: 0 };
    assert_eq!(next_replacement(missing, absent), ReplaceNext::GiveUp);
}

#[test]
fn temporary_names_are_no_queue_files() {
    assert_eq!(temporary_name_as("a.json", 7, "x"), ".a.json.7.x.tmp");
    let name = temporary_name("a.json", 7);
    assert!(name.starts_with(".a.json.7.") && name.len() == 10 + 36 + 4);
    assert!(!queue_file(&name));
    assert_ne!(name, temporary_name("a.json", 7));
}

#[test]
fn replacements_end_after_so_many_attempts() {
    let held = ReplaceEvent::Failed { failure: FileFailure::PermissionDenied, os_code: None };
    let mut step = first_replacement();
    let mut tries = 1;
    while let ReplaceNext::Later(next) = next_replacement(step, held) {
        step = next;
        tries += 1;
    }
    assert_eq!(tries, REPLACE_ATTEMPTS);
}

#[test]
fn joining_undoes_splitting() {
    for text in ["", "a", "a,,b,", ",", "ä,ö"] {
        assert_eq!(join(&split_char(text, ','), ","), text);
    }
    for n in [0u64, 7, 10, 999, u64::MAX] {
        assert_eq!(parse_unsigned(&decimal_text(n), u64::MAX), Some(n));
    }
}

#[test]
fn lying_under_is_transitive() {
    assert!(path_starts_with(UNIX, "/a/b/c", "/a/b"));
    assert!(path_starts_with(UNIX, "/a/b", "/a"));
    assert!(path_starts_with(UNIX, "/a/b/c", "/a"));
    assert!(path_starts_with(UNIX, "/a", "/a/") && path_starts_with(UNIX, "/a/", "/a"));
}

#[test]
fn typed_folders_are_trimmed() {
    let mut picker = FolderPicker::default();
    picker.path_input = "  /typed ".to_string();
    assert_eq!(picker.typed_target(), "/typed");
}
