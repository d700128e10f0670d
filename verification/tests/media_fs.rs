use std::collections::BTreeSet;

use facial::media_fs::{
    apply_extension_policy, create_folder, move_file, move_files, next_move, rename_file,
    unique_target, validate_name, MoveEvent, MoveNext, MoveStep, RenameStep,
};
use facial::paths::PathStyle;

const UNIX: PathStyle = PathStyle::Unix;

fn disk(paths: &[&str]) -> BTreeSet<String> {
    paths.iter().map(|p| p.to_string()).collect()
}

#[test]
fn windows_name_validation() {
    assert!(validate_name("photo.jpg").is_ok());
    assert!(validate_name("my folder").is_ok());
    assert!(validate_name("").is_err());
    assert!(validate_name("  ").is_err());
    assert!(validate_name("a/b").is_err());
    assert!(validate_name("a:b").is_err());
    assert!(validate_name("trailing.").is_err());
    assert!(validate_name("trailing ").is_ok());
    assert!(validate_name("CON").is_err());
    assert!(validate_name("con.txt").is_err(), "reserved stem with extension");
    assert!(validate_name("lpt3.jpg").is_err());
    assert!(validate_name("console.txt").is_ok(), "prefix is not reserved");
}

#[test]
fn extension_policy_preserves_unless_overridden() {
    let src = "d:/x/photo.jpg";
    assert_eq!(apply_extension_policy(UNIX, src, "hero", true), "hero.jpg");
    assert_eq!(apply_extension_policy(UNIX, src, "hero.png", true), "hero.png");
    assert_eq!(apply_extension_policy(UNIX, src, "hero", false), "hero");
}

#[test]
fn unique_target_counts_up() {
    let files = disk(&["/d/a.jpg", "/d/a (2).jpg"]);
    let target = unique_target(UNIX, "/d", "a.jpg", |p: &str| files.contains(p));
    assert_eq!(target.as_deref(), Some("/d/a (3).jpg"));
    let fresh = unique_target(UNIX, "/d", "b.jpg", |p: &str| files.contains(p));
    assert_eq!(fresh.as_deref(), Some("/d/b.jpg"));
}

#[test]
fn rename_refuses_collision_and_preserves_extension() {
    let files = disk(&["/d/a.jpg", "/d/taken.jpg"]);
    let exists = |p: &str| files.contains(p);
    assert!(rename_file(UNIX, "/d/a.jpg", "taken", true, exists).is_err(), "collision refused");
    let renamed = rename_file(UNIX, "/d/a.jpg", "fresh", true, exists).unwrap();
    assert!(matches!(renamed, RenameStep::Rename { target } if target == "/d/fresh.jpg"));
    assert!(rename_file(UNIX, "/d/fresh.jpg", "bad/name", true, exists).is_err());
    let kept = rename_file(UNIX, "/d/a.jpg", "a", true, exists).unwrap();
    assert!(matches!(kept, RenameStep::Keep { target } if target == "/d/a.jpg"));
}

#[test]
fn create_folder_validates_and_refuses_existing() {
    let files = disk(&["/d/old"]);
    let exists = |p: &str| files.contains(p);
    assert_eq!(create_folder(UNIX, "/d", "shoots", exists), Ok("/d/shoots".to_string()));
    assert!(create_folder(UNIX, "/d", "old", exists).is_err());
    assert!(create_folder(UNIX, "/d", "NUL", exists).is_err());
}

#[test]
fn move_file_renames_and_uniquifies() {
    let files = disk(&["/m/from/a.jpg", "/m/to/a.jpg", "/m/to/b.jpg", "/m/to/c.jpg"]);
    let exists = |p: &str| files.contains(p);
    let plan = move_file(UNIX, "/m/from/a.jpg", "/m/to", true, exists).unwrap();
    assert_eq!(plan.target, "/m/to/a (2).jpg");
    assert!(matches!(plan.step, MoveStep::Rename));
    let own = move_file(UNIX, "/m/to/b.jpg", "/m/to", true, exists).unwrap();
    assert_eq!(own.target, "/m/to/b.jpg");
    assert!(matches!(own.step, MoveStep::Stay));
    assert!(move_file(UNIX, "/m/to/c.jpg", "/m/missing", false, exists).is_err());
}

#[test]
fn move_files_reports_per_file_failures() {
    let files = disk(&["/b/ok.jpg"]);
    let sources = vec!["/b/ok.jpg".to_string(), "/b/missing.jpg".to_string()];
    let (moved, failures) = move_files(&sources, |source: &str| {
        let plan = move_file(UNIX, source, "/b/dst", true, |p: &str| files.contains(p))?;
        if files.contains(source) {
            Ok(plan.target)
        } else {
            Err("no such file".to_string())
        }
    });
    assert_eq!(moved, vec!["/b/dst/ok.jpg".to_string()]);
    assert_eq!(failures.len(), 1);
    assert_eq!(failures[0], ("/b/missing.jpg".to_string(), "no such file".to_string()));
}

fn step(next: MoveNext) -> MoveStep {
    match next {
        MoveNext::Step(s) => s,
        other => panic!("{other:?}"),
    }
}

#[test]
fn moves_across_volumes_copy_then_delete() {
    let s = step(next_move(MoveStep::Rename, MoveEvent::Failed("cross device".to_string())));
    assert!(matches!(s, MoveStep::StatSource));
    let s = step(next_move(s, MoveEvent::Length(7)));
    assert!(matches!(s, MoveStep::Copy { source_len: 7 }));
    let s = step(next_move(s, MoveEvent::Done));
    let s = step(next_move(s, MoveEvent::Length(7)));
    assert!(matches!(s, MoveStep::DropSource { source_len: 7, copy_len: 7 }));
    assert!(matches!(next_move(s, MoveEvent::Done), MoveNext::Moved));
}

#[test]
fn short_copies_are_dropped_and_the_source_kept() {
    let s = step(next_move(MoveStep::StatCopy { source_len: 7 }, MoveEvent::Length(3)));
    assert!(matches!(s, MoveStep::DropCopy { source_len: 7, copy_len: 3 }));
    assert!(matches!(next_move(s, MoveEvent::Done), MoveNext::Failed(_)));
}

#[test]
fn plain_renames_are_done_at_once() {
    assert!(matches!(next_move(MoveStep::Rename, MoveEvent::Done), MoveNext::Moved));
    assert!(matches!(next_move(MoveStep::Stay, MoveEvent::Done), MoveNext::Moved));
}

#[test]
fn name_errors_say_what_is_wrong() {
    assert_eq!(validate_name("").unwrap_err(), "name is empty");
    assert!(validate_name("a\u{1}b").unwrap_err().contains("\\u{1}"));
    assert!(validate_name(&"x".repeat(241)).is_err());
    assert!(validate_name(&"x".repeat(240)).is_ok());
    assert!(validate_name("com9").is_err() && validate_name("com10").is_ok());
}

#[test]
fn counting_goes_on_until_a_name_is_free() {
    let mut files: BTreeSet<String> =
        (2..12_000).map(|n| format!("/d/a ({n}).jpg")).collect();
    files.insert("/d/a.jpg".to_string());
    files.insert("/d/a (overflow).jpg".to_string());
    let target = unique_target(UNIX, "/d", "a.jpg", |p: &str| files.contains(p));
    assert_eq!(target.as_deref(), Some("/d/a (12000).jpg"));
    let plan = move_file(UNIX, "/s/a.jpg", "/d", true, |p: &str| files.contains(p)).unwrap();
    assert!(!files.contains(&plan.target));
}
