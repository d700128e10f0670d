use facial::cancel::CancelSignal;
use facial::media_explorer::{
    breadcrumbs, compare_optional_stat, drive_roots, grid_rows, is_video_path, move_cursor,
    move_list_cursor, needs_layout_migration, path_is_on_root, prepare_folder_entries, row_span,
    sorted_indices, sorted_indices_cancellable, stored_layout_version, FileStat,
    MediaExplorerState, MediaSort, MediaViewMode, StatFailure,
};
use facial::paths::PathStyle;
use facial::text::Rank;

const WIN: PathStyle = PathStyle::Windows;

fn known(mtime: u64, size: u64, created: Option<u64>) -> FileStat {
    FileStat::Known { mtime: Some(mtime), size, created }
}

#[test]
fn root_membership_is_boundary_safe_and_separator_agnostic() {
    assert!(path_is_on_root("D:/Movies/K-pop", "D:\\"));
    assert!(path_is_on_root("d:\\Movies", "D:\\"));
    assert!(!path_is_on_root("C:/Movies", "D:\\"));
    assert!(!path_is_on_root("우/video", "D:\\"));
}

#[test]
fn filesystem_roots_are_unique_and_root_shaped() {
    let roots = drive_roots(0b1100);
    assert_eq!(roots, vec!["C:\\", "D:\\"]);
    let all = drive_roots(u32::MAX);
    assert_eq!(all.len(), 26);
    let unique: std::collections::HashSet<_> = all.iter().collect();
    assert_eq!(unique.len(), all.len());
    for root in all {
        assert_eq!(root.len(), 3);
        assert_eq!(root.as_bytes()[1], b':');
        assert!(root.ends_with('\\'));
    }
}

#[test]
fn linear_folder_cursor_clamps_and_recovers() {
    assert_eq!(move_list_cursor(None, 1, 4), Some(0));
    assert_eq!(move_list_cursor(None, -1, 4), Some(3));
    assert_eq!(move_list_cursor(Some(0), -1, 4), Some(0));
    assert_eq!(move_list_cursor(Some(3), 1, 4), Some(3));
    assert_eq!(move_list_cursor(Some(99), 0, 4), Some(0));
    assert_eq!(move_list_cursor(Some(0), 1, 0), None);
}

#[test]
fn move_cursor_navigates_grid_and_clamps() {
    assert_eq!(move_cursor(None, 0, 0, 4, 10), Some(0));
    assert_eq!(move_cursor(Some(0), 1, 0, 4, 10), Some(1));
    assert_eq!(move_cursor(Some(3), 0, 1, 4, 10), Some(7));
    assert_eq!(move_cursor(Some(7), 0, 1, 4, 10), Some(9), "clamps to last");
    assert_eq!(move_cursor(Some(0), -1, 0, 4, 10), Some(0), "no wrap left");
    assert_eq!(move_cursor(Some(1), 0, -1, 4, 10), Some(0), "clamps up");
    assert_eq!(move_cursor(Some(5), 0, 0, 4, 0), None, "empty grid");
}

#[test]
fn sorted_indices_by_name_modified_size() {
    let files = vec![
        "D:/x/bbb.jpg".to_string(),
        "D:/x/AAA.jpg".to_string(),
        "D:/x/ccc.jpg".to_string(),
    ];
    let stats = vec![known(30, 5, None), known(10, 50, None), known(20, 500, None)];
    let created_stats =
        vec![known(30, 5, Some(300)), known(10, 50, Some(100)), known(20, 500, None)];
    let by_created = sorted_indices(WIN, &files, MediaSort::Created, false, &created_stats);
    assert_eq!(by_created, vec![1, 0, 2], "unknown created sorts last");
    let by_created_desc = sorted_indices(WIN, &files, MediaSort::Created, true, &created_stats);
    assert_eq!(
        by_created_desc,
        vec![0, 1, 2],
        "unknown created still sorts last when descending"
    );
    let tied: Vec<String> = vec![
        "D:/media/zeta.jpg".to_string(),
        "D:/media/alpha.jpg".to_string(),
        "D:/media/Mid.jpg".to_string(),
    ];
    let tied_stats = vec![known(7, 42, Some(7)); 3];
    for key in [MediaSort::Size, MediaSort::Modified, MediaSort::Created] {
        let first = sorted_indices(WIN, &tied, key, false, &tied_stats);
        let again = sorted_indices(WIN, &tied, key, false, &tied_stats);
        assert_eq!(first, again, "{key:?} must be deterministic for equal keys");
        assert_eq!(
            first,
            vec![1, 2, 0],
            "{key:?} ties must fall back to case-insensitive name then path"
        );
    }

    assert!(MediaSort::Created.needs_stat());
    assert!(!MediaSort::Name.needs_stat());
    assert_eq!(MediaSort::from_setting("created"), MediaSort::Created);
    assert_eq!(MediaSort::from_setting("nonsense"), MediaSort::Name);

    let by_name = sorted_indices(WIN, &files, MediaSort::Name, false, &stats);
    assert_eq!(by_name, vec![1, 0, 2], "case-insensitive name order");
    let by_name_desc = sorted_indices(WIN, &files, MediaSort::Name, true, &stats);
    assert_eq!(by_name_desc, vec![2, 0, 1]);
    let by_mtime = sorted_indices(WIN, &files, MediaSort::Modified, false, &stats);
    assert_eq!(by_mtime, vec![1, 2, 0]);
    let by_size = sorted_indices(WIN, &files, MediaSort::Size, true, &stats);
    assert_eq!(by_size, vec![2, 1, 0]);
    let no_stats = vec![FileStat::Unknown; 3];
    let fallback = sorted_indices(WIN, &files, MediaSort::Modified, false, &no_stats);
    assert_eq!(fallback, vec![1, 0, 2]);
    let mut partial = stats.clone();
    partial[2] = FileStat::Error(StatFailure::Unavailable);
    assert_eq!(
        sorted_indices(WIN, &files, MediaSort::Size, true, &partial),
        vec![1, 0, 2],
        "unknown/error values stay last even for descending sorts"
    );
}

#[test]
fn complete_sort_is_cancellable_between_bounded_runs() {
    let files: Vec<String> =
        (0..10_000).rev().map(|index| format!("D:/media/image-{index:05}.jpg")).collect();
    let stats = vec![FileStat::Unknown; files.len()];
    let mut checks = 0usize;
    let mut signal = CancelSignal::new(|| {
        checks += 1;
        checks > 64
    });
    let result =
        sorted_indices_cancellable(WIN, &files, MediaSort::Name, false, &stats, &mut signal);
    assert!(result.is_none());
    assert_eq!(checks, 65, "the answer to stop is the last one");
    let mut asked = 0usize;
    let mut signal = CancelSignal::new(|| {
        asked += 1;
        asked > 10_005
    });
    assert!(sorted_indices_cancellable(WIN, &files, MediaSort::Name, false, &stats, &mut signal)
        .is_none());
    assert_eq!(asked, 10_006, "merging asks too");
}

#[test]
fn complete_name_sort_handles_141400_rows_with_one_key_per_row() {
    let files: Vec<String> =
        (0..141_400).rev().map(|index| format!("D:/media/image-{index:06}.jpg")).collect();
    let stats = vec![FileStat::Unknown; files.len()];
    let mut asked = 0usize;
    let mut signal = CancelSignal::new(|| {
        asked += 1;
        false
    });
    let indices =
        sorted_indices_cancellable(WIN, &files, MediaSort::Name, false, &stats, &mut signal)
            .expect("fixture sort completes");
    assert!(asked >= files.len());
    assert_eq!(indices.len(), files.len());
    assert_eq!(files[indices[0]], "D:/media/image-000000.jpg");
    assert_eq!(files[*indices.last().unwrap()], "D:/media/image-141399.jpg");
}

#[test]
fn prepared_folder_entries_are_reusable_and_ordered() {
    let children = vec!["alpha".to_string(), "βeta".to_string()];
    let roots = vec!["C:\\".to_string(), "D:\\".to_string()];
    let prepared = prepare_folder_entries(WIN, &roots, "D:/media", &children);
    assert!(prepared.drive_count() > 0);
    assert!(prepared
        .all()
        .iter()
        .any(|entry| entry.is_parent && entry.label == "Parent folder"));
    let tail: Vec<&str> = prepared
        .all()
        .iter()
        .filter(|entry| !entry.is_drive && !entry.is_parent)
        .map(|entry| entry.label.as_str())
        .collect();
    assert_eq!(tail, vec!["alpha", "βeta"]);
    assert_eq!(prepared.len(), 5);
    assert_eq!(prepared.get(0).unwrap().label, "C: drive");
    assert!(prepared.get(5).is_none() && !prepared.is_empty());
}

#[test]
fn breadcrumbs_split_windows_paths() {
    let crumbs = breadcrumbs("D:\\Projects\\LLM projects\\shoot");
    let labels: Vec<&str> = crumbs.iter().map(|(l, _)| l.as_str()).collect();
    assert_eq!(labels, vec!["D:", "Projects", "LLM projects", "shoot"]);
    assert_eq!(crumbs[0].1, "D:/");
    assert_eq!(crumbs[2].1, "D:/Projects/LLM projects");
    assert!(breadcrumbs("  ").is_empty());
}

#[test]
fn breadcrumbs_anchor_unc_shares() {
    let crumbs = breadcrumbs("\\\\nas\\media\\shoots\\summer");
    let labels: Vec<&str> = crumbs.iter().map(|(l, _)| l.as_str()).collect();
    assert_eq!(labels, vec!["\\\\nas\\media", "shoots", "summer"]);
    assert_eq!(crumbs[0].1, "//nas/media");
    assert_eq!(crumbs[1].1, "//nas/media/shoots");
    let bare = breadcrumbs("\\\\nas");
    assert_eq!(bare.len(), 1);
}

#[test]
fn view_mode_and_sort_settings_round_trip() {
    assert_eq!(
        MediaViewMode::from_setting(MediaViewMode::FullGrid.to_setting()),
        MediaViewMode::FullGrid
    );
    assert_eq!(MediaSort::from_setting("size"), MediaSort::Size);
    assert_eq!(MediaSort::from_setting("garbage"), MediaSort::Name);
}

#[test]
fn video_extension_detection() {
    assert!(is_video_path("a/b/clip.MP4"));
    assert!(is_video_path("clip.webm"));
    assert!(!is_video_path("photo.jpg"));
}

#[test]
fn explorer_state_persists_through_media_db() {
    let mut state = MediaExplorerState::default();
    state.view_mode = MediaViewMode::FullGrid;
    state.show_names = true;
    state.sort = MediaSort::Size;
    state.sort_desc = true;
    let loaded = MediaExplorerState::load(&state.save());
    assert_eq!(loaded.view_mode, MediaViewMode::FullGrid);
    assert!(loaded.show_names);
    assert_eq!(loaded.sort, MediaSort::Size);
    assert!(loaded.sort_desc);
    assert!(loaded.video_loop);
}

#[test]
fn settings_couch_restores_exact_prior_fullscreen_state() {
    for prior in [false, true] {
        let mut state = MediaExplorerState::default();
        state.chrome_hidden = prior;
        state.enter_settings_couch();
        assert!(state.settings_couch_fullscreen);
        assert_eq!(state.settings_couch_prior_fullscreen, prior);
        assert_eq!(state.exit_settings_couch(), Some(prior));
        assert!(!state.settings_couch_fullscreen);
        assert_eq!(state.exit_settings_couch(), None);
    }
}

#[test]
fn layout_settings_have_versions() {
    assert_eq!(stored_layout_version(&None), 1);
    assert_eq!(stored_layout_version(&Some("3".to_string())), 3);
    assert_eq!(stored_layout_version(&Some("x".to_string())), 1);
    assert!(needs_layout_migration(&Some("2".to_string())));
    assert!(!needs_layout_migration(&Some("3".to_string())));
    assert_eq!(MediaExplorerState::default().save().version.as_deref(), Some("3"));
}

#[test]
fn unknown_stat_values_rank_last() {
    assert_eq!(compare_optional_stat(Some(1), None, false), Rank::Less);
    assert_eq!(compare_optional_stat(None, Some(1), true), Rank::Greater);
    assert_eq!(compare_optional_stat(Some(1), Some(2), true), Rank::Greater);
    assert_eq!(compare_optional_stat(None, None, true), Rank::Equal);
}

#[test]
fn grid_rows_cover_every_item() {
    assert_eq!(grid_rows(10, 4), 3);
    assert_eq!(grid_rows(8, 4), 2);
    assert_eq!(grid_rows(0, 4), 0);
    assert_eq!(row_span(1, 2, 4, 100), (4, 12));
    assert_eq!(row_span(1, 50, 4, 10), (4, 10));
    assert_eq!(row_span(0, usize::MAX - 1, 3, 10), (0, 10));
}

#[test]
fn stat_values_are_read_where_known() {
    let stat = known(3, 4, Some(5));
    assert_eq!((stat.mtime(), stat.size(), stat.created()), (Some(3), Some(4), Some(5)));
    let gone = FileStat::Error(StatFailure::NotFound);
    assert_eq!((gone.mtime(), gone.size(), gone.created()), (None, None, None));
    assert_eq!(FileStat::default(), FileStat::Unknown);
    assert_eq!(MediaSort::Modified.label(), "Modified");
}

#[test]
fn cancelled_sorts_return_nothing() {
    let files = vec!["a".to_string()];
    let stats = vec![FileStat::Unknown];
    let mut signal = CancelSignal::new(|| true);
    assert!(sorted_indices_cancellable(WIN, &files, MediaSort::Name, false, &stats, &mut signal)
        .is_none());
    let mut asked = 0usize;
    let mut signal = CancelSignal::new(|| {
        asked += 1;
        true
    });
    let none: Vec<String> = vec![];
    let order =
        sorted_indices_cancellable(WIN, &none, MediaSort::Name, false, &vec![], &mut signal);
    assert_eq!(order, Some(vec![]));
    assert_eq!(asked, 0, "no files, no question");
}
