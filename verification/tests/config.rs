use facial::config::{
    discover_repo_root, installed_user_data_root, is_installed_layout, load_config,
    save_copy_location, save_identity_paths, save_theme_mode, save_workspace_root, settings_of,
    settings_path_for, shipped_settings_path, usual_landmark_path, EnvSettings, FileConfig,
    NumberSource,
};
use facial::paths::PathStyle;
use facial::queue::ApiPaths;

const UNIX: PathStyle = PathStyle::Unix;

fn no_env() -> EnvSettings {
    EnvSettings {
        config_path: None,
        workspace_root: None,
        data_root: None,
        worktrees_root: None,
        copy_location: None,
        identity_model: None,
        identity_detector: None,
        identity_ref_dir: None,
        identity_neg_dir: None,
        identity_threshold: None,
        identity_margin: None,
        identity_count_threshold: None,
        framing_closeup_min: None,
        framing_threequarter_min: None,
        font_size: None,
        theme: None,
        landmark_model: None,
        ingest_in_place: None,
        max_debug_events: None,
        media_thumb_cache_mb: None,
        local_app_data: None,
    }
}

fn text(s: &str) -> Option<String> {
    Some(s.to_string())
}

#[test]
fn workspace_root_env_moves_runtime_state_out_of_repo_root() {
    let env = EnvSettings { workspace_root: text("/workspace"), ..no_env() };
    let config = load_config(UNIX, "/repo", &env, &FileConfig::default(), false, false, false);
    assert_eq!(config.repo_root, "/repo");
    assert_eq!(config.workspace_root, "/workspace");
    assert_eq!(config.worktrees_root, "/workspace/.facial/worktrees");
    assert_eq!(config.model_registry_path, "/workspace/.facial/data/model_registry.json");
    assert_eq!(config.api_root, "/workspace/.facial/data/api");
}

#[test]
fn config_path_env_redirects_settings_read_and_write() {
    let user_settings = "/userdata/config/default.json";
    let env = EnvSettings { config_path: text(user_settings), ..no_env() };
    assert_eq!(settings_path_for(UNIX, "/repo", &env, false), user_settings);
    let config = load_config(UNIX, "/repo", &env, &FileConfig::default(), false, false, false);
    assert_eq!(save_theme_mode(&config, "ink").theme_mode, "ink");
    assert_ne!(shipped_settings_path(UNIX, "/repo"), user_settings);
    assert_eq!(shipped_settings_path(UNIX, "/repo"), "/repo/product/config/default.json");
}

#[test]
fn installed_layout_uses_local_app_data_without_launcher_environment() {
    let install = "/installed";
    let installed = is_installed_layout(UNIX, install, |p: &str| {
        p == "/installed/product/config/default.json"
    });
    assert!(installed);
    let env = EnvSettings { local_app_data: text("/local"), ..no_env() };
    let file = FileConfig { workspace_root: text("D:\\developer-only"), ..FileConfig::default() };
    let config = load_config(UNIX, install, &env, &file, false, installed, false);
    assert_eq!(config.repo_root, install);
    assert_eq!(config.workspace_root, "/local/Facial");
    assert_eq!(
        settings_path_for(UNIX, install, &env, installed),
        "/local/Facial/config/default.json"
    );
    assert_eq!(
        installed_user_data_root(UNIX, true, &text("/local")).as_deref(),
        Some("/local/Facial")
    );
    assert_eq!(installed_user_data_root(UNIX, false, &text("/local")), None);
}

#[test]
fn environment_goes_before_the_file() {
    let env = EnvSettings {
        copy_location: text("/env-copy"),
        identity_threshold: text("0.7"),
        max_debug_events: text("17"),
        media_thumb_cache_mb: text("1"),
        ingest_in_place: text("true"),
        ..no_env()
    };
    let file = FileConfig {
        copy_location: text("/file-copy"),
        identity_model_path: text("/m.onnx"),
        has_identity_margin: true,
        max_debug_events: Some(3),
        ..FileConfig::default()
    };
    let config = load_config(UNIX, "/repo", &env, &file, true, false, true);
    assert_eq!(config.copy_location.as_deref(), Some("/env-copy"));
    assert_eq!(config.identity_model_path.as_deref(), Some("/m.onnx"));
    assert!(matches!(&config.identity_threshold, NumberSource::Environment(s) if s == "0.7"));
    assert!(matches!(config.identity_margin, NumberSource::File));
    assert!(matches!(config.font_size_pt, NumberSource::Default));
    assert_eq!(config.max_debug_events, 17);
    assert_eq!(config.media_thumb_cache_mb, 64, "raised to the floor");
    assert!(config.ingest_in_place_default);
    assert_eq!(
        config.landmark_model_path,
        Some(usual_landmark_path(UNIX, "/repo")),
        "found where it usually lies"
    );
}

#[test]
fn saved_settings_are_loaded_again() {
    let config =
        load_config(UNIX, "/repo", &no_env(), &FileConfig::default(), true, false, false);
    let saved = save_workspace_root(&config, "/elsewhere");
    let file = FileConfig {
        workspace_root: Some(saved.workspace_root),
        ingest_in_place_default: Some(saved.ingest_in_place_default),
        max_debug_events: Some(saved.max_debug_events),
        theme_mode: Some(saved.theme_mode),
        copy_location: saved.copy_location,
        identity_model_path: saved.identity_model_path,
        identity_detector_path: saved.identity_detector_path,
        landmark_model_path: saved.landmark_model_path,
        ..FileConfig::default()
    };
    let again = load_config(UNIX, "/repo", &no_env(), &file, true, false, false);
    assert_eq!(again.workspace_root, "/elsewhere");
    assert_eq!(again.theme_mode, config.theme_mode);
    assert_eq!(again.max_debug_events, config.max_debug_events);
}

#[test]
fn each_save_changes_one_setting() {
    let config =
        load_config(UNIX, "/repo", &no_env(), &FileConfig::default(), false, false, false);
    let plain = settings_of(&config);
    assert_eq!(plain.copy_location, None);
    let copied = save_copy_location(&config, &text("/out"));
    assert_eq!(copied.copy_location.as_deref(), Some("/out"));
    assert_eq!(copied.theme_mode, plain.theme_mode);
    let paths = save_identity_paths(&config, &text("/a"), &text("/b"));
    assert_eq!(paths.identity_model_path.as_deref(), Some("/a"));
    assert_eq!(paths.identity_detector_path.as_deref(), Some("/b"));
}

#[test]
fn shipped_workspace_roots_do_not_count() {
    let file = FileConfig { workspace_root: text("/dev-only"), ..FileConfig::default() };
    let env = EnvSettings { local_app_data: text("/local"), ..no_env() };
    let fresh = load_config(UNIX, "/repo", &env, &file, false, true, false);
    assert_eq!(fresh.workspace_root, "/local/Facial");
    let own = load_config(UNIX, "/repo", &env, &file, true, true, false);
    assert_eq!(own.workspace_root, "/dev-only");
}

#[test]
fn the_repository_is_found_above_the_program() {
    let sources = |p: &str| {
        p == "/src/facial/product" || p.starts_with("/src/facial/product/")
    };
    let named = discover_repo_root(
        UNIX,
        &text("/named"),
        &None,
        "/cwd",
        |p: &str| p == "/named",
        |_: &str| false,
    );
    assert_eq!(named, "/named");
    let found = discover_repo_root(
        UNIX,
        &None,
        &text("/src/facial/target/debug"),
        "/cwd",
        sources,
        |_: &str| false,
    );
    assert_eq!(found, "/src/facial");
}

#[test]
fn protocol_files_lie_in_the_api_root() {
    let env = EnvSettings { data_root: text("/data"), ..no_env() };
    let config = load_config(UNIX, "/repo", &env, &FileConfig::default(), false, false, false);
    assert_eq!(config.api_root, "/data/api");
    assert_eq!(config.worktrees_root, "/data/worktrees");
    let paths = ApiPaths::from_config(UNIX, &config);
    assert_eq!(paths.commands, "/data/api/commands");
    assert_eq!(paths.intents_applied, "/data/api/intents/applied");
}
