//! What the configuration takes from where: the environment comes before the settings, and the
//! settings before what holds otherwise.

use crate::config::{
    found_above_program, is_config, repo_root_outcome, settings_file, user_data_root, AppConfig,
    EnvSettings, FileConfig, SourceModel, StoredSettings,
};
use crate::media_fs::said;
use crate::number::{is_float_text, unsigned_value};
use crate::paths::{joined_path, parent_of, PathStyle};
use crate::text::{opt_text, trimmed, unicode_lower};
use vstd::prelude::*;

verus! {

/// Whether a setting is given and says more than white space.
pub open spec fn is_given(o: Option<String>) -> bool {
    o is Some && trimmed(o->0@).len() > 0
}

/// Whether a path is the one that the environment gives, or else the one that the settings give, or
/// else none.
pub open spec fn follows(
    path: Option<String>,
    environment: Option<String>,
    settings: Option<String>,
) -> bool {
    &&& is_given(environment) ==> path is Some && path->0@ == environment->0@
    &&& !is_given(environment) && is_given(settings) ==> path is Some && path->0@ == settings->0@
    &&& !is_given(environment) && !is_given(settings) ==> path is None
}

/// Each path comes from its own variable of the environment or its own setting, the environment
/// first; what is blank does not count. The landmark model is also found where it usually lies.
pub proof fn paths_follow_the_environment_and_the_settings(
    style: PathStyle,
    root: Seq<char>,
    env: EnvSettings,
    file: FileConfig,
    has_user_settings: bool,
    installed: bool,
    landmarks_exist: bool,
    c: AppConfig,
)
    requires
        is_config(style, root, env, file, has_user_settings, installed, landmarks_exist, c),
    ensures
        follows(c.copy_location, env.copy_location, file.copy_location),
        follows(c.identity_model_path, env.identity_model, file.identity_model_path),
        follows(c.identity_detector_path, env.identity_detector, file.identity_detector_path),
        follows(c.identity_reference_dir, env.identity_ref_dir, file.identity_reference_dir),
        follows(c.identity_negative_dir, env.identity_neg_dir, file.identity_negative_dir),
        is_given(env.landmark_model) || is_given(file.landmark_model_path) || !landmarks_exist
            ==> follows(c.landmark_model_path, env.landmark_model, file.landmark_model_path),
        !is_given(env.landmark_model) && !is_given(file.landmark_model_path) && landmarks_exist
            ==> c.landmark_model_path is Some && c.landmark_model_path->0@ == joined_path(
            style,
            joined_path(style, joined_path(style, root, "product"@), "models"@),
            "pipnet_r18_wflw_98.onnx"@,
        ),
{
}

/// The workspace is that of the environment, or else that of the user's settings, or else the data
/// folder of the user where the program is installed, or else the folder of the program. The
/// settings that an installed program was shipped with do not name it.
pub proof fn the_workspace_is_chosen_in_order(
    style: PathStyle,
    root: Seq<char>,
    env: EnvSettings,
    file: FileConfig,
    has_user_settings: bool,
    installed: bool,
    landmarks_exist: bool,
    c: AppConfig,
)
    requires
        is_config(style, root, env, file, has_user_settings, installed, landmarks_exist, c),
    ensures
        ({
            let local = env.local_app_data;
            let own = installed && local is Some && local->0@.len() > 0;
            let counts = is_given(file.workspace_root) && (!own || has_user_settings);
            &&& c.repo_root@ == root
            &&& is_given(env.workspace_root) ==> c.workspace_root@ == env.workspace_root->0@
            &&& !is_given(env.workspace_root) && counts ==> c.workspace_root@
                == file.workspace_root->0@
            &&& !is_given(env.workspace_root) && !counts && own ==> c.workspace_root@
                == joined_path(style, local->0@, "Facial"@)
            &&& !is_given(env.workspace_root) && !counts && !own ==> c.workspace_root@ == root
        }),
{
}

/// Where the program keeps its data: in the folder of the environment, or else below the workspace;
/// the worktrees may be elsewhere. The plugins lie with the program.
pub proof fn data_lies_below_its_folder(
    style: PathStyle,
    root: Seq<char>,
    env: EnvSettings,
    file: FileConfig,
    has_user_settings: bool,
    installed: bool,
    landmarks_exist: bool,
    c: AppConfig,
)
    requires
        is_config(style, root, env, file, has_user_settings, installed, landmarks_exist, c),
    ensures
        ({
            let state = joined_path(style, c.workspace_root@, ".facial"@);
            let data = if is_given(env.data_root) {
                env.data_root->0@
            } else {
                joined_path(style, state, "data"@)
            };
            &&& c.model_registry_path@ == joined_path(style, data, "model_registry.json"@)
            &&& c.debug_log_path@ == joined_path(style, data, "events.jsonl"@)
            &&& c.api_root@ == joined_path(style, data, "api"@)
            &&& is_given(env.worktrees_root) ==> c.worktrees_root@ == env.worktrees_root->0@
            &&& !is_given(env.worktrees_root) && is_given(env.data_root) ==> c.worktrees_root@
                == joined_path(style, env.data_root->0@, "worktrees"@)
            &&& !is_given(env.worktrees_root) && !is_given(env.data_root) ==> c.worktrees_root@
                == joined_path(style, state, "worktrees"@)
            &&& c.plugins_root@ == joined_path(
                style,
                joined_path(style, root, "product"@),
                "plugins"@,
            )
        }),
{
}

/// Numbers and switches: a readable number of the environment, or else that of the settings, or else
/// 800 events, 2048 megabytes, never less than 64. The environment switches on with 1, true, yes or
/// on, in any case, and off with any other word. The theme is paper unless told otherwise.
pub proof fn numbers_and_switches_follow_in_order(
    style: PathStyle,
    root: Seq<char>,
    env: EnvSettings,
    file: FileConfig,
    has_user_settings: bool,
    installed: bool,
    landmarks_exist: bool,
    c: AppConfig,
)
    requires
        is_config(style, root, env, file, has_user_settings, installed, landmarks_exist, c),
    ensures
        ({
            let e = if env.max_debug_events is Some {
                unsigned_value(env.max_debug_events->0@, usize::MAX as nat)
            } else {
                None
            };
            &&& e is Some ==> c.max_debug_events == e->0
            &&& e is None && file.max_debug_events is Some ==> c.max_debug_events
                == file.max_debug_events->0
            &&& e is None && file.max_debug_events is None ==> c.max_debug_events == 800
        }),
        ({
            let e = if env.media_thumb_cache_mb is Some {
                unsigned_value(env.media_thumb_cache_mb->0@, u64::MAX as nat)
            } else {
                None
            };
            let n = if e is Some {
                e->0
            } else if file.media_thumb_cache_mb is Some {
                file.media_thumb_cache_mb->0 as nat
            } else {
                2048
            };
            &&& c.media_thumb_cache_mb >= 64
            &&& n >= 64 ==> c.media_thumb_cache_mb == n
            &&& n < 64 ==> c.media_thumb_cache_mb == 64
        }),
        env.ingest_in_place is Some ==> {
            let w = unicode_lower(env.ingest_in_place->0@);
            c.ingest_in_place_default <==> w == "1"@ || w == "true"@ || w == "yes"@ || w == "on"@
        },
        env.ingest_in_place is None && file.ingest_in_place_default is Some
            ==> c.ingest_in_place_default == file.ingest_in_place_default->0,
        env.ingest_in_place is None && file.ingest_in_place_default is None
            ==> !c.ingest_in_place_default,
        is_given(env.theme) ==> c.theme_mode@ == env.theme->0@,
        !is_given(env.theme) && file.theme_mode is Some ==> c.theme_mode@ == file.theme_mode->0@,
        !is_given(env.theme) && file.theme_mode is None ==> c.theme_mode@ == "paper"@,
{
}

/// Fractions come from the environment where it gives a number, or else from the settings where they
/// have one, or else from the program; each from its own variable and setting.
pub proof fn fractions_follow_in_order(
    style: PathStyle,
    root: Seq<char>,
    env: EnvSettings,
    file: FileConfig,
    has_user_settings: bool,
    installed: bool,
    landmarks_exist: bool,
    c: AppConfig,
)
    requires
        is_config(style, root, env, file, has_user_settings, installed, landmarks_exist, c),
    ensures
        taken_from(c.font_size_pt@, env.font_size, file.has_font_size),
        taken_from(c.identity_threshold@, env.identity_threshold, file.has_identity_threshold),
        taken_from(c.identity_margin@, env.identity_margin, file.has_identity_margin),
        taken_from(
            c.identity_count_threshold@,
            env.identity_count_threshold,
            file.has_identity_count_threshold,
        ),
        taken_from(c.framing_closeup_min@, env.framing_closeup_min, file.has_framing_closeup_min),
        taken_from(
            c.framing_threequarter_min@,
            env.framing_threequarter_min,
            file.has_framing_threequarter_min,
        ),
{
}

/// Whether a fraction is taken from where it should be.
pub open spec fn taken_from(s: SourceModel, environment: Option<String>, in_file: bool) -> bool {
    match s {
        SourceModel::Environment(t) => environment is Some && t == environment->0@
            && is_float_text(t),
        SourceModel::File => in_file && (environment is None || !is_float_text(environment->0@)),
        SourceModel::Default => !in_file && (environment is None || !is_float_text(
            environment->0@,
        )),
    }
}

/// The settings file is the one that the environment names, or else that of the user of an installed
/// program, or else the one that the program came with.
pub proof fn settings_lie_where_they_should(
    style: PathStyle,
    root: Seq<char>,
    named: Option<Seq<char>>,
    data: Option<Seq<char>>,
)
    ensures
        named is Some && trimmed(named->0).len() > 0 ==> settings_file(style, root, named, data)
            == named->0,
        (named is None || trimmed(named->0).len() == 0) && data is Some ==> settings_file(
            style,
            root,
            named,
            data,
        ) == joined_path(style, joined_path(style, data->0, "config"@), "default.json"@),
        (named is None || trimmed(named->0).len() == 0) && data is None ==> settings_file(
            style,
            root,
            named,
            data,
        ) == joined_path(
            style,
            joined_path(style, joined_path(style, root, "product"@), "config"@),
            "default.json"@,
        ),
        user_data_root(style, false, data) is None,
        data is Some && data->0.len() > 0 ==> user_data_root(style, true, data) == Some(
            joined_path(style, data->0, "Facial"@),
        ),
{
}

/// What is written of a configuration is what it says.
pub proof fn settings_say_what_the_configuration_says(s: StoredSettings, c: AppConfig)
    requires
        crate::config::are_settings_of(s, c),
    ensures
        s.workspace_root@ == c.workspace_root@,
        s.ingest_in_place_default == c.ingest_in_place_default,
        s.max_debug_events == c.max_debug_events,
        s.theme_mode@ == c.theme_mode@,
        opt_text(s.copy_location) == opt_text(c.copy_location),
        opt_text(s.identity_model_path) == opt_text(c.identity_model_path),
        opt_text(s.identity_detector_path) == opt_text(c.identity_detector_path),
        opt_text(s.landmark_model_path) == opt_text(c.landmark_model_path),
{
}

/// The folder so many steps above a path.
pub open spec fn folder_above(style: PathStyle, path: Seq<char>, steps: nat) -> Option<Seq<char>>
    decreases steps,
{
    if steps == 0 {
        Some(path)
    } else {
        match parent_of(style, path) {
            Some(p) => folder_above(style, p, (steps - 1) as nat),
            None => None,
        }
    }
}

/// A root that is found above the program is one of the folders above it, no further than it was
/// looked for.
pub proof fn roots_lie_above_the_program<F: Fn(&str) -> bool, G: Fn(&str) -> bool>(
    style: PathStyle,
    exists_at: F,
    is_file: G,
    from: Seq<char>,
    n: nat,
    r: Seq<char>,
) -> (k: nat)
    requires
        found_above_program(style, exists_at, is_file, from, n, Some(r)),
    ensures
        k <= n,
        folder_above(style, from, k) == Some(r),
    decreases n,
{
    if n == 0 {
        0
    } else if r == from {
        0
    } else {
        let p = parent_of(style, from)->0;
        if parent_of(style, from) == Some(r) {
            assert(folder_above(style, r, 0) == Some(r));
            1
        } else {
            let k = roots_lie_above_the_program(style, exists_at, is_file, p, (n - 1) as nat, r);
            k + 1
        }
    }
}

/// A root that is named and stands is taken. Where one is named and another is taken, the named one
/// does not stand.
pub proof fn named_roots_come_first<F: Fn(&str) -> bool, G: Fn(&str) -> bool>(
    style: PathStyle,
    exists_at: F,
    is_file: G,
    named: Seq<char>,
    program: Option<Seq<char>>,
    current: Seq<char>,
    r: Seq<char>,
)
    requires
        repo_root_outcome(style, exists_at, is_file, Some(named), program, current, r),
    ensures
        r != named ==> said(exists_at, named, false),
        said(exists_at, named, true) && !said(exists_at, named, false) ==> r == named,
{
}

/// The first folder that is looked at is taken unless it holds no sources of the program.
pub proof fn sources_make_a_root<F: Fn(&str) -> bool, G: Fn(&str) -> bool>(
    style: PathStyle,
    exists_at: F,
    is_file: G,
    from: Seq<char>,
    n: nat,
    r: Option<Seq<char>>,
)
    requires
        n > 0,
        found_above_program(style, exists_at, is_file, from, n, r),
    ensures
        r != Some(from) ==> said(
            exists_at,
            joined_path(
                style,
                joined_path(style, joined_path(style, from, "product"@), "src"@),
                "main.rs"@,
            ),
            false,
        ),
        r != Some(from) ==> said(
            exists_at,
            joined_path(style, joined_path(style, from, "product"@), "Cargo.toml"@),
            false,
        ),
{
}

} // verus!
