//! Where the program finds its files and how it is set up: from the environment, from the settings
//! file, or from defaults.

use crate::media_fs::{askable, said};
use crate::number::{
    float_text, is_float_text, parse_unsigned, parse_usize, unsigned_value,
};
use crate::paths::{
    file_name, file_name_of, join_path, joined_path, parent, parent_of, PathStyle,
};
use crate::text::{opt_text, str_eq, to_lowercase, trim, trimmed, unicode_lower};
use vstd::prelude::*;

verus! {

/// What the environment says.
#[derive(Debug)]
pub struct EnvSettings {
    pub config_path: Option<String>,
    pub workspace_root: Option<String>,
    pub data_root: Option<String>,
    pub worktrees_root: Option<String>,
    pub copy_location: Option<String>,
    pub identity_model: Option<String>,
    pub identity_detector: Option<String>,
    pub identity_ref_dir: Option<String>,
    pub identity_neg_dir: Option<String>,
    pub identity_threshold: Option<String>,
    pub identity_margin: Option<String>,
    pub identity_count_threshold: Option<String>,
    pub framing_closeup_min: Option<String>,
    pub framing_threequarter_min: Option<String>,
    pub font_size: Option<String>,
    pub theme: Option<String>,
    pub landmark_model: Option<String>,
    pub ingest_in_place: Option<String>,
    pub max_debug_events: Option<String>,
    pub media_thumb_cache_mb: Option<String>,
    pub local_app_data: Option<String>,
}

/// What the settings file says. Of the fractions it is only told whether the file has them.
#[derive(Debug)]
pub struct FileConfig {
    pub workspace_root: Option<String>,
    pub ingest_in_place_default: Option<bool>,
    pub max_debug_events: Option<usize>,
    pub has_font_size: bool,
    pub copy_location: Option<String>,
    pub identity_model_path: Option<String>,
    pub identity_detector_path: Option<String>,
    pub identity_reference_dir: Option<String>,
    pub identity_negative_dir: Option<String>,
    pub has_identity_threshold: bool,
    pub has_identity_margin: bool,
    pub has_identity_count_threshold: bool,
    pub has_framing_closeup_min: bool,
    pub has_framing_threequarter_min: bool,
    pub theme_mode: Option<String>,
    pub landmark_model_path: Option<String>,
    pub media_thumb_cache_mb: Option<u64>,
}

/// Where a fraction is taken from.
#[derive(Debug)]
pub enum NumberSource {
    /// From this text of the environment.
    Environment(String),
    File,
    Default,
}

pub ghost enum SourceModel {
    Environment(Seq<char>),
    File,
    Default,
}

impl View for NumberSource {
    type V = SourceModel;

    open spec fn view(&self) -> SourceModel {
        match *self {
            NumberSource::Environment(t) => SourceModel::Environment(t@),
            NumberSource::File => SourceModel::File,
            NumberSource::Default => SourceModel::Default,
        }
    }
}

/// How the program is set up.
#[derive(Debug)]
pub struct AppConfig {
    pub repo_root: String,
    pub workspace_root: String,
    pub worktrees_root: String,
    pub model_registry_path: String,
    pub debug_log_path: String,
    pub plugins_root: String,
    pub api_root: String,
    pub ingest_in_place_default: bool,
    pub max_debug_events: usize,
    pub font_size_pt: NumberSource,
    pub copy_location: Option<String>,
    pub identity_model_path: Option<String>,
    pub identity_detector_path: Option<String>,
    pub identity_reference_dir: Option<String>,
    pub identity_negative_dir: Option<String>,
    pub identity_threshold: NumberSource,
    pub identity_margin: NumberSource,
    pub identity_count_threshold: NumberSource,
    pub framing_closeup_min: NumberSource,
    pub framing_threequarter_min: NumberSource,
    pub theme_mode: String,
    pub landmark_model_path: Option<String>,
    pub media_thumb_cache_mb: u64,
}

/// A text that is more than white space.
pub open spec fn nonblank(o: Option<Seq<char>>) -> Option<Seq<char>> {
    match o {
        Some(s) => if trimmed(s).len() > 0 {
            Some(s)
        } else {
            None
        },
        None => None,
    }
}

fn pick_nonblank(o: &Option<String>) -> (r: Option<String>)
    ensures
        opt_text(r) == nonblank(opt_text(*o)),
{
    match o {
        Some(s) => {
            let tidy = trim(s.as_str());
            if tidy.as_str().is_empty() {
                None
            } else {
                Some(s.clone())
            }
        },
        None => None,
    }
}

/// The first of two texts that is given.
pub open spec fn either_text(a: Option<Seq<char>>, b: Option<Seq<char>>) -> Option<Seq<char>> {
    if a is Some {
        a
    } else {
        b
    }
}

/// The environment, or else the file; what is blank does not count.
pub open spec fn env_or_file(env: Option<String>, file: Option<String>) -> Option<Seq<char>> {
    either_text(nonblank(opt_text(env)), nonblank(opt_text(file)))
}

fn pick_path(env: &Option<String>, file: &Option<String>) -> (r: Option<String>)
    ensures
        opt_text(r) == env_or_file(*env, *file),
{
    match pick_nonblank(env) {
        Some(s) => Some(s),
        None => pick_nonblank(file),
    }
}

pub open spec fn number_source(env: Option<String>, in_file: bool) -> SourceModel {
    if env is Some && is_float_text(env->0@) {
        SourceModel::Environment(env->0@)
    } else if in_file {
        SourceModel::File
    } else {
        SourceModel::Default
    }
}

fn pick_number(env: &Option<String>, in_file: bool) -> (r: NumberSource)
    ensures
        r@ == number_source(*env, in_file),
{
    if let Some(s) = env {
        if float_text(s.as_str()) {
            return NumberSource::Environment(s.clone());
        }
    }
    if in_file {
        NumberSource::File
    } else {
        NumberSource::Default
    }
}

/// Whether a word of the environment switches something on.
pub open spec fn is_on(word: Seq<char>) -> bool {
    let l = unicode_lower(word);
    l == "1"@ || l == "true"@ || l == "yes"@ || l == "on"@
}

/// A folder inside two others.
pub open spec fn below(style: PathStyle, root: Seq<char>, a: Seq<char>, b: Seq<char>) -> Seq<char> {
    joined_path(style, joined_path(style, root, a), b)
}

fn path_below(style: PathStyle, root: &str, a: &str, b: &str) -> (r: String)
    ensures
        r@ == below(style, root@, a@, b@),
{
    let first = join_path(style, root, a);
    join_path(style, first.as_str(), b)
}

/// The settings file that comes with the program.
pub open spec fn shipped_settings(style: PathStyle, root: Seq<char>) -> Seq<char> {
    joined_path(style, below(style, root, "product"@, "config"@), "default.json"@)
}

pub fn shipped_settings_path(style: PathStyle, root: &str) -> (r: String)
    ensures
        r@ == shipped_settings(style, root@),
{
    let dir = path_below(style, root, "product", "config");
    join_path(style, dir.as_str(), "default.json")
}

/// Where an installed program keeps the data of its user.
pub open spec fn user_data_root(style: PathStyle, installed: bool, local: Option<Seq<char>>) -> Option<
    Seq<char>,
> {
    if installed && local is Some && local->0.len() > 0 {
        Some(joined_path(style, local->0, "Facial"@))
    } else {
        None
    }
}

pub fn installed_user_data_root(style: PathStyle, installed: bool, local: &Option<String>) -> (r: Option<
    String,
>)
    ensures
        opt_text(r) == user_data_root(style, installed, opt_text(*local)),
{
    if !installed {
        return None;
    }
    match local {
        Some(root) => if root.as_str().is_empty() {
            None
        } else {
            Some(join_path(style, root.as_str(), "Facial"))
        },
        None => None,
    }
}

/// The settings file of the user: named by the environment, or with the data of an installed
/// program, or with the program.
pub open spec fn settings_file(
    style: PathStyle,
    root: Seq<char>,
    config_path: Option<Seq<char>>,
    user_data: Option<Seq<char>>,
) -> Seq<char> {
    match nonblank(config_path) {
        Some(p) => p,
        None => match user_data {
            Some(d) => below(style, d, "config"@, "default.json"@),
            None => shipped_settings(style, root),
        },
    }
}

/// The settings file of the user.
pub fn settings_path_for(style: PathStyle, repo_root: &str, env: &EnvSettings, installed: bool) -> (r:
    String)
    ensures
        r@ == settings_file(
            style,
            repo_root@,
            opt_text(env.config_path),
            user_data_root(style, installed, opt_text(env.local_app_data)),
        ),
{
    match pick_nonblank(&env.config_path) {
        Some(p) => p,
        None => match installed_user_data_root(style, installed, &env.local_app_data) {
            Some(d) => path_below(style, d.as_str(), "config", "default.json"),
            None => shipped_settings_path(style, repo_root),
        },
    }
}

/// The smallest size of the thumbnail cache, in megabytes.
pub const THUMB_CACHE_FLOOR_MB: u64 = 64;

/// The workspace: named by the environment or the settings, or the data of an installed program,
/// or the program itself. Settings that came with an installed program do not name one.
pub open spec fn workspace_of(
    root: Seq<char>,
    env: Option<String>,
    saved: Option<String>,
    user_data: Option<Seq<char>>,
    has_user_settings: bool,
) -> Seq<char> {
    let file = if user_data is Some && !has_user_settings {
        None
    } else {
        opt_text(saved)
    };
    match nonblank(either_text(nonblank(opt_text(env)), file)) {
        Some(p) => p,
        None => match user_data {
            Some(d) => d,
            None => root,
        },
    }
}

/// A number of the environment, or else of the file, or else the default.
pub open spec fn number_of(env: Option<String>, file: Option<nat>, default: nat, max: nat) -> nat {
    match env {
        Some(s) => match unsigned_value(s@, max) {
            Some(n) => n,
            None => match file {
                Some(n) => n,
                None => default,
            },
        },
        None => match file {
            Some(n) => n,
            None => default,
        },
    }
}

pub open spec fn nat_of(o: Option<usize>) -> Option<nat> {
    match o {
        Some(n) => Some(n as nat),
        None => None,
    }
}

pub open spec fn nat64_of(o: Option<u64>) -> Option<nat> {
    match o {
        Some(n) => Some(n as nat),
        None => None,
    }
}

/// Where the landmark model lies by convention.
pub open spec fn usual_landmarks(style: PathStyle, root: Seq<char>) -> Seq<char> {
    joined_path(style, below(style, root, "product"@, "models"@), "pipnet_r18_wflw_98.onnx"@)
}

pub fn usual_landmark_path(style: PathStyle, root: &str) -> (r: String)
    ensures
        r@ == usual_landmarks(style, root@),
{
    let dir = path_below(style, root, "product", "models");
    join_path(style, dir.as_str(), "pipnet_r18_wflw_98.onnx")
}

/// Whether a configuration is the one that the environment and the settings ask for.
pub open spec fn is_config(
    style: PathStyle,
    root: Seq<char>,
    env: EnvSettings,
    file: FileConfig,
    has_user_settings: bool,
    installed: bool,
    landmarks_exist: bool,
    c: AppConfig,
) -> bool {
    let user_data = user_data_root(style, installed, opt_text(env.local_app_data));
    let workspace = workspace_of(
        root,
        env.workspace_root,
        file.workspace_root,
        user_data,
        has_user_settings,
    );
    let data_root = nonblank(opt_text(env.data_root));
    let data = match data_root {
        Some(d) => d,
        None => below(style, workspace, ".facial"@, "data"@),
    };
    &&& c.repo_root@ == root
    &&& c.workspace_root@ == workspace
    &&& c.worktrees_root@ == match nonblank(opt_text(env.worktrees_root)) {
        Some(w) => w,
        None => match data_root {
            Some(d) => joined_path(style, d, "worktrees"@),
            None => below(style, workspace, ".facial"@, "worktrees"@),
        },
    }
    &&& c.model_registry_path@ == joined_path(style, data, "model_registry.json"@)
    &&& c.debug_log_path@ == joined_path(style, data, "events.jsonl"@)
    &&& c.api_root@ == joined_path(style, data, "api"@)
    &&& c.plugins_root@ == below(style, root, "product"@, "plugins"@)
    &&& c.ingest_in_place_default == match env.ingest_in_place {
        Some(w) => is_on(w@),
        None => file.ingest_in_place_default == Some(true),
    }
    &&& c.max_debug_events == number_of(
        env.max_debug_events,
        nat_of(file.max_debug_events),
        800,
        usize::MAX as nat,
    )
    &&& c.media_thumb_cache_mb == {
        let n = number_of(
            env.media_thumb_cache_mb,
            nat64_of(file.media_thumb_cache_mb),
            2048,
            u64::MAX as nat,
        );
        if n < THUMB_CACHE_FLOOR_MB {
            THUMB_CACHE_FLOOR_MB as nat
        } else {
            n
        }
    }
    &&& opt_text(c.copy_location) == env_or_file(env.copy_location, file.copy_location)
    &&& opt_text(c.identity_model_path) == env_or_file(
        env.identity_model,
        file.identity_model_path,
    )
    &&& opt_text(c.identity_detector_path) == env_or_file(
        env.identity_detector,
        file.identity_detector_path,
    )
    &&& opt_text(c.identity_reference_dir) == env_or_file(
        env.identity_ref_dir,
        file.identity_reference_dir,
    )
    &&& opt_text(c.identity_negative_dir) == env_or_file(
        env.identity_neg_dir,
        file.identity_negative_dir,
    )
    &&& opt_text(c.landmark_model_path) == either_text(
        env_or_file(env.landmark_model, file.landmark_model_path),
        if landmarks_exist {
            Some(usual_landmarks(style, root))
        } else {
            None
        },
    )
    &&& c.theme_mode@ == match nonblank(opt_text(env.theme)) {
        Some(t) => t,
        None => match file.theme_mode {
            Some(t) => t@,
            None => "paper"@,
        },
    }
    &&& c.font_size_pt@ == number_source(env.font_size, file.has_font_size)
    &&& c.identity_threshold@ == number_source(env.identity_threshold, file.has_identity_threshold)
    &&& c.identity_margin@ == number_source(env.identity_margin, file.has_identity_margin)
    &&& c.identity_count_threshold@ == number_source(
        env.identity_count_threshold,
        file.has_identity_count_threshold,
    )
    &&& c.framing_closeup_min@ == number_source(
        env.framing_closeup_min,
        file.has_framing_closeup_min,
    )
    &&& c.framing_threequarter_min@ == number_source(
        env.framing_threequarter_min,
        file.has_framing_threequarter_min,
    )
}

/// Settings that say nothing, as of a file that cannot be read.
pub open spec fn says_nothing(f: FileConfig) -> bool {
    &&& f.workspace_root is None && f.ingest_in_place_default is None && f.max_debug_events is None
    &&& f.copy_location is None && f.identity_model_path is None
    &&& f.identity_detector_path is None && f.identity_reference_dir is None
    &&& f.identity_negative_dir is None && f.theme_mode is None && f.landmark_model_path is None
    &&& f.media_thumb_cache_mb is None && !f.has_font_size && !f.has_identity_threshold
    &&& !f.has_identity_margin && !f.has_identity_count_threshold && !f.has_framing_closeup_min
    &&& !f.has_framing_threequarter_min
}

impl Default for FileConfig {
    fn default() -> (r: Self)
        ensures
            says_nothing(r),
    {
        FileConfig {
            workspace_root: None,
            ingest_in_place_default: None,
            max_debug_events: None,
            has_font_size: false,
            copy_location: None,
            identity_model_path: None,
            identity_detector_path: None,
            identity_reference_dir: None,
            identity_negative_dir: None,
            has_identity_threshold: false,
            has_identity_margin: false,
            has_identity_count_threshold: false,
            has_framing_closeup_min: false,
            has_framing_threequarter_min: false,
            theme_mode: None,
            landmark_model_path: None,
            media_thumb_cache_mb: None,
        }
    }
}

fn choose_workspace(
    root: &str,
    env: &Option<String>,
    saved: &Option<String>,
    user_data: &Option<String>,
    has_user_settings: bool,
) -> (r: String)
    ensures
        r@ == workspace_of(root@, *env, *saved, opt_text(*user_data), has_user_settings),
{
    if let Some(p) = pick_nonblank(env) {
        return p;
    }
    if !(user_data.is_some() && !has_user_settings) {
        if let Some(p) = pick_nonblank(saved) {
            return p;
        }
    }
    match user_data {
        Some(d) => d.clone(),
        None => root.to_owned(),
    }
}

fn choose_usize(env: &Option<String>, file: Option<usize>, default: usize) -> (r: usize)
    ensures
        r == number_of(*env, nat_of(file), default as nat, usize::MAX as nat),
{
    if let Some(s) = env {
        if let Some(n) = parse_usize(s.as_str()) {
            return n;
        }
    }
    match file {
        Some(n) => n,
        None => default,
    }
}

fn choose_u64(env: &Option<String>, file: Option<u64>, default: u64) -> (r: u64)
    ensures
        r == number_of(*env, nat64_of(file), default as nat, u64::MAX as nat),
{
    if let Some(s) = env {
        if let Some(n) = parse_unsigned(s.as_str(), u64::MAX) {
            return n;
        }
    }
    match file {
        Some(n) => n,
        None => default,
    }
}

fn switched_on(word: &str) -> (r: bool)
    ensures
        r == is_on(word@),
{
    let lower = to_lowercase(word);
    let l = lower.as_str();
    str_eq(l, "1") || str_eq(l, "true") || str_eq(l, "yes") || str_eq(l, "on")
}

/// The configuration of the program. `file` is what the settings file says, that of the user where
/// `has_user_settings` holds; `installed` tells whether the program is an installed one, and
/// `landmarks_exist` whether the landmark model lies where it usually does.
pub fn load_config(
    style: PathStyle,
    repo_root: &str,
    env: &EnvSettings,
    file: &FileConfig,
    has_user_settings: bool,
    installed: bool,
    landmarks_exist: bool,
) -> (r: AppConfig)
    ensures
        is_config(
            style,
            repo_root@,
            *env,
            *file,
            has_user_settings,
            installed,
            landmarks_exist,
            r,
        ),
{
    let user_data = installed_user_data_root(style, installed, &env.local_app_data);
    let workspace_root = choose_workspace(
        repo_root,
        &env.workspace_root,
        &file.workspace_root,
        &user_data,
        has_user_settings,
    );
    let data_root = pick_nonblank(&env.data_root);
    let worktrees_root = match pick_nonblank(&env.worktrees_root) {
        Some(w) => w,
        None => match &data_root {
            Some(d) => join_path(style, d.as_str(), "worktrees"),
            None => path_below(style, workspace_root.as_str(), ".facial", "worktrees"),
        },
    };
    let data = match data_root {
        Some(d) => d,
        None => path_below(style, workspace_root.as_str(), ".facial", "data"),
    };
    let ingest = match &env.ingest_in_place {
        Some(w) => switched_on(w.as_str()),
        None => match file.ingest_in_place_default {
            Some(b) => b,
            None => false,
        },
    };
    let cache: u64 = choose_u64(&env.media_thumb_cache_mb, file.media_thumb_cache_mb, 2048);
    let theme_mode = match pick_nonblank(&env.theme) {
        Some(t) => t,
        None => match &file.theme_mode {
            Some(t) => t.clone(),
            None => "paper".to_owned(),
        },
    };
    let landmark_model_path = match pick_path(&env.landmark_model, &file.landmark_model_path) {
        Some(p) => Some(p),
        None => if landmarks_exist {
            Some(usual_landmark_path(style, repo_root))
        } else {
            None
        },
    };
    AppConfig {
        repo_root: repo_root.to_owned(),
        worktrees_root,
        model_registry_path: join_path(style, data.as_str(), "model_registry.json"),
        debug_log_path: join_path(style, data.as_str(), "events.jsonl"),
        plugins_root: path_below(style, repo_root, "product", "plugins"),
        api_root: join_path(style, data.as_str(), "api"),
        workspace_root,
        ingest_in_place_default: ingest,
        max_debug_events: choose_usize(&env.max_debug_events, file.max_debug_events, 800),
        font_size_pt: pick_number(&env.font_size, file.has_font_size),
        copy_location: pick_path(&env.copy_location, &file.copy_location),
        identity_model_path: pick_path(&env.identity_model, &file.identity_model_path),
        identity_detector_path: pick_path(&env.identity_detector, &file.identity_detector_path),
        identity_reference_dir: pick_path(&env.identity_ref_dir, &file.identity_reference_dir),
        identity_negative_dir: pick_path(&env.identity_neg_dir, &file.identity_negative_dir),
        identity_threshold: pick_number(&env.identity_threshold, file.has_identity_threshold),
        identity_margin: pick_number(&env.identity_margin, file.has_identity_margin),
        identity_count_threshold: pick_number(
            &env.identity_count_threshold,
            file.has_identity_count_threshold,
        ),
        framing_closeup_min: pick_number(&env.framing_closeup_min, file.has_framing_closeup_min),
        framing_threequarter_min: pick_number(
            &env.framing_threequarter_min,
            file.has_framing_threequarter_min,
        ),
        theme_mode,
        landmark_model_path,
        media_thumb_cache_mb: if cache < THUMB_CACHE_FLOOR_MB {
            THUMB_CACHE_FLOOR_MB
        } else {
            cache
        },
    }
}

/// Whether a folder was found to be that of an installed program: it has the shipped settings but
/// not the sources.
pub open spec fn said_installed<F: Fn(&str) -> bool>(
    style: PathStyle,
    is_file: F,
    root: Seq<char>,
    answer: bool,
) -> bool {
    ||| said(is_file, shipped_settings(style, root), false) && !answer
    ||| said(is_file, shipped_settings(style, root), true) && said(
        is_file,
        below(style, root, "product"@, "Cargo.toml"@),
        !answer,
    )
}

/// Whether a folder is that of an installed program.
pub fn is_installed_layout<F: Fn(&str) -> bool>(style: PathStyle, repo_root: &str, is_file: F) -> (r:
    bool)
    requires
        askable(is_file),
    ensures
        said_installed(style, is_file, repo_root@, r),
{
    installed_layout(style, repo_root, &is_file)
}

/// Whether a folder was found to hold the sources.
pub open spec fn said_sources<F: Fn(&str) -> bool>(
    style: PathStyle,
    exists_at: F,
    root: Seq<char>,
    answer: bool,
) -> bool {
    let main = joined_path(style, below(style, root, "product"@, "src"@), "main.rs"@);
    ||| said(exists_at, main, true) && answer
    ||| said(exists_at, main, false) && said(
        exists_at,
        below(style, root, "product"@, "Cargo.toml"@),
        answer,
    )
}

fn has_sources<F: Fn(&str) -> bool>(style: PathStyle, root: &str, exists_at: &F) -> (r: bool)
    requires
        askable(*exists_at),
    ensures
        said_sources(style, *exists_at, root@, r),
{
    let src = path_below(style, root, "product", "src");
    let main = join_path(style, src.as_str(), "main.rs");
    let found = exists_at(main.as_str());
    assert(said(*exists_at, main@, found));
    if found {
        return true;
    }
    let manifest = path_below(style, root, "product", "Cargo.toml");
    let found = exists_at(manifest.as_str());
    assert(said(*exists_at, manifest@, found));
    found
}

/// Whether a folder was found to be the product folder of the sources, which has a folder above.
pub open spec fn said_product<F: Fn(&str) -> bool>(
    style: PathStyle,
    exists_at: F,
    root: Seq<char>,
    answer: bool,
) -> bool {
    ||| said(exists_at, joined_path(style, root, "Cargo.toml"@), false) && !answer
    ||| said(exists_at, joined_path(style, root, "Cargo.toml"@), true) && answer == (file_name_of(
        style,
        root,
    ) == Some("product"@) && parent_of(style, root) is Some)
}

/// The search upwards from the folder of the program, at most `n` folders far.
pub open spec fn found_above_program<F: Fn(&str) -> bool, G: Fn(&str) -> bool>(
    style: PathStyle,
    exists_at: F,
    is_file: G,
    current: Seq<char>,
    n: nat,
    r: Option<Seq<char>>,
) -> bool
    decreases n,
{
    if n == 0 {
        r is None
    } else {
        ||| said_installed(style, is_file, current, true) && r == Some(current)
        ||| said_installed(style, is_file, current, false) && {
            ||| said_sources(style, exists_at, current, true) && r == Some(current)
            ||| said_sources(style, exists_at, current, false) && {
                ||| said_product(style, exists_at, current, true) && r == parent_of(style, current)
                ||| said_product(style, exists_at, current, false) && match parent_of(
                    style,
                    current,
                ) {
                    Some(p) => found_above_program(
                        style,
                        exists_at,
                        is_file,
                        p,
                        (n - 1) as nat,
                        r,
                    ),
                    None => r is None,
                }
            }
        }
    }
}

fn search_above_program<F: Fn(&str) -> bool, G: Fn(&str) -> bool>(
    style: PathStyle,
    exists_at: &F,
    is_file: &G,
    current: &str,
    n: u8,
) -> (r: Option<String>)
    requires
        askable(*exists_at),
        askable(*is_file),
    ensures
        found_above_program(style, *exists_at, *is_file, current@, n as nat, opt_text(r)),
    decreases n,
{
    if n == 0 {
        return None;
    }
    if installed_layout(style, current, is_file) {
        return Some(current.to_owned());
    }
    if has_sources(style, current, exists_at) {
        return Some(current.to_owned());
    }
    let manifest = join_path(style, current, "Cargo.toml");
    let found = exists_at(manifest.as_str());
    assert(said(*exists_at, manifest@, found));
    let named = match file_name(style, current) {
        Some(name) => str_eq(name.as_str(), "product"),
        None => false,
    };
    let above = parent(style, current);
    if found && named {
        if let Some(p) = above {
            assert(said_product(style, *exists_at, current@, true));
            return Some(p);
        }
    }
    assert(said_product(style, *exists_at, current@, false));
    match above {
        Some(p) => search_above_program(style, exists_at, is_file, p.as_str(), n - 1),
        None => None,
    }
}

fn installed_layout<G: Fn(&str) -> bool>(style: PathStyle, repo_root: &str, is_file: &G) -> (r:
    bool)
    requires
        askable(*is_file),
    ensures
        said_installed(style, *is_file, repo_root@, r),
{
    let settings = shipped_settings_path(style, repo_root);
    let shipped = is_file(settings.as_str());
    assert(said(*is_file, settings@, shipped));
    if !shipped {
        return false;
    }
    let manifest = path_below(style, repo_root, "product", "Cargo.toml");
    let sources = is_file(manifest.as_str());
    assert(said(*is_file, manifest@, sources));
    !sources
}

/// The search upwards from the current folder, at most `n` folders far: the folder that has the
/// sources, or the last one that was looked at.
pub open spec fn found_above_current<F: Fn(&str) -> bool>(
    style: PathStyle,
    exists_at: F,
    current: Seq<char>,
    n: nat,
    found: bool,
    r: Seq<char>,
) -> bool
    decreases n,
{
    if n == 0 {
        !found && r == current
    } else {
        ||| said_sources(style, exists_at, current, true) && found && r == current
        ||| said_sources(style, exists_at, current, false) && match parent_of(style, current) {
            Some(p) => found_above_current(style, exists_at, p, (n - 1) as nat, found, r),
            None => !found && r == current,
        }
    }
}

fn search_above_current<F: Fn(&str) -> bool>(
    style: PathStyle,
    exists_at: &F,
    current: &str,
    n: u8,
) -> (r: (bool, String))
    requires
        askable(*exists_at),
    ensures
        found_above_current(style, *exists_at, current@, n as nat, r.0, r.1@),
    decreases n,
{
    if n == 0 {
        return (false, current.to_owned());
    }
    if has_sources(style, current, exists_at) {
        return (true, current.to_owned());
    }
    match parent(style, current) {
        Some(p) => search_above_current(style, exists_at, p.as_str(), n - 1),
        None => (false, current.to_owned()),
    }
}

/// Where the program lives: the folder that the environment names where it exists, or one above
/// the program, or one above the current folder.
pub open spec fn repo_root_outcome<F: Fn(&str) -> bool, G: Fn(&str) -> bool>(
    style: PathStyle,
    exists_at: F,
    is_file: G,
    named: Option<Seq<char>>,
    program: Option<Seq<char>>,
    current: Seq<char>,
    r: Seq<char>,
) -> bool {
    ||| named is Some && said(exists_at, named->0, true) && r == named->0
    ||| (named is None || said(exists_at, named->0, false)) && exists|x: Option<Seq<char>>|
        {
            &&& #[trigger] above_program(style, exists_at, is_file, program, x)
            &&& match x {
                Some(found) => r == found,
                None => above_current(style, exists_at, current, r),
            }
        }
}

pub open spec fn above_program<F: Fn(&str) -> bool, G: Fn(&str) -> bool>(
    style: PathStyle,
    exists_at: F,
    is_file: G,
    program: Option<Seq<char>>,
    x: Option<Seq<char>>,
) -> bool {
    match program {
        Some(p) => found_above_program(style, exists_at, is_file, p, 8, x),
        None => x is None,
    }
}

pub open spec fn above_current<F: Fn(&str) -> bool>(
    style: PathStyle,
    exists_at: F,
    current: Seq<char>,
    r: Seq<char>,
) -> bool {
    exists|found: bool, last: Seq<char>|
        {
            &&& #[trigger] found_above_current(style, exists_at, current, 6, found, last)
            &&& if found {
                r == last
            } else {
                ||| said(exists_at, joined_path(style, last, "product"@), true) && r == last
                ||| said(exists_at, joined_path(style, last, "product"@), false) && r == current
            }
        }
}

/// Where the program lives. `named` is the folder that the environment names, `program` the folder
/// of the program and `current` the current folder; the questions tell whether something, or a
/// file, stands at a path.
pub fn discover_repo_root<F: Fn(&str) -> bool, G: Fn(&str) -> bool>(
    style: PathStyle,
    named: &Option<String>,
    program: &Option<String>,
    current: &str,
    exists_at: F,
    is_file: G,
) -> (r: String)
    requires
        askable(exists_at),
        askable(is_file),
    ensures
        repo_root_outcome(
            style,
            exists_at,
            is_file,
            opt_text(*named),
            opt_text(*program),
            current@,
            r@,
        ),
{
    if let Some(n) = named {
        let there = exists_at(n.as_str());
        assert(said(exists_at, n@, there));
        if there {
            return n.clone();
        }
    }
    if let Some(p) = program {
        if let Some(found) = search_above_program(style, &exists_at, &is_file, p.as_str(), 8) {
            assert(above_program(style, exists_at, is_file, opt_text(*program), Some(found@)));
            return found;
        }
    }
    assert(above_program(style, exists_at, is_file, opt_text(*program), None));
    let (found, last) = search_above_current(style, &exists_at, current, 6);
    assert(found_above_current(style, exists_at, current@, 6, found, last@));
    if found {
        assert(above_current(style, exists_at, current@, last@));
        return last;
    }
    let product = join_path(style, last.as_str(), "product");
    let there = exists_at(product.as_str());
    assert(said(exists_at, product@, there));
    if there {
        assert(above_current(style, exists_at, current@, last@));
        last
    } else {
        assert(above_current(style, exists_at, current@, current@));
        current.to_owned()
    }
}

/// What is written to the settings file, beside the size of the font.
#[derive(Debug)]
pub struct StoredSettings {
    pub workspace_root: String,
    pub ingest_in_place_default: bool,
    pub max_debug_events: usize,
    pub theme_mode: String,
    pub copy_location: Option<String>,
    pub identity_model_path: Option<String>,
    pub identity_detector_path: Option<String>,
    pub landmark_model_path: Option<String>,
}

/// Whether settings are those of a configuration.
pub open spec fn are_settings_of(s: StoredSettings, c: AppConfig) -> bool {
    &&& s.workspace_root@ == c.workspace_root@
    &&& s.ingest_in_place_default == c.ingest_in_place_default
    &&& s.max_debug_events == c.max_debug_events
    &&& s.theme_mode@ == c.theme_mode@
    &&& opt_text(s.copy_location) == opt_text(c.copy_location)
    &&& opt_text(s.identity_model_path) == opt_text(c.identity_model_path)
    &&& opt_text(s.identity_detector_path) == opt_text(c.identity_detector_path)
    &&& opt_text(s.landmark_model_path) == opt_text(c.landmark_model_path)
}

fn copied(o: &Option<String>) -> (r: Option<String>)
    ensures
        opt_text(r) == opt_text(*o),
{
    crate::api::copy_text(o)
}

/// The settings of a configuration.
pub fn settings_of(config: &AppConfig) -> (r: StoredSettings)
    ensures
        are_settings_of(r, *config),
{
    StoredSettings {
        workspace_root: config.workspace_root.clone(),
        ingest_in_place_default: config.ingest_in_place_default,
        max_debug_events: config.max_debug_events,
        theme_mode: config.theme_mode.clone(),
        copy_location: copied(&config.copy_location),
        identity_model_path: copied(&config.identity_model_path),
        identity_detector_path: copied(&config.identity_detector_path),
        landmark_model_path: copied(&config.landmark_model_path),
    }
}

/// The settings to write for a new place of copies; the rest stays.
pub fn save_copy_location(config: &AppConfig, copy_location: &Option<String>) -> (r: StoredSettings)
    ensures
        opt_text(r.copy_location) == opt_text(*copy_location),
        are_settings_of(StoredSettings { copy_location: config.copy_location, ..r }, *config),
{
    let mut s = settings_of(config);
    s.copy_location = copied(copy_location);
    s
}

/// The settings to write for a new theme; the rest stays.
pub fn save_theme_mode(config: &AppConfig, theme_mode: &str) -> (r: StoredSettings)
    ensures
        r.theme_mode@ == theme_mode@,
        are_settings_of(StoredSettings { theme_mode: config.theme_mode, ..r }, *config),
{
    let mut s = settings_of(config);
    s.theme_mode = theme_mode.to_owned();
    s
}

/// The settings to write for new identity models; the rest stays.
pub fn save_identity_paths(
    config: &AppConfig,
    identity_model_path: &Option<String>,
    identity_detector_path: &Option<String>,
) -> (r: StoredSettings)
    ensures
        opt_text(r.identity_model_path) == opt_text(*identity_model_path),
        opt_text(r.identity_detector_path) == opt_text(*identity_detector_path),
        are_settings_of(
            StoredSettings {
                identity_model_path: config.identity_model_path,
                identity_detector_path: config.identity_detector_path,
                ..r
            },
            *config,
        ),
{
    let mut s = settings_of(config);
    s.identity_model_path = copied(identity_model_path);
    s.identity_detector_path = copied(identity_detector_path);
    s
}

/// The settings to write for a new workspace; the rest stays.
pub fn save_workspace_root(config: &AppConfig, workspace_root: &str) -> (r: StoredSettings)
    ensures
        r.workspace_root@ == workspace_root@,
        are_settings_of(StoredSettings { workspace_root: config.workspace_root, ..r }, *config),
{
    let mut s = settings_of(config);
    s.workspace_root = workspace_root.to_owned();
    s
}

/// Whether a settings file holds what was written.
pub open spec fn holds_settings(f: FileConfig, s: StoredSettings) -> bool {
    &&& opt_text(f.workspace_root) == Some(s.workspace_root@)
    &&& f.ingest_in_place_default == Some(s.ingest_in_place_default)
    &&& f.max_debug_events == Some(s.max_debug_events)
    &&& opt_text(f.theme_mode) == Some(s.theme_mode@)
    &&& opt_text(f.copy_location) == opt_text(s.copy_location)
    &&& opt_text(f.identity_model_path) == opt_text(s.identity_model_path)
    &&& opt_text(f.identity_detector_path) == opt_text(s.identity_detector_path)
    &&& opt_text(f.landmark_model_path) == opt_text(s.landmark_model_path)
}

/// Whether the environment says nothing about what is stored.
pub open spec fn env_is_silent(env: EnvSettings) -> bool {
    &&& env.workspace_root is None && env.ingest_in_place is None && env.max_debug_events is None
    &&& env.theme is None && env.copy_location is None && env.identity_model is None
    &&& env.identity_detector is None && env.landmark_model is None
}

/// Settings that were written by the user load again, where the environment does not override
/// them; what is blank does not count as a path.
pub proof fn saved_settings_load_again(
    style: PathStyle,
    root: Seq<char>,
    env: EnvSettings,
    file: FileConfig,
    installed: bool,
    landmarks_exist: bool,
    s: StoredSettings,
    c: AppConfig,
)
    requires
        env_is_silent(env),
        holds_settings(file, s),
        is_config(style, root, env, file, true, installed, landmarks_exist, c),
    ensures
        trimmed(s.workspace_root@).len() > 0 ==> c.workspace_root@ == s.workspace_root@,
        c.ingest_in_place_default == s.ingest_in_place_default,
        c.max_debug_events == s.max_debug_events,
        c.theme_mode@ == s.theme_mode@,
        opt_text(c.copy_location) == nonblank(opt_text(s.copy_location)),
        opt_text(c.identity_model_path) == nonblank(opt_text(s.identity_model_path)),
        opt_text(c.identity_detector_path) == nonblank(opt_text(s.identity_detector_path)),
        nonblank(opt_text(s.landmark_model_path)) is Some ==> opt_text(c.landmark_model_path)
            == opt_text(s.landmark_model_path),
{
}

/// An installed program does not take its workspace from the settings that it was shipped with.
pub proof fn shipped_workspace_does_not_count(
    root: Seq<char>,
    saved: Option<String>,
    user_data: Seq<char>,
)
    ensures
        workspace_of(root, None, saved, Some(user_data), false) == user_data,
{
}

} // verus!
