//! The machine-level configuration file, and what a profile and a machine
//! taken together decide.
//!
//! A profile describes *what to listen for*; this file describes *the machine
//! it is being listened for on*. Everything in the file is optional, and so is
//! the file itself.

use super::hotkey::{
    block, hotkey_view, merged, HotkeyConfig, ResolvedHotkey, ResolvedHotkeyView,
};
use super::Profile;
use crate::errors::{
    optional, wrapped_user_error, Error, ErrorView, FileError, FileErrorKind, Kind,
};
use crate::path::{
    a_bare_component_is_the_only_one, body_start, components, descended, expand_tilde, expands_to,
    has_drive, join_path, path_join, prefix_len, separator, spelled, verbatim, Style,
};
use crate::text::{a_part_occurs, chars_of, ends_in, occurs_in};
use vstd::prelude::*;

verus! {

/// The directory we own inside the user's configuration directory.
pub const CONFIG_DIR: &'static str = "voice-orders";

/// The file itself.
pub const CONFIG_FILE: &'static str = "config.yaml";

/// Where models are looked for when `models.path` does not say otherwise.
pub const DEFAULT_MODELS_PATH: &'static str = "~/.local/share/vosk";

/// The directory inside ours which holds models on Windows.
pub const WINDOWS_MODELS_DIR: &'static str = "models";

/// Where a Windows machine keeps per-machine data when its environment does
/// not say.
pub const WINDOWS_LOCAL_APP_DATA_FALLBACK: &'static str = "~/AppData/Local";

/// Where a user's configuration is kept when the environment does not say.
pub const CONFIG_HOME_FALLBACK: &'static str = "~/.config";

/// What the environment says about where a user's files live.
#[derive(Debug, Clone, PartialEq, Eq)]
pub struct Environment {
    /// Whether this is a Windows machine.
    pub windows: bool,
    /// `%APPDATA%`.
    pub app_data: Option<String>,
    /// `%LOCALAPPDATA%`.
    pub local_app_data: Option<String>,
    /// `$XDG_CONFIG_HOME`.
    pub xdg_config_home: Option<String>,
}

/// The value of a variable: an empty one is treated as unset.
pub open spec fn set_value(variable: Option<String>) -> Option<Seq<char>> {
    match variable {
        Some(value) if value@.len() > 0 => Some(value@),
        _ => None,
    }
}

/// The value of a variable: an empty one is treated as unset.
fn value_of(variable: &Option<String>) -> (value: Option<&str>)
    ensures
        match value {
            Some(value) => set_value(*variable) == Some(value@),
            None => set_value(*variable) is None,
        },
{
    match variable {
        Some(value) => if value.as_str().is_empty() {
            None
        } else {
            Some(value.as_str())
        },
        None => None,
    }
}

/// The configuration directory the environment names, if it names one.
pub open spec fn config_home(env: Environment) -> Option<Seq<char>> {
    if env.windows && set_value(env.app_data) is Some {
        set_value(env.app_data)
    } else {
        set_value(env.xdg_config_home)
    }
}

/// The configuration file inside a configuration directory.
pub open spec fn config_file_in(windows: bool, base: Seq<char>) -> Seq<char> {
    path_join(windows, path_join(windows, base, "voice-orders"@), "config.yaml"@)
}

/// Where the machine-level config file lives, given where a user's
/// configuration is kept when the environment does not say.
pub fn config_path_in(env: &Environment, fallback: &str) -> (path: String)
    ensures
        path@ == config_file_in(
            env.windows,
            match config_home(*env) {
                Some(base) => base,
                None => fallback@,
            },
        ),
{
    let xdg = value_of(&env.xdg_config_home);
    let base = if env.windows {
        match value_of(&env.app_data) {
            Some(base) => base,
            None => match xdg {
                Some(base) => base,
                None => fallback,
            },
        }
    } else {
        match xdg {
            Some(base) => base,
            None => fallback,
        }
    };
    let dir = join_path(env.windows, base, CONFIG_DIR);
    join_path(env.windows, dir.as_str(), CONFIG_FILE)
}

/// Where the machine-level config file lives.
///
/// On Linux: `$XDG_CONFIG_HOME/voice-orders/config.yaml` when that variable is
/// set, and `~/.config/voice-orders/config.yaml` otherwise. On Windows:
/// `%APPDATA%\voice-orders\config.yaml`, and the Linux layout where that is
/// not set.
pub fn config_path_for(env: &Environment) -> (path: String)
    ensures
        match config_home(*env) {
            Some(base) => path@ == config_file_in(env.windows, base),
            None => exists|base: Seq<char>|
                #[trigger] expands_to("~/.config"@, base) && path@ == config_file_in(env.windows, base),
        },
{
    let fallback = expand_tilde(CONFIG_HOME_FALLBACK);
    config_path_in(env, fallback.as_str())
}

/// The directory models live in, given where each platform keeps it when the
/// environment does not say.
pub open spec fn models_dir(env: Environment, linux: Seq<char>, windows: Seq<char>) -> Seq<char> {
    if !env.windows {
        linux
    } else {
        path_join(
            true,
            path_join(
                true,
                match set_value(env.local_app_data) {
                    Some(base) => base,
                    None => windows,
                },
                "voice-orders"@,
            ),
            "models"@,
        )
    }
}

/// The directory models live in, given where each platform keeps it when the
/// environment does not say.
pub fn models_path_in(env: &Environment, linux: &str, windows: &str) -> (path: String)
    ensures
        path@ == models_dir(*env, linux@, windows@),
{
    if !env.windows {
        return linux.to_owned();
    }
    let base = match value_of(&env.local_app_data) {
        Some(base) => base,
        None => windows,
    };
    let dir = join_path(true, base, CONFIG_DIR);
    join_path(true, dir.as_str(), WINDOWS_MODELS_DIR)
}

/// Whether a path is the directory models live in on a machine.
pub open spec fn is_models_path(env: Environment, path: Seq<char>) -> bool {
    exists|linux: Seq<char>, windows: Seq<char>|
        {
            &&& #[trigger] expands_to("~/.local/share/vosk"@, linux)
            &&& #[trigger] expands_to("~/AppData/Local"@, windows)
            &&& path == models_dir(env, linux, windows)
        }
}

/// The directory a bare model *name* is resolved against when nothing has said
/// otherwise: `~/.local/share/vosk` on Linux, and
/// `%LOCALAPPDATA%\voice-orders\models` on Windows.
pub fn default_models_path_for(env: &Environment) -> (path: String)
    ensures
        is_models_path(*env, path@),
{
    let linux = expand_tilde(DEFAULT_MODELS_PATH);
    let windows = expand_tilde(WINDOWS_LOCAL_APP_DATA_FALLBACK);
    models_path_in(env, linux.as_str(), windows.as_str())
}

/// The system-wide `audio:` block.
#[derive(Debug, Clone, PartialEq, Eq)]
pub struct SystemAudioConfig {
    /// The microphone profiles use when they do not name one: `default`, or a
    /// case-insensitive substring of the device name.
    pub device: Option<String>,
}

/// The system-wide `models:` block.
#[derive(Debug, Clone, PartialEq, Eq)]
pub struct ModelsConfig {
    /// The directory a bare model *name* is resolved against, with a leading
    /// `~` already expanded.
    pub path: Option<String>,
}

/// The machine-level configuration: the defaults a profile inherits when it
/// does not speak for itself.
#[derive(Debug, Clone, PartialEq, Eq)]
pub struct SystemConfig {
    /// The default microphone for profiles which do not name one.
    pub audio: SystemAudioConfig,
    /// The default listen hotkey, merged field by field with the profile's.
    pub hotkey: Option<HotkeyConfig>,
    /// Where models named by name (rather than by path) are looked for.
    pub models: ModelsConfig,
    /// The file this was read from, when there was one.
    pub source: Option<String>,
}

impl Default for SystemAudioConfig {
    fn default() -> (config: Self)
        ensures
            config.device is None,
    {
        SystemAudioConfig { device: None }
    }
}

impl Default for ModelsConfig {
    fn default() -> (config: Self)
        ensures
            config.path is None,
    {
        ModelsConfig { path: None }
    }
}

impl Default for SystemConfig {
    fn default() -> (config: Self)
        ensures
            config.says_nothing(),
            config.source is None,
    {
        SystemConfig {
            audio: SystemAudioConfig { device: None },
            hotkey: None,
            models: ModelsConfig { path: None },
            source: None,
        }
    }
}

/// What reading the config file came to.
pub enum ConfigFile {
    /// The file could not be read.
    Unreadable(FileError),
    /// The file was read, and its text is not a configuration.
    Malformed(String),
    /// The file was read, and this is what it says.
    Parsed(SystemConfig),
}

/// What is said of a config file which could not be read.
pub open spec fn unreadable_config(path: Seq<char>, reason: Seq<char>) -> ErrorView {
    wrapped_user_error(
        reason,
        "We could not read the voice-orders configuration at '"@ + path + "'."@,
        config_advice(),
    )
}

/// What is said of a config file which is not a configuration.
pub open spec fn malformed_config(path: Seq<char>, reason: Seq<char>) -> ErrorView {
    wrapped_user_error(
        reason,
        "We could not understand the voice-orders configuration at '"@ + path + "'."@,
        config_advice(),
    )
}

/// Advice for anything which goes wrong reading the config file.
pub open spec fn config_advice() -> Seq<Seq<char>> {
    seq![
        "Every field in the file is optional; deleting the file entirely restores the defaults."@,
        "See the system configuration reference at https://sierrasoftworks.github.io/voice-rs/profiles/#system-configuration for the fields it may contain."@,
    ]
}

/// Advice for anything which goes wrong reading the config file.
fn config_tips() -> (advice: Vec<&'static str>)
    ensures
        crate::errors::tips(advice@) == config_advice(),
{
    vec![
        "Every field in the file is optional; deleting the file entirely restores the defaults.",
        "See the system configuration reference at https://sierrasoftworks.github.io/voice-rs/profiles/#system-configuration for the fields it may contain.",
    ]
}

impl SystemConfig {
    /// Whether the configuration leaves everything to the defaults.
    pub open spec fn says_nothing(&self) -> bool {
        &&& self.audio.device is None
        &&& self.hotkey is None
        &&& self.models.path is None
    }

    /// What reading the config file comes to.
    ///
    /// An absent file is not a failure: it means "all defaults". Anything else
    /// (a file we may not read, a file which is not a configuration) is a user
    /// error which names the path, because a config file which is silently
    /// ignored is worse than no config file at all.
    pub fn load_from(path: &str, file: ConfigFile) -> (config: Result<Self, Error>)
        ensures
            match (file, config) {
                (ConfigFile::Unreadable(failure), Ok(config)) => failure.kind
                    == FileErrorKind::NotFound && config.says_nothing() && config.source is None,
                (ConfigFile::Unreadable(failure), Err(error)) => failure.kind
                    != FileErrorKind::NotFound && error@ == unreadable_config(
                    path@,
                    failure.detail@,
                ),
                (ConfigFile::Malformed(reason), Err(error)) => error@ == malformed_config(
                    path@,
                    reason@,
                ),
                (ConfigFile::Malformed(_), Ok(_)) => false,
                (ConfigFile::Parsed(parsed), Ok(config)) => {
                    &&& config.audio == parsed.audio
                    &&& config.hotkey == parsed.hotkey
                    &&& config.models == parsed.models
                    &&& optional(config.source) == Some(path@)
                },
                (ConfigFile::Parsed(_), Err(_)) => false,
            },
    {
        match file {
            ConfigFile::Unreadable(failure) => {
                if failure.kind == FileErrorKind::NotFound {
                    return Ok(SystemConfig::default());
                }
                let mut description =
                    "We could not read the voice-orders configuration at '".to_owned();
                description.append(path);
                description.append("'.");
                Err(Error::wrap_user(failure.detail, description, config_tips()))
            },
            ConfigFile::Malformed(reason) => {
                let mut description =
                    "We could not understand the voice-orders configuration at '".to_owned();
                description.append(path);
                description.append("'.");
                Err(Error::wrap_user(reason, description, config_tips()))
            },
            ConfigFile::Parsed(parsed) => {
                let mut config = parsed;
                config.source = Some(path.to_owned());
                Ok(config)
            },
        }
    }

    /// The microphone a profile which does not name one should use.
    pub open spec fn spec_audio_device(&self) -> Seq<char> {
        match self.audio.device {
            Some(device) => device@,
            None => "default"@,
        }
    }

    /// The microphone a profile which does not name one should use.
    pub fn audio_device(&self) -> (device: &str)
        ensures
            device@ == self.spec_audio_device(),
    {
        match &self.audio.device {
            Some(device) => device.as_str(),
            None => super::defaults::AUDIO_DEVICE,
        }
    }

    /// The directory a bare model *name* is resolved against.
    pub fn models_path(&self, env: &Environment) -> (path: String)
        ensures
            match self.models.path {
                Some(models) => path@ == models@,
                None => is_models_path(*env, path@),
            },
    {
        match &self.models.path {
            Some(path) => path.clone(),
            None => default_models_path_for(env),
        }
    }
}

/// What a profile and this machine, taken together, actually decided.
#[derive(Debug, Clone, PartialEq, Eq)]
pub struct ResolvedSettings {
    /// The microphone to capture from: `default`, or a substring of a device
    /// name.
    pub audio_device: String,
    /// The listen hotkey, or `None` for always-listening.
    pub hotkey: Option<ResolvedHotkey>,
}

impl ResolvedSettings {
    /// Merges a profile with this machine's configuration.
    ///
    /// - **audio**: the profile's device, else the system's, else `default`.
    /// - **hotkey**: a field-level merge; see [`super::hotkey::resolve`].
    pub fn resolve(profile: &Profile, system: &SystemConfig) -> (settings: Result<Self, Error>)
        ensures
            match settings {
                Ok(settings) => {
                    &&& settings.audio_device@ == match profile.audio.device {
                        Some(device) => device@,
                        None => system.spec_audio_device(),
                    }
                    &&& merged(profile.hotkey, system.hotkey) == Ok::<
                        Option<ResolvedHotkeyView>,
                        ErrorView,
                    >(hotkey_view(settings.hotkey))
                },
                Err(error) => merged(profile.hotkey, system.hotkey) == Err::<
                    Option<ResolvedHotkeyView>,
                    ErrorView,
                >(error@),
            },
    {
        let audio_device = match &profile.audio.device {
            Some(device) => device.clone(),
            None => system.audio_device().to_owned(),
        };
        assert(block(
            match &profile.hotkey {
                Some(hotkey) => Some(hotkey),
                None => None,
            },
        ) == profile.hotkey);
        match super::hotkey::resolve(profile.hotkey.as_ref(), system.hotkey.as_ref()) {
            Ok(hotkey) => Ok(ResolvedSettings { audio_device, hotkey }),
            Err(error) => Err(error),
        }
    }
}

/// Whether a `model:` value is a bare *name*, something to look for inside the
/// models directory, rather than a path to a model directory: anything but the
/// empty text with no `/` in it which does not start with `~` or `.`.
pub open spec fn model_name(value: Seq<char>) -> bool {
    &&& value.len() > 0
    &&& !value.contains('/')
    &&& value[0] != '~'
    &&& value[0] != '.'
}

/// Whether a `model:` value is a bare *name* rather than a path.
pub fn is_model_name(value: &str) -> (is: bool)
    ensures
        is == model_name(value@),
{
    let chars = chars_of(value);
    if chars.len() == 0 {
        return false;
    }
    for i in 0..chars.len()
        invariant
            chars@ == value@,
            forall|j: int| 0 <= j < i ==> value@[j] != '/',
    {
        if chars[i] == '/' {
            assert(value@[i as int] == '/');
            return false;
        }
    }
    chars[0] != '~' && chars[0] != '.'
}

/// Turns a `model:` value into a path: a name is joined onto the models
/// directory, and anything path-like is left exactly as it was written.
pub open spec fn model_path(value: Seq<char>, models: Seq<char>, windows: bool) -> Seq<char> {
    if model_name(value) {
        path_join(windows, models, value)
    } else {
        value
    }
}

/// Turns a `model:` value into a path, given the models directory.
pub fn expand_model(value: &str, models: &str, windows: bool) -> (path: String)
    ensures
        path@ == model_path(value@, models@, windows),
{
    if is_model_name(value) {
        join_path(windows, models, value)
    } else {
        value.to_owned()
    }
}

/// A model name is found inside the models directory, and a path is left
/// alone. On Windows, a name which is a path of that system after all, with a
/// drive or a `\` in it, may lead elsewhere, and a models directory which starts
/// with `\\?\` has its components written out one by one.
pub proof fn names_are_looked_up_and_paths_are_not(
    value: Seq<char>,
    models: Seq<char>,
    windows: bool,
)
    ensures
        ({
            let path = model_path(value, models, windows);
            &&& model_name(value) && (windows ==> !value.contains(':') && !value.contains('\\'))
                ==> {
                &&& ends_in(path, value)
                &&& if windows && verbatim(models) {
                    path == spelled(
                        models.take(prefix_len(models) as int),
                        components(Style::Verbatim, models, body_start(models)).push(value),
                    )
                } else {
                    models.is_prefix_of(path)
                }
            }
            &&& value.contains('/') ==> path == value
        }),
{
    if model_name(value) {
        let path = model_path(value, models, windows);
        assert(value.contains(value[0]));
        if has_drive(value) {
            assert(value.contains(value[1]));
        }
        if windows ==> !value.contains(':') && !value.contains('\\') {
            if windows && verbatim(models) {
                assert forall|i: int| 0 <= i < value.len() implies !separator(
                    Style::Windows,
                    #[trigger] value[i],
                ) by {
                    assert(value.contains(value[i]));
                }
                a_bare_component_is_the_only_one(Style::Windows, value);
                reveal_strlit(".");
                reveal_strlit("..");
                let dir = components(Style::Verbatim, models, body_start(models));
                let all = dir.push(value);
                reveal_with_fuel(descended, 2);
                assert(seq![value].drop_last() == Seq::<Seq<char>>::empty());
                assert(descended(dir, seq![value]) == all);
                assert(all.drop_last() == dir);
            }
            assert(path.skip(path.len() - value.len()) == value);
        }
    }
}

/// A configuration is where the platform keeps it: on Windows what `%APPDATA%`
/// says comes first, everywhere what `$XDG_CONFIG_HOME` says, and a variable which
/// is empty says nothing.
pub proof fn the_environment_says_where_configuration_is(env: Environment)
    ensures
        env.windows && env.app_data is Some && env.app_data->0@.len() > 0 ==> config_home(env)
            == Some(env.app_data->0@),
        (!env.windows || env.app_data is None || env.app_data->0@.len() == 0)
            && env.xdg_config_home is Some && env.xdg_config_home->0@.len() > 0 ==> config_home(env)
            == Some(env.xdg_config_home->0@),
        (!env.windows || env.app_data is None || env.app_data->0@.len() == 0) && (
        env.xdg_config_home is None || env.xdg_config_home->0@.len() == 0) ==> config_home(env)
            is None,
{
}

/// On anything but Windows, the configuration is the file
/// `voice-orders/config.yaml` inside its directory.
pub proof fn the_configuration_is_one_file(base: Seq<char>)
    requires
        base.len() > 0,
    ensures
        config_file_in(false, base) == base + if base.last() == '/' {
            "voice-orders/config.yaml"@
        } else {
            "/voice-orders/config.yaml"@
        },
{
    reveal_strlit("voice-orders");
    reveal_strlit("config.yaml");
    reveal_strlit("voice-orders/config.yaml");
    reveal_strlit("/voice-orders/config.yaml");
    let dir = path_join(false, base, "voice-orders"@);
    assert(dir.last() == 's');
    assert("config.yaml"@[0] == 'c');
    assert("voice-orders"@[0] == 'v');
    assert(config_file_in(false, base) =~= base + if base.last() == '/' {
        "voice-orders/config.yaml"@
    } else {
        "/voice-orders/config.yaml"@
    });
}

/// Models are kept where each platform keeps them: on Windows below
/// `%LOCALAPPDATA%`, where that says anything, and elsewhere wherever it says.
pub proof fn models_are_kept_where_the_platform_keeps_them(
    env: Environment,
    linux: Seq<char>,
    windows: Seq<char>,
)
    ensures
        !env.windows ==> models_dir(env, linux, windows) == linux,
        env.windows ==> models_dir(env, linux, windows) == path_join(
            true,
            path_join(
                true,
                if env.local_app_data is Some && env.local_app_data->0@.len() > 0 {
                    env.local_app_data->0@
                } else {
                    windows
                },
                "voice-orders"@,
            ),
            "models"@,
        ),
{
}

/// The microphone which is named nearest is the one which counts: the profile's,
/// else the machine's, else the default. And the hotkey which comes out is what
/// the two blocks are merged into.
pub proof fn the_nearest_microphone_named_counts(
    profile: &Profile,
    system: &SystemConfig,
    settings: Result<ResolvedSettings, Error>,
)
    requires
        call_ensures(ResolvedSettings::resolve, (profile, system), settings),
    ensures
        settings matches Ok(settings) ==> {
            &&& profile.audio.device matches Some(device) ==> settings.audio_device@ == device@
            &&& profile.audio.device is None ==> match system.audio.device {
                Some(device) => settings.audio_device@ == device@,
                None => settings.audio_device@ == "default"@,
            }
            &&& profile.hotkey is None && system.hotkey is None ==> settings.hotkey is None
        },
        profile.hotkey is None && system.hotkey is None ==> settings is Ok,
{
}

/// Only a file which is not there stands for the defaults: what one says is taken
/// over, with where it says it, and one which says nothing we understand is a
/// failure which names it.
pub proof fn a_configuration_is_never_passed_over(
    path: &str,
    file: ConfigFile,
    config: Result<SystemConfig, Error>,
)
    requires
        call_ensures(SystemConfig::load_from, (path, file), config),
    ensures
        config is Ok == match file {
            ConfigFile::Unreadable(failure) => failure.kind == FileErrorKind::NotFound,
            ConfigFile::Malformed(_) => false,
            ConfigFile::Parsed(_) => true,
        },
        config matches Ok(config) ==> file matches ConfigFile::Parsed(parsed) ==> config.audio
            == parsed.audio && config.hotkey == parsed.hotkey && config.models == parsed.models
            && config.source is Some && config.source->0@ == path@,
        config matches Ok(config) ==> file is Unreadable ==> config.audio.device is None
            && config.hotkey is None && config.models.path is None && config.source is None,
        config matches Err(error) ==> occurs_in(path@, error@.description) && error@.kind
            == Kind::User,
{
    a_part_occurs("We could not read the voice-orders configuration at '"@, path@, "'."@);
    a_part_occurs("We could not understand the voice-orders configuration at '"@, path@, "'."@);
}

} // verus!
