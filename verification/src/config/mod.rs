//! Profiles and machine-level configuration: the schema's types, the
//! cross-field checks, and what a profile and a machine taken together decide.

pub mod command;
pub mod defaults;
pub mod duration;
pub mod hotkey;
pub mod loader;
pub mod output;
pub mod recognition;
pub mod system;

use crate::errors::{user_error, wrapped_user_error, Error, ErrorView};
use crate::path::{expand_tilde, expands_to, verbatim};
use crate::text::{blank, decimal, decimal_of, ends_in, is_blank};
use crate::time::Duration;
use command::CommandConfig;
use hotkey::HotkeyConfig;
use output::OutputDefaults;
use recognition::RecognitionConfig;
use system::{
    is_models_path, model_path, names_are_looked_up_and_paths_are_not, Environment, SystemConfig,
};
use vstd::prelude::*;

verus! {

/// Which microphone to capture from.
#[derive(Debug, Clone, PartialEq, Eq)]
pub struct AudioConfig {
    /// `default`, or any substring of the device name.
    pub device: Option<String>,
}

/// A profile's text, and where it came from.
#[derive(Debug, Clone, PartialEq, Eq)]
pub struct LoadedProfile {
    /// The resolved path or final URL, for display in messages.
    pub source: String,
    /// The raw text of the profile.
    pub content: String,
}

/// A complete profile: the model to recognize with, how to listen, and the
/// commands to act on.
#[derive(Debug, Clone)]
pub struct Profile {
    /// A friendly name for the profile, used in reports.
    pub name: Option<String>,
    /// The speech model: either a path to a model directory (with a leading
    /// `~` already expanded), or the bare *name* of a model inside the
    /// machine's models directory.
    pub model: Option<String>,
    /// Which microphone to listen on.
    pub audio: AudioConfig,
    /// The global listen hotkey. Absent both here and in the machine-level
    /// configuration means "always listening".
    pub hotkey: Option<HotkeyConfig>,
    /// How long an ambiguous phrase waits in case a longer one follows.
    pub completion_timeout: Duration,
    /// The latency levers.
    pub recognition: RecognitionConfig,
    /// Timing shared by every command which uses the `keys:` shorthand.
    pub defaults: OutputDefaults,
    /// The commands this profile listens for.
    pub commands: Vec<CommandConfig>,
}

/// The most concrete phrases a single command may expand into.
pub const MAX_EXPANSIONS_PER_COMMAND: u64 = 512;

/// What is said of a profile without commands.
pub open spec fn no_commands() -> ErrorView {
    user_error(
        "This profile does not define any commands, so there would be nothing to listen for."@,
        seq![
            "Add at least one entry under 'commands:', each with a 'phrase:' and either a 'keys:' or an 'events:' list."@,
            "Run `voice-orders new <path>` to write a profile with worked examples of both output forms."@,
        ],
    )
}

/// What is said of a command which expands into too many phrases.
pub open spec fn explosive(name: Seq<char>, count: u64) -> ErrorView {
    user_error(
        "The command '"@ + name + "' expands into "@ + decimal(count as nat)
            + " concrete phrases, which is more than the "@ + decimal(512)
            + " a single command may use."@,
        seq![
            "Split the command into several smaller commands, or remove some of its '[optional]' and '{alternate, choices}' groups."@,
        ],
    )
}

/// What is wrong with a command, if anything.
pub open spec fn command_problem(command: CommandConfig) -> Option<ErrorView> {
    match command.output_problem() {
        Some(problem) => Some(problem),
        None => if command.phrase.expansions > MAX_EXPANSIONS_PER_COMMAND {
            Some(explosive(command.spec_display_name(), command.phrase.expansions))
        } else {
            None
        },
    }
}

/// The first problem among some commands, if there is one.
pub open spec fn first_problem(commands: Seq<CommandConfig>) -> Option<ErrorView>
    decreases commands.len(),
{
    if commands.len() == 0 {
        None
    } else {
        match command_problem(commands[0]) {
            Some(problem) => Some(problem),
            None => first_problem(commands.drop_first()),
        }
    }
}

/// What is said of a profile which could not be understood.
pub open spec fn unreadable_profile(source: Seq<char>, reason: Seq<char>) -> ErrorView {
    wrapped_user_error(
        reason,
        "We could not read the profile at '"@ + source + "'."@,
        seq![
            "Check the profile against the error above — it names the field which we could not understand."@,
            "The option reference in the documentation lists every field a profile may set, and `voice-orders new` writes a fully commented starting point."@,
        ],
    )
}

impl Profile {
    /// The name to use when talking about this profile.
    pub open spec fn spec_display_name(&self) -> Seq<char> {
        match self.name {
            Some(name) if !blank(name@) => name@,
            _ => "<unnamed profile>"@,
        }
    }

    /// What is wrong with the profile, if anything, given how its confidence
    /// margin is written.
    pub open spec fn problem(&self, margin: Seq<char>) -> Option<ErrorView> {
        if self.commands@.len() == 0 {
            Some(no_commands())
        } else {
            match self.recognition.problem(margin) {
                Some(problem) => Some(problem),
                None => first_problem(self.commands@),
            }
        }
    }

    /// Accepts a profile which was parsed from a loaded text, naming its source
    /// where it could not be, and runs the cross-field checks.
    pub fn parse(loaded: &LoadedProfile, parsed: Result<Profile, String>, margin: &str) -> (profile:
        Result<Profile, Error>)
        ensures
            match (parsed, profile) {
                (Ok(parsed), Ok(profile)) => profile == parsed && parsed.problem(margin@) is None,
                (Ok(parsed), Err(error)) => parsed.problem(margin@) == Some(error@),
                (Err(reason), Err(error)) => error@ == unreadable_profile(
                    loaded.source@,
                    reason@,
                ),
                (Err(_), Ok(_)) => false,
            },
    {
        match parsed {
            Ok(profile) => match profile.validate_structure(margin) {
                Ok(()) => Ok(profile),
                Err(error) => Err(error),
            },
            Err(reason) => {
                let mut description = "We could not read the profile at '".to_owned();
                description.append(loaded.source.as_str());
                description.append("'.");
                Err(
                    Error::wrap_user(
                        reason,
                        description,
                        vec![
                            "Check the profile against the error above — it names the field which we could not understand.",
                            "The option reference in the documentation lists every field a profile may set, and `voice-orders new` writes a fully commented starting point.",
                        ],
                    ),
                )
            },
        }
    }

    /// The name to use when talking about this profile.
    pub fn display_name(&self) -> (name: &str)
        ensures
            name@ == self.spec_display_name(),
    {
        match &self.name {
            Some(name) => if is_blank(name.as_str()) {
                "<unnamed profile>"
            } else {
                name.as_str()
            },
            None => "<unnamed profile>",
        }
    }

    /// The cross-field invariants.
    ///
    /// Every message names the command it is about, so a profile with fifty
    /// commands still tells you which one to go and fix.
    pub fn validate_structure(&self, margin: &str) -> (checked: Result<(), Error>)
        ensures
            match checked {
                Ok(()) => self.problem(margin@) is None,
                Err(error) => self.problem(margin@) == Some(error@),
            },
    {
        if self.commands.len() == 0 {
            let error = Error::user(
                "This profile does not define any commands, so there would be nothing to listen for.".to_owned(),
                vec![
                    "Add at least one entry under 'commands:', each with a 'phrase:' and either a 'keys:' or an 'events:' list.",
                    "Run `voice-orders new <path>` to write a profile with worked examples of both output forms.",
                ],
            );
            assert(error@ =~= no_commands());
            return Err(error);
        }
        if let Err(error) = self.recognition.validate(margin) {
            return Err(error);
        }
        let ghost all = self.commands@;
        assert(all.skip(0) == all);
        for i in 0..self.commands.len()
            invariant
                all == self.commands@,
                all.len() > 0,
                self.recognition.problem(margin@) is None,
                first_problem(all) == first_problem(all.skip(i as int)),
        {
            assert(all.skip(i as int).drop_first() == all.skip(i + 1));
            assert(all.skip(i as int)[0] == all[i as int]);
            let command = &self.commands[i];
            if let Err(error) = command.validate_output() {
                return Err(error);
            }
            if let Err(error) = validate_expansion_volume(command) {
                return Err(error);
            }
        }
        Ok(())
    }
}

/// Rejects a command whose phrase would expand past the cap.
fn validate_expansion_volume(command: &CommandConfig) -> (checked: Result<(), Error>)
    ensures
        match checked {
            Ok(()) => command.phrase.expansions <= MAX_EXPANSIONS_PER_COMMAND,
            Err(error) => {
                &&& command.phrase.expansions > MAX_EXPANSIONS_PER_COMMAND
                &&& error@ == explosive(command.spec_display_name(), command.phrase.expansions)
            },
        },
{
    let count = command.phrase.expansions;
    if count <= MAX_EXPANSIONS_PER_COMMAND {
        return Ok(());
    }
    let mut description = "The command '".to_owned();
    description.append(command.display_name());
    description.append("' expands into ");
    description.append(decimal_of(count).as_str());
    description.append(" concrete phrases, which is more than the ");
    description.append(decimal_of(MAX_EXPANSIONS_PER_COMMAND).as_str());
    description.append(" a single command may use.");
    Err(
        Error::user(
            description,
            vec![
                "Split the command into several smaller commands, or remove some of its '[optional]' and '{alternate, choices}' groups.",
            ],
        ),
    )
}

/// Expands a leading `~` in a path a configuration file names, so that a file
/// can be shared between machines without hard-coding somebody's home
/// directory.
pub fn expand_path(path: Option<String>) -> (expanded: Option<String>)
    ensures
        match (path, expanded) {
            (Some(path), Some(expanded)) => expands_to(path@, expanded@),
            (None, None) => true,
            _ => false,
        },
{
    match path {
        Some(path) => Some(expand_tilde(path.as_str())),
        None => None,
    }
}

/// The environment variable which supplies a model path when neither the
/// command line nor the profile does.
pub const MODEL_PATH_ENV: &'static str = "VOSK_MODEL_PATH";

/// What is said when no model is named anywhere.
pub open spec fn no_model(profile: Seq<char>, models: Seq<char>) -> ErrorView {
    user_error(
        "We do not know which speech model to use for the profile '"@ + profile
            + "': it was not given with '--model', the profile has no 'model:' field, and the VOSK_MODEL_PATH environment variable is not set. A 'model:' may be a path, or the name of a model inside '"@
            + models + "'."@,
        seq![
            "Download vosk-model-en-us-0.22-lgraph from https://alphacephei.com/vosk/models, unpack it, and point at it with '--model <path>', with a 'model:' line in your profile, or by setting VOSK_MODEL_PATH."@,
            "Unpacking it into your models directory (~/.local/share/vosk, or 'models.path' in ~/.config/voice-orders/config.yaml) lets a profile name it without a path, e.g. 'model: vosk-model-en-us-0.22-lgraph'."@,
            "It must be a model with a dynamic graph (one containing 'graph/Gr.fst'): voice-orders constrains recognition to your profile's phrases, which the large precompiled models such as vosk-model-en-us-0.22 cannot do."@,
        ],
    )
}

/// Which model is meant, given the models directory: the one on the command
/// line, else the profile's, else the environment's. The first two may be
/// names; the last is a path.
pub open spec fn meant_model(
    cli: Option<Seq<char>>,
    profile: Option<Seq<char>>,
    env: Option<Seq<char>>,
    models: Seq<char>,
    windows: bool,
) -> Option<Seq<char>> {
    match cli {
        Some(value) => Some(model_path(value, models, windows)),
        None => match profile {
            Some(value) => Some(model_path(value, models, windows)),
            None => env,
        },
    }
}

/// The characters of a text which may be missing.
pub open spec fn optional_text(text: Option<&str>) -> Option<Seq<char>> {
    match text {
        Some(text) => Some(text@),
        None => None,
    }
}

/// Decides which model to recognize with, given the models directory.
///
/// Nothing here touches the filesystem: whether the path *is* a usable model is
/// the recognizer's question to answer.
pub fn resolve_model_in(
    cli: Option<&str>,
    profile: &Profile,
    env: Option<String>,
    models: &str,
    windows: bool,
) -> (model: Result<String, Error>)
    ensures
        match model {
            Ok(model) => meant_model(
                optional_text(cli),
                crate::errors::optional(profile.model),
                crate::errors::optional(env),
                models@,
                windows,
            ) == Some(model@),
            Err(error) => {
                &&& cli is None && profile.model is None && env is None
                &&& error@ == no_model(profile.spec_display_name(), models@)
            },
        },
{
    if let Some(value) = cli {
        return Ok(system::expand_model(value, models, windows));
    }
    if let Some(value) = &profile.model {
        return Ok(system::expand_model(value.as_str(), models, windows));
    }
    // The environment variable is a path by construction: it is set by whoever
    // runs the tool, on the machine it is running on.
    if let Some(value) = env {
        return Ok(value);
    }
    let mut description = "We do not know which speech model to use for the profile '".to_owned();
    description.append(profile.display_name());
    description.append(
        "': it was not given with '--model', the profile has no 'model:' field, and the VOSK_MODEL_PATH environment variable is not set. A 'model:' may be a path, or the name of a model inside '",
    );
    description.append(models);
    description.append("'.");
    Err(
        Error::user(
            description,
            vec![
                "Download vosk-model-en-us-0.22-lgraph from https://alphacephei.com/vosk/models, unpack it, and point at it with '--model <path>', with a 'model:' line in your profile, or by setting VOSK_MODEL_PATH.",
                "Unpacking it into your models directory (~/.local/share/vosk, or 'models.path' in ~/.config/voice-orders/config.yaml) lets a profile name it without a path, e.g. 'model: vosk-model-en-us-0.22-lgraph'.",
                "It must be a model with a dynamic graph (one containing 'graph/Gr.fst'): voice-orders constrains recognition to your profile's phrases, which the large precompiled models such as vosk-model-en-us-0.22 cannot do.",
            ],
        ),
    )
}

/// Whether a path is the models directory of a machine and its configuration.
pub open spec fn is_models_dir(system: SystemConfig, env: Environment, path: Seq<char>) -> bool {
    match system.models.path {
        Some(models) => path == models@,
        None => is_models_path(env, path),
    }
}

/// Decides which model to recognize with, in order: the `--model` override,
/// the profile's `model:` field, the `VOSK_MODEL_PATH` environment variable.
///
/// The first two may be a bare model *name* rather than a path, in which case
/// it is resolved inside the machine's models directory.
pub fn resolve_model_from(
    cli: Option<&str>,
    profile: &Profile,
    system: &SystemConfig,
    env: Option<String>,
    machine: &Environment,
) -> (model: Result<String, Error>)
    ensures
        exists|models: Seq<char>|
            {
                &&& #[trigger] is_models_dir(*system, *machine, models)
                &&& match model {
                    Ok(model) => meant_model(
                        optional_text(cli),
                        crate::errors::optional(profile.model),
                        crate::errors::optional(env),
                        models,
                        machine.windows,
                    ) == Some(model@),
                    Err(error) => {
                        &&& cli is None && profile.model is None && env is None
                        &&& error@ == no_model(profile.spec_display_name(), models)
                    },
                }
            },
{
    let models = system.models_path(machine);
    assert(is_models_dir(*system, *machine, models@));
    resolve_model_in(cli, profile, env, models.as_str(), machine.windows)
}

/// Whether a `model:` value is a bare name: something, with no `/` in it, which
/// starts with neither `~` nor `.`. On Windows, what has a drive or a `\\` in it
/// is none.
pub open spec fn bare_name(value: Seq<char>, windows: bool) -> bool {
    &&& value.len() > 0
    &&& !value.contains('/')
    &&& value[0] != '~'
    &&& value[0] != '.'
    &&& windows ==> !value.contains(':') && !value.contains('\\')
}

/// A model which is named is looked for among the models: where `--model`, or
/// the profile where there is none, gives a bare name, the model which is meant
/// is that name inside the models directory, wherever the environment points.
pub proof fn a_named_model_is_looked_up(
    cli: Option<Seq<char>>,
    profile: Option<Seq<char>>,
    env: Option<Seq<char>>,
    models: Seq<char>,
    windows: bool,
)
    requires
        cli is Some || profile is Some,
    ensures
        ({
            let named = if cli is Some {
                cli->0
            } else {
                profile->0
            };
            bare_name(named, windows) ==> {
                &&& meant_model(cli, profile, env, models, windows) matches Some(model)
                &&& ends_in(model, named)
                &&& !windows || !verbatim(models) ==> models.is_prefix_of(model)
                &&& !windows && (models.len() == 0 || models.last() == '/') ==> model == models
                    + named
                &&& !windows && models.len() > 0 && models.last() != '/' ==> model == models + seq![
                    '/',
                ] + named
            }
        }),
{
    let named = if cli is Some {
        cli->0
    } else {
        profile->0
    };
    if bare_name(named, windows) {
        names_are_looked_up_and_paths_are_not(named, models, windows);
        assert(named.contains(named[0]));
        if !windows && models.len() > 0 && models.last() != '/' {
            assert(models.push('/') + named =~= models + seq!['/'] + named);
        }
    }
}

/// A model which is given by its path is taken from there: where `--model`, or
/// the profile where there is none, gives something with a `/` in it, or which
/// starts with `~` or `.`, that is the model, wherever the models are kept.
pub proof fn a_models_path_is_left_alone(
    cli: Option<Seq<char>>,
    profile: Option<Seq<char>>,
    env: Option<Seq<char>>,
    models: Seq<char>,
    windows: bool,
)
    requires
        cli is Some || profile is Some,
    ensures
        ({
            let given = if cli is Some {
                cli->0
            } else {
                profile->0
            };
            given.len() == 0 || given.contains('/') || given[0] == '~' || given[0] == '.'
                ==> meant_model(cli, profile, env, models, windows) == Some(given)
        }),
{
}

/// What the command line says wins, then what the profile says, and the
/// environment is asked last: what it says is a path, and taken as it is.
pub proof fn the_nearest_word_on_the_model_wins(
    cli: Option<Seq<char>>,
    profile: Option<Seq<char>>,
    env: Option<Seq<char>>,
    other: Option<Seq<char>>,
    another: Option<Seq<char>>,
    models: Seq<char>,
    windows: bool,
)
    ensures
        cli is Some ==> meant_model(cli, profile, env, models, windows) == meant_model(
            cli,
            other,
            another,
            models,
            windows,
        ),
        profile is Some ==> {
            &&& meant_model(None, profile, env, models, windows) == meant_model(
                None,
                profile,
                another,
                models,
                windows,
            )
            &&& meant_model(None, profile, env, models, windows) == meant_model(
                profile,
                None,
                None,
                models,
                windows,
            )
        },
        meant_model(None, None, env, models, windows) == env,
{
}

/// Whether a command can be used: it has one output form with something in it,
/// and does not expand into too many phrases.
pub open spec fn usable(command: CommandConfig) -> bool {
    &&& command.phrase.expansions <= 512
    &&& {
        ||| command.events is None && command.keys is Some && command.keys->0@.len() > 0
        ||| command.keys is None && command.events is Some && command.events->0@.len() > 0
    }
}

/// A profile loads exactly where there is something to listen for, its latency
/// levers go together, and every one of its commands can be used.
pub proof fn a_profile_loads_where_every_command_can_be_used(profile: Profile, margin: Seq<char>)
    ensures
        profile.problem(margin) is None <==> {
            &&& profile.commands@.len() > 0
            &&& profile.recognition.problem(margin) is None
            &&& forall|i: int|
                0 <= i < profile.commands@.len() ==> usable(#[trigger] profile.commands@[i])
        },
{
    lemma_first_problem(profile.commands@);
}

/// Some commands are without a problem where each of them can be used.
proof fn lemma_first_problem(commands: Seq<CommandConfig>)
    ensures
        first_problem(commands) is None <==> forall|i: int|
            0 <= i < commands.len() ==> usable(#[trigger] commands[i]),
    decreases commands.len(),
{
    if commands.len() > 0 {
        let rest = commands.drop_first();
        lemma_first_problem(rest);
        if first_problem(commands) is None {
            assert forall|i: int| 0 <= i < commands.len() implies usable(
                #[trigger] commands[i],
            ) by {
                if i > 0 {
                    assert(rest[i - 1] == commands[i]);
                }
            }
        }
        if forall|i: int| 0 <= i < commands.len() ==> usable(#[trigger] commands[i]) {
            assert(usable(commands[0]));
            assert forall|i: int| 0 <= i < rest.len() implies usable(#[trigger] rest[i]) by {
                assert(rest[i] == commands[i + 1]);
            }
        }
    }
}

/// Of several commands which cannot be used, the first is the one reported, by
/// its name.
pub proof fn the_first_unusable_command_is_reported(commands: Seq<CommandConfig>, i: int)
    requires
        0 <= i < commands.len(),
        !usable(commands[i]),
        forall|j: int| 0 <= j < i ==> usable(#[trigger] commands[j]),
    ensures
        first_problem(commands) matches Some(problem) && exists|rest: Seq<char>|
            problem.description == #[trigger] ("The command '"@ + commands[i].spec_display_name()
                + rest),
    decreases i,
{
    if i == 0 {
        let command = commands[0];
        let name = command.spec_display_name();
        let lead = "The command '"@ + name;
        let said = command_problem(command)->0.description;
        let rest = said.skip(lead.len() as int);
        assert(said =~= lead + rest);
    } else {
        assert(usable(commands[0]));
        let others = commands.drop_first();
        assert(others[i - 1] == commands[i]);
        assert forall|j: int| 0 <= j < i - 1 implies usable(#[trigger] others[j]) by {
            assert(others[j] == commands[j + 1]);
        }
        the_first_unusable_command_is_reported(others, i - 1);
    }
}

} // verus!
