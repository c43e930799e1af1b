//! `voice-orders new <path>`: writes a starting-point profile.
//!
//! The scaffold shows *every* option with its default value, commented out, so
//! that the file itself doubles as an option reference; the parts which are
//! left active make it a profile which loads as written.

use crate::errors::{
    in_context, user_error, Error, ErrorView, FileError, FileErrorKind, HumanizableError, Kind,
};
use vstd::prelude::*;

verus! {

/// The path at which a new profile should be created.
#[derive(Debug, Clone, PartialEq, Eq)]
pub struct NewArgs {
    pub profile: String,
}

/// The scaffold written by `voice-orders new`.
///
/// Keep this loadable: the commented options are documentation, but everything
/// left uncommented must parse.
pub const SCAFFOLD: &'static str = r#"# A voice-orders profile: speak a phrase, press the keys.
#
# Every option is shown below with its default value; uncomment the ones you
# want to change. When you have edited it, check your work with:
#
#     voice-orders validate <this file>
#
# and then run it with:
#
#     voice-orders run <this file> -- <the game you want to play>

# A friendly name for this profile, used in logs and validation reports.
# name: My Profile

# The Vosk model used to recognize speech. Download one from
# https://alphacephei.com/vosk/models and unpack it somewhere sensible; a
# leading '~' is expanded to your home directory when the profile loads.
#
# This may also be a bare model *name* — 'vosk-model-small-en-us-0.15' — which
# is looked for in your models directory (~/.local/share/vosk, or 'models.path'
# in ~/.config/voice-orders/config.yaml). That is the form to use in a profile
# you intend to share.
model: ~/.local/share/vosk/vosk-model-small-en-us-0.15

# Which microphone to listen on. Leave it out to use the one your
# ~/.config/voice-orders/config.yaml names, or your system default.
# Run 'voice-orders devices' to list every microphone this machine can see.
# audio:
#   # "default", or any substring of the device name, e.g. "USB Microphone".
#   device: default

# The global listen hotkey. Leave the whole block out to listen all the time —
# or to use the one your ~/.config/voice-orders/config.yaml sets, which is what
# a profile you intend to share should do. Each field you do write here wins
# over the machine's.
# hotkey:
#   # "auto", a /dev/input/event* path, or a substring of the device name.
#   # 'voice-orders devices' lists them, and says which one "auto" would pick.
#   device: auto
#   # The key which controls listening; see the key reference in the docs.
#   key: rightctrl
#   # toggle       — each press flips listening on or off
#   # push-to-talk — listening only while the key is held
#   # push-to-mute — listening except while the key is held
#   mode: toggle
#   # Whether stopping listening also stops whatever is being typed: with
#   # `true`, the command in flight is cancelled where it stands (its keys are
#   # released) and anything queued behind it is thrown away.
#   interrupt: false

# How long an ambiguous phrase waits in case you carry on with a longer one:
# with both "reload" and "reload weapon" in the profile, saying "reload" waits
# this long before firing, in case "weapon" is still coming.
# completion_timeout: 500ms

# The pacing applied to every command's key presses.
# defaults:
#   # How long each press is held down.
#   duration: 30ms
#   # The gap left between one press and the next.
#   interval: 25ms

# The command grammar: a list of rules. TitleCase rules are published as
# speakable commands; lowercase rules are private building blocks other rules
# refer to. `//` comments run to the end of the line.
#
# In a rule's pattern:
#   "quoted words"        are what you say (multi-word literals are fine)
#   "word"?               may be left unsaid
#   ("either" | "or")     groups alternatives
#   other_rule            reuses a private rule — its words *and* its presses
#   thing[1..4]           repeats a term a bounded number of times
#   thing:name            captures the term's presses for `name...` below
#
# The `{ ... }` action block says what a match presses: a bare chord ("4",
# "leftctrl+leftalt+t") is a press, `wait(20ms)` an explicit pause, and
# `hold(..)` / `release(..)` the two halves of a press when they belong to
# different moments (`release(*)` lets go of everything). `...` splices in
# everything the matched words accumulated; `name...` splices one capture. A
# rule with no block passes its accumulated presses along unchanged.
grammar: |
  // "deploy the sentry", "deploy turret", ... — each alternative carries its
  // own press, and the rule passes them along implicitly.
  Deploy = "deploy" "the"? ("sentry" { 4 } | "turret" { 5 })

  // A private building block: reusable words with their presses.
  direction = ( "north" { up }
              | "south" { down }
              | "east"  { right }
              | "west"  { left } )

  // "look north", ... — the capture lets the block place the direction's
  // press exactly where it belongs: after the map key and its settle time.
  Look = "look" direction:dir { m, wait(20ms), dir... }
"#;

/// What is said of a path which is taken.
pub open spec fn already_there(path: Seq<char>) -> ErrorView {
    user_error(
        "There is already a file at '"@ + path
            + "', and we will not overwrite a profile you may have spent time on."@,
        seq![
            "Choose a path which does not exist yet, e.g. `voice-orders new my-other-profile.yaml`."@,
            "If you meant to start again from scratch, delete the existing file first."@,
        ],
    )
}

/// What is said of a profile which could not be created.
pub fn create_error(path: &str, failure: FileError) -> (error: Error)
    ensures
        error@ == if failure.kind == FileErrorKind::AlreadyExists {
            already_there(path@)
        } else {
            in_context(
                failure.humanized(),
                Kind::User,
                "We could not create a new profile at '"@ + path@ + "'."@,
                seq![
                    "Check that the directory exists and that you are allowed to write to it."@,
                ],
            )
        },
{
    if failure.kind == FileErrorKind::AlreadyExists {
        let mut description = "There is already a file at '".to_owned();
        description.append(path);
        description.append(
            "', and we will not overwrite a profile you may have spent time on.",
        );
        let error = Error::user(
            description,
            vec![
                "Choose a path which does not exist yet, e.g. `voice-orders new my-other-profile.yaml`.",
                "If you meant to start again from scratch, delete the existing file first.",
            ],
        );
        assert(error@ =~= already_there(path@));
        return error;
    }
    let mut description = "We could not create a new profile at '".to_owned();
    description.append(path);
    description.append("'.");
    failure.to_human_error().in_context(
        Kind::User,
        description,
        vec!["Check that the directory exists and that you are allowed to write to it."],
    )
}

/// What is said of a profile which was written.
pub fn written(path: &str) -> (text: String)
    ensures
        text@ == "Wrote a new profile to '"@ + path@
            + "'.\nEdit it, then check it with: voice-orders validate "@ + path@ + "\n"@,
{
    let mut text = "Wrote a new profile to '".to_owned();
    text.append(path);
    text.append("'.\nEdit it, then check it with: voice-orders validate ");
    text.append(path);
    text.append("\n");
    text
}

} // verus!
