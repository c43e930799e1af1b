//! `voice-orders doctor [profile]`: read-only diagnosis of everything the
//! kernel-level approach needs.
//!
//! Two rules shape the whole module. The first is **run every check**: a
//! missing model must not hide a missing udev rule, so the exit code is derived
//! from the finished report. The second is that every check comes to a
//! [`CheckResult`], which is what lets `setup` reuse the diagnosis rather than
//! re-deriving it.

use crate::config::system::{expand_model, model_path, Environment, ResolvedSettings, SystemConfig};
use crate::config::{
    is_models_dir, meant_model, no_model, optional_text, resolve_model_in, Profile,
};
use crate::errors::{given_once, optional, tips, user_error, Error, ErrorView};
use crate::output::keys::name_of;
use crate::text::{
    a_part_occurs, a_part_still_occurs, decimal, decimal_of, fields, fields_of, is_among, is_digit,
    joined, joined_texts_split_up_again, lemma_separator_at, lines, lines_of, number_in, number_of,
    numbers_read_back, occurs_in, same_text, trim, trimmed, trimming_takes_only_white_space, views,
};
use vstd::prelude::*;

verus! {

/// What `doctor` was asked for.
#[derive(Debug, Clone, PartialEq, Eq)]
pub struct DoctorArgs {
    /// A profile to check as well: it must load, and its hotkey device must
    /// resolve.
    pub profile: Option<String>,
    /// The model to check. Overrides the profile's `model:` field and
    /// `$VOSK_MODEL_PATH`.
    pub model: Option<String>,
}

/// The device node the virtual keyboard is created on.
pub const UINPUT_PATH: &'static str = "/dev/uinput";

/// The group which owns both `/dev/uinput` and `/dev/input/event*`.
pub const INPUT_GROUP: &'static str = "input";

/// The group database we read configured membership from.
pub const GROUP_FILE: &'static str = "/etc/group";

/// The name the doctor's throwaway virtual keyboard is created under.
pub const PROBE_DEVICE_NAME: &'static str = "voice-orders-doctor";

/// The `hotkey.device` value which asks discovery to pick a device for us.
pub const AUTO_DEVICE: &'static str = "auto";

/// The key we ask discovery to find a device for when there is no profile to
/// tell us which one matters: every keyboard has a left control.
pub const PROBE_KEY: &'static str = "leftctrl";

/// The relative path which distinguishes a dynamic-graph model (which can be
/// constrained to a grammar) from a precompiled static one (which cannot).
pub const DYNAMIC_GRAPH: &'static str = "graph/Gr.fst";

/// Advice for everything `voice-orders setup` knows how to fix.
pub open spec fn setup_advice() -> Seq<Seq<char>> {
    seq![
        "Run 'voice-orders setup' to apply the missing system configuration, or 'voice-orders setup --print' to see the commands and run them yourself."@,
        "See the permissions guide at https://sierrasoftworks.github.io/voice-rs/guide/permissions.html for what each step does."@,
    ]
}

fn setup_tips() -> (advice: Vec<&'static str>)
    ensures
        tips(advice@) == setup_advice(),
{
    let advice: Vec<&'static str> = vec![
        "Run 'voice-orders setup' to apply the missing system configuration, or 'voice-orders setup --print' to see the commands and run them yourself.",
        "See the permissions guide at https://sierrasoftworks.github.io/voice-rs/guide/permissions.html for what each step does.",
    ];
    assert(tips(advice@) =~= setup_advice());
    advice
}

/// Advice for a group membership which is configured but not yet in effect.
pub open spec fn relogin_advice() -> Seq<Seq<char>> {
    seq![
        "Log out and back in (or reboot) — group membership is attached to your session when you log in, so a shell or desktop session which started earlier is still denied."@,
        "'id -nG' will list 'input' once the change has taken effect."@,
    ]
}

fn relogin_tips() -> (advice: Vec<&'static str>)
    ensures
        tips(advice@) == relogin_advice(),
{
    let advice: Vec<&'static str> = vec![
        "Log out and back in (or reboot) — group membership is attached to your session when you log in, so a shell or desktop session which started earlier is still denied.",
        "'id -nG' will list 'input' once the change has taken effect.",
    ];
    assert(tips(advice@) =~= relogin_advice());
    advice
}

/// Advice for a model which resolves but cannot be constrained to a grammar.
pub open spec fn static_graph_advice() -> Seq<Seq<char>> {
    seq![
        "Download vosk-model-en-us-0.22-lgraph from https://alphacephei.com/vosk/models and point at it with '--model <path>', with a 'model:' line in your profile, or by setting VOSK_MODEL_PATH."@,
        "The large precompiled models (such as vosk-model-en-us-0.22) ship a static graph, which cannot be constrained to your profile's phrases."@,
    ]
}

fn static_graph_tips() -> (advice: Vec<&'static str>)
    ensures
        tips(advice@) == static_graph_advice(),
{
    let advice: Vec<&'static str> = vec![
        "Download vosk-model-en-us-0.22-lgraph from https://alphacephei.com/vosk/models and point at it with '--model <path>', with a 'model:' line in your profile, or by setting VOSK_MODEL_PATH.",
        "The large precompiled models (such as vosk-model-en-us-0.22) ship a static graph, which cannot be constrained to your profile's phrases.",
    ];
    assert(tips(advice@) =~= static_graph_advice());
    advice
}

/// Advice for having no model at all, when there is no profile to blame.
pub open spec fn no_model_advice() -> Seq<Seq<char>> {
    seq![
        "Download vosk-model-en-us-0.22-lgraph from https://alphacephei.com/vosk/models, unpack it, and point at it with '--model <path>' or by setting VOSK_MODEL_PATH."@,
        "It must be a model with a dynamic graph (one containing 'graph/Gr.fst'): voice-orders constrains recognition to your profile's phrases, which the large precompiled models cannot do."@,
    ]
}

fn no_model_tips() -> (advice: Vec<&'static str>)
    ensures
        tips(advice@) == no_model_advice(),
{
    let advice: Vec<&'static str> = vec![
        "Download vosk-model-en-us-0.22-lgraph from https://alphacephei.com/vosk/models, unpack it, and point at it with '--model <path>' or by setting VOSK_MODEL_PATH.",
        "It must be a model with a dynamic graph (one containing 'graph/Gr.fst'): voice-orders constrains recognition to your profile's phrases, which the large precompiled models cannot do.",
    ];
    assert(tips(advice@) =~= no_model_advice());
    advice
}

// --- Verdicts --------------------------------------------------------------------
/// The verdict of one check: what we found, and what to do about it.
#[derive(Debug, Clone, PartialEq, Eq)]
pub struct CheckResult {
    /// Whether this check passed.
    pub ok: bool,
    /// What is right (when `ok`) or wrong (when not), in one sentence.
    pub headline: String,
    /// What to do about it. Only rendered for a failing check.
    pub advice: Vec<String>,
}

/// A [`CheckResult`] in mathematical terms.
#[verifier::ext_equal]
pub struct CheckView {
    pub ok: bool,
    pub headline: Seq<char>,
    pub advice: Seq<Seq<char>>,
}

impl View for CheckResult {
    type V = CheckView;

    open spec fn view(&self) -> CheckView {
        CheckView { ok: self.ok, headline: self.headline@, advice: views(self.advice@) }
    }
}

/// A check which passed.
pub open spec fn passed(headline: Seq<char>) -> CheckView {
    CheckView { ok: true, headline, advice: Seq::empty() }
}

/// A check which failed, with the advice to fix it.
pub open spec fn failed_with(headline: Seq<char>, advice: Seq<Seq<char>>) -> CheckView {
    CheckView { ok: false, headline, advice }
}

/// A check which failed because of an error: its message becomes the headline
/// and its advice comes along unchanged.
pub open spec fn failed_because(error: ErrorView) -> CheckView {
    failed_with(error.description, given_once(error.advice.reverse()))
}

/// The check as it is printed: a `✓`/`✗` line, then indented advice.
pub open spec fn check_text(check: CheckView) -> Seq<char> {
    if check.ok {
        "✓ "@ + check.headline + "\n"@
    } else {
        "✗ "@ + check.headline + "\n"@ + advice_text(check.advice)
    }
}

/// Advice, one indented line for each piece.
pub open spec fn advice_text(advice: Seq<Seq<char>>) -> Seq<char>
    decreases advice.len(),
{
    if advice.len() == 0 {
        Seq::empty()
    } else {
        advice_text(advice.drop_last()) + ("    "@ + advice.last() + "\n"@)
    }
}

impl CheckResult {
    /// A check which passed. Passing checks say what is *right*, so that a
    /// clean report still tells you which microphone and model you are on.
    pub fn ok(headline: String) -> (check: Self)
        ensures
            check@ == passed(headline@),
    {
        let check = CheckResult { ok: true, headline, advice: Vec::new() };
        assert(check@ =~= passed(headline@));
        check
    }

    /// A check which failed, with the advice to fix it.
    pub fn failed(headline: String, advice: Vec<&'static str>) -> (check: Self)
        ensures
            check@ == failed_with(headline@, tips(advice@)),
    {
        let mut copies: Vec<String> = Vec::new();
        for i in 0..advice.len()
            invariant
                views(copies@) == tips(advice@).take(i as int),
        {
            let ghost before = copies@;
            copies.push(advice[i].to_owned());
            assert(views(copies@) == views(before).push(advice@[i as int]@));
            assert(tips(advice@).take(i + 1) == tips(advice@).take(i as int).push(
                advice@[i as int]@,
            ));
        }
        assert(tips(advice@).take(advice.len() as int) == tips(advice@));
        CheckResult { ok: false, headline, advice: copies }
    }

    /// A check which failed because of an error.
    pub fn from_error(error: &Error) -> (check: Self)
        ensures
            check@ == failed_because(error@),
    {
        CheckResult::failed(error.description(), error.advice())
    }

    /// The check as it is printed.
    pub fn render(&self) -> (text: String)
        ensures
            text@ == check_text(self@),
    {
        let mut out = if self.ok {
            "✓ ".to_owned()
        } else {
            "✗ ".to_owned()
        };
        out.append(self.headline.as_str());
        out.append("\n");
        if !self.ok {
            let ghost head = out@;
            let ghost all = views(self.advice@);
            assert(head + advice_text(all.take(0)) == head);
            for i in 0..self.advice.len()
                invariant
                    all == views(self.advice@),
                    out@ == head + advice_text(all.take(i as int)),
            {
                assert(all.take(i + 1).drop_last() == all.take(i as int));
                assert(all.take(i + 1).last() == self.advice@[i as int]@);
                out.append("    ");
                out.append(self.advice[i].as_str());
                out.append("\n");
                assert(out@ == head + (advice_text(all.take(i as int)) + ("    "@
                    + self.advice@[i as int]@ + "\n"@)));
            }
            assert(all.take(self.advice.len() as int) == all);
        }
        out
    }
}

/// Some verdicts in mathematical terms.
pub open spec fn check_views(results: Seq<CheckResult>) -> Seq<CheckView> {
    results.map_values(|result: CheckResult| result@)
}

/// How many of some checks failed.
pub open spec fn failures(checks: Seq<CheckView>) -> nat
    decreases checks.len(),
{
    if checks.len() == 0 {
        0
    } else {
        failures(checks.drop_last()) + if checks.last().ok { 0nat } else { 1 }
    }
}

/// The text of some checks, one after the other.
pub open spec fn checks_text(checks: Seq<CheckView>) -> Seq<char>
    decreases checks.len(),
{
    if checks.len() == 0 {
        Seq::empty()
    } else {
        checks_text(checks.drop_last()) + check_text(checks.last())
    }
}

/// How many of some checks failed.
pub fn count_failures(results: &[CheckResult]) -> (count: usize)
    ensures
        count == failures(check_views(results@)),
{
    let mut count: usize = 0;
    let ghost all = check_views(results@);
    assert(all.take(0) == Seq::<CheckView>::empty());
    for i in 0..results.len()
        invariant
            all == check_views(results@),
            count == failures(all.take(i as int)),
            count <= i,
    {
        assert(all.take(i + 1).drop_last() == all.take(i as int));
        assert(all.take(i + 1).last() == results@[i as int]@);
        if !results[i].ok {
            count = count + 1;
        }
    }
    assert(all.take(results.len() as int) == all);
    count
}

/// Renders a finished report: every check, then the summary.
pub fn render(results: &[CheckResult]) -> (text: String)
    ensures
        text@ == checks_text(check_views(results@)) + "\n"@ + decimal(results@.len())
            + if results@.len() == 1 { " check — "@ } else { " checks — "@ } + decimal(
            failures(check_views(results@)),
        ) + " failed.\n"@,
{
    let mut out = String::new();
    let ghost all = check_views(results@);
    assert(all.take(0) == Seq::<CheckView>::empty());
    for i in 0..results.len()
        invariant
            all == check_views(results@),
            out@ == checks_text(all.take(i as int)),
    {
        assert(all.take(i + 1).drop_last() == all.take(i as int));
        assert(all.take(i + 1).last() == results@[i as int]@);
        out.append(results[i].render().as_str());
    }
    assert(all.take(results.len() as int) == all);
    out.append("\n");
    out.append(decimal_of(results.len() as u64).as_str());
    if results.len() == 1 {
        out.append(" check — ");
    } else {
        out.append(" checks — ");
    }
    out.append(decimal_of(count_failures(results) as u64).as_str());
    out.append(" failed.\n");
    out
}

/// The exit code to leave with: a single failing check is enough.
pub fn exit_code(results: &[CheckResult]) -> (code: i32)
    ensures
        code == if failures(check_views(results@)) > 0 { 1i32 } else { 0 },
{
    if count_failures(results) > 0 {
        1
    } else {
        0
    }
}

/// A report fails just where one of its checks does, wherever it stands.
pub proof fn one_failing_check_fails_the_report(checks: Seq<CheckView>)
    ensures
        (failures(checks) == 0) == (forall|i: int|
            0 <= i < checks.len() ==> (#[trigger] checks[i]).ok),
        failures(checks) <= checks.len(),
    decreases checks.len(),
{
    if checks.len() > 0 {
        let front = checks.drop_last();
        one_failing_check_fails_the_report(front);
        if failures(checks) == 0 {
            assert forall|i: int| 0 <= i < checks.len() implies (#[trigger] checks[i]).ok by {
                if i < front.len() {
                    assert(front[i] == checks[i]);
                }
            }
        } else if forall|i: int| 0 <= i < checks.len() ==> (#[trigger] checks[i]).ok {
            assert forall|i: int| 0 <= i < front.len() implies (#[trigger] front[i]).ok by {
                assert(front[i] == checks[i]);
            }
            assert(checks[checks.len() - 1].ok);
        }
    }
}

// --- What the checks are about ---------------------------------------------------
/// The line above the checks: whether this machine has a configuration file at
/// all, and where we looked for it either way.
pub fn system_summary(source: Option<&str>, config_path: &str) -> (text: String)
    ensures
        text@ == match source {
            Some(path) => "System configuration: "@ + path@ + "."@,
            None => "System configuration: none at "@ + config_path@
                + " — the built-in defaults apply."@,
        },
{
    let mut text;
    match source {
        Some(path) => {
            text = "System configuration: ".to_owned();
            text.append(path);
            text.append(".");
        },
        None => {
            text = "System configuration: none at ".to_owned();
            text.append(config_path);
            text.append(" — the built-in defaults apply.");
        },
    }
    text
}

/// The microphone the checks should be reporting on: whatever the profile and
/// the machine resolved to, or, with no profile or one which did not load, the
/// machine's own default.
pub fn audio_device<'a>(
    settings: Option<&'a Result<ResolvedSettings, Error>>,
    system: &'a SystemConfig,
) -> (device: &'a str)
    ensures
        device@ == match settings {
            Some(Ok(settings)) => settings.audio_device@,
            _ => system.spec_audio_device(),
        },
{
    match settings {
        Some(Ok(settings)) => settings.audio_device.as_str(),
        _ => system.audio_device(),
    }
}

/// What is said when there is no model to check.
pub open spec fn nothing_to_check() -> ErrorView {
    user_error(
        "We do not know which speech model to check: it was not given with '--model', no profile was named on the command line, and the VOSK_MODEL_PATH environment variable is not set."@,
        no_model_advice(),
    )
}

/// Works out which model we should be checking, given the models directory.
///
/// Without a profile there is no `model:` field to consult, so only `--model`
/// and `$VOSK_MODEL_PATH` remain, the first of which may still be a bare model
/// name.
pub fn resolve_in(
    cli: Option<&str>,
    profile: Option<&Profile>,
    env: Option<String>,
    models: &str,
    windows: bool,
) -> (model: Result<String, Error>)
    ensures
        match profile {
            Some(profile) => match model {
                Ok(model) => meant_model(
                    optional_text(cli),
                    optional(profile.model),
                    optional(env),
                    models@,
                    windows,
                ) == Some(model@),
                Err(error) => {
                    &&& cli is None && profile.model is None && env is None
                    &&& error@ == no_model(profile.spec_display_name(), models@)
                },
            },
            None => match model {
                Ok(model) => match cli {
                    Some(path) => model@ == model_path(path@, models@, windows),
                    None => optional(env) == Some(model@),
                },
                Err(error) => cli is None && env is None && error@ == nothing_to_check(),
            },
        },
{
    if let Some(profile) = profile {
        return resolve_model_in(cli, profile, env, models, windows);
    }
    match cli {
        Some(path) => Ok(expand_model(path, models, windows)),
        None => match env {
            Some(path) => Ok(path),
            None => {
                let error = Error::user(
                    "We do not know which speech model to check: it was not given with '--model', no profile was named on the command line, and the VOSK_MODEL_PATH environment variable is not set.".to_owned(),
                    no_model_tips(),
                );
                assert(error@ =~= nothing_to_check());
                Err(error)
            },
        },
    }
}

/// Works out which model we should be checking on a machine.
pub fn resolve(
    cli: Option<&str>,
    profile: Option<&Profile>,
    system: &SystemConfig,
    env: Option<String>,
    machine: &Environment,
) -> (model: Result<String, Error>)
    ensures
        exists|models: Seq<char>|
            {
                &&& #[trigger] is_models_dir(*system, *machine, models)
                &&& match profile {
                    Some(profile) => match model {
                        Ok(model) => meant_model(
                            optional_text(cli),
                            optional(profile.model),
                            optional(env),
                            models,
                            machine.windows,
                        ) == Some(model@),
                        Err(error) => {
                            &&& cli is None && profile.model is None && env is None
                            &&& error@ == no_model(profile.spec_display_name(), models)
                        },
                    },
                    None => match model {
                        Ok(model) => match cli {
                            Some(path) => model@ == model_path(path@, models, machine.windows),
                            None => optional(env) == Some(model@),
                        },
                        Err(error) => cli is None && env is None && error@ == nothing_to_check(),
                    },
                }
            },
{
    let models = system.models_path(machine);
    assert(is_models_dir(*system, *machine, models@));
    resolve_in(cli, profile, env, models.as_str(), machine.windows)
}

// --- The device node and the virtual keyboard -----------------------------------
/// What is said of the device node the virtual keyboard is created on.
pub open spec fn node_check(path: Seq<char>, exists_there: bool) -> CheckView {
    if exists_there {
        passed(path + " exists."@)
    } else {
        failed_with(
            path
                + " does not exist, which means the 'uinput' kernel module is not loaded — voice-orders has nothing to create its virtual keyboard on."@,
            setup_advice(),
        )
    }
}

/// Whether `/dev/uinput` exists at all, which is to say, whether the `uinput`
/// kernel module is loaded.
pub fn check_uinput_node(path: &str, exists_there: bool) -> (check: CheckResult)
    ensures
        check@ == node_check(path@, exists_there),
{
    let mut headline = path.to_owned();
    if exists_there {
        headline.append(" exists.");
        return CheckResult::ok(headline);
    }
    headline.append(
        " does not exist, which means the 'uinput' kernel module is not loaded — voice-orders has nothing to create its virtual keyboard on.",
    );
    CheckResult::failed(headline, setup_tips())
}

/// Whether a virtual keyboard could be created, and destroyed again.
pub fn check_virtual_keyboard(created: &Result<(), Error>) -> (check: CheckResult)
    ensures
        check@ == match created {
            Ok(()) => passed("A virtual keyboard can be created on /dev/uinput."@),
            Err(error) => failed_because(error@),
        },
{
    match created {
        Ok(()) => CheckResult::ok("A virtual keyboard can be created on /dev/uinput.".to_owned()),
        Err(error) => CheckResult::from_error(error),
    }
}

// --- Input group membership and readable devices ----------------------------------
/// The `input` line of `/etc/group`, as far as we care about it.
#[derive(Debug, Clone, PartialEq, Eq)]
pub struct InputGroup {
    /// The group's numeric id.
    pub gid: u32,
    /// The users listed as secondary members of the group.
    pub members: Vec<String>,
}

/// An [`InputGroup`] in mathematical terms.
#[verifier::ext_equal]
pub struct InputGroupView {
    pub gid: u32,
    pub members: Seq<Seq<char>>,
}

impl View for InputGroup {
    type V = InputGroupView;

    open spec fn view(&self) -> InputGroupView {
        InputGroupView { gid: self.gid, members: views(self.members@) }
    }
}

/// How the `input` group stands for this user, right now.
#[derive(Debug, Clone, Copy, PartialEq, Eq, Structural)]
pub enum GroupState {
    /// `/etc/group` has no `input` group at all.
    Missing,
    /// The group exists, but does not list this user.
    NotConfigured,
    /// The group lists this user, but this session predates that.
    Stale,
    /// The group lists this user and this session has it.
    Effective,
}

/// The members among some names: those which are not blank, without the space
/// around them.
pub open spec fn members_in(names: Seq<Seq<char>>) -> Seq<Seq<char>>
    decreases names.len(),
{
    if names.len() == 0 {
        names
    } else if trimmed(names.last()).len() == 0 {
        members_in(names.drop_last())
    } else {
        members_in(names.drop_last()).push(trimmed(names.last()))
    }
}

/// The `input` group one line describes, `name:password:gid:member,member,…`,
/// if it does.
pub open spec fn input_line(line: Seq<char>) -> Option<InputGroupView> {
    let parts = fields(line, ':');
    if parts[0] == INPUT_GROUP@ && parts.len() > 2 && number_in(parts[2]) is Some {
        Some(
            InputGroupView {
                gid: number_in(parts[2])->0,
                members: members_in(
                    fields(
                        if parts.len() > 3 {
                            parts[3]
                        } else {
                            Seq::empty()
                        },
                        ',',
                    ),
                ),
            },
        )
    } else {
        None
    }
}

/// The first `input` group some lines describe.
pub open spec fn input_group_in(found: Seq<Seq<char>>) -> Option<InputGroupView>
    decreases found.len(),
{
    if found.len() == 0 {
        None
    } else {
        match input_line(found[0]) {
            Some(group) => Some(group),
            None => input_group_in(found.drop_first()),
        }
    }
}

/// A group which may be missing, in mathematical terms.
pub open spec fn group_view(group: Option<InputGroup>) -> Option<InputGroupView> {
    match group {
        Some(group) => Some(group@),
        None => None,
    }
}

/// The `input` group one line describes, if it does.
fn parse_line(line: &str) -> (group: Option<InputGroup>)
    ensures
        group_view(group) == input_line(line@),
{
    let parts = fields_of(line, ':');
    assert(forall|i: int| 0 <= i < parts@.len() ==> views(parts@)[i] == (#[trigger] parts@[i])@);
    if !same_text(parts[0].as_str(), INPUT_GROUP) || parts.len() <= 2 {
        return None;
    }
    match number_of(parts[2].as_str()) {
        None => None,
        Some(gid) => {
            let names = if parts.len() > 3 {
                fields_of(parts[3].as_str(), ',')
            } else {
                proof {
                    reveal_strlit("");
                }
                assert(""@ =~= Seq::<char>::empty());
                fields_of("", ',')
            };
            let ghost all = views(names@);
            let mut members: Vec<String> = Vec::new();
            assert(all.take(0) == Seq::<Seq<char>>::empty());
            assert(views(members@) == Seq::<Seq<char>>::empty());
            for i in 0..names.len()
                invariant
                    all == views(names@),
                    views(members@) == members_in(all.take(i as int)),
            {
                assert(all.take(i + 1).drop_last() == all.take(i as int));
                assert(all.take(i + 1).last() == names@[i as int]@);
                let name = trim(names[i].as_str());
                if !name.as_str().is_empty() {
                    let ghost before = members@;
                    members.push(name);
                    assert(views(members@) == views(before).push(name@));
                }
            }
            assert(all.take(names.len() as int) == all);
            let group = InputGroup { gid, members };
            assert(Some(group@) =~= input_line(line@));
            Some(group)
        },
    }
}

/// Parses the `input` line out of an `/etc/group` file. Anything which is not
/// the `input` group, or which does not have a numeric gid, is ignored.
pub fn parse_input_group(content: &str) -> (group: Option<InputGroup>)
    ensures
        group_view(group) == input_group_in(lines(content@)),
{
    let found = lines_of(content);
    let ghost all = views(found@);
    assert(all.skip(0) == all);
    for i in 0..found.len()
        invariant
            all == views(found@),
            all == lines(content@),
            input_group_in(all) == input_group_in(all.skip(i as int)),
    {
        assert(all.skip(i as int)[0] == found@[i as int]@);
        assert(all.skip(i as int).drop_first() == all.skip(i + 1));
        let group = parse_line(found[i].as_str());
        if group.is_some() {
            return group;
        }
    }
    None
}

/// Whether a group lists a user.
pub open spec fn lists(group: Option<InputGroupView>, username: Seq<char>) -> bool {
    match group {
        Some(group) => group.members.contains(username),
        None => false,
    }
}

/// Whether `/etc/group` lists this user as a member of the `input` group, which
/// is what `usermod -aG` changes.
pub fn is_configured(group: Option<&InputGroup>, username: &str) -> (is: bool)
    ensures
        is == match group {
            Some(group) => lists(Some(group@), username@),
            None => false,
        },
{
    match group {
        Some(group) => is_among(group.members.as_slice(), username),
        None => false,
    }
}

/// Compares the configured membership against the one this session actually
/// has: `usermod` takes effect at the next login, not immediately.
pub open spec fn state_of(
    group: Option<InputGroupView>,
    username: Seq<char>,
    effective: Seq<u32>,
) -> GroupState {
    match group {
        None => GroupState::Missing,
        Some(found) => if !lists(group, username) {
            GroupState::NotConfigured
        } else if effective.contains(found.gid) {
            GroupState::Effective
        } else {
            GroupState::Stale
        },
    }
}

/// Compares the configured membership against the one this session has.
pub fn group_state(group: Option<&InputGroup>, username: &str, effective: &[u32]) -> (state:
    GroupState)
    ensures
        state == state_of(
            match group {
                Some(group) => Some(group@),
                None => None,
            },
            username@,
            effective@,
        ),
{
    match group {
        None => GroupState::Missing,
        Some(found) => {
            if !is_configured(Some(found), username) {
                return GroupState::NotConfigured;
            }
            for i in 0..effective.len()
                invariant
                    group == Some(found),
                    lists(Some(found@), username@),
                    forall|j: int| 0 <= j < i ==> effective@[j] != found.gid,
            {
                if effective[i] == found.gid {
                    assert(effective@.contains(found.gid));
                    return GroupState::Effective;
                }
            }
            GroupState::Stale
        },
    }
}

/// Who we take ourselves to be: `$USER`, and then `$LOGNAME`, unless it is
/// empty.
pub open spec fn name_in(user: Option<Seq<char>>, logname: Option<Seq<char>>) -> Option<Seq<char>> {
    match (user, logname) {
        (Some(user), _) if user.len() > 0 => Some(user),
        (_, Some(logname)) if logname.len() > 0 => Some(logname),
        _ => None,
    }
}

/// What is said when nothing says who we are.
pub open spec fn nobody() -> ErrorView {
    user_error(
        "We could not work out which user you are: neither $USER nor $LOGNAME is set in this environment."@,
        seq![
            "Set USER to your login name before running this command, e.g. 'USER=$(id -un) voice-orders doctor'."@,
        ],
    )
}

/// The user we are configuring, from `$USER` and then `$LOGNAME`.
pub fn current_username(user: Option<String>, logname: Option<String>) -> (name: Result<
    String,
    Error,
>)
    ensures
        match name {
            Ok(name) => name_in(optional(user), optional(logname)) == Some(name@),
            Err(error) => name_in(optional(user), optional(logname)) is None && error@ == nobody(),
        },
{
    if let Some(name) = user {
        if !name.as_str().is_empty() {
            return Ok(name);
        }
    }
    if let Some(name) = logname {
        if !name.as_str().is_empty() {
            return Ok(name);
        }
    }
    let error = Error::user(
        "We could not work out which user you are: neither $USER nor $LOGNAME is set in this environment.".to_owned(),
        vec![
            "Set USER to your login name before running this command, e.g. 'USER=$(id -un) voice-orders doctor'.",
        ],
    );
    assert(error@ =~= nobody());
    Err(error)
}

/// Group membership *and* at least one readable keyboard, as one check: the
/// membership is the cause and the readable device is the effect.
pub open spec fn access_check(
    state: GroupState,
    username: Seq<char>,
    keyboard: Result<String, Error>,
) -> CheckView {
    match state {
        GroupState::Missing => failed_with(
            "There is no 'input' group in /etc/group, so nothing on this machine grants access to /dev/input or /dev/uinput."@,
            setup_advice(),
        ),
        GroupState::NotConfigured => failed_with(
            "Your user ('"@ + username
                + "') is not a member of the 'input' group, so we cannot read the keyboard your listen hotkey lives on."@,
            setup_advice(),
        ),
        GroupState::Stale => failed_with(
            "Your user ('"@ + username
                + "') is a member of the 'input' group, but this session started before that was true, so the membership is not in effect yet."@,
            relogin_advice(),
        ),
        GroupState::Effective => match keyboard {
            Ok(name) => passed(
                "You are in the 'input' group, and we can read a keyboard to watch for your listen hotkey on ('"@
                    + name@ + "')."@,
            ),
            Err(error) => failed_because(error@),
        },
    }
}

/// Group membership and a readable keyboard, as one check.
pub fn input_access_check(
    state: GroupState,
    username: &str,
    keyboard: &Result<String, Error>,
) -> (check: CheckResult)
    ensures
        check@ == access_check(state, username@, *keyboard),
{
    match state {
        GroupState::Missing => CheckResult::failed(
            "There is no 'input' group in /etc/group, so nothing on this machine grants access to /dev/input or /dev/uinput.".to_owned(),
            setup_tips(),
        ),
        GroupState::NotConfigured => {
            let mut headline = "Your user ('".to_owned();
            headline.append(username);
            headline.append(
                "') is not a member of the 'input' group, so we cannot read the keyboard your listen hotkey lives on.",
            );
            CheckResult::failed(headline, setup_tips())
        },
        GroupState::Stale => {
            let mut headline = "Your user ('".to_owned();
            headline.append(username);
            headline.append(
                "') is a member of the 'input' group, but this session started before that was true, so the membership is not in effect yet.",
            );
            CheckResult::failed(headline, relogin_tips())
        },
        GroupState::Effective => match keyboard {
            Ok(name) => {
                let mut headline =
                    "You are in the 'input' group, and we can read a keyboard to watch for your listen hotkey on ('".to_owned();
                headline.append(name.as_str());
                headline.append("').");
                CheckResult::ok(headline)
            },
            Err(error) => CheckResult::from_error(error),
        },
    }
}

/// The group check of a whole machine: who we are, what `/etc/group` says, and
/// what this session carries.
pub fn check_input_access(
    username: &Result<String, Error>,
    content: &str,
    effective: &[u32],
    keyboard: &Result<String, Error>,
) -> (check: CheckResult)
    ensures
        check@ == match username {
            Ok(username) => access_check(
                state_of(input_group_in(lines(content@)), username@, effective@),
                username@,
                *keyboard,
            ),
            Err(error) => failed_because(error@),
        },
{
    match username {
        Ok(username) => {
            let group = parse_input_group(content);
            let state = match &group {
                Some(found) => group_state(Some(found), username.as_str(), effective),
                None => group_state(None, username.as_str(), effective),
            };
            input_access_check(state, username.as_str(), keyboard)
        },
        Err(error) => CheckResult::from_error(error),
    }
}

// --- The microphone, the library, the model and the profile -----------------------
/// What is said of the microphone we would listen on.
pub open spec fn microphone_check(
    hint: Seq<char>,
    count: Result<usize, String>,
    selected: Result<String, Error>,
) -> CheckView {
    match count {
        Err(reason) => failed_with(
            "We could not enumerate this machine's audio input devices ("@ + reason@ + ")."@,
            seq![
                "Check that your sound server (PipeWire or PulseAudio) is running, and that the ALSA compatibility layer is installed."@,
            ],
        ),
        Ok(count) => match selected {
            Ok(name) => passed(
                "The microphone we would listen on is '"@ + name@ + "' (from audio.device: "@ + hint
                    + "; "@ + decimal(count as nat) + if count == 1 {
                    " input device in total)."@
                } else {
                    " input devices in total)."@
                },
            ),
            Err(error) => CheckView {
                advice: failed_because(error@).advice.push(
                    "Run 'voice-orders devices' to list every microphone this machine can see."@,
                ),
                ..failed_because(error@)
            },
        },
    }
}

/// Whether the microphone we would actually listen on can be found.
///
/// `hint` is the resolved `audio.device`, `count` is how many input devices
/// there are, and `selected` is the name of the one the hint leads to.
pub fn check_audio_input(
    hint: &str,
    count: &Result<usize, String>,
    selected: &Result<String, Error>,
) -> (check: CheckResult)
    ensures
        check@ == microphone_check(hint@, *count, *selected),
{
    match count {
        Err(reason) => {
            let mut headline =
                "We could not enumerate this machine's audio input devices (".to_owned();
            headline.append(reason.as_str());
            headline.append(").");
            let check = CheckResult::failed(
                headline,
                vec![
                    "Check that your sound server (PipeWire or PulseAudio) is running, and that the ALSA compatibility layer is installed.",
                ],
            );
            assert(check@ =~= microphone_check(hint@, *count, *selected));
            check
        },
        Ok(count) => match selected {
            Ok(name) => {
                let mut headline = "The microphone we would listen on is '".to_owned();
                headline.append(name.as_str());
                headline.append("' (from audio.device: ");
                headline.append(hint);
                headline.append("; ");
                headline.append(decimal_of(*count as u64).as_str());
                if *count == 1 {
                    headline.append(" input device in total).");
                } else {
                    headline.append(" input devices in total).");
                }
                CheckResult::ok(headline)
            },
            Err(error) => {
                let mut check = CheckResult::from_error(error);
                let ghost before = check;
                check.advice.push(
                    "Run 'voice-orders devices' to list every microphone this machine can see.".to_owned(),
                );
                assert(views(check.advice@) =~= views(before.advice@).push(
                    "Run 'voice-orders devices' to list every microphone this machine can see."@,
                ));
                check
            },
        },
    }
}

/// Whether the speech recognition library can be loaded, and from where.
pub fn check_libvosk(source: &Result<String, Error>) -> (check: CheckResult)
    ensures
        check@ == match source {
            Ok(source) => passed(
                "The Vosk speech recognition library loaded from "@ + source@ + "."@,
            ),
            Err(error) => failed_because(error@),
        },
{
    match source {
        Ok(source) => {
            let mut headline = "The Vosk speech recognition library loaded from ".to_owned();
            headline.append(source.as_str());
            headline.append(".");
            CheckResult::ok(headline)
        },
        Err(error) => CheckResult::from_error(error),
    }
}

/// What is said of the speech model. One which cannot be constrained to the
/// profile's phrases defeats the design, so it is a failure.
pub open spec fn model_check(
    resolved: Result<String, Error>,
    is_dir: bool,
    has_graph: bool,
) -> CheckView {
    match resolved {
        Err(error) => failed_because(error@),
        Ok(path) => if !is_dir {
            failed_with(
                "There is no speech model at '"@ + path@
                    + "' — a Vosk model is a directory, unpacked from the archive you downloaded."@,
                no_model_advice(),
            )
        } else if has_graph {
            passed(
                "The model at '"@ + path@
                    + "' has a dynamic graph, so it can be constrained to your profile's phrases."@,
            )
        } else {
            failed_with(
                "The model at '"@ + path@
                    + "' has no 'graph/Gr.fst', which means it was compiled with a static graph and cannot be constrained to your profile's phrases."@,
                static_graph_advice(),
            )
        },
    }
}

/// Whether a model resolves, and whether it is one grammar mode can use.
pub fn check_model(resolved: &Result<String, Error>, is_dir: bool, has_graph: bool) -> (check:
    CheckResult)
    ensures
        check@ == model_check(*resolved, is_dir, has_graph),
{
    match resolved {
        Err(error) => CheckResult::from_error(error),
        Ok(path) => if !is_dir {
            let mut headline = "There is no speech model at '".to_owned();
            headline.append(path.as_str());
            headline.append(
                "' — a Vosk model is a directory, unpacked from the archive you downloaded.",
            );
            CheckResult::failed(headline, no_model_tips())
        } else if has_graph {
            let mut headline = "The model at '".to_owned();
            headline.append(path.as_str());
            headline.append(
                "' has a dynamic graph, so it can be constrained to your profile's phrases.",
            );
            CheckResult::ok(headline)
        } else {
            let mut headline = "The model at '".to_owned();
            headline.append(path.as_str());
            headline.append(
                "' has no 'graph/Gr.fst', which means it was compiled with a static graph and cannot be constrained to your profile's phrases.",
            );
            CheckResult::failed(headline, static_graph_tips())
        },
    }
}

/// What is said of a profile. Its hotkey is the one merged from the profile
/// and the machine.
pub open spec fn profile_check(
    loaded: Result<Profile, Error>,
    settings: Option<Result<ResolvedSettings, Error>>,
    found: Result<String, Error>,
) -> CheckView {
    match loaded {
        Err(error) => failed_because(error@),
        Ok(profile) => match settings {
            Some(Err(error)) => failed_because(error@),
            Some(Ok(ResolvedSettings { hotkey: Some(hotkey), .. })) => match found {
                Ok(device) => passed(
                    "The profile '"@ + profile.spec_display_name()
                        + "' loads, and its listen hotkey ("@ + name_of(hotkey.key.0) + " in "@
                        + hotkey.mode.spec_name() + " mode) resolves to '"@ + device@ + "'."@,
                ),
                Err(error) => failed_because(error@),
            },
            _ => passed(
                "The profile '"@ + profile.spec_display_name()
                    + "' loads. It configures no hotkey, so voice-orders will listen continuously."@,
            ),
        },
    }
}

/// Whether the profile named on the command line loads, whether its settings
/// resolve against this machine's configuration, and whether the device the
/// resulting hotkey lives on can be found.
///
/// `found` is the name of that device. It is only consulted where there is a
/// hotkey.
pub fn check_profile(
    loaded: &Result<Profile, Error>,
    settings: Option<&Result<ResolvedSettings, Error>>,
    found: &Result<String, Error>,
) -> (check: CheckResult)
    ensures
        check@ == profile_check(
            *loaded,
            match settings {
                Some(settings) => Some(*settings),
                None => None,
            },
            *found,
        ),
{
    let profile = match loaded {
        Ok(profile) => profile,
        Err(error) => {
            return CheckResult::from_error(error);
        },
    };
    let hotkey = match settings {
        Some(Ok(settings)) => &settings.hotkey,
        Some(Err(error)) => {
            return CheckResult::from_error(error);
        },
        None => &None,
    };
    let mut headline = "The profile '".to_owned();
    headline.append(profile.display_name());
    match hotkey {
        None => {
            headline.append(
                "' loads. It configures no hotkey, so voice-orders will listen continuously.",
            );
            CheckResult::ok(headline)
        },
        Some(hotkey) => match found {
            Ok(device) => {
                headline.append("' loads, and its listen hotkey (");
                headline.append(hotkey.key.name().as_str());
                headline.append(" in ");
                headline.append(hotkey.mode.name());
                headline.append(" mode) resolves to '");
                headline.append(device.as_str());
                headline.append("'.");
                CheckResult::ok(headline)
            },
            Err(error) => CheckResult::from_error(error),
        },
    }
}

// --- What holds of every report ---------------------------------------------------------
/// The failures of a report are the checks of it which did not pass, and
/// putting two reports together adds them up.
pub proof fn every_failure_is_counted_once(checks: Seq<CheckView>, more: Seq<CheckView>)
    ensures
        failures(checks) == checks.filter(|check: CheckView| !check.ok).len(),
        failures(checks + more) == failures(checks) + failures(more),
    decreases checks.len() + more.len(),
{
    reveal(Seq::filter);
    if checks.len() > 0 {
        every_failure_is_counted_once(checks.drop_last(), Seq::empty());
    }
    if more.len() > 0 {
        every_failure_is_counted_once(checks, more.drop_last());
        assert((checks + more).drop_last() =~= checks + more.drop_last());
    } else {
        assert(checks + more =~= checks);
    }
}

/// No check hides another: whatever was found is said, and for a failing check
/// so is what to do about it.
pub proof fn every_finding_is_reported(checks: Seq<CheckView>, i: int, j: int)
    requires
        0 <= i < checks.len(),
    ensures
        occurs_in(checks[i].headline, checks_text(checks)),
        !checks[i].ok && 0 <= j < checks[i].advice.len() ==> occurs_in(
            checks[i].advice[j],
            checks_text(checks),
        ),
    decreases checks.len(),
{
    let nothing = Seq::<char>::empty();
    let check = checks[i];
    let earlier = checks_text(checks.drop_last());
    let last = check_text(checks.last());
    if i < checks.len() - 1 {
        assert(checks.drop_last()[i] == check);
        every_finding_is_reported(checks.drop_last(), i, j);
        a_part_still_occurs(check.headline, nothing, earlier, last);
        assert(nothing + earlier + last =~= checks_text(checks));
        if !check.ok && 0 <= j < check.advice.len() {
            a_part_still_occurs(check.advice[j], nothing, earlier, last);
        }
    } else if check.ok {
        a_part_occurs(earlier + "✓ "@, check.headline, "\n"@);
        assert(earlier + "✓ "@ + check.headline + "\n"@ =~= checks_text(checks));
    } else {
        let advised = advice_text(check.advice);
        a_part_occurs(earlier + "✗ "@, check.headline, "\n"@ + advised);
        assert(earlier + "✗ "@ + check.headline + ("\n"@ + advised) =~= checks_text(checks));
        if 0 <= j < check.advice.len() {
            lemma_advice_is_given(check.advice, j);
            let before = earlier + "✗ "@ + check.headline + "\n"@;
            a_part_still_occurs(check.advice[j], before, advised, nothing);
            assert(before + advised + nothing =~= checks_text(checks));
        }
    }
}

/// Each piece of advice occurs where all of it is given.
proof fn lemma_advice_is_given(advice: Seq<Seq<char>>, i: int)
    requires
        0 <= i < advice.len(),
    ensures
        occurs_in(advice[i], advice_text(advice)),
    decreases advice.len(),
{
    let earlier = advice_text(advice.drop_last());
    if i < advice.len() - 1 {
        let nothing = Seq::<char>::empty();
        assert(advice.drop_last()[i] == advice[i]);
        lemma_advice_is_given(advice.drop_last(), i);
        a_part_still_occurs(advice[i], nothing, earlier, "    "@ + advice.last() + "\n"@);
        assert(nothing + earlier + ("    "@ + advice.last() + "\n"@) =~= advice_text(advice));
    } else {
        a_part_occurs(earlier + "    "@, advice[i], "\n"@);
        assert(earlier + "    "@ + advice[i] + "\n"@ =~= advice_text(advice));
    }
}

/// The names which stand for members as they are: none is blank, and none has
/// space around it.
pub open spec fn are_plain_names(names: Seq<Seq<char>>) -> bool {
    forall|i: int|
        0 <= i < names.len() ==> (#[trigger] names[i]).len() > 0 && trimmed(names[i]) == names[i]
            && !names[i].contains(',') && !names[i].contains(':')
}

proof fn lemma_plain_names_are_members(names: Seq<Seq<char>>)
    requires
        are_plain_names(names),
    ensures
        members_in(names) == names,
    decreases names.len(),
{
    if names.len() > 0 {
        let fewer = names.drop_last();
        assert forall|i: int| 0 <= i < fewer.len() implies (#[trigger] fewer[i]).len() > 0
            && trimmed(fewer[i]) == fewer[i] && !fewer[i].contains(',')
            && !fewer[i].contains(':') by {
            assert(fewer[i] == names[i]);
        }
        lemma_plain_names_are_members(fewer);
        assert(names[names.len() - 1].len() > 0);
        assert(members_in(names) =~= names);
    }
}

proof fn lemma_joined_without(texts: Seq<Seq<char>>, separator: Seq<char>, c: char)
    requires
        !separator.contains(c),
        forall|i: int| 0 <= i < texts.len() ==> !(#[trigger] texts[i]).contains(c),
    ensures
        !joined(texts, separator).contains(c),
    decreases texts.len(),
{
    if texts.len() > 1 {
        let fewer = texts.drop_last();
        assert forall|i: int| 0 <= i < fewer.len() implies !(#[trigger] fewer[i]).contains(c) by {
            assert(fewer[i] == texts[i]);
        }
        lemma_joined_without(fewer, separator, c);
        let head = joined(fewer, separator);
        let all = joined(texts, separator);
        let last = texts[texts.len() - 1];
        assert(all == head + separator + last);
        if all.contains(c) {
            let k = choose|k: int| 0 <= k < all.len() && all[k] == c;
            if k < head.len() {
                assert(head[k] == c);
            } else if k < head.len() + separator.len() {
                assert(separator[k - head.len()] == c);
            } else {
                assert(last[k - head.len() - separator.len()] == c);
            }
            assert(false);
        }
    } else if texts.len() == 1 {
        assert(!texts[0].contains(c));
    }
}

/// The line of `/etc/group` which gives the `input` group some number and some
/// members is read as just that number and those members.
pub proof fn an_input_group_reads_back(password: Seq<char>, gid: u32, members: Seq<Seq<char>>)
    requires
        !password.contains(':'),
        are_plain_names(members),
    ensures
        input_line(
            joined(
                seq![
                    "input"@,
                    password,
                    decimal(gid as nat),
                    joined(members, seq![',']),
                ],
                seq![':'],
            ),
        ) == Some(InputGroupView { gid, members }),
{
    let named = joined(members, seq![',']);
    let number = decimal(gid as nat);
    let parts = seq!["input"@, password, number, named];
    reveal_strlit("input");
    numbers_read_back(gid as nat);
    assert forall|i: int| 0 <= i < parts.len() implies !(#[trigger] parts[i]).contains(':') by {
        if i == 2 {
            if number.contains(':') {
                let k = choose|k: int| 0 <= k < number.len() && number[k] == ':';
                assert(is_digit(number[k]));
            }
        } else if i == 3 {
            lemma_joined_without(members, seq![','], ':');
        }
    }
    joined_texts_split_up_again(parts, ':');
    if members.len() > 0 {
        joined_texts_split_up_again(members, ',');
    } else {
        assert(named =~= Seq::<char>::empty());
        let blank = fields(named, ',');
        lemma_separator_at(named, ',');
        assert(blank =~= seq![named]);
        trimming_takes_only_white_space(named);
        assert(blank.drop_last() =~= members);
        assert(members_in(blank.drop_last()) =~= members);
    }
    lemma_plain_names_are_members(members);
}

/// A line of `/etc/group` about some other group says nothing of ours, and of
/// those about ours the first is the one which counts.
pub proof fn the_first_input_group_counts(found: Seq<Seq<char>>, i: int)
    requires
        0 <= i < found.len(),
        input_line(found[i]) is Some,
        forall|j: int| 0 <= j < i ==> fields(#[trigger] found[j], ':')[0] != "input"@,
    ensures
        input_group_in(found) == input_line(found[i]),
    decreases found.len(),
{
    if i > 0 {
        let rest = found.drop_first();
        assert(fields(found[0], ':')[0] != "input"@);
        assert(rest[i - 1] == found[i]);
        assert forall|j: int| 0 <= j < i - 1 implies fields(#[trigger] rest[j], ':')[0]
            != "input"@ by {
            assert(rest[j] == found[j + 1]);
        }
        the_first_input_group_counts(rest, i - 1);
    }
}

/// Access takes all of it: the group lists this user, this session has the
/// group, and a keyboard can be read. And a membership which is configured but
/// not in effect is answered by logging in again, one which is not configured
/// by the setup.
pub proof fn access_takes_membership_and_a_keyboard(
    group: Option<InputGroupView>,
    username: Seq<char>,
    effective: Seq<u32>,
    keyboard: Result<String, Error>,
)
    ensures
        ({
            let check = access_check(state_of(group, username, effective), username, keyboard);
            let listed = group is Some && group->0.members.contains(username);
            &&& check.ok == (listed && effective.contains(group->0.gid) && keyboard is Ok)
            &&& !listed ==> check.advice == setup_advice()
            &&& listed && !effective.contains(group->0.gid) ==> check.advice == relogin_advice()
            &&& check.ok ==> occurs_in(keyboard->Ok_0@, check.headline)
            &&& group is Some && !check.ok && !(listed && effective.contains(group->0.gid))
                ==> occurs_in(username, check.headline)
        }),
{
    let state = state_of(group, username, effective);
    let check = access_check(state, username, keyboard);
    match state {
        GroupState::Missing => {},
        GroupState::NotConfigured => {
            a_part_occurs(
                "Your user ('"@,
                username,
                "') is not a member of the 'input' group, so we cannot read the keyboard your listen hotkey lives on."@,
            );
        },
        GroupState::Stale => {
            a_part_occurs(
                "Your user ('"@,
                username,
                "') is a member of the 'input' group, but this session started before that was true, so the membership is not in effect yet."@,
            );
        },
        GroupState::Effective => {
            if let Ok(name) = keyboard {
                a_part_occurs(
                    "You are in the 'input' group, and we can read a keyboard to watch for your listen hotkey on ('"@,
                    name@,
                    "')."@,
                );
            }
        },
    }
}

/// A model passes just where there is one which can be constrained to the
/// phrases of a profile, and what is said of one names it.
pub proof fn only_a_model_with_a_dynamic_graph_passes(
    resolved: Result<String, Error>,
    is_dir: bool,
    has_graph: bool,
)
    ensures
        ({
            let check = model_check(resolved, is_dir, has_graph);
            &&& check.ok == (resolved is Ok && is_dir && has_graph)
            &&& resolved is Ok ==> occurs_in(resolved->Ok_0@, check.headline)
            &&& resolved is Err ==> check.headline == resolved->Err_0@.description
            &&& check.ok ==> check.advice.len() == 0
            &&& resolved is Ok && is_dir && !has_graph ==> check.advice == static_graph_advice()
            &&& resolved is Ok && !is_dir ==> check.advice == no_model_advice()
        }),
{
    if let Ok(path) = resolved {
        if !is_dir {
            a_part_occurs(
                "There is no speech model at '"@,
                path@,
                "' — a Vosk model is a directory, unpacked from the archive you downloaded."@,
            );
        } else if has_graph {
            a_part_occurs(
                "The model at '"@,
                path@,
                "' has a dynamic graph, so it can be constrained to your profile's phrases."@,
            );
        } else {
            a_part_occurs(
                "The model at '"@,
                path@,
                "' has no 'graph/Gr.fst', which means it was compiled with a static graph and cannot be constrained to your profile's phrases."@,
            );
        }
    }
}

/// A microphone passes just where the devices can be listed and the one which
/// is meant is among them, and what is said then names it.
pub proof fn only_a_microphone_which_is_there_passes(
    hint: Seq<char>,
    count: Result<usize, String>,
    selected: Result<String, Error>,
)
    ensures
        ({
            let check = microphone_check(hint, count, selected);
            &&& check.ok == (count is Ok && selected is Ok)
            &&& check.ok ==> occurs_in(selected->Ok_0@, check.headline)
            &&& check.ok ==> occurs_in(hint, check.headline)
            &&& count is Err ==> occurs_in(count->Err_0@, check.headline)
            &&& count is Ok && selected is Err ==> check.headline
                == selected->Err_0@.description
        }),
{
    let check = microphone_check(hint, count, selected);
    match count {
        Err(reason) => {
            a_part_occurs(
                "We could not enumerate this machine's audio input devices ("@,
                reason@,
                ")."@,
            );
        },
        Ok(n) => {
            if let Ok(name) = selected {
                let start = "The microphone we would listen on is '"@;
                let middle = "' (from audio.device: "@;
                let end = "; "@ + decimal(n as nat) + if n == 1 {
                    " input device in total)."@
                } else {
                    " input devices in total)."@
                };
                a_part_occurs(start, name@, middle + hint + end);
                assert(start + name@ + (middle + hint + end) =~= check.headline);
                a_part_occurs(start + name@ + middle, hint, end);
                assert(start + name@ + middle + hint + end =~= check.headline);
            }
        },
    }
}

/// A profile passes just where it loads, its settings do not contradict each
/// other, and the device of its hotkey, where it has one, is found.
pub proof fn a_profile_passes_where_its_hotkey_is_found(
    loaded: Result<Profile, Error>,
    settings: Option<Result<ResolvedSettings, Error>>,
    found: Result<String, Error>,
)
    ensures
        profile_check(loaded, settings, found).ok == (loaded is Ok && (settings is None || (
        settings->0 is Ok && (settings->0->Ok_0.hotkey is None || found is Ok)))),
        loaded is Err ==> profile_check(loaded, settings, found).headline
            == loaded->Err_0@.description,
        loaded is Ok && settings is Some && settings->0 is Err ==> profile_check(
            loaded,
            settings,
            found,
        ).headline == settings->0->Err_0@.description,
{
}

/// The node passes just where it is there, and is named either way.
pub proof fn the_node_is_named(path: Seq<char>, exists_there: bool)
    ensures
        node_check(path, exists_there).ok == exists_there,
        path.is_prefix_of(node_check(path, exists_there).headline),
        !exists_there ==> node_check(path, exists_there).advice == setup_advice(),
{
}

/// Whoever says who we are first is believed, and a blank says nothing.
pub proof fn the_first_name_given_counts(user: Option<Seq<char>>, logname: Option<Seq<char>>)
    ensures
        user is Some && user->0.len() > 0 ==> name_in(user, logname) == user,
        user is None || user->0.len() == 0 ==> name_in(user, logname) == name_in(logname, None),
        name_in(None, None) is None,
        name_in(Some(Seq::empty()), None) is None,
{
}

} // verus!
