//! `voice-orders setup [--yes] [--print]`: applies the system configuration
//! `doctor` checks for.
//!
//! Three rules, in order of importance. **Diagnose before changing anything**:
//! a machine which is half configured only ever gets the missing half, and
//! running `setup` twice is a no-op. **Say exactly what will happen**: the plan
//! is printed before the confirmation prompt. **Elevate per step, never
//! overall**: each individual step is run through `sudo`.

use super::doctor::{
    check_uinput_node, input_group_in, is_configured, lists, parse_input_group, GROUP_FILE,
    INPUT_GROUP, UINPUT_PATH,
};
use crate::errors::{user_error, wrapped_system_error, Error, ErrorView};
use crate::text::{
    a_part_occurs, a_part_still_occurs, chars_of, copied, decimal, decimal_of, line_end, lines, lines_of, lower_case, lower_case_of,
    occurs_in, same_text, signed_decimal, signed_decimal_of, trim, trimmed, trimmed_end, trimmed_start,
    trimming_ignores_white_space, views,
    white_space,
};
use vstd::prelude::*;

verus! {

/// What `setup` was asked for.
#[derive(Debug, Clone, Copy, PartialEq, Eq, Structural)]
pub struct SetupArgs {
    /// Apply the changes without asking for confirmation.
    pub yes: bool,
    /// Print the equivalent shell commands and exit without changing anything.
    pub print: bool,
}

/// The udev rule file we own. The `60-` prefix puts it after the distribution's
/// own input rules, so ours is the one which wins.
pub const UDEV_RULE_PATH: &'static str = "/etc/udev/rules.d/60-voice-orders-uinput.rules";

/// The rule which hands `/dev/uinput` to the `input` group.
pub const UDEV_RULE: &'static str = "KERNEL==\"uinput\", GROUP=\"input\", MODE=\"0660\"";

/// The `modules-load.d` file which loads `uinput` at every boot.
pub const MODULES_CONF_PATH: &'static str = "/etc/modules-load.d/voice-orders.conf";

/// The kernel module which provides `/dev/uinput`, and the whole content of
/// [`MODULES_CONF_PATH`].
pub const UINPUT_MODULE: &'static str = "uinput";

/// Advice for a step which failed while we were applying it.
pub open spec fn step_failure_advice() -> Seq<Seq<char>> {
    seq![
        "Run 'voice-orders setup --print' to see the commands, and apply the failing one yourself to see what your system says about it."@,
        "See the permissions guide at https://sierrasoftworks.github.io/voice-rs/guide/permissions.html for what each step does and why."@,
    ]
}

/// The files `setup` reads and writes.
#[derive(Debug, Clone, PartialEq, Eq)]
pub struct Paths {
    /// The udev rule file we write.
    pub udev_rule: String,
    /// The `modules-load.d` file we write.
    pub modules_conf: String,
    /// The device node whose absence means the module is not loaded.
    pub uinput_node: String,
    /// The group database we read configured membership from.
    pub group_file: String,
}

impl Default for Paths {
    fn default() -> (paths: Self)
        ensures
            paths.udev_rule@ == "/etc/udev/rules.d/60-voice-orders-uinput.rules"@,
            paths.modules_conf@ == "/etc/modules-load.d/voice-orders.conf"@,
            paths.uinput_node@ == "/dev/uinput"@,
            paths.group_file@ == "/etc/group"@,
    {
        Paths {
            udev_rule: UDEV_RULE_PATH.to_owned(),
            modules_conf: MODULES_CONF_PATH.to_owned(),
            uinput_node: UINPUT_PATH.to_owned(),
            group_file: GROUP_FILE.to_owned(),
        }
    }
}

/// What was found at those paths. A file which could not be read has nothing to
/// say: we cannot prove the system is already configured, and doing a step
/// which was not needed is far cheaper than skipping one which was.
#[derive(Debug, Clone, PartialEq, Eq)]
pub struct Machine {
    /// What the udev rule file says.
    pub udev_rule: String,
    /// Whether the udev rule file exists.
    pub udev_rule_exists: bool,
    /// What the `modules-load.d` file says.
    pub modules_conf: String,
    /// Whether the device node exists.
    pub uinput_exists: bool,
    /// What the group database says.
    pub group_file: String,
}

/// One thing `setup` will do.
#[derive(Debug, Clone, Copy, PartialEq, Eq, Structural)]
pub enum Step {
    /// Write the udev rule which hands `/dev/uinput` to the `input` group.
    UdevRule {
        /// Whether the file is absent (as opposed to present but missing the
        /// rule), which is the difference between "create" and "rewrite".
        create: bool,
    },
    /// Make sure the `uinput` module is loaded, now and at every boot.
    UinputModule {
        /// Whether the `modules-load.d` file still needs writing; when it is
        /// already in place, only the `modprobe` is left to do.
        write_conf: bool,
    },
    /// Add the user to the `input` group.
    InputGroup,
    /// Reload the udev rules so a newly written one takes effect.
    ReloadUdev,
}

/// A single privileged operation, kept as data so that it can be rendered as a
/// shell command *and* run, from one description.
#[derive(Debug, Clone, PartialEq, Eq)]
pub enum Action {
    /// Write `content` (plus a trailing newline) to `path`, via `tee`.
    Write { path: String, content: String },
    /// Run a program with arguments.
    Run { program: String, args: Vec<String> },
}

/// An [`Action`] in mathematical terms.
#[verifier::ext_equal]
pub enum ActionView {
    Write { path: Seq<char>, content: Seq<char> },
    Run { program: Seq<char>, args: Seq<Seq<char>> },
}

impl View for Action {
    type V = ActionView;

    open spec fn view(&self) -> ActionView {
        match self {
            Action::Write { path, content } => ActionView::Write {
                path: path@,
                content: content@,
            },
            Action::Run { program, args } => ActionView::Run {
                program: program@,
                args: views(args@),
            },
        }
    }
}

/// Some actions in mathematical terms.
pub open spec fn action_views(actions: Seq<Action>) -> Seq<ActionView> {
    actions.map_values(|action: Action| action@)
}

// --- Deriving the plan ------------------------------------------------------------
/// Whether a line of a text, but for the space around it, is a given text.
pub open spec fn has_line(text: Seq<char>, line: Seq<char>) -> bool {
    exists|i: int| 0 <= i < lines(text).len() && trimmed(#[trigger] lines(text)[i]) == line
}

/// Whether a line of a text, but for the space around it, is a given text.
fn contains_line(text: &str, line: &str) -> (is: bool)
    ensures
        is == has_line(text@, line@),
{
    let found = lines_of(text);
    let ghost all = lines(text@);
    for i in 0..found.len()
        invariant
            all == lines(text@),
            views(found@) == all,
            forall|j: int| 0 <= j < i ==> trimmed(#[trigger] all[j]) != line@,
    {
        assert(all[i as int] == found@[i as int]@);
        if same_text(trim(found[i].as_str()).as_str(), line) {
            return true;
        }
    }
    false
}

/// Whether the udev rule file already carries our rule. A file which exists but
/// says something else still needs writing.
pub fn rule_is_present(content: &str) -> (is: bool)
    ensures
        is == has_line(content@, UDEV_RULE@),
{
    contains_line(content, UDEV_RULE)
}

/// Whether the `modules-load.d` file already asks for `uinput`.
pub fn module_conf_is_present(content: &str) -> (is: bool)
    ensures
        is == has_line(content@, UINPUT_MODULE@),
{
    contains_line(content, UINPUT_MODULE)
}

/// Whether the group database lists a user in the `input` group. This is the
/// *configured* membership rather than the effective one: re-running `usermod`
/// would not help a session which simply predates the change.
pub fn is_in_input_group(group_file: &str, username: &str) -> (is: bool)
    ensures
        is == lists(input_group_in(lines(group_file@)), username@),
{
    match &parse_input_group(group_file) {
        Some(group) => is_configured(Some(group), username),
        None => is_configured(None, username),
    }
}

/// The steps a machine still needs. Each appears just where the check it
/// answers would fail, and the rules are reloaded just where one is written.
pub open spec fn steps_for(machine: Machine, username: Seq<char>) -> Seq<Step> {
    let rule = has_line(machine.udev_rule@, UDEV_RULE@);
    let conf = has_line(machine.modules_conf@, UINPUT_MODULE@);
    let member = lists(input_group_in(lines(machine.group_file@)), username);
    (if rule {
        Seq::empty()
    } else {
        seq![Step::UdevRule { create: !machine.udev_rule_exists }]
    }) + (if machine.uinput_exists && conf {
        Seq::empty()
    } else {
        seq![Step::UinputModule { write_conf: !conf }]
    }) + (if member {
        Seq::empty()
    } else {
        seq![Step::InputGroup]
    }) + (if rule {
        Seq::empty()
    } else {
        seq![Step::ReloadUdev]
    })
}

/// Works out which steps a machine still needs.
pub fn plan(machine: &Machine, username: &str) -> (steps: Vec<Step>)
    ensures
        steps@ == steps_for(*machine, username@),
{
    let mut steps: Vec<Step> = Vec::new();
    let rule = rule_is_present(machine.udev_rule.as_str());
    if !rule {
        steps.push(Step::UdevRule { create: !machine.udev_rule_exists });
    }
    // The conf makes it survive a reboot and the modprobe makes it true now;
    // either one being missing is a reason to do the step.
    let conf = module_conf_is_present(machine.modules_conf.as_str());
    if !check_uinput_node(UINPUT_PATH, machine.uinput_exists).ok || !conf {
        steps.push(Step::UinputModule { write_conf: !conf });
    }
    if !is_in_input_group(machine.group_file.as_str(), username) {
        steps.push(Step::InputGroup);
    }
    // udev only reads its rules when it is told to, so a rule we just wrote is
    // inert until we say so, and there is nothing to reload if we wrote none.
    if !rule {
        steps.push(Step::ReloadUdev);
    }
    assert(steps@ =~= steps_for(*machine, username@));
    steps
}

// --- Rendering the plan -----------------------------------------------------------
/// One step in words: what it does, and (for a file) what will be in it.
pub open spec fn step_lines(step: Step, username: Seq<char>, paths: Paths) -> Seq<Seq<char>> {
    match step {
        Step::UdevRule { create } => seq![
            if create { "create "@ } else { "rewrite "@ } + paths.udev_rule@,
            UDEV_RULE@,
        ],
        Step::UinputModule { write_conf } => if write_conf {
            seq![
                "create "@ + paths.modules_conf@
                    + " containing 'uinput', and load the module now"@,
            ]
        } else {
            seq![
                "load the 'uinput' module now ("@ + paths.modules_conf@
                    + " already asks for it at boot)"@,
            ]
        },
        Step::InputGroup => seq![
            "add you to the 'input' group (usermod -aG input "@ + username + ")"@,
        ],
        Step::ReloadUdev => seq![
            "reload the udev rules (udevadm control --reload-rules && udevadm trigger)"@,
        ],
    }
}

/// One step in words.
pub fn describe(step: &Step, username: &str, paths: &Paths) -> (described: Vec<String>)
    ensures
        views(described@) == step_lines(*step, username@, *paths),
        described@.len() > 0,
{
    let described: Vec<String> = match *step {
        Step::UdevRule { create } => {
            let mut text = if create {
                "create ".to_owned()
            } else {
                "rewrite ".to_owned()
            };
            text.append(paths.udev_rule.as_str());
            vec![text, UDEV_RULE.to_owned()]
        },
        Step::UinputModule { write_conf } => if write_conf {
            let mut text = "create ".to_owned();
            text.append(paths.modules_conf.as_str());
            text.append(" containing 'uinput', and load the module now");
            vec![text]
        } else {
            let mut text = "load the 'uinput' module now (".to_owned();
            text.append(paths.modules_conf.as_str());
            text.append(" already asks for it at boot)");
            vec![text]
        },
        Step::InputGroup => {
            let mut text = "add you to the 'input' group (usermod -aG input ".to_owned();
            text.append(username);
            text.append(")");
            vec![text]
        },
        Step::ReloadUdev => vec![
            "reload the udev rules (udevadm control --reload-rules && udevadm trigger)".to_owned(),
        ],
    };
    assert(views(described@) =~= step_lines(*step, username@, *paths));
    described
}

/// The text of one step: numbered, with whatever else there is to say below it.
pub open spec fn step_text(number: nat, described: Seq<Seq<char>>) -> Seq<char> {
    "  "@ + decimal(number) + ". "@ + described[0] + "\n"@ + below_text(described.skip(1))
}

/// Lines below a numbered step.
pub open spec fn below_text(below: Seq<Seq<char>>) -> Seq<char>
    decreases below.len(),
{
    if below.len() == 0 {
        Seq::empty()
    } else {
        below_text(below.drop_last()) + ("     "@ + below.last() + "\n"@)
    }
}

/// The text of some steps, numbered from one.
pub open spec fn steps_text(steps: Seq<Step>, username: Seq<char>, paths: Paths) -> Seq<char>
    decreases steps.len(),
{
    if steps.len() == 0 {
        Seq::empty()
    } else {
        steps_text(steps.drop_last(), username, paths) + step_text(
            steps.len(),
            step_lines(steps.last(), username, paths),
        )
    }
}

/// The text of one step.
fn render_step(number: usize, described: &[String]) -> (text: String)
    requires
        described@.len() > 0,
    ensures
        text@ == step_text(number as nat, views(described@)),
{
    let mut text = "  ".to_owned();
    text.append(decimal_of(number as u64).as_str());
    text.append(". ");
    text.append(described[0].as_str());
    text.append("\n");
    let ghost head = text@;
    let ghost below = views(described@).skip(1);
    assert(below.take(0) == Seq::<Seq<char>>::empty());
    assert(head + below_text(below.take(0)) == head);
    for i in 1..described.len()
        invariant
            described@.len() > 0,
            below == views(described@).skip(1),
            text@ == head + below_text(below.take(i - 1)),
    {
        assert(below.take(i as int).drop_last() == below.take(i - 1));
        assert(below.take(i as int).last() == described@[i as int]@);
        text.append("     ");
        text.append(described[i].as_str());
        text.append("\n");
        assert(text@ == head + (below_text(below.take(i - 1)) + ("     "@ + described@[i as int]@
            + "\n"@)));
    }
    assert(below.take(described.len() - 1) == below);
    text
}

/// The plan as it is printed before we ask for confirmation.
pub fn render_plan(steps: &[Step], username: &str, paths: &Paths) -> (text: String)
    ensures
        text@ == "voice-orders setup will make the following changes:\n\n"@ + steps_text(
            steps@,
            username@,
            *paths,
        ) + "\n"@,
{
    let mut out = "voice-orders setup will make the following changes:\n\n".to_owned();
    let ghost head = out@;
    assert(steps@.take(0) == Seq::<Step>::empty());
    assert(head + steps_text(steps@.take(0), username@, *paths) == head);
    for i in 0..steps.len()
        invariant
            out@ == head + steps_text(steps@.take(i as int), username@, *paths),
    {
        assert(steps@.take(i + 1).drop_last() == steps@.take(i as int));
        let described = describe(&steps[i], username, paths);
        let text = render_step(i + 1, described.as_slice());
        out.append(text.as_str());
        assert(out@ == head + (steps_text(steps@.take(i as int), username@, *paths) + text@));
    }
    assert(steps@.take(steps.len() as int) == steps@);
    out.append("\n");
    out
}

// --- What a step does ---------------------------------------------------------------
/// The privileged operations one step is made of.
pub open spec fn step_actions(step: Step, username: Seq<char>, paths: Paths) -> Seq<ActionView> {
    match step {
        Step::UdevRule { .. } => seq![
            ActionView::Write { path: paths.udev_rule@, content: UDEV_RULE@ },
        ],
        Step::UinputModule { write_conf } => {
            let load = ActionView::Run { program: "modprobe"@, args: seq![UINPUT_MODULE@] };
            if write_conf {
                seq![
                    ActionView::Write { path: paths.modules_conf@, content: UINPUT_MODULE@ },
                    load,
                ]
            } else {
                seq![load]
            }
        },
        Step::InputGroup => seq![
            ActionView::Run { program: "usermod"@, args: seq!["-aG"@, INPUT_GROUP@, username] },
        ],
        Step::ReloadUdev => seq![
            ActionView::Run {
                program: "udevadm"@,
                args: seq!["control"@, "--reload-rules"@],
            },
            ActionView::Run { program: "udevadm"@, args: seq!["trigger"@] },
        ],
    }
}

/// Runs a program with arguments.
fn run_action(program: &str, args: Vec<String>) -> (action: Action)
    ensures
        action@ == (ActionView::Run { program: program@, args: views(args@) }),
{
    Action::Run { program: program.to_owned(), args }
}

/// The privileged operations one step is made of.
pub fn actions(step: &Step, username: &str, paths: &Paths) -> (listed: Vec<Action>)
    ensures
        action_views(listed@) == step_actions(*step, username@, *paths),
{
    let listed: Vec<Action> = match *step {
        Step::UdevRule { .. } => vec![
            Action::Write { path: paths.udev_rule.clone(), content: UDEV_RULE.to_owned() },
        ],
        Step::UinputModule { write_conf } => {
            let args: Vec<String> = vec![UINPUT_MODULE.to_owned()];
            assert(views(args@) =~= seq![UINPUT_MODULE@]);
            let mut listed: Vec<Action> = Vec::new();
            if write_conf {
                listed.push(
                    Action::Write {
                        path: paths.modules_conf.clone(),
                        content: UINPUT_MODULE.to_owned(),
                    },
                );
            }
            listed.push(run_action("modprobe", args));
            listed
        },
        Step::InputGroup => {
            let args: Vec<String> = vec![
                "-aG".to_owned(),
                INPUT_GROUP.to_owned(),
                username.to_owned(),
            ];
            assert(views(args@) =~= seq!["-aG"@, INPUT_GROUP@, username@]);
            vec![run_action("usermod", args)]
        },
        Step::ReloadUdev => {
            let control: Vec<String> = vec!["control".to_owned(), "--reload-rules".to_owned()];
            let trigger: Vec<String> = vec!["trigger".to_owned()];
            assert(views(control@) =~= seq!["control"@, "--reload-rules"@]);
            assert(views(trigger@) =~= seq!["trigger"@]);
            vec![run_action("udevadm", control), run_action("udevadm", trigger)]
        },
    };
    assert(action_views(listed@) =~= step_actions(*step, username@, *paths));
    listed
}

/// Whether a character means nothing special to a shell.
pub open spec fn plain(c: char) -> bool {
    'a' <= c <= 'z' || 'A' <= c <= 'Z' || '0' <= c <= '9' || c == '-' || c == '_' || c == '.' || c
        == '/'
}

/// Whether a text can be pasted into a shell as it is.
pub open spec fn needs_no_quotes(value: Seq<char>) -> bool {
    value.len() > 0 && forall|i: int| 0 <= i < value.len() ==> plain(#[trigger] value[i])
}

/// A text between single quotes, but for the quotes around it. They protect
/// everything except a single quote itself, which has to be closed, escaped and
/// reopened.
pub open spec fn protected(value: Seq<char>) -> Seq<char>
    decreases value.len(),
{
    if value.len() == 0 {
        value
    } else if value[0] == '\'' {
        seq!['\'', '\\', '\'', '\''] + protected(value.drop_first())
    } else {
        seq![value[0]] + protected(value.drop_first())
    }
}

/// A text as a single word of a shell command.
pub open spec fn quoted(value: Seq<char>) -> Seq<char> {
    if needs_no_quotes(value) {
        value
    } else {
        seq!['\''] + protected(value) + seq!['\'']
    }
}

/// A text as a single word of a shell command.
pub fn quote(value: &str) -> (text: String)
    ensures
        text@ == quoted(value@),
{
    let chars = chars_of(value);
    let mut safe: bool = chars.len() > 0;
    for i in 0..chars.len()
        invariant
            chars@ == value@,
            safe == (chars.len() > 0 && forall|j: int| 0 <= j < i ==> plain(#[trigger] value@[j])),
    {
        let c = chars[i];
        assert(value@[i as int] == c);
        if !(('a' <= c && c <= 'z') || ('A' <= c && c <= 'Z') || ('0' <= c && c <= '9') || c == '-'
            || c == '_' || c == '.' || c == '/') {
            safe = false;
        }
    }
    if safe {
        return value.to_owned();
    }
    let mut text = String::new();
    text.push('\'');
    let ghost head = text@;
    assert(chars@.skip(0) == chars@);
    assert(head + (Seq::<char>::empty() + protected(chars@)) == head + protected(chars@));
    for i in 0..chars.len()
        invariant
            chars@ == value@,
            text@ + protected(chars@.skip(i as int)) == head + protected(chars@),
    {
        assert(chars@.skip(i as int)[0] == chars@[i as int]);
        assert(chars@.skip(i as int).drop_first() == chars@.skip(i + 1));
        let ghost before = text@;
        if chars[i] == '\'' {
            text.push('\'');
            text.push('\\');
            text.push('\'');
            text.push('\'');
            assert(text@ == before + seq!['\'', '\\', '\'', '\'']);
            assert(text@ + protected(chars@.skip(i + 1)) == before + (seq!['\'', '\\', '\'', '\'']
                + protected(chars@.skip(i + 1))));
        } else {
            text.push(chars[i]);
            assert(text@ == before + seq![chars@[i as int]]);
            assert(text@ + protected(chars@.skip(i + 1)) == before + (seq![chars@[i as int]]
                + protected(chars@.skip(i + 1))));
        }
    }
    assert(chars@.skip(chars.len() as int) == Seq::<char>::empty());
    assert(text@ + protected(chars@.skip(chars.len() as int)) == text@);
    text.push('\'');
    text
}

/// What a shell command starts with when it has to be elevated.
pub open spec fn sudo_text(root: bool) -> Seq<char> {
    if root {
        ""@
    } else {
        "sudo "@
    }
}

/// Arguments as words of a shell command, each with a space before it.
pub open spec fn words_text(args: Seq<Seq<char>>) -> Seq<char>
    decreases args.len(),
{
    if args.len() == 0 {
        Seq::empty()
    } else {
        words_text(args.drop_last()) + (" "@ + quoted(args.last()))
    }
}

/// An action as a shell command. File writes go through `tee` rather than a
/// redirection, which would be performed by *your* shell, before `sudo` ever
/// runs.
pub open spec fn shell_text(action: ActionView, root: bool) -> Seq<char> {
    match action {
        ActionView::Write { path, content } => "echo "@ + quoted(content) + " | "@ + sudo_text(
            root,
        ) + "tee "@ + quoted(path),
        ActionView::Run { program, args } => sudo_text(root) + program + words_text(args),
    }
}

impl Action {
    /// The action as a shell command you could paste into a terminal.
    pub fn shell(&self, root: bool) -> (text: String)
        ensures
            text@ == shell_text(self@, root),
    {
        let sudo = if root {
            ""
        } else {
            "sudo "
        };
        match self {
            Action::Write { path, content } => {
                let mut text = "echo ".to_owned();
                text.append(quote(content.as_str()).as_str());
                text.append(" | ");
                text.append(sudo);
                text.append("tee ");
                text.append(quote(path.as_str()).as_str());
                text
            },
            Action::Run { program, args } => {
                let mut text = sudo.to_owned();
                text.append(program.as_str());
                let ghost head = text@;
                let ghost all = views(args@);
                assert(all.take(0) == Seq::<Seq<char>>::empty());
                assert(head + words_text(all.take(0)) == head);
                for i in 0..args.len()
                    invariant
                        all == views(args@),
                        text@ == head + words_text(all.take(i as int)),
                {
                    assert(all.take(i + 1).drop_last() == all.take(i as int));
                    assert(all.take(i + 1).last() == args@[i as int]@);
                    text.append(" ");
                    text.append(quote(args[i].as_str()).as_str());
                    assert(text@ == head + (words_text(all.take(i as int)) + (" "@ + quoted(
                        args@[i as int]@,
                    ))));
                }
                assert(all.take(args.len() as int) == all);
                text
            },
        }
    }

    /// What this action is called in a failure message.
    pub fn what(&self) -> (text: String)
        ensures
            text@ == match self@ {
                ActionView::Write { path, .. } => "writing "@ + path,
                ActionView::Run { program, .. } => "running "@ + program,
            },
    {
        match self {
            Action::Write { path, .. } => {
                let mut text = "writing ".to_owned();
                text.append(path.as_str());
                text
            },
            Action::Run { program, .. } => {
                let mut text = "running ".to_owned();
                text.append(program.as_str());
                text
            },
        }
    }

    /// The program to start and its arguments, with `sudo` in front when we are
    /// not root. A write's content goes to the program's standard input.
    pub fn command_line(&self, root: bool) -> (line: Vec<String>)
        ensures
            views(line@) == (if root {
                Seq::<Seq<char>>::empty()
            } else {
                seq!["sudo"@]
            }) + match self@ {
                ActionView::Write { path, .. } => seq!["tee"@, path],
                ActionView::Run { program, args } => seq![program] + args,
            },
    {
        let mut line: Vec<String> = Vec::new();
        if !root {
            line.push("sudo".to_owned());
        }
        let ghost head = line@;
        assert(views(head) == if root { Seq::<Seq<char>>::empty() } else { seq!["sudo"@] });
        match self {
            Action::Write { path, .. } => {
                line.push("tee".to_owned());
                line.push(path.clone());
                assert(views(line@) =~= views(head) + seq!["tee"@, path@]);
            },
            Action::Run { program, args } => {
                line.push(program.clone());
                let ghost before = line@;
                let mut rest = copied(args.as_slice());
                let ghost added = rest@;
                line.append(&mut rest);
                assert(views(line@) =~= views(before) + views(added));
                assert(views(line@) =~= views(head) + (seq![program@] + views(args@)));
            },
        }
        line
    }
}

/// The shell commands of some actions, one indented line each.
pub open spec fn commands_text(listed: Seq<ActionView>, root: bool) -> Seq<char>
    decreases listed.len(),
{
    if listed.len() == 0 {
        Seq::empty()
    } else {
        commands_text(listed.drop_last(), root) + ("  "@ + shell_text(listed.last(), root)
            + "\n"@)
    }
}

/// The shell commands of some steps.
pub open spec fn script_text(
    steps: Seq<Step>,
    username: Seq<char>,
    paths: Paths,
    root: bool,
) -> Seq<char>
    decreases steps.len(),
{
    if steps.len() == 0 {
        Seq::empty()
    } else {
        script_text(steps.drop_last(), username, paths, root) + commands_text(
            step_actions(steps.last(), username, paths),
            root,
        )
    }
}

/// The shell commands of one step.
fn render_commands(listed: &[Action], root: bool) -> (text: String)
    ensures
        text@ == commands_text(action_views(listed@), root),
{
    let mut out = String::new();
    let ghost all = action_views(listed@);
    assert(all.take(0) == Seq::<ActionView>::empty());
    for i in 0..listed.len()
        invariant
            all == action_views(listed@),
            out@ == commands_text(all.take(i as int), root),
    {
        assert(all.take(i + 1).drop_last() == all.take(i as int));
        assert(all.take(i + 1).last() == listed@[i as int]@);
        let ghost before = out@;
        let text = listed[i].shell(root);
        out.append("  ");
        out.append(text.as_str());
        out.append("\n");
        assert(out@ == before + ("  "@ + text@ + "\n"@));
    }
    assert(all.take(listed.len() as int) == all);
    out
}

/// The `--print` output: the same steps as shell commands you can paste.
pub fn render_shell(steps: &[Step], username: &str, paths: &Paths, root: bool) -> (text: String)
    ensures
        text@ == "The equivalent shell commands are:\n\n"@ + script_text(
            steps@,
            username@,
            *paths,
            root,
        )
            + "\nNothing was changed. Run 'voice-orders doctor' once you have applied them.\n"@,
{
    let mut out = "The equivalent shell commands are:\n\n".to_owned();
    let ghost head = out@;
    assert(steps@.take(0) == Seq::<Step>::empty());
    assert(head + script_text(steps@.take(0), username@, *paths, root) == head);
    for i in 0..steps.len()
        invariant
            out@ == head + script_text(steps@.take(i as int), username@, *paths, root),
    {
        assert(steps@.take(i + 1).drop_last() == steps@.take(i as int));
        let listed = actions(&steps[i], username, paths);
        let text = render_commands(listed.as_slice(), root);
        out.append(text.as_str());
        assert(out@ == head + (script_text(steps@.take(i as int), username@, *paths, root)
            + text@));
    }
    assert(steps@.take(steps.len() as int) == steps@);
    out.append("\nNothing was changed. Run 'voice-orders doctor' once you have applied them.\n");
    out
}

/// What to say once the changes have landed.
pub fn render_epilogue(steps: &[Step]) -> (text: String)
    ensures
        text@ == "\nDone.\n"@ + if steps@.contains(Step::InputGroup) {
            "Your new 'input' group membership only applies to sessions started after it was granted, so log out and back in (or reboot) before running voice-orders.\n"@
        } else {
            Seq::empty()
        } + "Run 'voice-orders doctor' to check the result.\n"@,
{
    let mut out = "\nDone.\n".to_owned();
    let ghost head = out@;
    let mut grouped: bool = false;
    for i in 0..steps.len()
        invariant
            grouped == (exists|j: int| 0 <= j < i && steps@[j] == Step::InputGroup),
    {
        if steps[i] == Step::InputGroup {
            grouped = true;
        }
    }
    if grouped {
        out.append(
            "Your new 'input' group membership only applies to sessions started after it was granted, so log out and back in (or reboot) before running voice-orders.\n",
        );
    } else {
        assert(out@ == head + Seq::<char>::empty());
    }
    out.append("Run 'voice-orders doctor' to check the result.\n");
    out
}

// --- Applying the plan ----------------------------------------------------------------
/// What `setup` does with the plan it derived.
#[derive(Debug, Clone, Copy, PartialEq, Eq, Structural)]
pub enum Decision {
    /// There is nothing to do.
    AlreadyConfigured,
    /// The commands are printed, and nothing is changed.
    Print,
    /// The user is asked first.
    Ask,
    /// The steps are applied.
    Apply,
}

/// What `setup` does with the plan it derived.
pub fn decide(steps: &[Step], args: SetupArgs) -> (decision: Decision)
    ensures
        decision == if steps@.len() == 0 {
            Decision::AlreadyConfigured
        } else if args.print {
            Decision::Print
        } else if args.yes {
            Decision::Apply
        } else {
            Decision::Ask
        },
{
    if steps.len() == 0 {
        Decision::AlreadyConfigured
    } else if args.print {
        Decision::Print
    } else if args.yes {
        Decision::Apply
    } else {
        Decision::Ask
    }
}

/// What a command which came to an end is taken for.
pub fn status(code: Option<i32>) -> (outcome: Result<(), String>)
    ensures
        match outcome {
            Ok(()) => code == Some(0i32),
            Err(reason) => code != Some(0i32) && reason@ == match code {
                Some(code) => "it exited with status "@ + signed_decimal(code as int),
                None => "it was killed by a signal"@,
            },
        },
{
    match code {
        Some(0) => Ok(()),
        Some(code) => {
            let mut reason = "it exited with status ".to_owned();
            reason.append(signed_decimal_of(code).as_str());
            Err(reason)
        },
        None => Err("it was killed by a signal".to_owned()),
    }
}

/// What is said of a step which failed.
pub open spec fn step_failure(
    description: Seq<char>,
    action: ActionView,
    reason: Seq<char>,
) -> ErrorView {
    user_error(
        "The setup step '"@ + description + "' failed while "@ + match action {
            ActionView::Write { path, .. } => "writing "@ + path,
            ActionView::Run { program, .. } => "running "@ + program,
        } + ": "@ + reason,
        step_failure_advice(),
    )
}

/// What is said of a step which failed.
pub fn step_error(description: &str, action: &Action, reason: &str) -> (error: Error)
    ensures
        error@ == step_failure(description@, action@, reason@),
{
    let mut text = "The setup step '".to_owned();
    text.append(description);
    text.append("' failed while ");
    text.append(action.what().as_str());
    text.append(": ");
    text.append(reason);
    let error = Error::user(
        text,
        vec![
            "Run 'voice-orders setup --print' to see the commands, and apply the failing one yourself to see what your system says about it.",
            "See the permissions guide at https://sierrasoftworks.github.io/voice-rs/guide/permissions.html for what each step does and why.",
        ],
    );
    assert(error@ =~= step_failure(description@, action@, reason@));
    error
}

/// What is said of a step which was applied.
pub fn step_done(description: &str) -> (line: String)
    ensures
        line@ == "  ✓ "@ + description@ + "\n"@,
{
    let mut line = "  ✓ ".to_owned();
    line.append(description);
    line.append("\n");
    line
}

/// The plan being applied, action by action.
#[derive(Debug, Clone, PartialEq, Eq)]
pub struct Applying {
    /// The steps which are left, the current one first.
    steps: Vec<Step>,
    /// The actions of the current step which are left.
    actions: Vec<Action>,
    username: String,
    paths: Paths,
}

/// Where applying a plan has got to.
#[verifier::ext_equal]
pub struct ApplyingView {
    pub steps: Seq<Step>,
    pub actions: Seq<ActionView>,
    pub username: Seq<char>,
    pub paths: Paths,
}

impl View for Applying {
    type V = ApplyingView;

    closed spec fn view(&self) -> ApplyingView {
        ApplyingView {
            steps: self.steps@,
            actions: action_views(self.actions@),
            username: self.username@,
            paths: self.paths,
        }
    }
}

impl ApplyingView {
    /// Actions are left just where steps are.
    pub open spec fn wf(self) -> bool {
        (self.steps.len() > 0) == (self.actions.len() > 0)
    }

    /// What the current step is called.
    pub open spec fn description(self) -> Seq<char> {
        step_lines(self.steps[0], self.username, self.paths)[0]
    }

    /// Applying some steps from their start.
    pub open spec fn from_start(self, steps: Seq<Step>) -> ApplyingView {
        ApplyingView {
            steps,
            actions: if steps.len() == 0 {
                Seq::empty()
            } else {
                step_actions(steps[0], self.username, self.paths)
            },
            ..self
        }
    }

    /// Where it gets to once the current action has succeeded.
    pub open spec fn further(self) -> ApplyingView {
        if self.actions.len() > 1 {
            ApplyingView { actions: self.actions.drop_first(), ..self }
        } else {
            self.from_start(self.steps.drop_first())
        }
    }
}

impl Applying {
    /// A plan of which nothing has been applied yet.
    pub fn new(steps: Vec<Step>, username: &str, paths: Paths) -> (applying: Self)
        ensures
            applying@.wf(),
            applying@.username == username@,
            applying@.paths == paths,
            applying@ == applying@.from_start(steps@),
    {
        let listed = if steps.len() == 0 {
            Vec::new()
        } else {
            actions(&steps[0], username, &paths)
        };
        let applying = Applying { steps, actions: listed, username: username.to_owned(), paths };
        assert(applying@ =~= applying@.from_start(steps@));
        applying
    }

    /// The action to perform next, or `None` once the plan has been applied.
    pub fn next_action(&self) -> (action: Option<&Action>)
        requires
            self@.wf(),
        ensures
            match action {
                Some(action) => self@.actions.len() > 0 && action@ == self@.actions[0],
                None => self@.steps.len() == 0,
            },
    {
        if self.actions.len() > 0 {
            Some(&self.actions[0])
        } else {
            None
        }
    }

    /// Takes note of what the current action came to: the line to print once
    /// its step is done, or the failure which ends the plan.
    pub fn performed(&mut self, outcome: Result<(), String>) -> (reported: Result<
        Option<String>,
        Error,
    >)
        requires
            old(self)@.wf(),
            old(self)@.actions.len() > 0,
        ensures
            final(self)@.wf(),
            match outcome {
                Ok(()) => {
                    &&& final(self)@ == old(self)@.further()
                    &&& match reported {
                        Ok(Some(line)) => old(self)@.actions.len() == 1 && line@ == "  ✓ "@
                            + old(self)@.description() + "\n"@,
                        Ok(None) => old(self)@.actions.len() > 1,
                        Err(_) => false,
                    }
                },
                Err(reason) => {
                    &&& final(self)@ == old(self)@
                    &&& reported matches Err(error) && error@ == step_failure(
                        old(self)@.description(),
                        old(self)@.actions[0],
                        reason@,
                    )
                },
            },
    {
        let described = describe(&self.steps[0], self.username.as_str(), &self.paths);
        assert(views(described@)[0] == described@[0]@);
        let ghost before = self@;
        assert(action_views(self.actions@)[0] == self.actions@[0]@);
        match outcome {
            Err(reason) => Err(
                step_error(described[0].as_str(), &self.actions[0], reason.as_str()),
            ),
            Ok(()) => {
                let ghost had = self.actions@;
                let performed = self.actions.remove(0);
                assert(action_views(self.actions@) == action_views(had).drop_first());
                if self.actions.len() > 0 {
                    assert(self@ =~= before.further());
                    return Ok(None);
                }
                let done = self.steps.remove(0);
                assert(self.steps@ == before.steps.drop_first());
                if self.steps.len() > 0 {
                    self.actions = actions(&self.steps[0], self.username.as_str(), &self.paths);
                }
                assert(self@ =~= before.further());
                Ok(Some(step_done(described[0].as_str())))
            },
        }
    }
}

/// What is said when there is nobody to ask.
pub fn nobody_to_ask() -> (error: Error)
    ensures
        error@ == user_error(
            "voice-orders setup makes changes to your system, so it asks you to confirm them first — but its input is not a terminal, so there is nobody to ask."@,
            seq![
                "Re-run with '--yes' if you have read the plan above and want it applied unattended."@,
                "Or run 'voice-orders setup --print' to get the equivalent shell commands and apply them yourself."@,
            ],
        ),
{
    Error::user(
        "voice-orders setup makes changes to your system, so it asks you to confirm them first — but its input is not a terminal, so there is nobody to ask.".to_owned(),
        vec![
            "Re-run with '--yes' if you have read the plan above and want it applied unattended.",
            "Or run 'voice-orders setup --print' to get the equivalent shell commands and apply them yourself.",
        ],
    )
}

/// What is said of an answer which could not be read.
pub fn answer_error(reason: String) -> (error: Error)
    ensures
        error@ == wrapped_system_error(
            reason@,
            "We could not read your answer from the terminal."@,
            seq!["Re-run with '--yes' to apply the plan without being asked."@],
        ),
{
    Error::wrap_system(
        reason,
        "We could not read your answer from the terminal.".to_owned(),
        vec!["Re-run with '--yes' to apply the plan without being asked."],
    )
}

/// Whether an answer to `[y/N]` means yes, in whatever case it is written.
pub open spec fn means_yes(answer: Seq<char>) -> bool {
    lower_case(trimmed(answer)) == "y"@ || lower_case(trimmed(answer)) == "yes"@
}

/// Whether an answer to `[y/N]` means yes. Anything else, the empty line
/// included, means no, which is what the capital `N` in the prompt promises.
pub fn confirmed(answer: &str) -> (yes: bool)
    ensures
        yes == means_yes(answer@),
{
    let lowered = lower_case_of(trim(answer).as_str());
    same_text(lowered.as_str(), "y") || same_text(lowered.as_str(), "yes")
}

// --- What holds of every machine --------------------------------------------------------
/// A machine which has everything is left alone: running `setup` again is a
/// no-op.
pub proof fn a_configured_machine_needs_nothing(machine: Machine, username: Seq<char>)
    ensures
        (steps_for(machine, username).len() == 0) == (has_line(machine.udev_rule@, UDEV_RULE@)
            && has_line(machine.modules_conf@, UINPUT_MODULE@) && machine.uinput_exists && lists(
            input_group_in(lines(machine.group_file@)),
            username,
        )),
{
}

/// The rules are reloaded just where one is written, and after it.
pub proof fn a_written_rule_is_reloaded(machine: Machine, username: Seq<char>)
    ensures
        steps_for(machine, username).contains(Step::ReloadUdev) == !has_line(
            machine.udev_rule@,
            UDEV_RULE@,
        ),
        steps_for(machine, username).contains(Step::ReloadUdev) ==> {
            &&& steps_for(machine, username)[0] is UdevRule
            &&& steps_for(machine, username).last() == Step::ReloadUdev
        },
{
    let steps = steps_for(machine, username);
    if !has_line(machine.udev_rule@, UDEV_RULE@) {
        assert(steps.last() == Step::ReloadUdev);
        assert(steps.contains(steps[steps.len() - 1]));
    }
}

/// A text without line feeds, followed by one, is a single line.
proof fn lemma_single_line(text: Seq<char>)
    requires
        forall|i: int| 0 <= i < text.len() ==> (#[trigger] text[i]) != '\n',
    ensures
        line_end(text.push('\n')) == text.len(),
    decreases text.len(),
{
    let whole = text.push('\n');
    if text.len() > 0 {
        assert(whole.drop_first() == text.drop_first().push('\n'));
        lemma_single_line(text.drop_first());
        assert(whole[0] == text[0]);
    }
}

/// A text which neither starts nor ends with white space is already trimmed.
proof fn lemma_already_trimmed(text: Seq<char>)
    requires
        text.len() > 0,
        !white_space(text[0]),
        !white_space(text.last()),
    ensures
        trimmed(text) == text,
{
    assert(trimmed_start(text) == text);
    assert(trimmed_end(text) == text);
}

/// A line which was written, with the line feed `setup` puts behind it, is
/// found again.
proof fn lemma_written_line(line: Seq<char>)
    requires
        line.len() > 0,
        forall|i: int| 0 <= i < line.len() ==> (#[trigger] line[i]) != '\n',
        !white_space(line[0]),
        !white_space(line.last()),
    ensures
        has_line(line.push('\n'), line),
{
    let text = line.push('\n');
    lemma_single_line(line);
    lemma_already_trimmed(line);
    assert(text[text.len() - 2] == line.last());
    assert(text.take(line.len() as int) == line);
    assert(white_space('\r'));
    assert(lines(text)[0] == line);
    assert(trimmed(lines(text)[0]) == line);
}

/// What `setup` writes is what it looks for: once the rule and the module's
/// file are in place, neither is planned again.
pub proof fn what_is_written_is_found_again()
    ensures
        has_line(UDEV_RULE@.push('\n'), UDEV_RULE@),
        has_line(UINPUT_MODULE@.push('\n'), UINPUT_MODULE@),
{
    reveal_strlit("KERNEL==\"uinput\", GROUP=\"input\", MODE=\"0660\"");
    reveal_strlit("uinput");
    assert(UDEV_RULE@.len() == 44);
    assert(forall|i: int| 0 <= i < UDEV_RULE@.len() ==> (#[trigger] UDEV_RULE@[i]) != '\n');
    lemma_written_line(UDEV_RULE@);
    lemma_written_line(UINPUT_MODULE@);
}

// --- Reading a shell word -----------------------------------------------------------------
/// What a POSIX shell makes of a word: single quotes keep everything up to the
/// next one, a backslash outside them keeps the character behind it, and what
/// is not plain must be kept one way or the other. `None` where a quote stays
/// open, where a backslash stands at the end, or where a character would mean
/// something to the shell.
pub open spec fn shell_reads(text: Seq<char>, within_quotes: bool) -> Option<Seq<char>>
    decreases text.len(),
{
    if text.len() == 0 {
        if within_quotes {
            None
        } else {
            Some(Seq::empty())
        }
    } else if text[0] == '\'' {
        shell_reads(text.drop_first(), !within_quotes)
    } else if within_quotes || plain(text[0]) {
        match shell_reads(text.drop_first(), within_quotes) {
            Some(rest) => Some(seq![text[0]] + rest),
            None => None,
        }
    } else if text[0] == '\\' && text.len() > 1 {
        match shell_reads(text.skip(2), within_quotes) {
            Some(rest) => Some(seq![text[1]] + rest),
            None => None,
        }
    } else {
        None
    }
}

/// A plain text is read as itself.
proof fn lemma_plain_reads(value: Seq<char>)
    requires
        forall|i: int| 0 <= i < value.len() ==> plain(#[trigger] value[i]),
    ensures
        shell_reads(value, false) == Some(value),
    decreases value.len(),
{
    if value.len() > 0 {
        let rest = value.drop_first();
        assert forall|i: int| 0 <= i < rest.len() implies plain(#[trigger] rest[i]) by {
            assert(rest[i] == value[i + 1]);
        }
        lemma_plain_reads(rest);
        assert(plain(value[0]));
        assert(seq![value[0]] + rest == value);
    } else {
        assert(value == Seq::<char>::empty());
    }
}

/// What stands between the quotes is read as the text it protects.
proof fn lemma_protected_reads(value: Seq<char>)
    ensures
        shell_reads(protected(value) + seq!['\''], true) == Some(value),
    decreases value.len(),
{
    let text = protected(value) + seq!['\''];
    if value.len() == 0 {
        assert(text == seq!['\'']);
        assert(text.drop_first() == Seq::<char>::empty());
        assert(shell_reads(Seq::<char>::empty(), false) == Some(Seq::<char>::empty()));
        assert(value == Seq::<char>::empty());
    } else {
        let rest = value.drop_first();
        let after = protected(rest) + seq!['\''];
        lemma_protected_reads(rest);
        assert(seq![value[0]] + rest == value);
        if value[0] == '\'' {
            // '\'' closes the quotes, is escaped, and opens them again.
            assert(text == seq!['\'', '\\', '\'', '\''] + after);
            let outside = text.drop_first();
            assert(outside == seq!['\\', '\'', '\''] + after);
            assert(outside.skip(2) == seq!['\''] + after);
            assert((seq!['\''] + after).drop_first() == after);
            assert(shell_reads(seq!['\''] + after, false) == shell_reads(after, true));
            assert(!plain('\\'));
            assert(shell_reads(outside, false) == Some(seq!['\''] + rest));
        } else {
            assert(text == seq![value[0]] + after);
            assert(text.drop_first() == after);
        }
    }
}

/// Whatever a text holds, a shell reads its quoted form as that one text.
pub proof fn quoting_is_undone_by_the_shell(value: Seq<char>)
    ensures
        shell_reads(quoted(value), false) == Some(value),
{
    if needs_no_quotes(value) {
        lemma_plain_reads(value);
    } else {
        lemma_protected_reads(value);
        let text = quoted(value);
        assert(text[0] == '\'');
        assert(text.drop_first() == protected(value) + seq!['\'']);
    }
}

// --- What a plan comes to ---------------------------------------------------------------------
/// A machine gets what it lacks and nothing else, each of it once.
pub proof fn only_what_is_missing_is_done(machine: Machine, username: Seq<char>, step: Step)
    ensures
        steps_for(machine, username).contains(step) == match step {
            Step::UdevRule { create } => !has_line(machine.udev_rule@, UDEV_RULE@) && create
                == !machine.udev_rule_exists,
            Step::UinputModule { write_conf } => (!machine.uinput_exists || write_conf)
                && write_conf == !has_line(machine.modules_conf@, UINPUT_MODULE@),
            Step::InputGroup => !lists(input_group_in(lines(machine.group_file@)), username),
            Step::ReloadUdev => !has_line(machine.udev_rule@, UDEV_RULE@),
        },
        steps_for(machine, username).no_duplicates(),
{
    let rule = has_line(machine.udev_rule@, UDEV_RULE@);
    let conf = has_line(machine.modules_conf@, UINPUT_MODULE@);
    let member = lists(input_group_in(lines(machine.group_file@)), username);
    let steps = steps_for(machine, username);
    let first = if rule {
        0int
    } else {
        1int
    };
    let second = if machine.uinput_exists && conf {
        first
    } else {
        first + 1
    };
    let third = if member {
        second
    } else {
        second + 1
    };
    if !rule {
        assert(steps[0] == Step::UdevRule { create: !machine.udev_rule_exists });
        assert(steps[third] == Step::ReloadUdev);
    }
    if !(machine.uinput_exists && conf) {
        assert(steps[first] == Step::UinputModule { write_conf: !conf });
    }
    if !member {
        assert(steps[second] == Step::InputGroup);
    }
}

/// The operations of some steps, in the order they are carried out.
pub open spec fn all_actions(steps: Seq<Step>, username: Seq<char>, paths: Paths) -> Seq<ActionView>
    decreases steps.len(),
{
    if steps.len() == 0 {
        Seq::empty()
    } else {
        step_actions(steps[0], username, paths) + all_actions(steps.drop_first(), username, paths)
    }
}

/// The operations which are left to carry out.
pub open spec fn actions_left(applying: ApplyingView) -> Seq<ActionView> {
    if applying.steps.len() == 0 {
        Seq::empty()
    } else {
        applying.actions + all_actions(
            applying.steps.drop_first(),
            applying.username,
            applying.paths,
        )
    }
}

/// A plan is carried out one operation after the other: at its start all of
/// them are left, the current one is the first of what is left, and each which
/// succeeds leaves just the others.
pub proof fn every_operation_is_carried_out_in_turn(applying: ApplyingView, steps: Seq<Step>)
    ensures
        actions_left(applying.from_start(steps)) == all_actions(
            steps,
            applying.username,
            applying.paths,
        ),
        applying.from_start(steps).wf(),
        applying.wf() && actions_left(applying).len() > 0 ==> {
            &&& applying.actions[0] == actions_left(applying)[0]
            &&& actions_left(applying.further()) == actions_left(applying).drop_first()
            &&& applying.further().wf()
            &&& applying.further().username == applying.username
            &&& applying.further().paths == applying.paths
        },
{
    if steps.len() == 0 {
        assert(actions_left(applying.from_start(steps)) =~= Seq::empty());
    }
    if applying.wf() && actions_left(applying).len() > 0 {
        let left = actions_left(applying);
        let rest = applying.steps.drop_first();
        let after = actions_left(applying.further());
        if applying.actions.len() > 1 {
            assert(after =~= left.drop_first());
        } else {
            assert(left.drop_first() =~= all_actions(rest, applying.username, applying.paths));
            if rest.len() == 0 {
                assert(after =~= left.drop_first());
            } else {
                assert(after =~= left.drop_first());
            }
        }
    }
}

/// What is printed is what would be done: the command of every operation of
/// every step is there.
pub proof fn every_command_is_printed(
    steps: Seq<Step>,
    username: Seq<char>,
    paths: Paths,
    root: bool,
    i: int,
    j: int,
)
    requires
        0 <= i < steps.len(),
        0 <= j < step_actions(steps[i], username, paths).len(),
    ensures
        occurs_in(
            shell_text(step_actions(steps[i], username, paths)[j], root),
            script_text(steps, username, paths, root),
        ),
    decreases steps.len(),
{
    let nothing = Seq::<char>::empty();
    let command = shell_text(step_actions(steps[i], username, paths)[j], root);
    let earlier = script_text(steps.drop_last(), username, paths, root);
    let last = commands_text(step_actions(steps.last(), username, paths), root);
    if i < steps.len() - 1 {
        assert(steps.drop_last()[i] == steps[i]);
        every_command_is_printed(steps.drop_last(), username, paths, root, i, j);
        a_part_still_occurs(command, nothing, earlier, last);
        assert(nothing + earlier + last =~= script_text(steps, username, paths, root));
    } else {
        lemma_command_is_printed(step_actions(steps[i], username, paths), root, j);
        a_part_still_occurs(command, earlier, last, nothing);
        assert(earlier + last + nothing =~= script_text(steps, username, paths, root));
    }
}

proof fn lemma_command_is_printed(listed: Seq<ActionView>, root: bool, i: int)
    requires
        0 <= i < listed.len(),
    ensures
        occurs_in(shell_text(listed[i], root), commands_text(listed, root)),
    decreases listed.len(),
{
    let nothing = Seq::<char>::empty();
    let earlier = commands_text(listed.drop_last(), root);
    let last = "  "@ + shell_text(listed.last(), root) + "\n"@;
    if i < listed.len() - 1 {
        assert(listed.drop_last()[i] == listed[i]);
        lemma_command_is_printed(listed.drop_last(), root, i);
        a_part_still_occurs(shell_text(listed[i], root), nothing, earlier, last);
        assert(nothing + earlier + last =~= commands_text(listed, root));
    } else {
        a_part_occurs(earlier + "  "@, shell_text(listed[i], root), "\n"@);
        assert(earlier + "  "@ + shell_text(listed[i], root) + "\n"@ =~= commands_text(
            listed,
            root,
        ));
    }
}

/// Elevation is the only difference it makes who we are: a program is run as it
/// would be by root, through `sudo`, and so is the `tee` which writes a file.
pub proof fn only_elevation_depends_on_who_we_are(action: ActionView)
    ensures
        match action {
            ActionView::Run { .. } => shell_text(action, false) == "sudo "@ + shell_text(
                action,
                true,
            ),
            ActionView::Write { path, content } => exists|before: Seq<char>, after: Seq<char>|
                #![trigger before + after]
                {
                    &&& shell_text(action, true) == before + after
                    &&& shell_text(action, false) == before + "sudo "@ + after
                    &&& after == "tee "@ + quoted(path)
                    &&& occurs_in(quoted(content), before)
                },
        },
{
    reveal_strlit("");
    match action {
        ActionView::Run { program, args } => {
            assert(shell_text(action, true) =~= program + words_text(args));
            assert(shell_text(action, false) =~= "sudo "@ + shell_text(action, true));
        },
        ActionView::Write { path, content } => {
            let before = "echo "@ + quoted(content) + " | "@;
            let after = "tee "@ + quoted(path);
            a_part_occurs("echo "@, quoted(content), " | "@);
            assert(shell_text(action, true) =~= before + after);
            assert(shell_text(action, false) =~= before + "sudo "@ + after);
        },
    }
}

/// Every argument is handed to its program, quoted, and in the order it is
/// given.
pub proof fn arguments_follow_each_other(first: Seq<Seq<char>>, second: Seq<Seq<char>>)
    ensures
        words_text(first + second) == words_text(first) + words_text(second),
        forall|i: int|
            0 <= i < first.len() ==> #[trigger] words_text(seq![first[i]]) == " "@ + quoted(
                first[i],
            ),
    decreases second.len(),
{
    assert forall|i: int| 0 <= i < first.len() implies #[trigger] words_text(seq![first[i]])
        == " "@ + quoted(first[i]) by {
        let one = seq![first[i]];
        assert(one.drop_last() =~= Seq::empty());
        assert(words_text(one.drop_last()) =~= Seq::<char>::empty());
        assert(words_text(one) =~= " "@ + quoted(first[i]));
    }
    if second.len() == 0 {
        assert(first + second =~= first);
    } else {
        arguments_follow_each_other(first, second.drop_last());
        assert((first + second).drop_last() =~= first + second.drop_last());
        assert((first + second).last() == second.last());
        assert(words_text(first + second) =~= words_text(first) + words_text(second));
    }
}

/// The plan says exactly what will happen: every step is described, under its
/// number, and so is everything which belongs to it.
pub proof fn every_step_is_described(
    steps: Seq<Step>,
    username: Seq<char>,
    paths: Paths,
    i: int,
    j: int,
)
    requires
        0 <= i < steps.len(),
    ensures
        ({
            let text = steps_text(steps, username, paths);
            let described = step_lines(steps[i], username, paths);
            &&& occurs_in("  "@ + decimal((i + 1) as nat) + ". "@ + described[0] + "\n"@, text)
            &&& 0 < j < described.len() ==> occurs_in("     "@ + described[j] + "\n"@, text)
        }),
    decreases steps.len(),
{
    let nothing = Seq::<char>::empty();
    let text = steps_text(steps, username, paths);
    let described = step_lines(steps[i], username, paths);
    let headed = "  "@ + decimal((i + 1) as nat) + ". "@ + described[0] + "\n"@;
    let earlier = steps_text(steps.drop_last(), username, paths);
    let last = step_text(steps.len(), step_lines(steps.last(), username, paths));
    if i < steps.len() - 1 {
        assert(steps.drop_last()[i] == steps[i]);
        every_step_is_described(steps.drop_last(), username, paths, i, j);
        assert(nothing + earlier + last =~= text);
        a_part_still_occurs(headed, nothing, earlier, last);
        if 0 < j < described.len() {
            a_part_still_occurs("     "@ + described[j] + "\n"@, nothing, earlier, last);
        }
    } else {
        let below = below_text(described.skip(1));
        a_part_occurs(earlier, headed, below);
        assert(earlier + headed + below =~= text);
        if 0 < j < described.len() {
            lemma_line_is_below(described.skip(1), j - 1);
            assert(described.skip(1)[j - 1] == described[j]);
            a_part_still_occurs("     "@ + described[j] + "\n"@, earlier + headed, below, nothing);
            assert(earlier + headed + below + nothing =~= text);
        }
    }
}

proof fn lemma_line_is_below(below: Seq<Seq<char>>, i: int)
    requires
        0 <= i < below.len(),
    ensures
        occurs_in("     "@ + below[i] + "\n"@, below_text(below)),
    decreases below.len(),
{
    let nothing = Seq::<char>::empty();
    let earlier = below_text(below.drop_last());
    let line = "     "@ + below[i] + "\n"@;
    if i < below.len() - 1 {
        assert(below.drop_last()[i] == below[i]);
        lemma_line_is_below(below.drop_last(), i);
        let last = "     "@ + below.last() + "\n"@;
        a_part_still_occurs(line, nothing, earlier, last);
        assert(nothing + earlier + last =~= below_text(below));
    } else {
        a_part_occurs(earlier, line, nothing);
        assert(earlier + line + nothing =~= below_text(below));
    }
}

/// What a step is described as is what it does: a file which is written is
/// named, with what will be in it, and so is the user who is added to the group.
pub proof fn a_step_names_what_it_touches(
    step: Step,
    username: Seq<char>,
    paths: Paths,
    i: int,
)
    requires
        0 <= i < step_actions(step, username, paths).len(),
    ensures
        ({
            let described = step_lines(step, username, paths);
            match step_actions(step, username, paths)[i] {
                ActionView::Write { path, content } => occurs_in(path, described[0]) && (occurs_in(
                    content,
                    described[0],
                ) || described.contains(content)),
                ActionView::Run { program, args } => step is InputGroup ==> occurs_in(
                    username,
                    described[0],
                ) && occurs_in(program, described[0]) && args.last() == username,
            }
        }),
{
    let described = step_lines(step, username, paths);
    let nothing = Seq::<char>::empty();
    match step {
        Step::UdevRule { create } => {
            let start = if create {
                "create "@
            } else {
                "rewrite "@
            };
            a_part_occurs(start, paths.udev_rule@, nothing);
            assert(start + paths.udev_rule@ + nothing =~= described[0]);
            assert(described[1] == UDEV_RULE@);
        },
        Step::UinputModule { write_conf } => {
            if write_conf {
                let said = " containing 'uinput', and load the module now"@;
                a_part_occurs("create "@, paths.modules_conf@, said);
                reveal_strlit(" containing 'uinput', and load the module now");
                reveal_strlit(" containing '");
                reveal_strlit("uinput");
                reveal_strlit("', and load the module now");
                assert(said =~= " containing '"@ + UINPUT_MODULE@ + "', and load the module now"@);
                let before = "create "@ + paths.modules_conf@ + " containing '"@;
                a_part_occurs(before, UINPUT_MODULE@, "', and load the module now"@);
                assert(before + UINPUT_MODULE@ + "', and load the module now"@ =~= described[0]);
            }
        },
        Step::InputGroup => {
            let said = "add you to the 'input' group (usermod -aG input "@;
            a_part_occurs(said, username, ")"@);
            reveal_strlit("add you to the 'input' group (usermod -aG input ");
            reveal_strlit("add you to the 'input' group (");
            reveal_strlit("usermod");
            reveal_strlit(" -aG input ");
            assert(said =~= "add you to the 'input' group ("@ + "usermod"@ + " -aG input "@);
            a_part_occurs(
                "add you to the 'input' group ("@,
                "usermod"@,
                " -aG input "@ + username + ")"@,
            );
            assert("add you to the 'input' group ("@ + "usermod"@ + (" -aG input "@ + username
                + ")"@) =~= described[0]);
        },
        Step::ReloadUdev => {},
    }
}

/// The space around an answer makes no difference to what it means.
pub proof fn space_around_an_answer_means_nothing(
    before: Seq<char>,
    answer: Seq<char>,
    after: Seq<char>,
)
    requires
        forall|i: int| 0 <= i < before.len() ==> white_space(#[trigger] before[i]),
        forall|i: int| 0 <= i < after.len() ==> white_space(#[trigger] after[i]),
    ensures
        means_yes(before + answer + after) == means_yes(answer),
{
    trimming_ignores_white_space(before, answer, after);
}

/// Nothing is changed without consent: steps are only applied outright where
/// that was asked for, and never where only the commands were, and a machine
/// which needs nothing is asked nothing.
pub proof fn nothing_is_changed_without_consent(
    steps: &[Step],
    args: SetupArgs,
    decision: Decision,
)
    requires
        call_ensures(decide, (steps, args), decision),
    ensures
        decision == Decision::Apply ==> args.yes && !args.print && steps@.len() > 0,
        (decision == Decision::AlreadyConfigured) == (steps@.len() == 0),
        steps@.len() > 0 && args.print ==> decision == Decision::Print,
        steps@.len() > 0 && !args.print && !args.yes ==> decision == Decision::Ask,
{
}

/// Only a command which says it succeeded has.
pub proof fn only_a_clean_exit_is_a_success(code: Option<i32>, outcome: Result<(), String>)
    requires
        call_ensures(status, (code,), outcome),
    ensures
        outcome is Ok == (code is Some && code->0 == 0),
{
}

} // verus!
