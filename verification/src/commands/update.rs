//! `voice-orders update [version]`: replace this binary with a release.
//!
//! What is decided here is *what* to do, and what is said about it. Nothing is
//! a failure the user has to act on except a version which does not exist:
//! being up to date, or being a development build, are both perfectly good
//! outcomes.

use crate::text::{a_part_occurs, a_part_still_occurs, occurs_in};
use vstd::prelude::*;

verus! {

/// What `update` was asked for.
#[derive(Debug, Clone, PartialEq, Eq)]
pub struct UpdateArgs {
    /// The version to update to, as a tag or a bare version.
    pub version: Option<String>,
    /// Print the available releases instead of installing one.
    pub list: bool,
    /// Consider pre-release versions as well as stable ones.
    pub prerelease: bool,
    /// Serialized state used to resume an in-progress update.
    pub state: Option<String>,
}

/// What `update` does first.
#[derive(Debug, Clone, Copy, PartialEq, Eq, Structural)]
pub enum Task {
    /// Hands the state back to the updater, to go on where it left off.
    Resume,
    /// Lists the releases.
    List,
    /// Says that this is a development build, without touching the network.
    DevelopmentBuild,
    /// Looks for a release to install.
    Choose,
}

impl UpdateArgs {
    /// What `update` does first. Listing works in a development build too, and
    /// so does naming a version.
    pub fn task(&self, development_build: bool) -> (task: Task)
        ensures
            task == if self.state is Some {
                Task::Resume
            } else if self.list {
                Task::List
            } else if self.version is None && development_build {
                Task::DevelopmentBuild
            } else {
                Task::Choose
            },
    {
        if self.state.is_some() {
            Task::Resume
        } else if self.list {
            Task::List
        } else if self.version.is_none() && development_build {
            Task::DevelopmentBuild
        } else {
            Task::Choose
        }
    }
}

/// Why there was nothing to download.
#[derive(Debug, Clone, Copy, PartialEq, Eq, Structural)]
pub enum Idle {
    /// This is the newest release already.
    UpToDate,
    /// There is no such release for this platform.
    Unavailable,
    /// This is a development build.
    DevelopmentBuild,
}

/// Says what happened when there was nothing to download.
pub fn report(idle: Idle, version: &str, development_advice: &str) -> (text: String)
    ensures
        text@ == match idle {
            Idle::UpToDate => "voice-orders "@ + version@
                + " is already the newest release.\nIf you would like to roll back to a specific version, you can do so with `voice-orders update v"@
                + version@ + "`.\n"@,
            Idle::Unavailable => "We could not find a release for your platform matching the version you asked for.\nRun `voice-orders update --list` to see what is available.\n"@,
            Idle::DevelopmentBuild => "This is a development build ("@ + version@ + ").\n"@
                + development_advice@ + "\n"@,
        },
{
    match idle {
        Idle::UpToDate => {
            let mut text = "voice-orders ".to_owned();
            text.append(version);
            text.append(
                " is already the newest release.\nIf you would like to roll back to a specific version, you can do so with `voice-orders update v",
            );
            text.append(version);
            text.append("`.\n");
            text
        },
        Idle::Unavailable => "We could not find a release for your platform matching the version you asked for.\nRun `voice-orders update --list` to see what is available.\n".to_owned(),
        Idle::DevelopmentBuild => {
            let mut text = "This is a development build (".to_owned();
            text.append(version);
            text.append(").\n");
            text.append(development_advice);
            text.append("\n");
            text
        },
    }
}

/// A release which could be installed.
#[derive(Debug, Clone, PartialEq, Eq)]
pub struct Release {
    /// The release's tag.
    pub id: String,
    /// Whether it is the version which is running.
    pub installed: bool,
    /// Whether it has an asset for this platform.
    pub available: bool,
    /// Whether it is a pre-release.
    pub prerelease: bool,
}

/// One release's line: `*` for the version which is running, `!` for one with
/// no asset for this platform, and a space otherwise.
pub open spec fn release_line(release: Release) -> Seq<char> {
    (if release.installed {
        "* "@
    } else if !release.available {
        "! "@
    } else {
        "  "@
    }) + release.id@ + if release.prerelease {
        " (pre-release)\n"@
    } else {
        "\n"@
    }
}

/// The lines of some releases.
pub open spec fn release_lines(releases: Seq<Release>) -> Seq<char>
    decreases releases.len(),
{
    if releases.len() == 0 {
        Seq::empty()
    } else {
        release_lines(releases.drop_last()) + release_line(releases.last())
    }
}

/// Renders `--list`: one line per release, with a status marker before it and
/// a `(pre-release)` suffix where it applies.
pub fn format_release_list(releases: &[Release]) -> (text: String)
    ensures
        text@ == release_lines(releases@),
{
    let mut out = String::new();
    assert(releases@.take(0) == Seq::<Release>::empty());
    for i in 0..releases.len()
        invariant
            out@ == release_lines(releases@.take(i as int)),
    {
        assert(releases@.take(i + 1).drop_last() == releases@.take(i as int));
        let release = &releases[i];
        let mut line = if release.installed {
            "* ".to_owned()
        } else if !release.available {
            "! ".to_owned()
        } else {
            "  ".to_owned()
        };
        line.append(release.id.as_str());
        if release.prerelease {
            line.append(" (pre-release)\n");
        } else {
            line.append("\n");
        }
        out.append(line.as_str());
    }
    assert(releases@.take(releases.len() as int) == releases@);
    out
}

/// Every release is listed, marked where it is installed or cannot be had, and
/// a pre-release is called one.
pub proof fn every_release_is_listed(releases: Seq<Release>, i: int)
    requires
        0 <= i < releases.len(),
    ensures
        ({
            let text = release_lines(releases);
            let release = releases[i];
            let named = release.id@ + if release.prerelease {
                " (pre-release)\n"@
            } else {
                "\n"@
            };
            &&& release.installed ==> occurs_in("* "@ + named, text)
            &&& !release.installed && !release.available ==> occurs_in("! "@ + named, text)
            &&& !release.installed && release.available ==> occurs_in("  "@ + named, text)
        }),
{
    let release = releases[i];
    let named = release.id@ + if release.prerelease {
        " (pre-release)\n"@
    } else {
        "\n"@
    };
    lemma_release_is_listed(releases, i);
    if release.installed {
        assert("* "@ + named =~= release_line(release));
    } else if !release.available {
        assert("! "@ + named =~= release_line(release));
    } else {
        assert("  "@ + named =~= release_line(release));
    }
}

proof fn lemma_release_is_listed(releases: Seq<Release>, i: int)
    requires
        0 <= i < releases.len(),
    ensures
        occurs_in(release_line(releases[i]), release_lines(releases)),
    decreases releases.len(),
{
    let nothing = Seq::<char>::empty();
    let line = release_line(releases[i]);
    let earlier = release_lines(releases.drop_last());
    let last = release_line(releases.last());
    if i < releases.len() - 1 {
        assert(releases.drop_last()[i] == releases[i]);
        lemma_release_is_listed(releases.drop_last(), i);
        a_part_still_occurs(line, nothing, earlier, last);
        assert(nothing + earlier + last =~= release_lines(releases));
    } else {
        a_part_occurs(earlier, line, nothing);
        assert(earlier + line + nothing =~= release_lines(releases));
    }
}

/// Releases are listed one after the other, in the order they come.
pub proof fn releases_are_listed_in_order(first: Seq<Release>, second: Seq<Release>)
    ensures
        release_lines(first + second) == release_lines(first) + release_lines(second),
    decreases second.len(),
{
    if second.len() == 0 {
        assert(first + second =~= first);
        assert(release_lines(first) + release_lines(second) =~= release_lines(first));
    } else {
        releases_are_listed_in_order(first, second.drop_last());
        assert((first + second).drop_last() =~= first + second.drop_last());
        assert((first + second).last() == second.last());
        assert(release_lines(first + second) =~= release_lines(first) + release_lines(second));
    }
}

/// An update which was begun goes on before anything else, and a development
/// build is only ever replaced where a version is named.
pub proof fn a_development_build_is_not_replaced_unasked(
    args: &UpdateArgs,
    development_build: bool,
    task: Task,
)
    requires
        call_ensures(UpdateArgs::task, (args, development_build), task),
    ensures
        (task == Task::Resume) == args.state is Some,
        args.state is None ==> (task == Task::List) == args.list,
        task == Task::Choose && development_build ==> args.version is Some,
        task == Task::DevelopmentBuild ==> development_build && args.version is None,
        args.state is None && !args.list && !development_build ==> task == Task::Choose,
{
}

} // verus!
