//! Paths, held as text.

use crate::text::{chars_between, chars_of, ends_in, same_text, text_between, views};
use vstd::prelude::*;

verus! {

/// Whether a text starts with a `~` which stands for the home directory.
pub open spec fn starts_at_home(path: Seq<char>) -> bool {
    path.len() > 0 && path[0] == '~' && (path.len() == 1 || path[1] == '/' || path[1] == '\\')
}

/// Whether one path may be what another expands to: a path which does not
/// start at home is left alone, and of one which does, everything after the
/// `~` is kept.
pub open spec fn expands_to(path: Seq<char>, expanded: Seq<char>) -> bool {
    if starts_at_home(path) {
        ends_in(expanded, path.skip(1))
    } else {
        expanded == path
    }
}

/// `shellexpand::tilde`: replaces a leading `~` by the home directory, where
/// there is one. The home directory comes from the environment, so nothing is
/// said of it.
#[verifier::external_body]
pub(crate) fn expand_tilde(path: &str) -> (expanded: String)
    ensures
        expands_to(path@, expanded@),
{
    shellexpand::tilde(path).into_owned()
}

/// How the components of a path are told apart.
#[derive(Debug, Clone, Copy, PartialEq, Eq, Structural)]
pub enum Style {
    /// By `/`.
    Unix,
    /// By `/` or `\`.
    Windows,
    /// By `\` alone, in a Windows path which starts with `\\?\`.
    Verbatim,
}

/// Whether a character separates the components of a path.
pub open spec fn separator(style: Style, c: char) -> bool {
    match style {
        Style::Unix => c == '/',
        Style::Windows => c == '/' || c == '\\',
        Style::Verbatim => c == '\\',
    }
}

/// Whether a character separates the components of a path.
fn is_separator(style: Style, c: char) -> (is: bool)
    ensures
        is == separator(style, c),
{
    match style {
        Style::Unix => c == '/',
        Style::Windows => c == '/' || c == '\\',
        Style::Verbatim => c == '\\',
    }
}

/// Whether a path starts with a drive, such as `C:`.
pub open spec fn has_drive(path: Seq<char>) -> bool {
    path.len() >= 2 && path[1] == ':' && (('a' <= path[0] && path[0] <= 'z') || ('A' <= path[0]
        && path[0] <= 'Z'))
}

/// Whether a Windows path is to be taken as it stands: it starts with `\\?\`.
pub open spec fn verbatim(path: Seq<char>) -> bool {
    path.len() >= 4 && path[0] == '\\' && path[1] == '\\' && path[2] == '?' && path[3] == '\\'
}

/// How the components of a path are told apart on a platform.
pub open spec fn style_of(windows: bool, path: Seq<char>) -> Style {
    if !windows {
        Style::Unix
    } else if verbatim(path) {
        Style::Verbatim
    } else {
        Style::Windows
    }
}

/// Where the component which starts at an index of a path ends.
pub open spec fn component_end(style: Style, path: Seq<char>, from: nat) -> nat
    decreases path.len() - from,
{
    if from >= path.len() || separator(style, path[from as int]) {
        from
    } else {
        component_end(style, path, from + 1)
    }
}

/// How long the prefix of a Windows path is which starts with `\\?\`: up to a
/// server and the share on it, as in `\\?\UNC\server\share`, a drive, as in
/// `\\?\C:`, or the first component.
pub open spec fn verbatim_prefix_len(path: Seq<char>) -> nat {
    if path.len() >= 8 && path[4] == 'U' && path[5] == 'N' && path[6] == 'C' && separator(
        Style::Windows,
        path[7],
    ) {
        let server = component_end(Style::Verbatim, path, 8);
        let share = component_end(Style::Verbatim, path, server + 1);
        if share > server + 1 {
            share
        } else {
            server
        }
    } else if has_drive(path.skip(4)) && (path.len() == 6 || separator(Style::Windows, path[6])) {
        6
    } else {
        component_end(Style::Verbatim, path, 4)
    }
}

/// How long the prefix of a Windows path is: a drive, such as `C:`, a server and
/// the share on it, such as `\\server\share`, a device, such as `\\.\COM1`, or
/// what a path which starts with `\\?\` names in their place.
pub open spec fn prefix_len(path: Seq<char>) -> nat {
    if has_drive(path) {
        2
    } else if verbatim(path) {
        verbatim_prefix_len(path)
    } else if path.len() >= 2 && separator(Style::Windows, path[0]) && separator(
        Style::Windows,
        path[1],
    ) {
        if path.len() >= 4 && path[2] == '.' && separator(Style::Windows, path[3]) {
            component_end(Style::Windows, path, 4)
        } else {
            let server = component_end(Style::Windows, path, 2);
            let share = component_end(Style::Windows, path, server + 1);
            if server > 2 && share > server + 1 {
                share
            } else {
                0
            }
        }
    } else {
        0
    }
}

/// Where the components behind the prefix and the root of a Windows path start.
pub open spec fn body_start(path: Seq<char>) -> nat {
    let prefix = prefix_len(path);
    if prefix < path.len() && separator(Style::Windows, path[prefix as int]) {
        prefix + 1
    } else {
        prefix
    }
}

/// The components of a path from an index on. Between two separators in a row
/// there is none.
pub open spec fn components(style: Style, path: Seq<char>, from: nat) -> Seq<Seq<char>>
    decreases path.len() - from,
    via components_end
{
    if from >= path.len() {
        Seq::empty()
    } else {
        let end = component_end(style, path, from);
        let here = if end > from {
            seq![path.subrange(from as int, end as int)]
        } else {
            Seq::empty()
        };
        if end < path.len() {
            here + components(style, path, end + 1)
        } else {
            here
        }
    }
}

#[via_fn]
proof fn components_end(style: Style, path: Seq<char>, from: nat) {
    lemma_component_end(style, path, from);
}

/// A component ends no earlier than it starts.
proof fn lemma_component_end(style: Style, path: Seq<char>, from: nat)
    ensures
        from <= component_end(style, path, from),
    decreases path.len() - from,
{
    if from < path.len() && !separator(style, path[from as int]) {
        lemma_component_end(style, path, from + 1);
    }
}

/// A text without a separator is a path of one component.
pub proof fn a_bare_component_is_the_only_one(style: Style, path: Seq<char>)
    requires
        path.len() > 0,
        forall|i: int| 0 <= i < path.len() ==> !separator(style, #[trigger] path[i]),
    ensures
        components(style, path, 0) == seq![path],
{
    lemma_bare(style, path, 0);
    assert(path.subrange(0, path.len() as int) == path);
}

/// A component without a separator behind it takes up the rest of its path.
proof fn lemma_bare(style: Style, path: Seq<char>, from: nat)
    requires
        from <= path.len(),
        forall|i: int| 0 <= i < path.len() ==> !separator(style, #[trigger] path[i]),
    ensures
        component_end(style, path, from) == path.len(),
    decreases path.len() - from,
{
    if from < path.len() {
        lemma_bare(style, path, from + 1);
    }
}

/// Whether a component is the name of something: neither `.` nor `..`.
pub open spec fn is_name(component: Seq<char>) -> bool {
    component != "."@ && component != ".."@
}

/// Where one more component leads to from a directory: `.` stays there, and
/// `..` leaves the directory where it is one with a name.
pub open spec fn entered(dir: Seq<Seq<char>>, component: Seq<char>) -> Seq<Seq<char>> {
    if is_name(component) {
        dir.push(component)
    } else if component == ".."@ && dir.len() > 0 && is_name(dir.last()) {
        dir.drop_last()
    } else {
        dir
    }
}

/// Where some components lead to from a directory, one after the other.
pub open spec fn descended(dir: Seq<Seq<char>>, components: Seq<Seq<char>>) -> Seq<Seq<char>>
    decreases components.len(),
{
    if components.len() == 0 {
        dir
    } else {
        entered(descended(dir, components.drop_last()), components.last())
    }
}

/// A Windows path of a prefix and some components.
pub open spec fn spelled(prefix: Seq<char>, components: Seq<Seq<char>>) -> Seq<char>
    decreases components.len(),
{
    if components.len() == 0 {
        prefix
    } else {
        spelled(prefix, components.drop_last()).push('\\') + components.last()
    }
}

/// A path inside a Windows directory which starts with `\\?\`. Such a path is
/// taken as it stands, so the `.` and the `..` of what is inside are followed
/// right away, and its separators are turned into `\`.
pub open spec fn verbatim_join(base: Seq<char>, rest: Seq<char>) -> Seq<char> {
    let prefix = base.take(prefix_len(base) as int);
    let from_root = separator(Style::Windows, rest[0]);
    let dir = if from_root {
        Seq::empty()
    } else {
        components(Style::Verbatim, base, body_start(base))
    };
    let all = descended(dir, components(Style::Windows, rest, 0));
    if all.len() == 0 && (from_root || body_start(base) > prefix_len(base)) {
        prefix.push('\\')
    } else {
        spelled(prefix, all)
    }
}

/// A path inside a directory: an absolute path stands for itself, anything
/// else goes behind the directory and a separator.
///
/// On Windows, a path which names its drive or share stands for itself, one
/// which only starts at the root stays on the directory's drive or share, and a
/// bare drive is followed by no separator.
pub open spec fn path_join(windows: bool, base: Seq<char>, rest: Seq<char>) -> Seq<char> {
    if !windows {
        if rest.len() > 0 && rest[0] == '/' {
            rest
        } else if base.len() == 0 || base.last() == '/' {
            base + rest
        } else {
            base.push('/') + rest
        }
    } else if prefix_len(rest) > 0 {
        rest
    } else if verbatim(base) && rest.len() > 0 {
        verbatim_join(base, rest)
    } else if rest.len() > 0 && separator(Style::Windows, rest[0]) {
        base.take(prefix_len(base) as int) + rest
    } else if base.len() == 0 || separator(Style::Windows, base.last()) || (base.len() == 2
        && has_drive(base)) {
        base + rest
    } else {
        base.push('\\') + rest
    }
}

/// Where the component which starts at an index of a path ends.
fn component_end_of(style: Style, path: &[char], from: usize) -> (end: usize)
    requires
        from <= path.len(),
    ensures
        from <= end <= path.len(),
        end == component_end(style, path@, from as nat),
{
    let mut end: usize = from;
    while end < path.len() && !is_separator(style, path[end])
        invariant
            from <= end <= path.len(),
            component_end(style, path@, from as nat) == component_end(style, path@, end as nat),
        decreases path.len() - end,
    {
        end = end + 1;
    }
    end
}

/// Whether a Windows path starts with `\\?\`.
fn is_verbatim(path: &[char]) -> (is: bool)
    ensures
        is == verbatim(path@),
{
    path.len() >= 4 && path[0] == '\\' && path[1] == '\\' && path[2] == '?' && path[3] == '\\'
}

/// How long the prefix of a Windows path is which starts with `\\?\`.
fn verbatim_prefix_len_of(path: &[char]) -> (len: usize)
    requires
        verbatim(path@),
    ensures
        len == verbatim_prefix_len(path@),
        4 <= len <= path.len(),
{
    if path.len() >= 8 && path[4] == 'U' && path[5] == 'N' && path[6] == 'C' && is_separator(
        Style::Windows,
        path[7],
    ) {
        let server: usize = component_end_of(Style::Verbatim, path, 8);
        if server == path.len() {
            return server;
        }
        let share: usize = component_end_of(Style::Verbatim, path, server + 1);
        return if share > server + 1 {
            share
        } else {
            server
        };
    }
    let drive = path.len() >= 6 && path[5] == ':' && (('a' <= path[4] && path[4] <= 'z') || ('A'
        <= path[4] && path[4] <= 'Z'));
    assert(drive == has_drive(path@.skip(4)));
    if drive && (path.len() == 6 || is_separator(Style::Windows, path[6])) {
        return 6;
    }
    component_end_of(Style::Verbatim, path, 4)
}

/// How long the prefix of a Windows path is.
fn prefix_len_of(path: &[char]) -> (len: usize)
    ensures
        len == prefix_len(path@),
        len <= path.len(),
{
    if is_drive(path) {
        return 2;
    }
    if is_verbatim(path) {
        return verbatim_prefix_len_of(path);
    }
    if path.len() < 2 || !is_separator(Style::Windows, path[0]) || !is_separator(
        Style::Windows,
        path[1],
    ) {
        return 0;
    }
    if path.len() >= 4 && path[2] == '.' && is_separator(Style::Windows, path[3]) {
        return component_end_of(Style::Windows, path, 4);
    }
    let server: usize = component_end_of(Style::Windows, path, 2);
    if server == 2 || server == path.len() {
        return 0;
    }
    let share: usize = component_end_of(Style::Windows, path, server + 1);
    if share > server + 1 {
        share
    } else {
        0
    }
}

/// Where the components behind the prefix and the root of a Windows path start.
fn body_start_of(path: &[char]) -> (start: usize)
    ensures
        start == body_start(path@),
        start <= path.len(),
{
    let prefix: usize = prefix_len_of(path);
    if prefix < path.len() && is_separator(Style::Windows, path[prefix]) {
        prefix + 1
    } else {
        prefix
    }
}

/// Whether a path starts with a drive.
fn is_drive(path: &[char]) -> (is: bool)
    ensures
        is == has_drive(path@),
{
    path.len() >= 2 && path[1] == ':' && (('a' <= path[0] && path[0] <= 'z') || ('A' <= path[0]
        && path[0] <= 'Z'))
}

/// The components of a path from an index on.
fn components_of(style: Style, path: &Vec<char>, from: usize) -> (all: Vec<String>)
    requires
        from <= path.len(),
    ensures
        views(all@) == components(style, path@, from as nat),
{
    let mut all: Vec<String> = Vec::new();
    let mut at: usize = from;
    assert(views(all@) == Seq::<Seq<char>>::empty());
    loop
        invariant
            at <= path.len(),
            views(all@) + components(style, path@, at as nat) == components(
                style,
                path@,
                from as nat,
            ),
        decreases path.len() - at,
    {
        let end: usize = component_end_of(style, path.as_slice(), at);
        let ghost before = views(all@);
        if end > at {
            all.push(text_between(path, at, end));
        }
        assert(views(all@) == before + if end > at {
            seq![path@.subrange(at as int, end as int)]
        } else {
            Seq::empty()
        });
        if end == path.len() {
            return all;
        }
        at = end + 1;
    }
}

/// Whether a component is the name of something.
fn is_named(component: &str) -> (is: bool)
    ensures
        is == is_name(component@),
{
    !same_text(component, ".") && !same_text(component, "..")
}

/// A path inside a Windows directory which starts with `\\?\`.
fn join_verbatim(dir: &Vec<char>, inside: &Vec<char>) -> (path: String)
    requires
        verbatim(dir@),
        inside.len() > 0,
    ensures
        path@ == verbatim_join(dir@, inside@),
{
    let len: usize = prefix_len_of(dir.as_slice());
    let start: usize = body_start_of(dir.as_slice());
    let from_root = is_separator(Style::Windows, inside[0]);
    let mut all: Vec<String> = if from_root {
        Vec::new()
    } else {
        components_of(Style::Verbatim, dir, start)
    };
    let ghost base = views(all@);
    assert(from_root ==> base == Seq::<Seq<char>>::empty());
    let steps = components_of(Style::Windows, inside, 0);
    let ghost way = views(steps@);
    assert(way.take(0) == Seq::<Seq<char>>::empty());
    for i in 0..steps.len()
        invariant
            way == views(steps@),
            views(all@) == descended(base, way.take(i as int)),
    {
        assert(way.take(i + 1).drop_last() == way.take(i as int));
        assert(way.take(i + 1).last() == steps@[i as int]@);
        let ghost before = views(all@);
        let step = steps[i].as_str();
        if is_named(step) {
            all.push(step.to_owned());
            assert(views(all@) == before.push(step@));
        } else if same_text(step, "..") && all.len() > 0 {
            let last: usize = all.len() - 1;
            assert(before.last() == all@[last as int]@);
            if is_named(all[last].as_str()) {
                all.pop();
                assert(views(all@) == before.drop_last());
            }
        }
    }
    assert(way.take(way.len() as int) == way);
    let mut path = text_between(dir, 0, len);
    assert(path@ == dir@.take(len as int));
    if all.len() == 0 && (from_root || start > len) {
        path.push('\\');
        return path;
    }
    let ghost prefix = path@;
    let ghost spell = views(all@);
    assert(spell.take(0) == Seq::<Seq<char>>::empty());
    for i in 0..all.len()
        invariant
            spell == views(all@),
            path@ == spelled(prefix, spell.take(i as int)),
    {
        assert(spell.take(i + 1).drop_last() == spell.take(i as int));
        assert(spell.take(i + 1).last() == all@[i as int]@);
        path.push('\\');
        path.append(all[i].as_str());
    }
    assert(spell.take(spell.len() as int) == spell);
    path
}

/// A path inside a directory.
pub fn join_path(windows: bool, base: &str, rest: &str) -> (path: String)
    ensures
        path@ == path_join(windows, base@, rest@),
{
    let dir = chars_of(base);
    let inside = chars_of(rest);
    let len: usize = dir.len();
    let mut path: String;
    if !windows {
        if inside.len() > 0 && inside[0] == '/' {
            return rest.to_owned();
        }
        path = base.to_owned();
        if len > 0 && dir[len - 1] != '/' {
            path.push('/');
        }
    } else if prefix_len_of(inside.as_slice()) > 0 {
        return rest.to_owned();
    } else if is_verbatim(dir.as_slice()) && inside.len() > 0 {
        return join_verbatim(&dir, &inside);
    } else if inside.len() > 0 && is_separator(Style::Windows, inside[0]) {
        path = text_between(&dir, 0, prefix_len_of(dir.as_slice()));
        assert(path@ + rest@ == path_join(windows, base@, rest@));
    } else {
        path = base.to_owned();
        if len > 0 && !is_separator(Style::Windows, dir[len - 1]) && !(len == 2 && is_drive(
            dir.as_slice(),
        )) {
            path.push('\\');
        }
    }
    path.append(rest);
    path
}

/// A path without the separators, and the components `.`, at its end. In a path
/// which is taken as it stands, a `.` stays.
pub open spec fn settled(style: Style, path: Seq<char>) -> Seq<char>
    decreases path.len(),
{
    if path.len() > 0 && separator(style, path.last()) {
        settled(style, path.drop_last())
    } else if style != Style::Verbatim && path.len() >= 2 && path.last() == '.' && separator(
        style,
        path[path.len() - 2],
    ) {
        settled(style, path.take(path.len() - 2))
    } else {
        path
    }
}

/// What stands behind the last separator of a text.
pub open spec fn after_separator(style: Style, text: Seq<char>) -> Seq<char>
    decreases text.len(),
{
    if text.len() == 0 || separator(style, text.last()) {
        Seq::empty()
    } else {
        after_separator(style, text.drop_last()).push(text.last())
    }
}

/// The final component of a path, where it is the name of something: not the
/// root, no drive or share, and neither `.` nor `..`.
pub open spec fn last_component(windows: bool, path: Seq<char>) -> Option<Seq<char>> {
    let style = style_of(windows, path);
    let start = if windows {
        body_start(path)
    } else {
        0
    };
    let name = after_separator(style, settled(style, path.skip(start as int)));
    if name.len() == 0 || name == "."@ || name == ".."@ {
        None
    } else {
        Some(name)
    }
}

/// The final component of a path, where it is the name of something.
pub fn file_name(windows: bool, path: &str) -> (name: Option<String>)
    ensures
        match name {
            Some(name) => last_component(windows, path@) == Some(name@),
            None => last_component(windows, path@) is None,
        },
{
    let all = chars_of(path);
    let style = if !windows {
        Style::Unix
    } else if is_verbatim(all.as_slice()) {
        Style::Verbatim
    } else {
        Style::Windows
    };
    let start: usize = if windows {
        body_start_of(all.as_slice())
    } else {
        0
    };
    let chars = chars_between(&all, start, all.len());
    let ghost body = path@.skip(start as int);
    assert(chars@ == body);
    let mut to: usize = chars.len();
    assert(chars@.take(to as int) == body);
    while to > 0 && (is_separator(style, chars[to - 1]) || (style != Style::Verbatim && to >= 2
        && chars[to - 1] == '.' && is_separator(style, chars[to - 2])))
        invariant
            to <= chars.len(),
            settled(style, body) == settled(style, chars@.take(to as int)),
        decreases to,
    {
        if is_separator(style, chars[to - 1]) {
            assert(chars@.take(to as int).drop_last() == chars@.take(to - 1));
            to = to - 1;
        } else {
            assert(chars@.take(to as int).take(to - 2) == chars@.take(to - 2));
            to = to - 2;
        }
    }
    let ghost kept = chars@.take(to as int);
    assert(settled(style, body) == kept);
    let mut from: usize = to;
    assert(chars@.subrange(to as int, to as int) == Seq::<char>::empty());
    assert(after_separator(style, kept) + chars@.subrange(to as int, to as int)
        == after_separator(style, kept));
    while from > 0 && !is_separator(style, chars[from - 1])
        invariant
            from <= to <= chars.len(),
            kept == chars@.take(to as int),
            after_separator(style, kept) == after_separator(style, chars@.take(from as int))
                + chars@.subrange(from as int, to as int),
        decreases from,
    {
        let ghost head = chars@.take(from as int);
        assert(head.drop_last() == chars@.take(from - 1));
        assert(after_separator(style, head) + chars@.subrange(from as int, to as int)
            == after_separator(style, head.drop_last()) + chars@.subrange(from - 1, to as int));
        from = from - 1;
    }
    assert(after_separator(style, kept) == chars@.subrange(from as int, to as int));
    let name = text_between(&chars, from, to);
    if name.as_str().is_empty() || same_text(name.as_str(), ".") || same_text(name.as_str(), "..") {
        None
    } else {
        Some(name)
    }
}

// --- What holds of every path ---------------------------------------------------------------
/// A component ends at the next separator, or with the path.
pub proof fn a_component_ends_at_a_separator(style: Style, path: Seq<char>, from: nat, i: int)
    requires
        from <= path.len(),
    ensures
        ({
            let end = component_end(style, path, from);
            &&& from <= end <= path.len()
            &&& end < path.len() ==> separator(style, path[end as int])
            &&& from <= i < end ==> !separator(style, path[i])
        }),
    decreases path.len() - from,
{
    if from < path.len() && !separator(style, path[from as int]) {
        a_component_ends_at_a_separator(style, path, from + 1, i);
    }
}

/// The name of something is part of its path, has no separator in it, and is
/// neither `.` nor `..`.
pub proof fn a_name_has_no_separator(windows: bool, path: Seq<char>, i: int)
    ensures
        last_component(windows, path) matches Some(name) ==> {
            &&& name.len() > 0
            &&& is_name(name)
            &&& 0 <= i < name.len() ==> !separator(style_of(windows, path), name[i])
        },
{
    let style = style_of(windows, path);
    let start: nat = if windows {
        body_start(path)
    } else {
        0
    };
    lemma_after_separator(style, settled(style, path.skip(start as int)), i);
}

proof fn lemma_after_separator(style: Style, text: Seq<char>, i: int)
    ensures
        ({
            let name = after_separator(style, text);
            &&& name.len() <= text.len()
            &&& text.skip(text.len() - name.len()) == name
            &&& name.len() < text.len() ==> separator(style, text[text.len() - name.len() - 1])
            &&& 0 <= i < name.len() ==> !separator(style, name[i])
        }),
    decreases text.len(),
{
    if text.len() > 0 && !separator(style, text.last()) {
        lemma_after_separator(style, text.drop_last(), i);
        let name = after_separator(style, text);
        let shorter = after_separator(style, text.drop_last());
        assert(text.skip(text.len() - name.len()) =~= name) by {
            assert(text.drop_last().skip(text.drop_last().len() - shorter.len()) == shorter);
            assert forall|k: int| 0 <= k < shorter.len() implies text[text.len() - name.len() + k]
                == shorter[k] by {
                assert(text.drop_last().skip(text.drop_last().len() - shorter.len())[k]
                    == shorter[k]);
            }
        }
    } else {
        assert(text.skip(text.len() as int) =~= Seq::empty());
    }
}

/// What is put into a directory is what the whole is called by, and the
/// separators behind it make no difference.
pub proof fn what_is_joined_is_what_it_is_called(base: Seq<char>, name: Seq<char>)
    requires
        name.len() > 0,
        is_name(name),
        !name.contains('/'),
    ensures
        last_component(false, path_join(false, base, name)) == Some(name),
        last_component(false, path_join(false, base, name).push('/')) == Some(name),
{
    let style = Style::Unix;
    let path = path_join(false, base, name);
    assert forall|k: int| 0 <= k < name.len() implies name[k] != '/' by {
        assert(name.contains(name[k]));
    }
    assert(path.skip(0) =~= path);
    let longer = path.push('/');
    assert(longer.skip(0) =~= longer);
    assert(longer.drop_last() =~= path);
    assert(path.last() == name.last());
    reveal_strlit(".");
    if path.len() >= 2 && path.last() == '.' && path[path.len() - 2] == '/' {
        if name.len() >= 2 {
            assert(path[path.len() - 2] == name[name.len() - 2]);
        } else {
            assert(name =~= "."@);
        }
        assert(false);
    }
    assert(settled(style, path) == path);
    assert(settled(style, longer) == path);
    let head = path.take(path.len() - name.len());
    assert(path =~= head + name);
    if head.len() > 0 {
        assert(head.last() == '/');
    }
    lemma_after_last(style, head, name);
}

proof fn lemma_after_last(style: Style, head: Seq<char>, name: Seq<char>)
    requires
        head.len() > 0 ==> separator(style, head.last()),
        forall|k: int| 0 <= k < name.len() ==> !separator(style, #[trigger] name[k]),
    ensures
        after_separator(style, head + name) == name,
    decreases name.len(),
{
    let text = head + name;
    if name.len() == 0 {
        assert(text =~= head);
    } else {
        assert(text.last() == name.last());
        assert(!separator(style, name[name.len() - 1]));
        assert(text.drop_last() =~= head + name.drop_last());
        lemma_after_last(style, head, name.drop_last());
        assert(name.drop_last().push(name.last()) =~= name);
    }
}

/// An absolute path stands for itself wherever it is put, and anything else
/// stays inside: the components of the directory come first, and those of what
/// is put into it behind them.
pub proof fn a_path_stays_in_its_directory(base: Seq<char>, rest: Seq<char>)
    ensures
        rest.len() > 0 && rest[0] == '/' ==> path_join(false, base, rest) == rest,
        !(rest.len() > 0 && rest[0] == '/') ==> components(
            Style::Unix,
            path_join(false, base, rest),
            0,
        ) == components(Style::Unix, base, 0) + components(Style::Unix, rest, 0),
{
    let style = Style::Unix;
    let path = path_join(false, base, rest);
    if !(rest.len() > 0 && rest[0] == '/') {
        if base.len() == 0 {
            assert(path =~= rest);
            assert(components(style, base, 0) + components(style, rest, 0) =~= components(
                style,
                rest,
                0,
            ));
        } else if base.last() == '/' {
            let dir = base.drop_last();
            assert(dir.push('/') + rest =~= path);
            lemma_components_of_both(style, dir, '/', rest, 0);
            assert(dir.push('/') + Seq::empty() =~= base);
            lemma_components_of_both(style, dir, '/', Seq::empty(), 0);
            assert(components(style, Seq::empty(), 0) =~= Seq::empty());
            assert(components(style, base, 0) =~= components(style, dir, 0));
        } else {
            lemma_components_of_both(style, base, '/', rest, 0);
        }
    }
}

proof fn lemma_components_of_both(
    style: Style,
    dir: Seq<char>,
    between: char,
    rest: Seq<char>,
    from: nat,
)
    requires
        separator(style, between),
        from <= dir.len(),
    ensures
        components(style, dir.push(between) + rest, from) == components(style, dir, from)
            + components(style, rest, 0),
    decreases dir.len() - from,
{
    let path = dir.push(between) + rest;
    lemma_end_of_both(style, dir, between, rest, from);
    lemma_component_end(style, dir, from);
    let end = component_end(style, dir, from);
    a_component_ends_at_a_separator(style, dir, from, 0);
    if from < dir.len() {
        assert(path.subrange(from as int, end as int) =~= dir.subrange(from as int, end as int));
    }
    if end < dir.len() {
        lemma_components_of_both(style, dir, between, rest, end + 1);
        assert(components(style, path, from) =~= components(style, dir, from) + components(
            style,
            rest,
            0,
        ));
    } else {
        assert(path.skip(dir.len() as int + 1) =~= rest);
        lemma_components_further(style, path, (dir.len() + 1) as nat, 0);
        assert(components(style, path, from) =~= components(style, dir, from) + components(
            style,
            rest,
            0,
        ));
    }
}

proof fn lemma_end_of_both(
    style: Style,
    dir: Seq<char>,
    between: char,
    rest: Seq<char>,
    from: nat,
)
    requires
        separator(style, between),
        from <= dir.len(),
    ensures
        component_end(style, dir.push(between) + rest, from) == component_end(style, dir, from),
    decreases dir.len() - from,
{
    if from < dir.len() {
        lemma_end_of_both(style, dir, between, rest, from + 1);
    }
}

proof fn lemma_components_further(style: Style, path: Seq<char>, skipped: nat, from: nat)
    requires
        skipped <= path.len(),
    ensures
        components(style, path, skipped + from) == components(
            style,
            path.skip(skipped as int),
            from,
        ),
    decreases path.len() - skipped - from,
{
    let rest = path.skip(skipped as int);
    if from < rest.len() {
        lemma_end_further(style, path, skipped, from);
        let end = component_end(style, rest, from);
        a_component_ends_at_a_separator(style, rest, from, 0);
        assert(rest.subrange(from as int, end as int) =~= path.subrange(
            (skipped + from) as int,
            (skipped + end) as int,
        ));
        if end < rest.len() {
            lemma_components_further(style, path, skipped, end + 1);
        }
    }
}

proof fn lemma_end_further(style: Style, path: Seq<char>, skipped: nat, from: nat)
    requires
        skipped + from <= path.len(),
    ensures
        component_end(style, path, skipped + from) == skipped + component_end(
            style,
            path.skip(skipped as int),
            from,
        ),
    decreases path.len() - skipped - from,
{
    if skipped + from < path.len() && !separator(style, path[(skipped + from) as int]) {
        lemma_end_further(style, path, skipped, from + 1);
    }
}

/// Names lead further down, one after the other, and a way down and up again
/// leads back.
pub proof fn directories_are_entered_and_left(
    dir: Seq<Seq<char>>,
    names: Seq<Seq<char>>,
    name: Seq<char>,
)
    requires
        is_name(name),
        forall|i: int| 0 <= i < names.len() ==> is_name(#[trigger] names[i]),
    ensures
        descended(dir, names) == dir + names,
        descended(dir, seq![name, ".."@]) == dir,
        descended(dir, seq!["."@]) == dir,
        descended(Seq::empty(), seq![".."@]) == Seq::<Seq<char>>::empty(),
    decreases names.len(),
{
    reveal_strlit(".");
    reveal_strlit("..");
    if names.len() == 0 {
        assert(dir + names =~= dir);
    } else {
        let fewer = names.drop_last();
        assert forall|i: int| 0 <= i < fewer.len() implies is_name(#[trigger] fewer[i]) by {
            assert(fewer[i] == names[i]);
        }
        directories_are_entered_and_left(dir, fewer, name);
        assert(is_name(names[names.len() - 1]));
        assert(dir + names =~= (dir + fewer).push(names.last()));
    }
    let out = seq![name, ".."@];
    let down = seq![name];
    let none = Seq::<Seq<char>>::empty();
    assert(down.drop_last() =~= none);
    assert(descended(dir, none) == dir);
    assert(descended(dir, down) == dir.push(name));
    assert(out.drop_last() =~= down);
    assert(dir.push(name).drop_last() =~= dir);
    assert(".."@.len() == 2 && "."@.len() == 1);
    assert(!is_name(".."@));
    assert(descended(dir, out) == dir);
    assert(seq!["."@].drop_last() =~= none);
    assert(seq![".."@].drop_last() =~= none);
    assert(descended(none, none) == none);
}

/// Some way and then another is the two of them together.
pub proof fn ways_can_be_put_together(
    dir: Seq<Seq<char>>,
    first: Seq<Seq<char>>,
    second: Seq<Seq<char>>,
)
    ensures
        descended(dir, first + second) == descended(descended(dir, first), second),
    decreases second.len(),
{
    if second.len() == 0 {
        assert(first + second =~= first);
    } else {
        ways_can_be_put_together(dir, first, second.drop_last());
        assert((first + second).drop_last() =~= first + second.drop_last());
        assert((first + second).last() == second.last());
    }
}

/// A share on a server is where a Windows path starts which names one, whatever
/// is inside it.
pub proof fn a_share_is_one_prefix(server: Seq<char>, share: Seq<char>, rest: Seq<char>)
    requires
        server.len() > 0,
        share.len() > 0,
        server != seq!['.'],
        server != seq!['?'],
        forall|i: int| 0 <= i < server.len() ==> !separator(Style::Windows, #[trigger] server[i]),
        forall|i: int| 0 <= i < share.len() ==> !separator(Style::Windows, #[trigger] share[i]),
        rest.len() > 0 ==> separator(Style::Windows, rest[0]),
    ensures
        prefix_len(seq!['\\', '\\'] + server + seq!['\\'] + share + rest) == 3 + server.len()
            + share.len(),
{
    let style = Style::Windows;
    let path = seq!['\\', '\\'] + server + seq!['\\'] + share + rest;
    let middle = 2 + server.len();
    let end = middle + 1 + share.len();
    assert forall|i: int| 2 <= i < middle implies !separator(style, #[trigger] path[i]) by {
        assert(path[i] == server[i - 2]);
    }
    assert forall|i: int| middle + 1 <= i < end implies !separator(style, #[trigger] path[i]) by {
        assert(path[i] == share[i - middle - 1]);
    }
    assert(path[middle as int] == '\\');
    if rest.len() > 0 {
        assert(path[end as int] == rest[0]);
    }
    assert(path[2] == server[0]);
    if path[3] == '\\' || path[3] == '/' {
        assert(server.len() == 1) by {
            if server.len() > 1 {
                assert(path[3] == server[1]);
                assert(!separator(style, server[1]));
            }
        }
        assert(server =~= seq![server[0]]);
    }
    lemma_end_at(style, path, 2, middle);
    lemma_end_at(style, path, middle + 1, end);
}

/// A component ends where the first separator from its start on is.
proof fn lemma_end_at(style: Style, path: Seq<char>, from: nat, end: nat)
    requires
        from <= end <= path.len(),
        forall|i: int| from <= i < end ==> !separator(style, #[trigger] path[i]),
        end < path.len() ==> separator(style, path[end as int]),
    ensures
        component_end(style, path, from) == end,
    decreases end - from,
{
    if from < end {
        assert(!separator(style, path[from as int]));
        lemma_end_at(style, path, from + 1, end);
    }
}

/// On Windows too a path stays inside its directory, unless it starts at a root
/// or names where it starts itself: the former stays on the drive or the share
/// of the directory, and the latter stands for itself.
pub proof fn a_windows_path_stays_in_its_directory(base: Seq<char>, rest: Seq<char>)
    requires
        !verbatim(base),
    ensures
        ({
            let path = path_join(true, base, rest);
            let rooted = rest.len() > 0 && (rest[0] == '/' || rest[0] == '\\');
            &&& prefix_len(rest) > 0 ==> path == rest
            &&& prefix_len(rest) == 0 && rooted ==> path == base.take(prefix_len(base) as int)
                + rest
            &&& prefix_len(rest) == 0 && !rooted ==> base.is_prefix_of(path) && path.skip(
                path.len() - rest.len(),
            ) == rest && path.len() <= base.len() + 1 + rest.len()
        }),
{
    let path = path_join(true, base, rest);
    let rooted = rest.len() > 0 && (rest[0] == '/' || rest[0] == '\\');
    if prefix_len(rest) == 0 && !rooted {
        assert(path.skip(path.len() - rest.len()) =~= rest);
    }
}

/// A path which starts with a drive starts with just that.
pub proof fn a_drive_is_one_prefix(letter: char, rest: Seq<char>)
    requires
        'a' <= letter <= 'z' || 'A' <= letter <= 'Z',
    ensures
        prefix_len(seq![letter, ':'] + rest) == 2,
        rest.len() > 0 && (rest[0] == '/' || rest[0] == '\\') ==> body_start(
            seq![letter, ':'] + rest,
        ) == 3,
{
}

} // verus!
