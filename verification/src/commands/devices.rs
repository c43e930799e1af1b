//! `voice-orders devices [--audio] [--hotkey]`: what this machine has to listen
//! with.
//!
//! The sections are independent: each reports its own failure inline, and only
//! a run in which *nothing* could be listed exits non-zero. And the answers are
//! the real ones: a microphone is matched as capture matches it, and the hotkey
//! ranking is the one `device: auto` uses.

use super::doctor::advice_text;
use crate::audio::device::{
    first_named, named_by, the_first_device_named_is_taken, wants_default, InputDevice,
};
use crate::audio::DEFAULT_DEVICE_HINT;
use crate::errors::{given_once, tips, Error};
use crate::hotkey::{auto_choice, is_auto_choice, ListedDevice};
use crate::text::{
    a_part_occurs, a_part_of_a_part_occurs, a_part_still_occurs, byte_len, byte_len_of, contains,
    eq_ignoring_case, lower_case, lower_case_of, occurs_in, trim, trimmed,
};
use vstd::prelude::*;

verus! {

/// The heading of the audio section.
pub const AUDIO_HEADING: &'static str = "Audio inputs (audio.device)";

/// The heading of the hotkey section.
pub const HOTKEY_HEADING: &'static str = "Hotkey devices (hotkey.device)";

/// Which sections are printed.
#[derive(Debug, Clone, Copy, PartialEq, Eq, Structural)]
pub struct DevicesArgs {
    /// Only list audio input devices.
    pub audio: bool,
    /// Only list hotkey (evdev) input devices.
    pub hotkey: bool,
}

impl DevicesArgs {
    /// Which sections to print. Naming neither flag prints both.
    pub fn sections(&self) -> (sections: (bool, bool))
        ensures
            sections == if self.audio || self.hotkey {
                (self.audio, self.hotkey)
            } else {
                (true, true)
            },
    {
        match (self.audio, self.hotkey) {
            (false, false) => (true, true),
            (audio, hotkey) => (audio, hotkey),
        }
    }
}

/// The exit code to leave with: `1` only where nothing could be listed.
/// `audio` and `hotkey` are whether each section could be, where it was asked
/// for.
pub fn exit_code(audio: Option<bool>, hotkey: Option<bool>) -> (code: i32)
    ensures
        code == if audio == Some(true) || hotkey == Some(true) { 0i32 } else { 1 },
{
    let mut sections: u8 = 0;
    let mut failures: u8 = 0;
    if let Some(listed) = audio {
        sections = sections + 1;
        if !listed {
            failures = failures + 1;
        }
    }
    if let Some(listed) = hotkey {
        sections = sections + 1;
        if !listed {
            failures = failures + 1;
        }
    }
    if failures == sections {
        1
    } else {
        0
    }
}

// --- Audio inputs -------------------------------------------------------------------
/// The names of some devices.
pub open spec fn device_names(devices: Seq<InputDevice>) -> Seq<Seq<char>> {
    devices.map_values(|device: InputDevice| device.name@)
}

/// The first device which is the default one, or how many devices there are.
pub open spec fn first_default(devices: Seq<InputDevice>) -> nat
    decreases devices.len(),
{
    if devices.len() == 0 || devices[0].is_default {
        0
    } else {
        1 + first_default(devices.drop_first())
    }
}

/// Which device a hint selects, or how many devices there are: `default` means
/// the system default, anything else is part of a name, and the first match
/// wins.
pub open spec fn matched(devices: Seq<InputDevice>, hint: Seq<char>) -> nat {
    if wants_default(hint) {
        first_default(devices)
    } else {
        first_named(device_names(devices), hint)
    }
}

/// Which device an `audio.device` hint selects, resolved the way capture
/// resolves it.
pub fn matching(devices: &[InputDevice], hint: &str) -> (index: Option<usize>)
    ensures
        match index {
            Some(index) => index < devices@.len() && index == matched(devices@, hint@),
            None => matched(devices@, hint@) == devices@.len(),
        },
{
    let wanted = trim(hint);
    if wanted.as_str().is_empty() || eq_ignoring_case(wanted.as_str(), DEFAULT_DEVICE_HINT) {
        assert(devices@.skip(0) == devices@);
        for i in 0..devices.len()
            invariant
                wants_default(hint@),
                first_default(devices@) == i + first_default(devices@.skip(i as int)),
        {
            assert(devices@.skip(i as int)[0] == devices@[i as int]);
            assert(devices@.skip(i as int).drop_first() == devices@.skip(i + 1));
            if devices[i].is_default {
                return Some(i);
            }
        }
        return None;
    }
    let needle = lower_case_of(wanted.as_str());
    let ghost all = device_names(devices@);
    assert(all.skip(0) == all);
    for i in 0..devices.len()
        invariant
            all == device_names(devices@),
            needle@ == lower_case(trimmed(hint@)),
            !wants_default(hint@),
            first_named(all, hint@) == i + first_named(all.skip(i as int), hint@),
    {
        assert(all.skip(i as int)[0] == devices@[i as int].name@);
        assert(all.skip(i as int).drop_first() == all.skip(i + 1));
        let name = lower_case_of(devices[i].name.as_str());
        if contains(name.as_str(), needle.as_str()) {
            return Some(i);
        }
    }
    None
}

/// What is noted beside a device.
pub open spec fn device_notes(is_default: bool, is_selected: bool) -> Seq<char> {
    if is_default && is_selected {
        " — system default, your audio.device"@
    } else if is_default {
        " — system default"@
    } else if is_selected {
        " — your audio.device"@
    } else {
        Seq::empty()
    }
}

/// One microphone's line.
pub open spec fn audio_line(device: InputDevice, is_selected: bool) -> Seq<char> {
    (if device.is_default {
        "  * \""@
    } else {
        "    \""@
    }) + device.name@ + "\""@ + device_notes(device.is_default, is_selected) + "\n"@
}

/// The lines of some microphones.
pub open spec fn audio_lines(devices: Seq<InputDevice>, selected: Option<nat>) -> Seq<char>
    decreases devices.len(),
{
    if devices.len() == 0 {
        Seq::empty()
    } else {
        audio_lines(devices.drop_last(), selected) + audio_line(
            devices.last(),
            selected == Some((devices.len() - 1) as nat),
        )
    }
}

/// The device the machine's `audio.device` selects, if it names one.
pub open spec fn selected_by(devices: Seq<InputDevice>, configured: Option<Seq<char>>) -> Option<
    nat,
> {
    match configured {
        Some(hint) => if matched(devices, hint) < devices.len() {
            Some(matched(devices, hint))
        } else {
            None
        },
        None => None,
    }
}

/// What is said of a configured name which matches nothing.
pub open spec fn unmatched_text(devices: Seq<InputDevice>, configured: Option<Seq<char>>) -> Seq<
    char,
> {
    match configured {
        Some(hint) => if selected_by(devices, configured) is None {
            "\n  Your configured audio.device (\""@ + hint + "\") matches none of these.\n"@
        } else {
            Seq::empty()
        },
        None => Seq::empty(),
    }
}

/// The audio section. A stale name in the configuration is called out, even
/// where there is nothing it could have matched.
pub open spec fn audio_text(devices: Seq<InputDevice>, configured: Option<Seq<char>>) -> Seq<char> {
    if devices.len() == 0 {
        AUDIO_HEADING@ + "\n  (none — no audio input devices could be seen)\n"@ + unmatched_text(
            devices,
            configured,
        )
    } else {
        AUDIO_HEADING@ + "\n"@ + audio_lines(devices, selected_by(devices, configured))
            + unmatched_text(devices, configured)
            + "\n  Copy any part of a name into 'audio.device' to use that microphone; matching ignores case.\n"@
    }
}

/// Calls out a configured name which matches nothing.
fn push_unmatched(out: &mut String, configured: Option<&str>, selected: Option<usize>)
    ensures
        final(out)@ == old(out)@ + match configured {
            Some(hint) => if selected is None {
                "\n  Your configured audio.device (\""@ + hint@ + "\") matches none of these.\n"@
            } else {
                Seq::empty()
            },
            None => Seq::empty(),
        },
{
    let ghost before = out@;
    if let Some(hint) = configured {
        if selected.is_none() {
            out.append("\n  Your configured audio.device (\"");
            out.append(hint);
            out.append("\") matches none of these.\n");
            assert(out@ == before + ("\n  Your configured audio.device (\""@ + hint@
                + "\") matches none of these.\n"@));
            return;
        }
    }
    assert(out@ == before + Seq::<char>::empty());
}

/// Renders the audio section from the device list alone.
///
/// `configured` is the machine's `audio.device`, when it has one: a profile
/// which does not name a microphone gets that one, so the listing says which it
/// is, and says so even when nothing matches it, because a stale name in the
/// configuration is exactly the kind of thing this command exists to surface.
pub fn render_audio(devices: &[InputDevice], configured: Option<&str>) -> (text: String)
    ensures
        text@ == audio_text(
            devices@,
            match configured {
                Some(hint) => Some(hint@),
                None => None,
            },
        ),
{
    let mut out = AUDIO_HEADING.to_owned();
    let ghost hint_view = match configured {
        Some(hint) => Some(hint@),
        None => None,
    };
    let selected: Option<usize> = match configured {
        Some(hint) => matching(devices, hint),
        None => None,
    };
    let ghost chosen = selected_by(devices@, hint_view);
    assert(chosen == match selected {
        Some(index) => Some(index as nat),
        None => None,
    });
    if devices.len() == 0 {
        out.append("\n  (none — no audio input devices could be seen)\n");
        push_unmatched(&mut out, configured, selected);
        return out;
    }
    out.append("\n");
    let ghost head = out@;
    assert(devices@.take(0) == Seq::<InputDevice>::empty());
    assert(head + audio_lines(devices@.take(0), chosen) == head);
    for i in 0..devices.len()
        invariant
            chosen == match selected {
                Some(index) => Some(index as nat),
                None => None,
            },
            out@ == head + audio_lines(devices@.take(i as int), chosen),
    {
        assert(devices@.take(i + 1).drop_last() == devices@.take(i as int));
        let device = &devices[i];
        let mine = match selected {
            Some(index) => index == i,
            None => false,
        };
        let mut line = if device.is_default {
            "  * \"".to_owned()
        } else {
            "    \"".to_owned()
        };
        line.append(device.name.as_str());
        line.append("\"");
        let ghost named = line@;
        if device.is_default && mine {
            line.append(" — system default, your audio.device");
        } else if device.is_default {
            line.append(" — system default");
        } else if mine {
            line.append(" — your audio.device");
        } else {
            assert(line@ == named + Seq::<char>::empty());
        }
        line.append("\n");
        assert(line@ == audio_line(*device, mine));
        out.append(line.as_str());
        assert(out@ == head + (audio_lines(devices@.take(i as int), chosen) + line@));
    }
    assert(devices@.take(devices.len() as int) == devices@);
    push_unmatched(&mut out, configured, selected);
    out.append(
        "\n  Copy any part of a name into 'audio.device' to use that microphone; matching ignores case.\n",
    );
    out
}

// --- Hotkey devices -------------------------------------------------------------------
/// The most bytes the path of any of some devices takes up.
pub open spec fn widest(devices: Seq<ListedDevice>) -> nat
    decreases devices.len(),
{
    if devices.len() == 0 {
        0
    } else {
        let earlier = widest(devices.drop_last());
        let mine = byte_len(devices.last().path@);
        if mine > earlier {
            mine
        } else {
            earlier
        }
    }
}

/// Spaces.
pub open spec fn spaces(count: nat) -> Seq<char> {
    Seq::new(count, |i: int| ' ')
}

/// A text with as many spaces behind it as make it a number of characters wide.
pub open spec fn filled(text: Seq<char>, width: nat) -> Seq<char> {
    if text.len() < width {
        text + spaces((width - text.len()) as nat)
    } else {
        text
    }
}

/// A text with as many spaces behind it as make it a number of characters wide.
fn fill(text: &str, width: usize) -> (filled_text: String)
    ensures
        filled_text@ == filled(text@, width as nat),
{
    let count: usize = text.unicode_len();
    let mut out = text.to_owned();
    if count < width {
        for i in 0..width - count
            invariant
                out@ == text@ + spaces(i as nat),
        {
            out.push(' ');
        }
    }
    out
}

/// One input device's line.
pub open spec fn hotkey_line(device: ListedDevice, width: nat, is_chosen: bool) -> Seq<char> {
    (if is_chosen {
        "  * "@
    } else {
        "    "@
    }) + filled(device.path@, width) + "  \""@ + device.name@ + "\" — "@
        + device.rank.spec_describe() + if is_chosen {
        "; 'device: auto' picks this one\n"@
    } else {
        "\n"@
    }
}

/// The lines of some input devices.
pub open spec fn hotkey_lines(devices: Seq<ListedDevice>, width: nat, chosen: Option<nat>) -> Seq<
    char,
>
    decreases devices.len(),
{
    if devices.len() == 0 {
        Seq::empty()
    } else {
        hotkey_lines(devices.drop_last(), width, chosen) + hotkey_line(
            devices.last(),
            width,
            chosen == Some((devices.len() - 1) as nat),
        )
    }
}

/// The hotkey section, where one device is what `device: auto` picks, or none.
pub open spec fn hotkey_text(devices: Seq<ListedDevice>, chosen: Option<nat>) -> Seq<char> {
    if devices.len() == 0 {
        HOTKEY_HEADING@ + "\n  (none — no input devices could be read)\n"@
    } else {
        HOTKEY_HEADING@ + "\n"@ + hotkey_lines(devices, widest(devices), chosen)
            + if chosen is None {
            "\n  Nothing here reports 'leftctrl', so 'device: auto' has nothing to prefer; the ranking above is what it would choose between for another key.\n"@
        } else {
            Seq::empty()
        }
            + "\n  Copy a path, or any part of a name, into 'hotkey.device'; 'auto' picks the best-ranked device which reports your key.\n"@
    }
}

/// Whether a device is the one `device: auto` picks, or none is to be picked.
pub open spec fn picks(devices: Seq<ListedDevice>, chosen: Option<nat>) -> bool {
    match chosen {
        Some(i) => is_auto_choice(devices, i as int),
        None => forall|j: int| 0 <= j < devices.len() ==> !(#[trigger] devices[j]).reports_key,
    }
}

/// The most bytes the path of any of some devices takes up.
fn widest_of(devices: &[ListedDevice]) -> (width: usize)
    ensures
        width == widest(devices@),
{
    let mut width: usize = 0;
    assert(devices@.take(0) == Seq::<ListedDevice>::empty());
    for i in 0..devices.len()
        invariant
            width == widest(devices@.take(i as int)),
    {
        assert(devices@.take(i + 1).drop_last() == devices@.take(i as int));
        let mine: usize = byte_len_of(devices[i].path.as_str());
        if mine > width {
            width = mine;
        }
    }
    assert(devices@.take(devices.len() as int) == devices@);
    width
}

/// Renders the hotkey section from the ranked device list alone.
pub fn render_hotkey(devices: &[ListedDevice]) -> (text: String)
    ensures
        exists|chosen: Option<nat>| #[trigger]
            picks(devices@, chosen) && text@ == hotkey_text(devices@, chosen),
{
    let mut out = HOTKEY_HEADING.to_owned();
    let choice = auto_choice(devices);
    let ghost chosen = match choice {
        Some(i) => Some(i as nat),
        None => None,
    };
    assert(picks(devices@, chosen));
    if devices.len() == 0 {
        out.append("\n  (none — no input devices could be read)\n");
        return out;
    }
    out.append("\n");
    let width: usize = widest_of(devices);
    let ghost head = out@;
    assert(devices@.take(0) == Seq::<ListedDevice>::empty());
    assert(head + hotkey_lines(devices@.take(0), width as nat, chosen) == head);
    for i in 0..devices.len()
        invariant
            chosen == match choice {
                Some(i) => Some(i as nat),
                None => None,
            },
            out@ == head + hotkey_lines(devices@.take(i as int), width as nat, chosen),
    {
        assert(devices@.take(i + 1).drop_last() == devices@.take(i as int));
        let device = &devices[i];
        let mine = match choice {
            Some(index) => index == i,
            None => false,
        };
        let mut line = if mine {
            "  * ".to_owned()
        } else {
            "    ".to_owned()
        };
        line.append(fill(device.path.as_str(), width).as_str());
        line.append("  \"");
        line.append(device.name.as_str());
        line.append("\" — ");
        line.append(device.rank.describe());
        if mine {
            line.append("; 'device: auto' picks this one\n");
        } else {
            line.append("\n");
        }
        assert(line@ == hotkey_line(*device, width as nat, mine));
        out.append(line.as_str());
        assert(out@ == head + (hotkey_lines(devices@.take(i as int), width as nat, chosen)
            + line@));
    }
    assert(devices@.take(devices.len() as int) == devices@);
    let ghost listed = out@;
    if choice.is_none() {
        out.append(
            "\n  Nothing here reports 'leftctrl', so 'device: auto' has nothing to prefer; the ranking above is what it would choose between for another key.\n",
        );
    } else {
        assert(out@ == listed + Seq::<char>::empty());
    }
    out.append(
        "\n  Copy a path, or any part of a name, into 'hotkey.device'; 'auto' picks the best-ranked device which reports your key.\n",
    );
    out
}

/// The hotkey section on Windows, where there is nothing to list: the listen
/// hotkey is watched system-wide rather than on one keyboard. Saying so is a
/// successful listing.
pub fn hotkey_on_windows() -> (text: String)
    ensures
        text@ == HOTKEY_HEADING@
            + "\n  Device selection is not available on Windows: the listen hotkey is watched system-wide rather than on one keyboard, so 'hotkey.device' has no effect here. Leave it out of your profile.\n"@,
{
    let mut out = HOTKEY_HEADING.to_owned();
    out.append(
        "\n  Device selection is not available on Windows: the listen hotkey is watched system-wide rather than on one keyboard, so 'hotkey.device' has no effect here. Leave it out of your profile.\n",
    );
    out
}

// --- Failures ---------------------------------------------------------------------------
/// A section which could not be listed: the message, then its advice indented
/// beneath it.
pub fn render_error(error: &Error) -> (text: String)
    ensures
        text@ == "  ✗ "@ + error@.description + "\n"@ + advice_text(
            given_once(error@.advice.reverse()),
        ),
{
    let mut out = "  ✗ ".to_owned();
    out.append(error.description.as_str());
    out.append("\n");
    let ghost head = out@;
    let advice = error.advice();
    let ghost all = tips(advice@);
    assert(all.take(0) == Seq::<Seq<char>>::empty());
    assert(head + advice_text(all.take(0)) == head);
    for i in 0..advice.len()
        invariant
            all == tips(advice@),
            out@ == head + advice_text(all.take(i as int)),
    {
        assert(all.take(i + 1).drop_last() == all.take(i as int));
        assert(all.take(i + 1).last() == advice@[i as int]@);
        out.append("    ");
        out.append(advice[i]);
        out.append("\n");
        assert(out@ == head + (advice_text(all.take(i as int)) + ("    "@ + advice@[i as int]@
            + "\n"@)));
    }
    assert(all.take(advice.len() as int) == all);
    out
}

// --- What holds of every listing --------------------------------------------------------
/// The microphone which is marked as configured is the one capture would open:
/// the default where that is asked for, else the first which is named, and one
/// which is there is never passed over.
pub proof fn the_configured_microphone_is_the_first_which_fits(
    devices: Seq<InputDevice>,
    hint: Seq<char>,
    i: int,
)
    requires
        0 <= i < devices.len(),
    ensures
        ({
            let fits = |k: int|
                if wants_default(hint) {
                    devices[k].is_default
                } else {
                    named_by(devices[k].name@, hint)
                };
            &&& fits(i) ==> selected_by(devices, Some(hint)) is Some
            &&& selected_by(devices, Some(hint)) matches Some(chosen) ==> {
                &&& chosen < devices.len()
                &&& fits(chosen as int)
                &&& fits(i) ==> chosen <= i
            }
        }),
{
    if wants_default(hint) {
        lemma_first_default(devices, i);
    } else {
        let names = device_names(devices);
        the_first_device_named_is_taken(names, hint, i);
        assert(names[i] == devices[i].name@);
        let first = first_named(names, hint);
        if first < names.len() {
            assert(names[first as int] == devices[first as int].name@);
        }
    }
}

proof fn lemma_first_default(devices: Seq<InputDevice>, i: int)
    ensures
        ({
            let first = first_default(devices);
            &&& first <= devices.len()
            &&& first < devices.len() ==> devices[first as int].is_default
            &&& 0 <= i < devices.len() && devices[i].is_default ==> first <= i
        }),
    decreases devices.len(),
{
    if devices.len() > 0 && !devices[0].is_default {
        lemma_first_default(devices.drop_first(), i - 1);
        if 0 < i < devices.len() {
            assert(devices.drop_first()[i - 1] == devices[i]);
        }
    }
}

/// Every microphone is listed under its name, which is what can be copied into
/// the configuration, and the default and the configured one are marked.
pub proof fn every_microphone_is_listed(
    devices: Seq<InputDevice>,
    configured: Option<Seq<char>>,
    i: int,
)
    requires
        0 <= i < devices.len(),
    ensures
        ({
            let text = audio_text(devices, configured);
            let device = devices[i];
            let chosen = selected_by(devices, configured) == Some(i as nat);
            &&& occurs_in("\""@ + device.name@ + "\""@, text)
            &&& device.is_default ==> occurs_in("  * \""@ + device.name@ + "\""@, text)
            &&& device.is_default && !chosen ==> occurs_in(
                device.name@ + "\""@ + " — system default"@ + "\n"@,
                text,
            )
            &&& chosen && !device.is_default ==> occurs_in(
                device.name@ + "\""@ + " — your audio.device"@ + "\n"@,
                text,
            )
            &&& chosen && device.is_default ==> occurs_in(
                device.name@ + "\""@ + " — system default, your audio.device"@ + "\n"@,
                text,
            )
            &&& !chosen && !device.is_default ==> occurs_in(device.name@ + "\""@ + "\n"@, text)
        }),
{
    let selected = selected_by(devices, configured);
    let lines = audio_lines(devices, selected);
    let start = AUDIO_HEADING@ + "\n"@;
    let end = unmatched_text(devices, configured)
        + "\n  Copy any part of a name into 'audio.device' to use that microphone; matching ignores case.\n"@;
    let device = devices[i];
    let chosen = selected == Some(i as nat);
    let line = audio_line(device, chosen);
    assert(start + lines + end =~= audio_text(devices, configured));
    lemma_audio_line(devices, selected, i);
    a_part_still_occurs(line, start, lines, end);
    let text = audio_text(devices, configured);
    let notes = device_notes(device.is_default, chosen);
    let nothing = Seq::<char>::empty();
    let name = device.name@;
    let quote = "\""@;
    reveal_strlit("  * \"");
    reveal_strlit("    \"");
    reveal_strlit("\"");
    let indent = if device.is_default {
        "  * \""@
    } else {
        "    \""@
    };
    let before = indent.drop_last();
    assert(indent =~= before + quote);
    assert(before + (quote + name + quote) + (notes + "\n"@) =~= line);
    a_part_occurs(before, quote + name + quote, notes + "\n"@);
    a_part_of_a_part_occurs(quote + name + quote, line, text);
    assert(nothing + (indent + name + quote) + (notes + "\n"@) =~= line);
    a_part_occurs(nothing, indent + name + quote, notes + "\n"@);
    a_part_of_a_part_occurs(indent + name + quote, line, text);
    assert(indent + (name + quote + notes + "\n"@) + nothing =~= line);
    a_part_occurs(indent, name + quote + notes + "\n"@, nothing);
    a_part_of_a_part_occurs(name + quote + notes + "\n"@, line, text);
    if !chosen && !device.is_default {
        assert(name + quote + notes + "\n"@ =~= name + quote + "\n"@);
    }
}

proof fn lemma_audio_line(devices: Seq<InputDevice>, selected: Option<nat>, i: int)
    requires
        0 <= i < devices.len(),
    ensures
        occurs_in(
            audio_line(devices[i], selected == Some(i as nat)),
            audio_lines(devices, selected),
        ),
    decreases devices.len(),
{
    let nothing = Seq::<char>::empty();
    let line = audio_line(devices[i], selected == Some(i as nat));
    let earlier = audio_lines(devices.drop_last(), selected);
    let last = audio_line(devices.last(), selected == Some((devices.len() - 1) as nat));
    if i < devices.len() - 1 {
        assert(devices.drop_last()[i] == devices[i]);
        lemma_audio_line(devices.drop_last(), selected, i);
        a_part_still_occurs(line, nothing, earlier, last);
        assert(nothing + earlier + last =~= audio_lines(devices, selected));
    } else {
        a_part_occurs(earlier, line, nothing);
        assert(earlier + line + nothing =~= audio_lines(devices, selected));
    }
}

/// A name in the configuration which fits no microphone is called out, whether
/// or not there are any.
pub proof fn a_stale_name_is_called_out(devices: Seq<InputDevice>, hint: Seq<char>)
    requires
        selected_by(devices, Some(hint)) is None,
    ensures
        occurs_in("(\""@ + hint + "\") matches none of these"@, audio_text(devices, Some(hint))),
{
    let named = "(\""@ + hint + "\") matches none of these"@;
    let said = unmatched_text(devices, Some(hint));
    reveal_strlit("\n  Your configured audio.device (\"");
    reveal_strlit("\n  Your configured audio.device ");
    reveal_strlit("(\"");
    reveal_strlit("\") matches none of these.\n");
    reveal_strlit("\") matches none of these");
    reveal_strlit(".\n");
    assert("\n  Your configured audio.device (\""@ =~= "\n  Your configured audio.device "@
        + "(\""@);
    assert("\") matches none of these.\n"@ =~= "\") matches none of these"@ + ".\n"@);
    assert("\n  Your configured audio.device "@ + named + ".\n"@ =~= said);
    a_part_occurs("\n  Your configured audio.device "@, named, ".\n"@);
    if devices.len() == 0 {
        let start = AUDIO_HEADING@ + "\n  (none — no audio input devices could be seen)\n"@;
        a_part_still_occurs(named, start, said, Seq::empty());
        assert(start + said + Seq::empty() =~= audio_text(devices, Some(hint)));
    } else {
        let start = AUDIO_HEADING@ + "\n"@ + audio_lines(devices, None);
        let end =
            "\n  Copy any part of a name into 'audio.device' to use that microphone; matching ignores case.\n"@;
        a_part_still_occurs(named, start, said, end);
        assert(start + said + end =~= audio_text(devices, Some(hint)));
    }
}

/// Every device a hotkey can live on is listed with its path, its name and how
/// it ranks, and what `device: auto` picks is marked.
pub proof fn every_hotkey_device_is_listed(
    devices: Seq<ListedDevice>,
    chosen: Option<nat>,
    i: int,
)
    requires
        0 <= i < devices.len(),
    ensures
        ({
            let text = hotkey_text(devices, chosen);
            let device = devices[i];
            let named = "  \""@ + device.name@ + "\" — "@ + device.rank.spec_describe();
            &&& occurs_in(device.path@, text)
            &&& chosen == Some(i as nat) ==> occurs_in(
                named + "; 'device: auto' picks this one\n"@,
                text,
            )
            &&& chosen != Some(i as nat) ==> occurs_in(named + "\n"@, text)
        }),
{
    let width = widest(devices);
    let lines = hotkey_lines(devices, width, chosen);
    let start = HOTKEY_HEADING@ + "\n"@;
    let end = (if chosen is None {
        "\n  Nothing here reports 'leftctrl', so 'device: auto' has nothing to prefer; the ranking above is what it would choose between for another key.\n"@
    } else {
        Seq::empty()
    })
        + "\n  Copy a path, or any part of a name, into 'hotkey.device'; 'auto' picks the best-ranked device which reports your key.\n"@;
    let text = hotkey_text(devices, chosen);
    let device = devices[i];
    let is_chosen = chosen == Some(i as nat);
    let line = hotkey_line(device, width, is_chosen);
    assert(start + lines + end =~= text);
    lemma_hotkey_line(devices, width, chosen, i);
    a_part_still_occurs(line, start, lines, end);
    let indent = if is_chosen {
        "  * "@
    } else {
        "    "@
    };
    let path = device.path@;
    let padding = filled(path, width).skip(path.len() as int);
    assert(filled(path, width) =~= path + padding);
    let said = "  \""@ + device.name@ + "\" — "@ + device.rank.spec_describe() + if is_chosen {
        "; 'device: auto' picks this one\n"@
    } else {
        "\n"@
    };
    a_part_occurs(indent, path, padding + said);
    assert(indent + path + (padding + said) =~= line);
    a_part_of_a_part_occurs(path, line, text);
    a_part_occurs(indent + path + padding, said, Seq::empty());
    assert(indent + path + padding + said + Seq::empty() =~= line);
    a_part_of_a_part_occurs(said, line, text);
}

proof fn lemma_hotkey_line(
    devices: Seq<ListedDevice>,
    width: nat,
    chosen: Option<nat>,
    i: int,
)
    requires
        0 <= i < devices.len(),
    ensures
        occurs_in(
            hotkey_line(devices[i], width, chosen == Some(i as nat)),
            hotkey_lines(devices, width, chosen),
        ),
    decreases devices.len(),
{
    let nothing = Seq::<char>::empty();
    let line = hotkey_line(devices[i], width, chosen == Some(i as nat));
    let earlier = hotkey_lines(devices.drop_last(), width, chosen);
    let last = hotkey_line(devices.last(), width, chosen == Some((devices.len() - 1) as nat));
    if i < devices.len() - 1 {
        assert(devices.drop_last()[i] == devices[i]);
        lemma_hotkey_line(devices.drop_last(), width, chosen, i);
        a_part_still_occurs(line, nothing, earlier, last);
        assert(nothing + earlier + last =~= hotkey_lines(devices, width, chosen));
    } else {
        a_part_occurs(earlier, line, nothing);
        assert(earlier + line + nothing =~= hotkey_lines(devices, width, chosen));
    }
}

/// The column of paths is as wide as the longest of them, and no wider.
pub proof fn the_longest_path_sets_the_width(devices: Seq<ListedDevice>, i: int)
    ensures
        0 <= i < devices.len() ==> byte_len(devices[i].path@) <= widest(devices),
        devices.len() > 0 ==> exists|k: int|
            0 <= k < devices.len() && byte_len((#[trigger] devices[k]).path@) == widest(devices),
    decreases devices.len(),
{
    if devices.len() > 0 {
        let fewer = devices.drop_last();
        let end = devices.len() - 1;
        the_longest_path_sets_the_width(fewer, i);
        if 0 <= i < end {
            assert(fewer[i] == devices[i]);
        }
        if widest(devices) == byte_len(devices[end].path@) {
        } else {
            let k = choose|k: int|
                0 <= k < fewer.len() && byte_len((#[trigger] fewer[k]).path@) == widest(fewer);
            assert(devices[k] == fewer[k]);
        }
    }
}

} // verus!
