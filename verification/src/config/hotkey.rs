//! The optional `hotkey:` block: which device to watch, which key to watch
//! for, and how that key affects listening.
//!
//! Every field is optional, because the same block is written in two places: a
//! profile, and the machine-level configuration file. The two are merged field
//! by field in [`resolve`], and the hotkey is active if and only if a `key`
//! emerges from that merge.

use super::output::KeyName;
use crate::errors::{optional, user_error, Error, ErrorView};
use crate::hotkey::ListenMode;
use vstd::prelude::*;

verus! {

/// The global listen hotkey, as written in a profile or in the machine-level
/// configuration file. Every field may be left out; see [`resolve`].
#[derive(Debug, Clone, PartialEq, Eq)]
pub struct HotkeyConfig {
    /// `auto`, a `/dev/input/event*` path, or a substring of the device name.
    pub device: Option<String>,
    /// The key which controls listening.
    pub key: Option<KeyName>,
    /// How pressing the key changes the listening state.
    pub mode: Option<ListenMode>,
    /// Whether stopping listening also stops whatever is being typed.
    pub interrupt: Option<bool>,
}

impl Default for HotkeyConfig {
    fn default() -> (config: Self)
        ensures
            config.device is None,
            config.key is None,
            config.mode is None,
            config.interrupt is None,
    {
        HotkeyConfig { device: None, key: None, mode: None, interrupt: None }
    }
}

/// A hotkey with every question answered: what the profile said, what the
/// machine said, and what the defaults say, resolved into one thing.
#[derive(Debug, Clone, PartialEq, Eq)]
pub struct ResolvedHotkey {
    /// `auto`, a `/dev/input/event*` path, or a substring of the device name.
    pub device: String,
    /// The key which controls listening.
    pub key: KeyName,
    /// How pressing the key changes the listening state.
    pub mode: ListenMode,
    /// Whether stopping listening also stops whatever is being typed.
    pub interrupt: bool,
}

/// A [`ResolvedHotkey`] in mathematical terms.
#[verifier::ext_equal]
pub struct ResolvedHotkeyView {
    pub device: Seq<char>,
    pub key: KeyName,
    pub mode: ListenMode,
    pub interrupt: bool,
}

impl View for ResolvedHotkey {
    type V = ResolvedHotkeyView;

    open spec fn view(&self) -> ResolvedHotkeyView {
        ResolvedHotkeyView {
            device: self.device@,
            key: self.key,
            mode: self.mode,
            interrupt: self.interrupt,
        }
    }
}

/// The profile's value where it has one, else the machine's.
pub open spec fn either<T>(profile: Option<T>, system: Option<T>) -> Option<T> {
    match profile {
        Some(value) => Some(value),
        None => system,
    }
}

/// The device a block names.
pub open spec fn device_in(block: Option<HotkeyConfig>) -> Option<Seq<char>> {
    match block {
        Some(block) => optional(block.device),
        None => None,
    }
}

/// The key a block names.
pub open spec fn key_in(block: Option<HotkeyConfig>) -> Option<KeyName> {
    match block {
        Some(block) => block.key,
        None => None,
    }
}

/// The mode a block names.
pub open spec fn mode_in(block: Option<HotkeyConfig>) -> Option<ListenMode> {
    match block {
        Some(block) => block.mode,
        None => None,
    }
}

/// Whether a block asks for interruption.
pub open spec fn interrupt_in(block: Option<HotkeyConfig>) -> Option<bool> {
    match block {
        Some(block) => block.interrupt,
        None => None,
    }
}

/// What is said of a profile which asks for a hotkey without a key turning up.
pub open spec fn missing_key() -> ErrorView {
    user_error(
        "This profile configures a listen hotkey, but its 'key' field is missing — neither the profile nor your voice-orders configuration says which key should control listening."@,
        seq![
            "Add a 'key:' line to the profile's 'hotkey:' block, e.g. 'key: rightctrl'; the key reference in the documentation lists every name we accept."@,
            "Or set it once for this machine, under 'hotkey:' in ~/.config/voice-orders/config.yaml, so that every profile you run picks it up."@,
        ],
    )
}

/// What a profile's block and the machine's come to, taken together: for each
/// field the profile's value, else the machine's, else the default. There is a
/// hotkey exactly where a key emerges; a profile which asks for one without a
/// key is at fault.
pub open spec fn merged(profile: Option<HotkeyConfig>, system: Option<HotkeyConfig>) -> Result<
    Option<ResolvedHotkeyView>,
    ErrorView,
> {
    match either(key_in(profile), key_in(system)) {
        Some(key) => Ok(
            Some(
                ResolvedHotkeyView {
                    device: match either(device_in(profile), device_in(system)) {
                        Some(device) => device,
                        None => "auto"@,
                    },
                    key,
                    mode: match either(mode_in(profile), mode_in(system)) {
                        Some(mode) => mode,
                        None => ListenMode::Toggle,
                    },
                    interrupt: match either(interrupt_in(profile), interrupt_in(system)) {
                        Some(interrupt) => interrupt,
                        None => false,
                    },
                },
            ),
        ),
        None => if profile is Some {
            Err(missing_key())
        } else {
            Ok(None)
        },
    }
}

/// The block behind an optional reference.
pub open spec fn block(config: Option<&HotkeyConfig>) -> Option<HotkeyConfig> {
    match config {
        Some(config) => Some(*config),
        None => None,
    }
}

/// A hotkey which may be missing, in mathematical terms.
pub open spec fn hotkey_view(hotkey: Option<ResolvedHotkey>) -> Option<ResolvedHotkeyView> {
    match hotkey {
        Some(hotkey) => Some(hotkey@),
        None => None,
    }
}

/// Merges a profile's `hotkey:` block with the machine's, field by field.
///
/// The one error case is a profile which *asked* for a hotkey without a key
/// ever turning up, in which case nothing would ever control listening. A
/// machine which configures a hotkey without a key, on the other hand, is only
/// offering a default to profiles which want one, so a profile with no block
/// of its own is left listening continuously.
pub fn resolve(profile: Option<&HotkeyConfig>, system: Option<&HotkeyConfig>) -> (resolved: Result<
    Option<ResolvedHotkey>,
    Error,
>)
    ensures
        match resolved {
            Ok(hotkey) => merged(block(profile), block(system)) == Ok::<
                Option<ResolvedHotkeyView>,
                ErrorView,
            >(hotkey_view(hotkey)),
            Err(error) => merged(block(profile), block(system)) == Err::<
                Option<ResolvedHotkeyView>,
                ErrorView,
            >(error@),
        },
{
    let asked = profile.is_some();
    let (device, key, mode, interrupt) = match profile {
        Some(hotkey) => (hotkey.device.clone(), hotkey.key, hotkey.mode, hotkey.interrupt),
        None => (None, None, None, None),
    };
    let (their_device, their_key, their_mode, their_interrupt) = match system {
        Some(hotkey) => (hotkey.device.clone(), hotkey.key, hotkey.mode, hotkey.interrupt),
        None => (None, None, None, None),
    };
    let key = match key {
        Some(key) => Some(key),
        None => their_key,
    };
    match key {
        Some(key) => {
            let device = match device {
                Some(device) => device,
                None => match their_device {
                    Some(device) => device,
                    None => super::defaults::hotkey_device(),
                },
            };
            let mode = match mode {
                Some(mode) => mode,
                None => match their_mode {
                    Some(mode) => mode,
                    None => ListenMode::Toggle,
                },
            };
            let interrupt = match interrupt {
                Some(interrupt) => interrupt,
                None => match their_interrupt {
                    Some(interrupt) => interrupt,
                    None => false,
                },
            };
            Ok(Some(ResolvedHotkey { device, key, mode, interrupt }))
        },
        None => if asked {
            let error = Error::user(
                "This profile configures a listen hotkey, but its 'key' field is missing — neither the profile nor your voice-orders configuration says which key should control listening.".to_owned(),
                vec![
                    "Add a 'key:' line to the profile's 'hotkey:' block, e.g. 'key: rightctrl'; the key reference in the documentation lists every name we accept.",
                    "Or set it once for this machine, under 'hotkey:' in ~/.config/voice-orders/config.yaml, so that every profile you run picks it up.",
                ],
            );
            assert(error@ =~= missing_key());
            Err(error)
        } else {
            Ok(None)
        },
    }
}

/// The hotkey is active exactly where a key emerges from the merge.
pub proof fn a_hotkey_needs_a_key(profile: Option<HotkeyConfig>, system: Option<HotkeyConfig>)
    ensures
        (merged(profile, system) matches Ok(Some(_))) == (key_in(profile) is Some || key_in(
            system,
        ) is Some),
{
}

/// A profile wins every field it sets.
pub proof fn the_profile_wins(
    profile: HotkeyConfig,
    system: Option<HotkeyConfig>,
    resolved: ResolvedHotkeyView,
)
    requires
        merged(Some(profile), system) == Ok::<Option<ResolvedHotkeyView>, ErrorView>(
            Some(resolved),
        ),
    ensures
        profile.key matches Some(key) ==> resolved.key == key,
        profile.mode matches Some(mode) ==> resolved.mode == mode,
        profile.interrupt matches Some(interrupt) ==> resolved.interrupt == interrupt,
        profile.device matches Some(device) ==> resolved.device == device@,
{
}

/// A machine's block without a key cannot activate a hotkey for a profile with
/// no block of its own.
pub proof fn a_silent_profile_stays_silent(system: Option<HotkeyConfig>)
    requires
        key_in(system) is None,
    ensures
        merged(None, system) == Ok::<Option<ResolvedHotkeyView>, ErrorView>(None),
{
}

/// What a profile leaves open the machine fills in, and what both leave open has
/// a default: any keyboard, a press which toggles, and no interruption.
pub proof fn the_machine_fills_what_is_left_open(
    profile: Option<HotkeyConfig>,
    system: Option<HotkeyConfig>,
    resolved: ResolvedHotkeyView,
)
    requires
        merged(profile, system) == Ok::<Option<ResolvedHotkeyView>, ErrorView>(Some(resolved)),
    ensures
        profile is None || profile->0.key is None ==> system is Some && system->0.key == Some(
            resolved.key,
        ),
        profile is None || profile->0.mode is None ==> resolved.mode == if system is Some
            && system->0.mode is Some {
            system->0.mode->0
        } else {
            ListenMode::Toggle
        },
        profile is None || profile->0.interrupt is None ==> resolved.interrupt == (system is Some
            && system->0.interrupt == Some(true)),
        profile is None || profile->0.device is None ==> resolved.device == if system is Some
            && system->0.device is Some {
            system->0.device->0@
        } else {
            "auto"@
        },
{
}

/// A profile is at fault exactly where it asks for a hotkey and no key turns up.
pub proof fn only_an_unanswered_profile_is_at_fault(
    profile: Option<HotkeyConfig>,
    system: Option<HotkeyConfig>,
)
    ensures
        merged(profile, system) is Err <==> {
            &&& profile is Some && profile->0.key is None
            &&& system is None || system->0.key is None
        },
        profile is None && (system is None || system->0.key is None) ==> merged(profile, system)
            == Ok::<Option<ResolvedHotkeyView>, ErrorView>(None),
{
}

} // verus!
