//! Picking a microphone and an input format.
//!
//! Device selection follows the profile's `audio.device` option: `default`
//! uses the host's default input device, anything else is a case-insensitive
//! substring of the device name.
//!
//! Format selection prefers exactly what the model wants (the target rate,
//! mono, `i16`) and otherwise takes the nearest configuration which can be
//! converted from.

use super::errors::AudioError;
use super::DEFAULT_DEVICE_HINT;
use crate::errors::{user_error, Error, HumanizableError};
use crate::text::{
    contains, eq_ignoring_case, join, joined, lower_case, lower_case_of, occurs_in,
    same_but_for_case, trim, trimmed, views,
};
use vstd::prelude::*;

verus! {

/// How a device encodes a sample.
#[derive(Debug, Clone, Copy, PartialEq, Eq, Structural)]
pub enum SampleFormat {
    I8,
    I16,
    I24,
    I32,
    I64,
    U8,
    U16,
    U24,
    U32,
    U64,
    F32,
    F64,
    DsdU8,
    DsdU16,
    DsdU32,
}

impl SampleFormat {
    /// What the format is called.
    pub open spec fn spec_name(self) -> Seq<char> {
        match self {
            SampleFormat::I8 => "i8"@,
            SampleFormat::I16 => "i16"@,
            SampleFormat::I24 => "i24"@,
            SampleFormat::I32 => "i32"@,
            SampleFormat::I64 => "i64"@,
            SampleFormat::U8 => "u8"@,
            SampleFormat::U16 => "u16"@,
            SampleFormat::U24 => "u24"@,
            SampleFormat::U32 => "u32"@,
            SampleFormat::U64 => "u64"@,
            SampleFormat::F32 => "f32"@,
            SampleFormat::F64 => "f64"@,
            SampleFormat::DsdU8 => "dsdu8"@,
            SampleFormat::DsdU16 => "dsdu16"@,
            SampleFormat::DsdU32 => "dsdu32"@,
        }
    }

    /// What the format is called.
    pub fn name(self) -> (name: &'static str)
        ensures
            name@ == self.spec_name(),
    {
        match self {
            SampleFormat::I8 => "i8",
            SampleFormat::I16 => "i16",
            SampleFormat::I24 => "i24",
            SampleFormat::I32 => "i32",
            SampleFormat::I64 => "i64",
            SampleFormat::U8 => "u8",
            SampleFormat::U16 => "u16",
            SampleFormat::U24 => "u24",
            SampleFormat::U32 => "u32",
            SampleFormat::U64 => "u64",
            SampleFormat::F32 => "f32",
            SampleFormat::F64 => "f64",
            SampleFormat::DsdU8 => "dsdu8",
            SampleFormat::DsdU16 => "dsdu16",
            SampleFormat::DsdU32 => "dsdu32",
        }
    }
}

/// A configuration a device supports, over a range of sample rates.
#[derive(Debug, Clone, Copy, PartialEq, Eq, Structural)]
pub struct ConfigRange {
    pub channels: u16,
    pub min_rate: u32,
    pub max_rate: u32,
    pub format: SampleFormat,
}

/// A configuration to run a device in.
#[derive(Debug, Clone, Copy, PartialEq, Eq, Structural)]
pub struct StreamConfig {
    pub channels: u16,
    pub rate: u32,
    pub format: SampleFormat,
}

/// Which device a hint names.
#[derive(Debug, Clone, Copy, PartialEq, Eq, Structural)]
pub enum Selected {
    /// The host's default input device.
    Default,
    /// The device at an index of the enumeration.
    Listed(usize),
}

/// Whether a hint asks for whatever the system considers default.
pub open spec fn wants_default(hint: Seq<char>) -> bool {
    trimmed(hint).len() == 0 || same_but_for_case(trimmed(hint), "default"@)
}

/// Whether a device's name contains what a hint says, whatever the case.
pub open spec fn named_by(name: Seq<char>, hint: Seq<char>) -> bool {
    occurs_in(lower_case(trimmed(hint)), lower_case(name))
}

/// The first device a hint names, or as many as there are where it names none.
pub open spec fn first_named(names: Seq<Seq<char>>, hint: Seq<char>) -> nat
    decreases names.len(),
{
    if names.len() == 0 || named_by(names[0], hint) {
        0
    } else {
        1 + first_named(names.drop_first(), hint)
    }
}

/// What is said when there is no default device.
pub open spec fn no_default() -> crate::errors::ErrorView {
    user_error(
        "We could not find a default audio input device to listen on."@,
        seq![
            "Make sure that a microphone is plugged in and enabled in your sound settings."@,
            "Set audio.device in your profile to part of the name of the microphone you want to use."@,
        ],
    )
}

/// What is said when no device is named by a hint.
pub open spec fn no_match(hint: Seq<char>, seen: Seq<Seq<char>>) -> crate::errors::ErrorView {
    user_error(
        no_match_text(trimmed(hint), seen),
        seq![
            "Set audio.device to 'default' to use your system's default microphone."@,
            "Set audio.device to part of one of the device names we listed (matching ignores case)."@,
        ],
    )
}

/// The message for a hint which names none of the devices that can be seen.
pub open spec fn no_match_text(hint: Seq<char>, seen: Seq<Seq<char>>) -> Seq<char> {
    if seen.len() == 0 {
        "We could not find an audio input device whose name contains \""@ + hint
            + "\" — in fact we could not see any audio input devices at all."@
    } else {
        "We could not find an audio input device whose name contains \""@ + hint
            + "\". The input devices we can see are: "@ + joined(seen, ", "@) + "."@
    }
}

/// Finds the input device named by `hint` among those the host lists, or its
/// default one.
pub fn select_input_device(hint: &str, has_default: bool, names: &[String]) -> (selected: Result<
    Selected,
    Error,
>)
    ensures
        match selected {
            Ok(Selected::Default) => wants_default(hint@) && has_default,
            Ok(Selected::Listed(i)) => {
                &&& !wants_default(hint@)
                &&& i < names.len()
                &&& i == first_named(views(names@), hint@)
            },
            Err(error) => {
                ||| wants_default(hint@) && !has_default && error@ == no_default()
                ||| !wants_default(hint@) && first_named(views(names@), hint@) == names.len()
                    && error@ == no_match(hint@, views(names@))
            },
        },
{
    let wanted = trim(hint);
    if wanted.as_str().is_empty() || eq_ignoring_case(wanted.as_str(), DEFAULT_DEVICE_HINT) {
        return if has_default {
            Ok(Selected::Default)
        } else {
            Err(
                Error::user(
                    "We could not find a default audio input device to listen on.".to_owned(),
                    vec![
                        "Make sure that a microphone is plugged in and enabled in your sound settings.",
                        "Set audio.device in your profile to part of the name of the microphone you want to use.",
                    ],
                ),
            )
        };
    }
    let needle = lower_case_of(wanted.as_str());
    let ghost all = views(names@);
    assert(all.skip(0) == all);
    for i in 0..names.len()
        invariant
            all == views(names@),
            needle@ == lower_case(trimmed(hint@)),
            !wants_default(hint@),
            first_named(all, hint@) == i + first_named(all.skip(i as int), hint@),
    {
        assert(all.skip(i as int)[0] == names@[i as int]@);
        assert(all.skip(i as int).drop_first() == all.skip(i + 1));
        let name = lower_case_of(names[i].as_str());
        if contains(name.as_str(), needle.as_str()) {
            return Ok(Selected::Listed(i));
        }
    }
    Err(
        Error::user(
            no_match_message(wanted.as_str(), names),
            vec![
                "Set audio.device to 'default' to use your system's default microphone.",
                "Set audio.device to part of one of the device names we listed (matching ignores case).",
            ],
        ),
    )
}

/// The message for a hint which names none of the devices that can be seen.
pub fn no_match_message(hint: &str, seen: &[String]) -> (message: String)
    ensures
        message@ == no_match_text(hint@, views(seen@)),
{
    let mut message =
        "We could not find an audio input device whose name contains \"".to_owned();
    message.append(hint);
    if seen.len() == 0 {
        message.append("\" — in fact we could not see any audio input devices at all.");
        return message;
    }
    message.append("\". The input devices we can see are: ");
    message.append(join(seen, ", ").as_str());
    message.append(".");
    message
}

/// One input device, as the `devices` command lists it.
#[derive(Debug, Clone, PartialEq, Eq)]
pub struct InputDevice {
    /// The device's name: the string `audio.device` substring-matches.
    pub name: String,
    /// Whether this is the device `audio.device: default` would pick.
    pub is_default: bool,
}

/// An [`InputDevice`] in mathematical terms.
#[verifier::ext_equal]
pub struct InputDeviceView {
    pub name: Seq<char>,
    pub is_default: bool,
}

impl View for InputDevice {
    type V = InputDeviceView;

    open spec fn view(&self) -> InputDeviceView {
        InputDeviceView { name: self.name@, is_default: self.is_default }
    }
}

/// Each of some devices in mathematical terms.
pub open spec fn device_views(devices: Seq<InputDevice>) -> Seq<InputDeviceView> {
    devices.map_values(|device: InputDevice| device@)
}

/// Whether the name at an index is the first occurrence of the default's.
pub open spec fn marks_default(names: Seq<Seq<char>>, default: Option<Seq<char>>, i: int) -> bool {
    &&& default == Some(names[i])
    &&& forall|j: int| 0 <= j < i ==> #[trigger] names[j] != names[i]
}

/// The listing of some names: the first one equal to the default's is marked,
/// and a default which is not among them stands in front.
pub open spec fn listing(names: Seq<Seq<char>>, default: Option<Seq<char>>) -> Seq<InputDeviceView> {
    let listed = names.map(
        |i: int, name: Seq<char>|
            InputDeviceView { name, is_default: marks_default(names, default, i) },
    );
    match default {
        Some(name) if !names.contains(name) => seq![
            InputDeviceView { name, is_default: true },
        ] + listed,
        _ => listed,
    }
}

/// Every input device the host can see, in enumeration order, with the system
/// default marked.
///
/// A default device which does not appear in the enumeration (some backends
/// keep it separate) is added at the front rather than left out, since it is
/// the one every profile gets without asking.
pub fn list_input_devices(default: Option<String>, names: Vec<String>) -> (devices: Vec<InputDevice>)
    ensures
        device_views(devices@) == listing(views(names@), crate::errors::optional(default)),
{
    let ghost all = views(names@);
    let ghost wanted = crate::errors::optional(default);
    let ghost target = all.map(
        |i: int, name: Seq<char>|
            InputDeviceView { name, is_default: marks_default(all, wanted, i) },
    );
    let mut devices: Vec<InputDevice> = Vec::new();
    let mut seen_default = false;
    for i in 0..names.len()
        invariant
            all == views(names@),
            wanted == crate::errors::optional(default),
            target == all.map(
                |i: int, name: Seq<char>|
                    InputDeviceView { name, is_default: marks_default(all, wanted, i) },
            ),
            device_views(devices@) == target.take(i as int),
            seen_default == exists|j: int| 0 <= j < i && wanted == Some(#[trigger] all[j]),
    {
        assert(all[i as int] == names@[i as int]@);
        let equal = match &default {
            Some(name) => crate::text::same_text(names[i].as_str(), name.as_str()),
            None => false,
        };
        let is_default = !seen_default && equal;
        assert(equal == (wanted == Some(all[i as int])));
        assert(is_default == marks_default(all, wanted, i as int)) by {
            if seen_default && equal {
                let j = choose|j: int| 0 <= j < i && wanted == Some(#[trigger] all[j]);
                assert(all[j] == all[i as int]);
            }
        }
        seen_default = seen_default || is_default;
        let ghost earlier = devices@;
        devices.push(InputDevice { name: names[i].clone(), is_default });
        assert(device_views(devices@) == device_views(earlier).push(devices@.last()@));
        assert(target.take(i + 1) == target.take(i as int).push(target[i as int]));
    }
    assert(target.take(names.len() as int) == target);
    if let Some(name) = default {
        if !seen_default {
            assert(!all.contains(name@)) by {
                if all.contains(name@) {
                    let j = choose|j: int| 0 <= j < all.len() && all[j] == name@;
                    assert(wanted == Some(all[j]));
                }
            }
            let ghost listed = devices@;
            devices.insert(0, InputDevice { name, is_default: true });
            assert(device_views(devices@) == seq![
                InputDeviceView { name: name@, is_default: true },
            ] + device_views(listed));
        } else {
            let ghost j = choose|j: int| 0 <= j < all.len() && wanted == Some(#[trigger] all[j]);
            assert(all.contains(all[j]));
        }
    }
    devices
}

/// How much we like a sample format, or `None` if we cannot convert it: `i16`
/// needs no conversion at all, `f32` is what a sound server usually offers,
/// and `u16` is a re-centring away.
pub open spec fn spec_format_rank(format: SampleFormat) -> Option<u8> {
    match format {
        SampleFormat::I16 => Some(0),
        SampleFormat::F32 => Some(1),
        SampleFormat::U16 => Some(2),
        _ => None,
    }
}

/// How much we like a sample format, or `None` if we cannot convert it.
pub fn format_rank(format: SampleFormat) -> (rank: Option<u8>)
    ensures
        rank == spec_format_rank(format),
{
    match format {
        SampleFormat::I16 => Some(0),
        SampleFormat::F32 => Some(1),
        SampleFormat::U16 => Some(2),
        _ => None,
    }
}

/// Whether a range is exactly the model's preferred format: mono, `i16`, and
/// able to run at the target rate.
pub open spec fn exact_match(range: ConfigRange, target_rate: u32) -> bool {
    &&& range.channels == 1
    &&& range.format == SampleFormat::I16
    &&& range.min_rate <= target_rate <= range.max_rate
}

/// Whether a range is exactly the model's preferred format.
pub fn is_exact_match(range: &ConfigRange, target_rate: u32) -> (is: bool)
    ensures
        is == exact_match(*range, target_rate),
{
    range.channels == 1 && range.format == SampleFormat::I16 && range.min_rate <= target_rate
        && range.max_rate >= target_rate
}

/// The rate a range can run at which is closest to the target.
pub open spec fn nearest_rate(range: ConfigRange, target_rate: u32) -> u32 {
    if target_rate < range.min_rate {
        range.min_rate
    } else if target_rate > range.max_rate {
        range.max_rate
    } else {
        target_rate
    }
}

/// The rate a range can run at which is closest to the target.
pub fn achievable_rate(range: &ConfigRange, target_rate: u32) -> (rate: u32)
    ensures
        rate == nearest_rate(*range, target_rate),
{
    if target_rate < range.min_rate {
        range.min_rate
    } else if target_rate > range.max_rate {
        range.max_rate
    } else {
        target_rate
    }
}

/// The achievable rate is in the range, and no rate in the range is closer to
/// the target.
pub proof fn the_achievable_rate_is_the_nearest(range: ConfigRange, target_rate: u32, other: u32)
    requires
        range.min_rate <= range.max_rate,
        range.min_rate <= other <= range.max_rate,
    ensures
        range.min_rate <= nearest_rate(range, target_rate) <= range.max_rate,
        ({
            let distance = |rate: u32| if rate < target_rate { target_rate - rate } else {
                rate - target_rate
            };
            distance(nearest_rate(range, target_rate)) <= distance(other)
        }),
{
}

/// The rank of a range; lower sorts better.
///
/// The target rate itself wins, then exact integer multiples of it (they
/// decimate cleanly), then whatever is numerically closest. Ties are broken
/// towards fewer channels and then towards the cheapest sample format.
pub open spec fn rank_of(range: ConfigRange, target_rate: u32) -> (u8, u64, u16, u8) {
    let rate = nearest_rate(range, target_rate);
    let class: u8 = if rate == target_rate {
        0
    } else if target_rate > 0 && rate % target_rate == 0 {
        1
    } else {
        2
    };
    let distance: u64 = if rate < target_rate {
        (target_rate - rate) as u64
    } else {
        (rate - target_rate) as u64
    };
    let format: u8 = match spec_format_rank(range.format) {
        Some(rank) => rank,
        None => 255,
    };
    (class, distance, range.channels, format)
}

/// Ranks a configuration range; lower sorts better.
pub fn rank(range: &ConfigRange, target_rate: u32) -> (rank: (u8, u64, u16, u8))
    ensures
        rank == rank_of(*range, target_rate),
{
    let rate = achievable_rate(range, target_rate);
    let class: u8 = if rate == target_rate {
        0
    } else if target_rate > 0 && rate % target_rate == 0 {
        1
    } else {
        2
    };
    let distance: u64 = if rate < target_rate {
        (target_rate - rate) as u64
    } else {
        (rate - target_rate) as u64
    };
    let format: u8 = match format_rank(range.format) {
        Some(rank) => rank,
        None => 255,
    };
    (class, distance, range.channels, format)
}

/// Whether one rank sorts before another, by the first field which differs.
pub open spec fn before(a: (u8, u64, u16, u8), b: (u8, u64, u16, u8)) -> bool {
    ||| a.0 < b.0
    ||| a.0 == b.0 && a.1 < b.1
    ||| a.0 == b.0 && a.1 == b.1 && a.2 < b.2
    ||| a.0 == b.0 && a.1 == b.1 && a.2 == b.2 && a.3 < b.3
}

/// Whether one rank sorts before another.
fn is_before(a: (u8, u64, u16, u8), b: (u8, u64, u16, u8)) -> (is: bool)
    ensures
        is == before(a, b),
{
    a.0 < b.0 || (a.0 == b.0 && (a.1 < b.1 || (a.1 == b.1 && (a.2 < b.2 || (a.2 == b.2 && a.3
        < b.3)))))
}

/// Whether a range is in a format which can be converted from.
pub open spec fn convertible(range: ConfigRange) -> bool {
    spec_format_rank(range.format) is Some
}

/// Whether the range at an index is the first of the best ranked ones which
/// can be converted from.
pub open spec fn is_best(ranges: Seq<ConfigRange>, target_rate: u32, i: int) -> bool {
    &&& 0 <= i < ranges.len()
    &&& convertible(ranges[i])
    &&& forall|j: int|
        0 <= j < ranges.len() && convertible(#[trigger] ranges[j]) ==> !before(
            rank_of(ranges[j], target_rate),
            rank_of(ranges[i], target_rate),
        )
    &&& forall|j: int|
        0 <= j < i && convertible(#[trigger] ranges[j]) ==> before(
            rank_of(ranges[i], target_rate),
            rank_of(ranges[j], target_rate),
        )
}

/// Whether some range is an exact match.
pub open spec fn some_exact(ranges: Seq<ConfigRange>, target_rate: u32) -> bool {
    exists|i: int| 0 <= i < ranges.len() && exact_match(#[trigger] ranges[i], target_rate)
}

/// Whether a configuration is the one the ranges give: the first exact match
/// at the target rate, or else the best ranked range at its nearest rate.
pub open spec fn chosen(ranges: Seq<ConfigRange>, target_rate: u32, config: StreamConfig) -> bool {
    if some_exact(ranges, target_rate) {
        config == (StreamConfig { channels: 1, rate: target_rate, format: SampleFormat::I16 })
    } else {
        exists|i: int|
            {
                &&& #[trigger] is_best(ranges, target_rate, i)
                &&& ranges[i].min_rate <= ranges[i].max_rate
                &&& config == (StreamConfig {
                    channels: ranges[i].channels,
                    rate: nearest_rate(ranges[i], target_rate),
                    format: ranges[i].format,
                })
            }
    }
}

/// Whether the ranges give no configuration: none of them is an exact match,
/// and none can be converted from, or the best of them contains no rate.
pub open spec fn none_chosen(ranges: Seq<ConfigRange>, target_rate: u32) -> bool {
    &&& !some_exact(ranges, target_rate)
    &&& {
        ||| forall|i: int| 0 <= i < ranges.len() ==> !convertible(#[trigger] ranges[i])
        ||| exists|i: int|
            #[trigger] is_best(ranges, target_rate, i) && ranges[i].min_rate > ranges[i].max_rate
    }
}

/// The ranges decide: they give one configuration, or none.
pub proof fn the_choice_is_determined(
    ranges: Seq<ConfigRange>,
    target_rate: u32,
    a: StreamConfig,
    b: StreamConfig,
)
    ensures
        chosen(ranges, target_rate, a) && chosen(ranges, target_rate, b) ==> a == b,
        !(chosen(ranges, target_rate, a) && none_chosen(ranges, target_rate)),
{
    assert forall|i: int, j: int|
        is_best(ranges, target_rate, i) && is_best(ranges, target_rate, j) implies i == j by {
        if i < j {
            assert(convertible(ranges[i]));
        } else if j < i {
            assert(convertible(ranges[j]));
        }
    }
}

/// The configuration a device's supported ranges give.
pub fn choose_from_ranges(ranges: &[ConfigRange], target_rate: u32) -> (config: Option<StreamConfig>)
    ensures
        match config {
            Some(config) => chosen(ranges@, target_rate, config),
            None => none_chosen(ranges@, target_rate),
        },
{
    let mut best: Option<usize> = None;
    for i in 0..ranges.len()
        invariant
            forall|j: int| 0 <= j < i ==> !exact_match(#[trigger] ranges@[j], target_rate),
            match best {
                Some(b) => b < i && is_best(ranges@.take(i as int), target_rate, b as int),
                None => forall|j: int| 0 <= j < i ==> !convertible(#[trigger] ranges@[j]),
            },
    {
        if is_exact_match(&ranges[i], target_rate) {
            return Some(
                StreamConfig { channels: 1, rate: target_rate, format: SampleFormat::I16 },
            );
        }
        let ghost earlier = ranges@.take(i as int);
        let ghost now = ranges@.take(i + 1);
        assert(now == earlier.push(ranges@[i as int]));
        if format_rank(ranges[i].format).is_some() {
            match best {
                Some(b) => {
                    if is_before(rank(&ranges[i], target_rate), rank(&ranges[b], target_rate)) {
                        assert(is_best(now, target_rate, i as int)) by {
                            assert forall|j: int| 0 <= j < i && convertible(#[trigger] now[j]) implies
                                before(
                                rank_of(now[i as int], target_rate),
                                rank_of(now[j], target_rate),
                            ) by {
                                assert(now[j] == earlier[j]);
                            }
                        }
                        best = Some(i);
                    } else {
                        assert(is_best(now, target_rate, b as int)) by {
                            assert forall|j: int|
                                0 <= j < now.len() && convertible(#[trigger] now[j]) implies !before(
                                rank_of(now[j], target_rate),
                                rank_of(now[b as int], target_rate),
                            ) by {
                                if j < i {
                                    assert(now[j] == earlier[j]);
                                }
                            }
                            assert forall|j: int| 0 <= j < b && convertible(#[trigger] now[j]) implies
                                before(
                                rank_of(now[b as int], target_rate),
                                rank_of(now[j], target_rate),
                            ) by {
                                assert(now[j] == earlier[j]);
                            }
                        }
                    }
                },
                None => {
                    best = Some(i);
                },
            }
        } else if let Some(b) = best {
            assert(is_best(now, target_rate, b as int)) by {
                assert forall|j: int| 0 <= j < now.len() && convertible(#[trigger] now[j]) implies !before(
                    rank_of(now[j], target_rate),
                    rank_of(now[b as int], target_rate),
                ) by {
                    assert(now[j] == earlier[j]);
                }
                assert forall|j: int| 0 <= j < b && convertible(#[trigger] now[j]) implies before(
                    rank_of(now[b as int], target_rate),
                    rank_of(now[j], target_rate),
                ) by {
                    assert(now[j] == earlier[j]);
                }
            }
        }
    }
    assert(ranges@.take(ranges.len() as int) == ranges@);
    match best {
        Some(b) => {
            assert(is_best(ranges@, target_rate, b as int));
            let range = ranges[b];
            let rate = achievable_rate(&range, target_rate);
            if range.min_rate <= rate && rate <= range.max_rate {
                Some(StreamConfig { channels: range.channels, rate, format: range.format })
            } else {
                None
            }
        },
        None => None,
    }
}

/// What is said of a device which only offers formats that cannot be read.
pub open spec fn unreadable(default: SampleFormat) -> crate::errors::ErrorView {
    user_error(
        "Your microphone only offers audio in formats we cannot read (its default is "@
            + default.spec_name() + ", and we understand i16, f32, u16)."@,
        seq![
            "Set audio.device in your profile to a different microphone."@,
            "If you are using PipeWire or PulseAudio, make sure the ALSA compatibility layer is installed so that the device is offered in a common format."@,
        ],
    )
}

/// Chooses an input configuration, preferring `target_rate` mono `i16` and
/// otherwise taking the nearest configuration which can be converted from, or
/// the device's default one.
///
/// `ranges` is empty where the device refuses to enumerate them.
pub fn choose_input_config(
    ranges: &[ConfigRange],
    default: Result<StreamConfig, AudioError>,
    target_rate: u32,
) -> (config: Result<StreamConfig, Error>)
    ensures
        match config {
            Ok(config) => {
                ||| chosen(ranges@, target_rate, config)
                ||| {
                    &&& none_chosen(ranges@, target_rate)
                    &&& default == Ok::<StreamConfig, AudioError>(config)
                    &&& spec_format_rank(config.format) is Some
                }
            },
            Err(error) => {
                &&& none_chosen(ranges@, target_rate)
                &&& match default {
                    Ok(config) => spec_format_rank(config.format) is None && error@ == unreadable(
                        config.format,
                    ),
                    Err(failure) => error@ == failure.humanized(),
                }
            },
        },
{
    if let Some(config) = choose_from_ranges(ranges, target_rate) {
        return Ok(config);
    }
    match default {
        Err(failure) => Err(failure.to_human_error()),
        Ok(config) => {
            if format_rank(config.format).is_some() {
                return Ok(config);
            }
            let mut description =
                "Your microphone only offers audio in formats we cannot read (its default is ".to_owned();
            description.append(config.format.name());
            description.append(", and we understand i16, f32, u16).");
            Err(
                Error::user(
                    description,
                    vec![
                        "Set audio.device in your profile to a different microphone.",
                        "If you are using PipeWire or PulseAudio, make sure the ALSA compatibility layer is installed so that the device is offered in a common format.",
                    ],
                ),
            )
        },
    }
}

/// A hint finds a device by any part of its name: the name in lower case is the
/// hint in lower case, but for the white space around it, with something before
/// and something behind it.
pub proof fn any_part_of_a_name_will_do(name: Seq<char>, hint: Seq<char>)
    ensures
        named_by(name, hint) <==> exists|before: Seq<char>, after: Seq<char>|
            lower_case(name) == #[trigger] (before + lower_case(trimmed(hint)) + after),
{
    let text = lower_case(name);
    let part = lower_case(trimmed(hint));
    if named_by(name, hint) {
        let at = choose|at: int|
            0 <= at <= text.len() - part.len() && #[trigger] text.subrange(at, at + part.len())
                == part;
        let before = text.take(at);
        let after = text.skip(at + part.len());
        assert(text =~= before + part + after);
    }
    if exists|before: Seq<char>, after: Seq<char>| text == #[trigger] (before + part + after) {
        let (before, after) = choose|before: Seq<char>, after: Seq<char>|
            text == #[trigger] (before + part + after);
        let at = before.len() as int;
        assert(text.subrange(at, at + part.len()) =~= part);
    }
}

/// Among the devices a hint names, the one listed first is taken, and it is one
/// of them: where there is any, none goes unfound.
pub proof fn the_first_device_named_is_taken(names: Seq<Seq<char>>, hint: Seq<char>, i: int)
    ensures
        ({
            let first = first_named(names, hint);
            &&& first <= names.len()
            &&& first < names.len() ==> named_by(names[first as int], hint)
            &&& 0 <= i < names.len() && named_by(names[i], hint) ==> first <= i
        }),
    decreases names.len(),
{
    if names.len() > 0 && !named_by(names[0], hint) {
        the_first_device_named_is_taken(names.drop_first(), hint, i - 1);
        if 0 < i < names.len() {
            assert(names.drop_first()[i - 1] == names[i]);
        }
    }
}

/// Every device is listed, in the order the host lists them, and a default which
/// the host does not list comes first.
pub proof fn every_device_is_listed(names: Seq<Seq<char>>, default: Option<Seq<char>>, i: int)
    requires
        0 <= i < names.len(),
    ensures
        ({
            let listed = listing(names, default);
            let extra: int = if default is Some && !names.contains(default->0) {
                1
            } else {
                0
            };
            &&& listed.len() == names.len() + extra
            &&& listed[i + extra].name == names[i]
            &&& extra == 1 ==> Some(listed[0].name) == default
        }),
{
}

/// The default device, where there is one, is marked, and it alone.
pub proof fn only_the_default_is_marked(
    names: Seq<Seq<char>>,
    default: Option<Seq<char>>,
    i: int,
    j: int,
)
    requires
        0 <= i < listing(names, default).len(),
        0 <= j < listing(names, default).len(),
    ensures
        ({
            let listed = listing(names, default);
            &&& listed[i].is_default ==> default == Some(listed[i].name)
            &&& listed[i].is_default && listed[j].is_default ==> i == j
        }),
        default is Some ==> exists|k: int|
            0 <= k < listing(names, default).len() && (#[trigger] listing(
                names,
                default,
            )[k]).is_default,
{
    let listed = listing(names, default);
    if let Some(name) = default {
        if names.contains(name) {
            let k = lemma_first_equal(names, name);
            assert(marks_default(names, default, k));
            assert(listed[k].is_default);
            if listed[i].is_default && listed[j].is_default {
                assert(marks_default(names, default, i) && marks_default(names, default, j));
                assert(names[i] == names[j]);
            }
        } else {
            assert(listed[0].is_default);
            if i > 0 && listed[i].is_default {
                assert(marks_default(names, default, i - 1));
                assert(names.contains(names[i - 1]));
            }
            if j > 0 && listed[j].is_default {
                assert(marks_default(names, default, j - 1));
                assert(names.contains(names[j - 1]));
            }
        }
    }
}

/// The first of some names which is a given one.
proof fn lemma_first_equal(names: Seq<Seq<char>>, name: Seq<char>) -> (first: int)
    requires
        names.contains(name),
    ensures
        0 <= first < names.len(),
        names[first] == name,
        forall|j: int| 0 <= j < first ==> #[trigger] names[j] != name,
    decreases names.len(),
{
    if names[0] == name {
        0
    } else {
        let rest = names.drop_first();
        let at = choose|at: int| 0 <= at < names.len() && names[at] == name;
        assert(rest[at - 1] == name);
        let k = lemma_first_equal(rest, name);
        assert forall|j: int| 0 <= j < k + 1 implies #[trigger] names[j] != name by {
            if j > 0 {
                assert(rest[j - 1] == names[j]);
            }
        }
        k + 1
    }
}

/// What is chosen is something the device offers, at a rate it can run at, in a
/// format which can be converted from.
pub proof fn the_choice_is_offered(
    ranges: Seq<ConfigRange>,
    target_rate: u32,
    config: StreamConfig,
)
    requires
        chosen(ranges, target_rate, config),
    ensures
        config.format == SampleFormat::I16 || config.format == SampleFormat::F32 || config.format
            == SampleFormat::U16,
        exists|i: int|
            0 <= i < ranges.len() && (#[trigger] ranges[i]).channels == config.channels
                && ranges[i].format == config.format && ranges[i].min_rate <= config.rate
                <= ranges[i].max_rate,
{
    if some_exact(ranges, target_rate) {
        let i = choose|i: int| 0 <= i < ranges.len() && exact_match(
            #[trigger] ranges[i],
            target_rate,
        );
        assert(ranges[i].channels == config.channels);
    } else {
        let i = choose|i: int|
            {
                &&& #[trigger] is_best(ranges, target_rate, i)
                &&& ranges[i].min_rate <= ranges[i].max_rate
                &&& config == (StreamConfig {
                    channels: ranges[i].channels,
                    rate: nearest_rate(ranges[i], target_rate),
                    format: ranges[i].format,
                })
            };
        assert(ranges[i].channels == config.channels);
    }
}

/// How far one rate is from another.
pub open spec fn rates_apart(a: u32, b: u32) -> int {
    if a < b {
        b - a
    } else {
        a - b
    }
}

/// Nothing a device offers suits better than what is chosen: where the target
/// rate can be had it is had, in as few channels as it can be; else a multiple
/// of it, as close as one can be had; else as close a rate as can be had.
pub proof fn nothing_offered_suits_better(
    ranges: Seq<ConfigRange>,
    target_rate: u32,
    config: StreamConfig,
    j: int,
    rate: u32,
)
    requires
        chosen(ranges, target_rate, config),
        0 <= j < ranges.len(),
        ranges[j].format == SampleFormat::I16 || ranges[j].format == SampleFormat::F32
            || ranges[j].format == SampleFormat::U16,
        ranges[j].min_rate <= rate <= ranges[j].max_rate,
    ensures
        rate == target_rate ==> config.rate == target_rate,
        rate == target_rate && ranges[j].channels > 0 ==> config.channels <= ranges[j].channels,
        rate == target_rate && ranges[j].channels == config.channels && ranges[j].format
            == SampleFormat::I16 ==> config.format == SampleFormat::I16,
        rate == target_rate && ranges[j].channels == config.channels && ranges[j].format
            == SampleFormat::F32 ==> config.format != SampleFormat::U16,
        rate == ranges[j].min_rate > target_rate > 0 && rate % target_rate == 0 ==> config.rate
            % target_rate == 0 && rates_apart(config.rate, target_rate) <= rates_apart(
            rate,
            target_rate,
        ),
        config.rate != target_rate && (target_rate == 0 || config.rate % target_rate != 0)
            ==> rates_apart(config.rate, target_rate) <= rates_apart(rate, target_rate),
{
    if target_rate > 0 {
        vstd::arithmetic::div_mod::lemma_mod_self_0(target_rate as int);
    }
    if !some_exact(ranges, target_rate) {
        let i = choose|i: int|
            {
                &&& #[trigger] is_best(ranges, target_rate, i)
                &&& ranges[i].min_rate <= ranges[i].max_rate
                &&& config == (StreamConfig {
                    channels: ranges[i].channels,
                    rate: nearest_rate(ranges[i], target_rate),
                    format: ranges[i].format,
                })
            };
        assert(convertible(ranges[j]));
        assert(!before(rank_of(ranges[j], target_rate), rank_of(ranges[i], target_rate)));
        the_achievable_rate_is_the_nearest(ranges[j], target_rate, rate);
    }
}

} // verus!
