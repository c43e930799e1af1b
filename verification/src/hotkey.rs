//! How the listen hotkey affects listening.

use vstd::prelude::*;

verus! {

/// How pressing the hotkey changes the listening state.
#[derive(Debug, Clone, Copy, PartialEq, Eq, Structural)]
pub enum ListenMode {
    /// Each press flips listening on or off.
    Toggle,
    /// Listening only while the key is held.
    PushToTalk,
    /// Listening except while the key is held.
    PushToMute,
}

impl Default for ListenMode {
    fn default() -> (mode: Self)
        ensures
            mode == ListenMode::Toggle,
    {
        ListenMode::Toggle
    }
}

impl ListenMode {
    /// What a profile calls the mode.
    pub open spec fn spec_name(self) -> Seq<char> {
        match self {
            ListenMode::Toggle => "toggle"@,
            ListenMode::PushToTalk => "push-to-talk"@,
            ListenMode::PushToMute => "push-to-mute"@,
        }
    }

    /// What a profile calls the mode.
    pub fn name(self) -> (name: &'static str)
        ensures
            name@ == self.spec_name(),
    {
        match self {
            ListenMode::Toggle => "toggle",
            ListenMode::PushToTalk => "push-to-talk",
            ListenMode::PushToMute => "push-to-mute",
        }
    }
}

/// How much like a keyboard an input device looks.
#[derive(Debug, Clone, Copy, PartialEq, Eq, Structural)]
pub enum Rank {
    /// It reports the key, and not much else.
    ReportsTheKey,
    /// It types, but only what a boot keyboard must be able to.
    Types,
    /// It is a keyboard.
    Keyboard,
}

impl Rank {
    /// The better a rank, the higher.
    pub open spec fn level(self) -> nat {
        match self {
            Rank::ReportsTheKey => 0,
            Rank::Types => 1,
            Rank::Keyboard => 2,
        }
    }

    /// Whether this is a better rank than another.
    pub fn beats(self, other: Rank) -> (beats: bool)
        ensures
            beats == (self.level() > other.level()),
    {
        match (self, other) {
            (Rank::Keyboard, Rank::Types) => true,
            (Rank::Keyboard, Rank::ReportsTheKey) => true,
            (Rank::Types, Rank::ReportsTheKey) => true,
            _ => false,
        }
    }

    /// What a rank says about a device.
    pub open spec fn spec_describe(self) -> Seq<char> {
        match self {
            Rank::ReportsTheKey => "not a keyboard"@,
            Rank::Types => "types (boot-keyboard set only)"@,
            Rank::Keyboard => "keyboard"@,
        }
    }

    /// What a rank says about a device.
    pub fn describe(self) -> (text: &'static str)
        ensures
            text@ == self.spec_describe(),
    {
        match self {
            Rank::ReportsTheKey => "not a keyboard",
            Rank::Types => "types (boot-keyboard set only)",
            Rank::Keyboard => "keyboard",
        }
    }
}

/// An input device we can read, and how it ranks.
#[derive(Debug, Clone, PartialEq, Eq)]
pub struct ListedDevice {
    pub path: String,
    pub name: String,
    pub rank: Rank,
    /// Whether it reports the key the listing is for.
    pub reports_key: bool,
}

/// Whether a device is the one `device: auto` picks: it reports the key, no
/// other which does ranks above it, and none before it ranks as high.
pub open spec fn is_auto_choice(devices: Seq<ListedDevice>, i: int) -> bool {
    &&& 0 <= i < devices.len()
    &&& devices[i].reports_key
    &&& forall|j: int|
        0 <= j < devices.len() && (#[trigger] devices[j]).reports_key ==> devices[j].rank.level()
            <= devices[i].rank.level() && (j < i ==> devices[j].rank.level()
            < devices[i].rank.level())
}

/// Which device `device: auto` picks: the best-ranked one which reports the
/// key, and the first of those.
pub fn auto_choice(devices: &[ListedDevice]) -> (choice: Option<usize>)
    ensures
        match choice {
            Some(i) => is_auto_choice(devices@, i as int),
            None => forall|j: int|
                0 <= j < devices@.len() ==> !(#[trigger] devices@[j]).reports_key,
        },
{
    let mut choice: Option<usize> = None;
    for i in 0..devices.len()
        invariant
            match choice {
                Some(at) => at < i && is_auto_choice(devices@.take(i as int), at as int),
                None => forall|j: int| 0 <= j < i ==> !(#[trigger] devices@[j]).reports_key,
            },
    {
        let ghost before = devices@.take(i as int);
        let ghost seen = devices@.take(i + 1);
        assert(forall|j: int| 0 <= j < i ==> before[j] == #[trigger] devices@[j]);
        assert(forall|j: int| 0 <= j < i ==> (#[trigger] seen[j]) == before[j]);
        assert(seen[i as int] == devices@[i as int]);
        if devices[i].reports_key {
            choice = match choice {
                Some(at) => if devices[i].rank.beats(devices[at].rank) {
                    Some(i)
                } else {
                    Some(at)
                },
                None => Some(i),
            };
        }
    }
    assert(devices@.take(devices.len() as int) == devices@);
    choice
}

/// There is only ever one device which `device: auto` would pick.
pub proof fn the_auto_choice_is_one(devices: Seq<ListedDevice>, i: int, j: int)
    requires
        is_auto_choice(devices, i),
        is_auto_choice(devices, j),
    ensures
        i == j,
{
    assert(devices[i].reports_key);
    assert(devices[j].reports_key);
}

/// A real keyboard is preferred: of the devices which report the key, a keyboard
/// is picked where there is one, else one which types where there is one, and
/// always the first of its kind.
pub proof fn a_keyboard_is_preferred(devices: Seq<ListedDevice>, i: int, j: int)
    requires
        is_auto_choice(devices, i),
        0 <= j < devices.len(),
        devices[j].reports_key,
    ensures
        devices[i].reports_key,
        devices[j].rank == Rank::Keyboard ==> devices[i].rank == Rank::Keyboard && i <= j,
        devices[j].rank == Rank::Types ==> devices[i].rank == Rank::Keyboard || (devices[i].rank
            == Rank::Types && i <= j),
        devices[j].rank == Rank::ReportsTheKey && devices[i].rank == Rank::ReportsTheKey ==> i
            <= j,
{
    assert(devices[j].rank.level() <= devices[i].rank.level());
}

} // verus!
