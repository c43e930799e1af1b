//! The key table: the friendly name of every key a profile can press.
//!
//! The friendly names are the lowercase evdev key names with their `KEY_`
//! prefix removed.

use super::KeyCode;
use crate::text::{decimal, digit, edit_distance, edit_distance_of, same_text};
use vstd::prelude::*;

verus! {

/// How many keys have a name.
pub const KEY_COUNT: usize = 125;

/// Every key name, with the code of the key it names.
pub const KEYS: [(&'static str, u16); KEY_COUNT] = [
    ("esc", 1),
    ("1", 2),
    ("2", 3),
    ("3", 4),
    ("4", 5),
    ("5", 6),
    ("6", 7),
    ("7", 8),
    ("8", 9),
    ("9", 10),
    ("0", 11),
    ("minus", 12),
    ("equal", 13),
    ("backspace", 14),
    ("tab", 15),
    ("q", 16),
    ("w", 17),
    ("e", 18),
    ("r", 19),
    ("t", 20),
    ("y", 21),
    ("u", 22),
    ("i", 23),
    ("o", 24),
    ("p", 25),
    ("leftbrace", 26),
    ("rightbrace", 27),
    ("enter", 28),
    ("leftctrl", 29),
    ("a", 30),
    ("s", 31),
    ("d", 32),
    ("f", 33),
    ("g", 34),
    ("h", 35),
    ("j", 36),
    ("k", 37),
    ("l", 38),
    ("semicolon", 39),
    ("apostrophe", 40),
    ("grave", 41),
    ("leftshift", 42),
    ("backslash", 43),
    ("z", 44),
    ("x", 45),
    ("c", 46),
    ("v", 47),
    ("b", 48),
    ("n", 49),
    ("m", 50),
    ("comma", 51),
    ("dot", 52),
    ("slash", 53),
    ("rightshift", 54),
    ("kpasterisk", 55),
    ("leftalt", 56),
    ("space", 57),
    ("capslock", 58),
    ("f1", 59),
    ("f2", 60),
    ("f3", 61),
    ("f4", 62),
    ("f5", 63),
    ("f6", 64),
    ("f7", 65),
    ("f8", 66),
    ("f9", 67),
    ("f10", 68),
    ("numlock", 69),
    ("scrolllock", 70),
    ("kp7", 71),
    ("kp8", 72),
    ("kp9", 73),
    ("kpminus", 74),
    ("kp4", 75),
    ("kp5", 76),
    ("kp6", 77),
    ("kpplus", 78),
    ("kp1", 79),
    ("kp2", 80),
    ("kp3", 81),
    ("kp0", 82),
    ("kpdot", 83),
    ("102nd", 86),
    ("f11", 87),
    ("f12", 88),
    ("kpenter", 96),
    ("rightctrl", 97),
    ("kpslash", 98),
    ("sysrq", 99),
    ("rightalt", 100),
    ("home", 102),
    ("up", 103),
    ("pageup", 104),
    ("left", 105),
    ("right", 106),
    ("end", 107),
    ("down", 108),
    ("pagedown", 109),
    ("insert", 110),
    ("delete", 111),
    ("mute", 113),
    ("volumedown", 114),
    ("volumeup", 115),
    ("kpequal", 117),
    ("pause", 119),
    ("leftmeta", 125),
    ("rightmeta", 126),
    ("compose", 127),
    ("menu", 139),
    ("nextsong", 163),
    ("playpause", 164),
    ("previoussong", 165),
    ("f13", 183),
    ("f14", 184),
    ("f15", 185),
    ("f16", 186),
    ("f17", 187),
    ("f18", 188),
    ("f19", 189),
    ("f20", 190),
    ("f21", 191),
    ("f22", 192),
    ("f23", 193),
    ("f24", 194),
];

/// How many edits away from a known name a misspelt one may be.
pub const SUGGESTION_REACH: usize = 2;

/// Whether an index is that of the first key with a name.
pub open spec fn is_entry(name: Seq<char>, i: int) -> bool {
    &&& 0 <= i < KEY_COUNT
    &&& KEYS@[i].0@ == name
    &&& forall|j: int| 0 <= j < i ==> (#[trigger] KEYS@[j]).0@ != name
}

/// Whether a key has a name.
pub open spec fn is_key_name(name: Seq<char>) -> bool {
    exists|i: int| 0 <= i < KEY_COUNT && (#[trigger] KEYS@[i]).0@ == name
}

/// The key with a name, or `None` where no key has it.
pub fn from_name(name: &str) -> (key: Option<KeyCode>)
    ensures
        match key {
            Some(key) => exists|i: int| #[trigger] is_entry(name@, i) && KEYS@[i].1 == key.code,
            None => !is_key_name(name@),
        },
{
    for i in 0..KEY_COUNT
        invariant
            forall|j: int| 0 <= j < i ==> (#[trigger] KEYS@[j]).0@ != name@,
    {
        if same_text(KEYS[i].0, name) {
            assert(is_entry(name@, i as int));
            return Some(KeyCode { code: KEYS[i].1 });
        }
    }
    None
}

/// The name of a key: its entry in the table, or its code in decimal where it
/// has none.
pub open spec fn name_of(key: KeyCode) -> Seq<char> {
    if exists|i: int| 0 <= i < KEY_COUNT && (#[trigger] KEYS@[i]).1 == key.code {
        let i = choose|i: int| is_first_code(key.code, i);
        KEYS@[i].0@
    } else {
        crate::text::decimal(key.code as nat)
    }
}

/// Whether an index is that of the first entry with a code.
pub open spec fn is_first_code(code: u16, i: int) -> bool {
    &&& 0 <= i < KEY_COUNT
    &&& KEYS@[i].1 == code
    &&& forall|j: int| 0 <= j < i ==> (#[trigger] KEYS@[j]).1 != code
}

/// The name of a key: its entry in the table, or its code in decimal where it
/// has none.
pub fn key_name(key: KeyCode) -> (name: String)
    ensures
        name@ == name_of(key),
{
    for i in 0..KEY_COUNT
        invariant
            forall|j: int| 0 <= j < i ==> (#[trigger] KEYS@[j]).1 != key.code,
    {
        if KEYS[i].1 == key.code {
            assert(is_first_code(key.code, i as int));
            assert forall|j: int| is_first_code(key.code, j) implies j == i by {
                if j < i {
                    assert(KEYS@[j].1 != key.code);
                } else if i < j {
                    assert(KEYS@[i as int].1 != key.code);
                }
            }
            return KEYS[i].0.to_owned();
        }
    }
    crate::text::decimal_of(key.code as u64)
}

/// Whether an index is that of the first of the names nearest to a misspelt
/// one, and near enough to suggest.
pub open spec fn is_suggestion(name: Seq<char>, i: int) -> bool {
    &&& 0 <= i < KEY_COUNT
    &&& edit_distance(name, KEYS@[i].0@) <= SUGGESTION_REACH
    &&& forall|j: int|
        0 <= j < KEY_COUNT ==> edit_distance(name, KEYS@[i].0@) <= edit_distance(
            name,
            (#[trigger] KEYS@[j]).0@,
        )
    &&& forall|j: int|
        0 <= j < i ==> edit_distance(name, KEYS@[i].0@) < edit_distance(
            name,
            (#[trigger] KEYS@[j]).0@,
        )
}

/// Whether no known name is near enough to a misspelt one to suggest.
pub open spec fn nothing_to_suggest(name: Seq<char>) -> bool {
    forall|j: int|
        0 <= j < KEY_COUNT ==> edit_distance(name, (#[trigger] KEYS@[j]).0@) > SUGGESTION_REACH
}

/// The known name nearest to a misspelt one, if any is within a couple of
/// edits.
pub fn suggest(name: &str) -> (suggestion: Option<&'static str>)
    ensures
        match suggestion {
            Some(known) => exists|i: int|
                #[trigger] is_suggestion(name@, i) && KEYS@[i].0@ == known@,
            None => nothing_to_suggest(name@),
        },
{
    let mut best: usize = 0;
    let mut distance: usize = edit_distance_of(name, KEYS[0].0);
    for i in 1..KEY_COUNT
        invariant
            best < i,
            best < KEY_COUNT,
            distance == edit_distance(name@, KEYS@[best as int].0@),
            forall|j: int|
                0 <= j < i ==> distance <= edit_distance(name@, (#[trigger] KEYS@[j]).0@),
            forall|j: int|
                0 <= j < best ==> distance < edit_distance(name@, (#[trigger] KEYS@[j]).0@),
    {
        let candidate: usize = edit_distance_of(name, KEYS[i].0);
        if candidate < distance {
            best = i;
            distance = candidate;
        }
    }
    if distance <= SUGGESTION_REACH {
        assert(is_suggestion(name@, best as int));
        Some(KEYS[best].0)
    } else {
        None
    }
}

/// No two entries of the table have one code: their codes rise.
pub proof fn no_two_keys_share_a_code(i: int, j: int)
    requires
        0 <= i < j < KEY_COUNT,
    ensures
        KEYS@[i].1 < KEYS@[j].1,
{
}

/// A key which is found by a name is called by that name.
pub proof fn a_key_is_called_what_it_is_found_by(name: Seq<char>, i: int)
    requires
        is_entry(name, i),
    ensures
        name_of(KeyCode { code: KEYS@[i].1 }) == name,
{
    let code = KEYS@[i].1;
    assert forall|j: int| 0 <= j < i implies (#[trigger] KEYS@[j]).1 != code by {
        no_two_keys_share_a_code(j, i);
    }
    assert(is_first_code(code, i));
    let found = choose|k: int| is_first_code(code, k);
    if found < i {
        no_two_keys_share_a_code(found, i);
    } else if i < found {
        no_two_keys_share_a_code(i, found);
    }
}

/// A misspelt name is corrected to a known one at most two edits away, than which none is nearer.
pub proof fn a_suggestion_is_a_near_name(name: Seq<char>, i: int, j: int)
    requires
        is_suggestion(name, i),
        0 <= j < KEY_COUNT,
    ensures
        is_key_name(KEYS@[i].0@),
        edit_distance(name, KEYS@[i].0@) <= 2,
        edit_distance(name, KEYS@[i].0@) <= edit_distance(name, KEYS@[j].0@),
        !nothing_to_suggest(name),
{
    assert(edit_distance(name, KEYS@[i].0@) <= edit_distance(name, KEYS@[j].0@));
}

/// The digits stand in a row, from one to nine and then zero.
pub proof fn digits_stand_in_a_row(n: nat)
    requires
        n < 10,
    ensures
        exists|i: int|
            0 <= i < KEY_COUNT && (#[trigger] KEYS@[i]).0@ == seq![digit(n)] && KEYS@[i].1 == if n
                == 0 {
                11nat
            } else {
                n + 1
            },
{
    let text = seq![digit(n)];
    if n == 0 {
        reveal_strlit("0");
        assert("0"@ =~= text);
        assert(KEYS@[10].0@ == text && KEYS@[10].1 == 11);
    } else if n == 1 {
        reveal_strlit("1");
        assert("1"@ =~= text);
        assert(KEYS@[1].0@ == text && KEYS@[1].1 == 2);
    } else if n == 2 {
        reveal_strlit("2");
        assert("2"@ =~= text);
        assert(KEYS@[2].0@ == text && KEYS@[2].1 == 3);
    } else if n == 3 {
        reveal_strlit("3");
        assert("3"@ =~= text);
        assert(KEYS@[3].0@ == text && KEYS@[3].1 == 4);
    } else if n == 4 {
        reveal_strlit("4");
        assert("4"@ =~= text);
        assert(KEYS@[4].0@ == text && KEYS@[4].1 == 5);
    } else if n == 5 {
        reveal_strlit("5");
        assert("5"@ =~= text);
        assert(KEYS@[5].0@ == text && KEYS@[5].1 == 6);
    } else if n == 6 {
        reveal_strlit("6");
        assert("6"@ =~= text);
        assert(KEYS@[6].0@ == text && KEYS@[6].1 == 7);
    } else if n == 7 {
        reveal_strlit("7");
        assert("7"@ =~= text);
        assert(KEYS@[7].0@ == text && KEYS@[7].1 == 8);
    } else if n == 8 {
        reveal_strlit("8");
        assert("8"@ =~= text);
        assert(KEYS@[8].0@ == text && KEYS@[8].1 == 9);
    } else if n == 9 {
        reveal_strlit("9");
        assert("9"@ =~= text);
        assert(KEYS@[9].0@ == text && KEYS@[9].1 == 10);
    }
}

/// The function keys are numbered in order, but for two gaps in their codes.
pub proof fn function_keys_stand_in_order(n: nat)
    requires
        0 < n <= 24,
    ensures
        exists|i: int|
            0 <= i < KEY_COUNT && (#[trigger] KEYS@[i]).0@ == seq!['f'] + decimal(n) && KEYS@[i].1
                == if n <= 10 {
                58 + n
            } else if n <= 12 {
                76 + n
            } else {
                170 + n
            },
{
    let text = seq!['f'] + decimal(n);
    reveal_with_fuel(decimal, 2);
    if n == 1 {
        reveal_strlit("f1");
        assert("f1"@ =~= text);
        assert(KEYS@[58].0@ == text && KEYS@[58].1 == 59);
    } else if n == 2 {
        reveal_strlit("f2");
        assert("f2"@ =~= text);
        assert(KEYS@[59].0@ == text && KEYS@[59].1 == 60);
    } else if n == 3 {
        reveal_strlit("f3");
        assert("f3"@ =~= text);
        assert(KEYS@[60].0@ == text && KEYS@[60].1 == 61);
    } else if n == 4 {
        reveal_strlit("f4");
        assert("f4"@ =~= text);
        assert(KEYS@[61].0@ == text && KEYS@[61].1 == 62);
    } else if n == 5 {
        reveal_strlit("f5");
        assert("f5"@ =~= text);
        assert(KEYS@[62].0@ == text && KEYS@[62].1 == 63);
    } else if n == 6 {
        reveal_strlit("f6");
        assert("f6"@ =~= text);
        assert(KEYS@[63].0@ == text && KEYS@[63].1 == 64);
    } else if n == 7 {
        reveal_strlit("f7");
        assert("f7"@ =~= text);
        assert(KEYS@[64].0@ == text && KEYS@[64].1 == 65);
    } else if n == 8 {
        reveal_strlit("f8");
        assert("f8"@ =~= text);
        assert(KEYS@[65].0@ == text && KEYS@[65].1 == 66);
    } else if n == 9 {
        reveal_strlit("f9");
        assert("f9"@ =~= text);
        assert(KEYS@[66].0@ == text && KEYS@[66].1 == 67);
    } else if n == 10 {
        reveal_strlit("f10");
        assert("f10"@ =~= text);
        assert(KEYS@[67].0@ == text && KEYS@[67].1 == 68);
    } else if n == 11 {
        reveal_strlit("f11");
        assert("f11"@ =~= text);
        assert(KEYS@[84].0@ == text && KEYS@[84].1 == 87);
    } else if n == 12 {
        reveal_strlit("f12");
        assert("f12"@ =~= text);
        assert(KEYS@[85].0@ == text && KEYS@[85].1 == 88);
    } else if n == 13 {
        reveal_strlit("f13");
        assert("f13"@ =~= text);
        assert(KEYS@[113].0@ == text && KEYS@[113].1 == 183);
    } else if n == 14 {
        reveal_strlit("f14");
        assert("f14"@ =~= text);
        assert(KEYS@[114].0@ == text && KEYS@[114].1 == 184);
    } else if n == 15 {
        reveal_strlit("f15");
        assert("f15"@ =~= text);
        assert(KEYS@[115].0@ == text && KEYS@[115].1 == 185);
    } else if n == 16 {
        reveal_strlit("f16");
        assert("f16"@ =~= text);
        assert(KEYS@[116].0@ == text && KEYS@[116].1 == 186);
    } else if n == 17 {
        reveal_strlit("f17");
        assert("f17"@ =~= text);
        assert(KEYS@[117].0@ == text && KEYS@[117].1 == 187);
    } else if n == 18 {
        reveal_strlit("f18");
        assert("f18"@ =~= text);
        assert(KEYS@[118].0@ == text && KEYS@[118].1 == 188);
    } else if n == 19 {
        reveal_strlit("f19");
        assert("f19"@ =~= text);
        assert(KEYS@[119].0@ == text && KEYS@[119].1 == 189);
    } else if n == 20 {
        reveal_strlit("f20");
        assert("f20"@ =~= text);
        assert(KEYS@[120].0@ == text && KEYS@[120].1 == 190);
    } else if n == 21 {
        reveal_strlit("f21");
        assert("f21"@ =~= text);
        assert(KEYS@[121].0@ == text && KEYS@[121].1 == 191);
    } else if n == 22 {
        reveal_strlit("f22");
        assert("f22"@ =~= text);
        assert(KEYS@[122].0@ == text && KEYS@[122].1 == 192);
    } else if n == 23 {
        reveal_strlit("f23");
        assert("f23"@ =~= text);
        assert(KEYS@[123].0@ == text && KEYS@[123].1 == 193);
    } else if n == 24 {
        reveal_strlit("f24");
        assert("f24"@ =~= text);
        assert(KEYS@[124].0@ == text && KEYS@[124].1 == 194);
    }
}

/// The digits of the keypad stand in rows of three, the highest on top, and zero
/// below them.
pub proof fn keypad_digits_stand_in_rows(n: nat)
    requires
        n < 10,
    ensures
        exists|i: int|
            0 <= i < KEY_COUNT && (#[trigger] KEYS@[i]).0@ == seq!['k', 'p', digit(n)] && KEYS@[i].1
                == if n == 0 {
                82nat
            } else if n <= 3 {
                78 + n
            } else if n <= 6 {
                71 + n
            } else {
                64 + n
            },
{
    let text = seq!['k', 'p', digit(n)];
    if n == 0 {
        reveal_strlit("kp0");
        assert("kp0"@ =~= text);
        assert(KEYS@[81].0@ == text && KEYS@[81].1 == 82);
    } else if n == 1 {
        reveal_strlit("kp1");
        assert("kp1"@ =~= text);
        assert(KEYS@[78].0@ == text && KEYS@[78].1 == 79);
    } else if n == 2 {
        reveal_strlit("kp2");
        assert("kp2"@ =~= text);
        assert(KEYS@[79].0@ == text && KEYS@[79].1 == 80);
    } else if n == 3 {
        reveal_strlit("kp3");
        assert("kp3"@ =~= text);
        assert(KEYS@[80].0@ == text && KEYS@[80].1 == 81);
    } else if n == 4 {
        reveal_strlit("kp4");
        assert("kp4"@ =~= text);
        assert(KEYS@[74].0@ == text && KEYS@[74].1 == 75);
    } else if n == 5 {
        reveal_strlit("kp5");
        assert("kp5"@ =~= text);
        assert(KEYS@[75].0@ == text && KEYS@[75].1 == 76);
    } else if n == 6 {
        reveal_strlit("kp6");
        assert("kp6"@ =~= text);
        assert(KEYS@[76].0@ == text && KEYS@[76].1 == 77);
    } else if n == 7 {
        reveal_strlit("kp7");
        assert("kp7"@ =~= text);
        assert(KEYS@[70].0@ == text && KEYS@[70].1 == 71);
    } else if n == 8 {
        reveal_strlit("kp8");
        assert("kp8"@ =~= text);
        assert(KEYS@[71].0@ == text && KEYS@[71].1 == 72);
    } else if n == 9 {
        reveal_strlit("kp9");
        assert("kp9"@ =~= text);
        assert(KEYS@[72].0@ == text && KEYS@[72].1 == 73);
    }
}

/// The upper row of letters, from left to right.
pub proof fn the_upper_letters_stand_in_a_row(i: int)
    requires
        0 <= i < 10,
    ensures
        KEYS@[15 + i].0@ == seq!["qwertyuiop"@[i]],
        KEYS@[15 + i].1 == 16 + i,
{
    reveal_strlit("qwertyuiop");
    let text = seq!["qwertyuiop"@[i]];
    if i == 0 {
        reveal_strlit("q");
        assert("q"@ =~= text);
        assert(KEYS@[15].0@ == text && KEYS@[15].1 == 16);
    } else if i == 1 {
        reveal_strlit("w");
        assert("w"@ =~= text);
        assert(KEYS@[16].0@ == text && KEYS@[16].1 == 17);
    } else if i == 2 {
        reveal_strlit("e");
        assert("e"@ =~= text);
        assert(KEYS@[17].0@ == text && KEYS@[17].1 == 18);
    } else if i == 3 {
        reveal_strlit("r");
        assert("r"@ =~= text);
        assert(KEYS@[18].0@ == text && KEYS@[18].1 == 19);
    } else if i == 4 {
        reveal_strlit("t");
        assert("t"@ =~= text);
        assert(KEYS@[19].0@ == text && KEYS@[19].1 == 20);
    } else if i == 5 {
        reveal_strlit("y");
        assert("y"@ =~= text);
        assert(KEYS@[20].0@ == text && KEYS@[20].1 == 21);
    } else if i == 6 {
        reveal_strlit("u");
        assert("u"@ =~= text);
        assert(KEYS@[21].0@ == text && KEYS@[21].1 == 22);
    } else if i == 7 {
        reveal_strlit("i");
        assert("i"@ =~= text);
        assert(KEYS@[22].0@ == text && KEYS@[22].1 == 23);
    } else if i == 8 {
        reveal_strlit("o");
        assert("o"@ =~= text);
        assert(KEYS@[23].0@ == text && KEYS@[23].1 == 24);
    } else if i == 9 {
        reveal_strlit("p");
        assert("p"@ =~= text);
        assert(KEYS@[24].0@ == text && KEYS@[24].1 == 25);
    }
}

/// The middle row of letters, from left to right.
pub proof fn the_middle_letters_stand_in_a_row(i: int)
    requires
        0 <= i < 9,
    ensures
        KEYS@[29 + i].0@ == seq!["asdfghjkl"@[i]],
        KEYS@[29 + i].1 == 30 + i,
{
    reveal_strlit("asdfghjkl");
    let text = seq!["asdfghjkl"@[i]];
    if i == 0 {
        reveal_strlit("a");
        assert("a"@ =~= text);
        assert(KEYS@[29].0@ == text && KEYS@[29].1 == 30);
    } else if i == 1 {
        reveal_strlit("s");
        assert("s"@ =~= text);
        assert(KEYS@[30].0@ == text && KEYS@[30].1 == 31);
    } else if i == 2 {
        reveal_strlit("d");
        assert("d"@ =~= text);
        assert(KEYS@[31].0@ == text && KEYS@[31].1 == 32);
    } else if i == 3 {
        reveal_strlit("f");
        assert("f"@ =~= text);
        assert(KEYS@[32].0@ == text && KEYS@[32].1 == 33);
    } else if i == 4 {
        reveal_strlit("g");
        assert("g"@ =~= text);
        assert(KEYS@[33].0@ == text && KEYS@[33].1 == 34);
    } else if i == 5 {
        reveal_strlit("h");
        assert("h"@ =~= text);
        assert(KEYS@[34].0@ == text && KEYS@[34].1 == 35);
    } else if i == 6 {
        reveal_strlit("j");
        assert("j"@ =~= text);
        assert(KEYS@[35].0@ == text && KEYS@[35].1 == 36);
    } else if i == 7 {
        reveal_strlit("k");
        assert("k"@ =~= text);
        assert(KEYS@[36].0@ == text && KEYS@[36].1 == 37);
    } else if i == 8 {
        reveal_strlit("l");
        assert("l"@ =~= text);
        assert(KEYS@[37].0@ == text && KEYS@[37].1 == 38);
    }
}

/// The lower row of letters, from left to right.
pub proof fn the_lower_letters_stand_in_a_row(i: int)
    requires
        0 <= i < 7,
    ensures
        KEYS@[43 + i].0@ == seq!["zxcvbnm"@[i]],
        KEYS@[43 + i].1 == 44 + i,
{
    reveal_strlit("zxcvbnm");
    let text = seq!["zxcvbnm"@[i]];
    if i == 0 {
        reveal_strlit("z");
        assert("z"@ =~= text);
        assert(KEYS@[43].0@ == text && KEYS@[43].1 == 44);
    } else if i == 1 {
        reveal_strlit("x");
        assert("x"@ =~= text);
        assert(KEYS@[44].0@ == text && KEYS@[44].1 == 45);
    } else if i == 2 {
        reveal_strlit("c");
        assert("c"@ =~= text);
        assert(KEYS@[45].0@ == text && KEYS@[45].1 == 46);
    } else if i == 3 {
        reveal_strlit("v");
        assert("v"@ =~= text);
        assert(KEYS@[46].0@ == text && KEYS@[46].1 == 47);
    } else if i == 4 {
        reveal_strlit("b");
        assert("b"@ =~= text);
        assert(KEYS@[47].0@ == text && KEYS@[47].1 == 48);
    } else if i == 5 {
        reveal_strlit("n");
        assert("n"@ =~= text);
        assert(KEYS@[48].0@ == text && KEYS@[48].1 == 49);
    } else if i == 6 {
        reveal_strlit("m");
        assert("m"@ =~= text);
        assert(KEYS@[49].0@ == text && KEYS@[49].1 == 50);
    }
}

/// Where any name is near, one is suggested: the nearest there is.
pub proof fn a_near_name_is_suggested(name: Seq<char>, j: int)
    requires
        0 <= j < KEY_COUNT,
        edit_distance(name, KEYS@[j].0@) <= 2,
    ensures
        !nothing_to_suggest(name),
        exists|i: int| is_suggestion(name, i),
{
    let i = lemma_nearest(name, KEY_COUNT as int);
    assert(edit_distance(name, KEYS@[i].0@) <= edit_distance(name, KEYS@[j].0@));
    assert(is_suggestion(name, i));
}

/// The first of the nearest among the first keys.
proof fn lemma_nearest(name: Seq<char>, count: int) -> (i: int)
    requires
        0 < count <= KEY_COUNT,
    ensures
        0 <= i < count,
        forall|j: int|
            0 <= j < count ==> edit_distance(name, KEYS@[i].0@) <= edit_distance(
                name,
                (#[trigger] KEYS@[j]).0@,
            ),
        forall|j: int|
            0 <= j < i ==> edit_distance(name, KEYS@[i].0@) < edit_distance(
                name,
                (#[trigger] KEYS@[j]).0@,
            ),
    decreases count,
{
    if count == 1 {
        0
    } else {
        let best = lemma_nearest(name, count - 1);
        if edit_distance(name, KEYS@[count - 1].0@) < edit_distance(name, KEYS@[best].0@) {
            count - 1
        } else {
            best
        }
    }
}

} // verus!
