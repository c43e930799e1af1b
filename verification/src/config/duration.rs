//! Duration parsing for the profile schema.
//!
//! Every duration in a profile is written the way a person would say it
//! (`300ms`, `1s`, `1s 500ms`), and what is printed back can be pasted straight
//! into a profile.

use crate::errors::{wrapped_user_error, Error, ErrorView};
use crate::text::{
    chars_of, decimal, is_white_space, same_text, trim, trimmed, trimming_ignores_white_space, white_space,
};
use crate::time::{Duration, NANOS_PER_SECOND};
use vstd::prelude::*;

verus! {

/// What `humantime::parse_duration` makes of a text: the seconds and the
/// nanoseconds beyond them, or what is wrong with it.
pub uninterp spec fn parsed_duration(text: Seq<char>) -> Result<(u64, u32), Seq<char>>;

/// What `humantime::format_duration` writes for a length of time.
pub uninterp spec fn written_duration(seconds: u64, nanos: u32) -> Seq<char>;

/// `humantime::parse_duration`: what it makes of a text is a function of the
/// text alone, and the nanoseconds it gives make less than a second.
///
/// Where the seconds of a text have added up to the very largest number it can
/// hold, and the nanoseconds beside them to exactly one second more, it panics.
/// A countable text never comes to that.
#[verifier::external_body]
fn humantime_parse(text: &str) -> (parsed: Result<(u64, u32), String>)
    requires
        countable(text@),
    ensures
        match parsed {
            Ok(duration) => parsed_duration(text@) == Ok::<(u64, u32), Seq<char>>(duration)
                && duration.1 < NANOS_PER_SECOND,
            Err(reason) => parsed_duration(text@) == Err::<(u64, u32), Seq<char>>(reason@),
        },
{
    match humantime::parse_duration(text) {
        Ok(duration) => Ok((duration.as_secs(), duration.subsec_nanos())),
        Err(reason) => Err(reason.to_string()),
    }
}

/// `humantime::format_duration`: what it writes is a function of the length of
/// time alone, starts and ends with no white space, and parses back to that
/// length of time, which can always be counted.
#[verifier::external_body]
fn humantime_format(seconds: u64, nanos: u32) -> (text: String)
    requires
        nanos < NANOS_PER_SECOND,
    ensures
        text@ == written_duration(seconds, nanos),
        text@.len() > 0,
        !white_space(text@[0]),
        !white_space(text@.last()),
        parses_to(text@, seconds, nanos),
        countable(text@),
{
    humantime::format_duration(std::time::Duration::new(seconds, nanos)).to_string()
}

/// Whether a text parses to a length of time.
pub open spec fn parses_to(text: Seq<char>, seconds: u64, nanos: u32) -> bool {
    parsed_duration(text) == Ok::<(u64, u32), Seq<char>>((seconds, nanos))
}

/// Whether a character is a decimal digit.
pub open spec fn is_digit(c: char) -> bool {
    '0' <= c && c <= '9'
}

/// Whether a character is one the name of a unit is written with.
pub open spec fn unit_letter(c: char) -> bool {
    ('a' <= c && c <= 'z') || ('A' <= c && c <= 'Z') || c == 'µ'
}

/// How many nanoseconds a unit stands for. What is no unit stands for none.
pub open spec fn unit_length(unit: Seq<char>) -> nat {
    if unit == "nanos"@ || unit == "nsec"@ || unit == "ns"@ {
        1
    } else if unit == "usec"@ || unit == "us"@ || unit == "µs"@ {
        1_000
    } else if unit == "millis"@ || unit == "msec"@ || unit == "ms"@ {
        1_000_000
    } else if unit == "seconds"@ || unit == "second"@ || unit == "secs"@ || unit == "sec"@
        || unit == "s"@ {
        1_000_000_000
    } else if unit == "minutes"@ || unit == "minute"@ || unit == "min"@ || unit == "mins"@
        || unit == "m"@ {
        60_000_000_000
    } else if unit == "hours"@ || unit == "hour"@ || unit == "hr"@ || unit == "hrs"@
        || unit == "h"@ {
        3_600_000_000_000
    } else if unit == "days"@ || unit == "day"@ || unit == "d"@ {
        86_400_000_000_000
    } else if unit == "weeks"@ || unit == "week"@ || unit == "wk"@ || unit == "wks"@
        || unit == "w"@ {
        604_800_000_000_000
    } else if unit == "months"@ || unit == "month"@ || unit == "M"@ {
        2_630_016_000_000_000
    } else if unit == "years"@ || unit == "year"@ || unit == "yr"@ || unit == "yrs"@
        || unit == "y"@ {
        31_557_600_000_000_000
    } else {
        0
    }
}

/// The largest number of seconds, or of nanoseconds in one part, there can be.
pub const MOST: u64 = 18_446_744_073_709_551_615;

/// What is being read of a text.
#[derive(Clone, Copy, PartialEq, Eq, Structural)]
pub enum Stage {
    /// The space before a number.
    Gap,
    /// A number.
    Whole,
    /// What stands behind its decimal point.
    Fraction,
    /// The unit behind it.
    Unit,
    /// Nothing any more: the text is no length of time, or one which is too
    /// long.
    Refused,
    /// Nothing any more: the seconds have come to [`MOST`], and the nanoseconds
    /// beside them to a whole second more.
    Spilled,
}

/// What has been counted of a text: the length of its finished parts, and the
/// number and the unit of the one being read.
#[verifier::ext_equal]
pub struct Tally {
    pub stage: Stage,
    /// The seconds, and the nanoseconds beyond them, of the finished parts.
    pub seconds: nat,
    pub nanos: nat,
    /// The number before the decimal point.
    pub whole: nat,
    /// Whether there is a decimal point.
    pub point: bool,
    /// The digits behind it, and the power of ten they are to be divided by.
    pub numerator: nat,
    pub denominator: nat,
    /// The letters behind the number.
    pub unit: Seq<char>,
}

impl Tally {
    /// Some seconds and some nanoseconds are added to the finished parts.
    pub open spec fn plus(self, seconds: nat, nanos: nat) -> Tally {
        let small = self.nanos + nanos;
        let large = self.seconds + seconds;
        if large == MOST && small == NANOS_PER_SECOND {
            Tally { stage: Stage::Spilled, ..uncounted() }
        } else if nanos > MOST || small > MOST || large + small / NANOS_PER_SECOND as nat > MOST {
            refused()
        } else {
            Tally {
                seconds: large + small / NANOS_PER_SECOND as nat,
                nanos: small % NANOS_PER_SECOND as nat,
                ..uncounted()
            }
        }
    }

    /// The part being read is finished: what stands before its decimal point is
    /// added, and then what stands behind it.
    ///
    /// A fraction has to come to whole nanoseconds, and one of an hour or more
    /// to whole seconds.
    pub open spec fn finished(self) -> Tally {
        let length = unit_length(self.unit);
        let seconds = length / NANOS_PER_SECOND as nat;
        let whole = if seconds == 0 {
            self.plus(0, self.whole * length)
        } else {
            self.plus(self.whole * seconds, 0)
        };
        let fine = length <= 60_000_000_000;
        let parts = self.numerator * if fine {
            length
        } else {
            seconds
        };
        if length == 0 {
            refused()
        } else if whole.stage != Stage::Gap || !self.point {
            whole
        } else if length == 1 || parts > MOST || parts % self.denominator != 0 {
            refused()
        } else if fine {
            whole.plus(0, parts / self.denominator)
        } else {
            whole.plus(parts / self.denominator, 0)
        }
    }

    /// What reading one more character comes to.
    pub open spec fn with(self, c: char) -> Tally {
        let digit = (c as int - '0' as int) as nat;
        match self.stage {
            Stage::Gap => if is_digit(c) {
                Tally { stage: Stage::Whole, whole: digit, ..self }
            } else if white_space(c) {
                self
            } else {
                refused()
            },
            Stage::Whole => if is_digit(c) && self.whole * 10 + digit <= MOST {
                Tally { whole: self.whole * 10 + digit, ..self }
            } else if white_space(c) {
                self
            } else if unit_letter(c) {
                Tally { stage: Stage::Unit, unit: self.unit.push(c), ..self }
            } else if c == '.' {
                Tally { stage: Stage::Fraction, point: true, ..self }
            } else {
                refused()
            },
            Stage::Fraction => if is_digit(c) && self.denominator * 10 <= MOST {
                Tally {
                    numerator: self.numerator * 10 + digit,
                    denominator: self.denominator * 10,
                    ..self
                }
            } else if white_space(c) {
                self
            } else if unit_letter(c) && self.denominator > 1 {
                Tally { stage: Stage::Unit, unit: self.unit.push(c), ..self }
            } else {
                refused()
            },
            Stage::Unit => if unit_letter(c) {
                Tally { unit: self.unit.push(c), ..self }
            } else if white_space(c) {
                self.finished()
            } else if is_digit(c) {
                let before = self.finished();
                if before.stage == Stage::Gap {
                    Tally { stage: Stage::Whole, whole: digit, ..before }
                } else {
                    before
                }
            } else {
                refused()
            },
            Stage::Refused => self,
            Stage::Spilled => self,
        }
    }

    /// What the end of the text comes to.
    pub open spec fn ended(self) -> Tally {
        if self.stage == Stage::Unit {
            self.finished()
        } else {
            self
        }
    }
}

/// Nothing counted yet.
pub open spec fn uncounted() -> Tally {
    Tally {
        stage: Stage::Gap,
        seconds: 0,
        nanos: 0,
        whole: 0,
        point: false,
        numerator: 0,
        denominator: 1,
        unit: Seq::empty(),
    }
}

/// Nothing is read any more.
pub open spec fn refused() -> Tally {
    Tally { stage: Stage::Refused, ..uncounted() }
}

/// What has been counted of a text.
pub open spec fn tally(text: Seq<char>) -> Tally
    decreases text.len(),
{
    if text.len() == 0 {
        uncounted()
    } else {
        tally(text.drop_last()).with(text.last())
    }
}

/// Whether the parts of a text can be added up: never do the seconds come to
/// the very largest number there is, and the nanoseconds beside them to exactly
/// one second more.
pub open spec fn countable(text: Seq<char>) -> bool {
    tally(text).ended().stage != Stage::Spilled
}

/// A [`Tally`] while it is kept.
struct Count {
    stage: Stage,
    seconds: u64,
    nanos: u64,
    whole: u64,
    point: bool,
    numerator: u64,
    denominator: u64,
    unit: String,
}

impl View for Count {
    type V = Tally;

    closed spec fn view(&self) -> Tally {
        Tally {
            stage: self.stage,
            seconds: self.seconds as nat,
            nanos: self.nanos as nat,
            whole: self.whole as nat,
            point: self.point,
            numerator: self.numerator as nat,
            denominator: self.denominator as nat,
            unit: self.unit@,
        }
    }
}

/// How many nanoseconds a unit stands for.
fn unit_length_of(unit: &str) -> (length: u128)
    ensures
        length == unit_length(unit@),
        length <= 31_557_600_000_000_000,
{
    if same_text(unit, "nanos") || same_text(unit, "nsec") || same_text(unit, "ns") {
        1
    } else if same_text(unit, "usec") || same_text(unit, "us") || same_text(unit, "µs") {
        1_000
    } else if same_text(unit, "millis") || same_text(unit, "msec") || same_text(unit, "ms") {
        1_000_000
    } else if same_text(unit, "seconds") || same_text(unit, "second") || same_text(unit, "secs")
        || same_text(unit, "sec") || same_text(unit, "s") {
        1_000_000_000
    } else if same_text(unit, "minutes") || same_text(unit, "minute") || same_text(unit, "min")
        || same_text(unit, "mins") || same_text(unit, "m") {
        60_000_000_000
    } else if same_text(unit, "hours") || same_text(unit, "hour") || same_text(unit, "hr")
        || same_text(unit, "hrs") || same_text(unit, "h") {
        3_600_000_000_000
    } else if same_text(unit, "days") || same_text(unit, "day") || same_text(unit, "d") {
        86_400_000_000_000
    } else if same_text(unit, "weeks") || same_text(unit, "week") || same_text(unit, "wk")
        || same_text(unit, "wks") || same_text(unit, "w") {
        604_800_000_000_000
    } else if same_text(unit, "months") || same_text(unit, "month") || same_text(unit, "M") {
        2_630_016_000_000_000
    } else if same_text(unit, "years") || same_text(unit, "year") || same_text(unit, "yr")
        || same_text(unit, "yrs") || same_text(unit, "y") {
        31_557_600_000_000_000
    } else {
        0
    }
}

impl Count {
    /// No number is larger than it needs to be.
    spec fn wf(&self) -> bool {
        &&& self.nanos < NANOS_PER_SECOND
        &&& self.numerator < self.denominator
    }

    /// Nothing counted yet, at a stage.
    fn at(stage: Stage) -> (count: Count)
        ensures
            count.wf(),
            count@ == (Tally { stage, ..uncounted() }),
    {
        Count {
            stage,
            seconds: 0,
            nanos: 0,
            whole: 0,
            point: false,
            numerator: 0,
            denominator: 1,
            unit: String::new(),
        }
    }

    /// Adds some seconds and some nanoseconds to the finished parts.
    fn plus(&self, seconds: u128, nanos: u128) -> (sum: Count)
        requires
            self.wf(),
            seconds <= MOST * 31_557_600,
            nanos <= MOST * 1_000_000_000,
        ensures
            sum.wf(),
            sum@ == self@.plus(seconds as nat, nanos as nat),
    {
        let most: u128 = MOST as u128;
        let second: u128 = NANOS_PER_SECOND as u128;
        let small: u128 = self.nanos as u128 + nanos;
        let large: u128 = self.seconds as u128 + seconds;
        if large == most && small == second {
            Count::at(Stage::Spilled)
        } else if nanos > most || small > most || large + small / second > most {
            Count::at(Stage::Refused)
        } else {
            let mut sum = Count::at(Stage::Gap);
            sum.seconds = (large + small / second) as u64;
            sum.nanos = (small % second) as u64;
            sum
        }
    }

    /// Finishes the part being read.
    fn finished(&self) -> (count: Count)
        requires
            self.wf(),
        ensures
            count.wf(),
            count@ == self@.finished(),
    {
        let length: u128 = unit_length_of(self.unit.as_str());
        if length == 0 {
            return Count::at(Stage::Refused);
        }
        let seconds: u128 = length / NANOS_PER_SECOND as u128;
        let number: u128 = self.whole as u128;
        let whole = if seconds == 0 {
            assert(number * length <= MOST * 1_000_000_000) by (nonlinear_arith)
                requires
                    number <= MOST,
                    length <= 1_000_000_000,
            ;
            self.plus(0, number * length)
        } else {
            assert(number * seconds <= MOST * 31_557_600) by (nonlinear_arith)
                requires
                    number <= MOST,
                    seconds <= 31_557_600,
            ;
            self.plus(number * seconds, 0)
        };
        if whole.stage != Stage::Gap || !self.point {
            return whole;
        }
        let fine = length <= 60_000_000_000;
        let scale: u128 = if fine {
            length
        } else {
            seconds
        };
        let numerator: u128 = self.numerator as u128;
        let denominator: u128 = self.denominator as u128;
        assert(numerator * scale <= MOST * 60_000_000_000) by (nonlinear_arith)
            requires
                numerator <= MOST,
                scale <= 60_000_000_000,
        ;
        let parts: u128 = numerator * scale;
        if length == 1 || parts > MOST as u128 || parts % denominator != 0 {
            return Count::at(Stage::Refused);
        }
        let share: u128 = parts / denominator;
        assert(share <= parts) by (nonlinear_arith)
            requires
                share == parts / denominator,
                denominator > 0,
        ;
        if fine {
            whole.plus(0, share)
        } else {
            whole.plus(share, 0)
        }
    }

    /// Reads one more character.
    fn read(&mut self, c: char)
        requires
            old(self).wf(),
        ensures
            final(self).wf(),
            final(self)@ == old(self)@.with(c),
    {
        let digit = '0' <= c && c <= '9';
        let value: u64 = if digit {
            (c as u32 - '0' as u32) as u64
        } else {
            0
        };
        match self.stage {
            Stage::Gap => {
                if digit {
                    self.stage = Stage::Whole;
                    self.whole = value;
                } else if !is_white_space(c) {
                    *self = Count::at(Stage::Refused);
                }
            },
            Stage::Whole => {
                if digit && (self.whole < MOST / 10 || (self.whole == MOST / 10 && value <= MOST
                    % 10)) {
                    self.whole = self.whole * 10 + value;
                } else if is_unit_letter(c) {
                    self.stage = Stage::Unit;
                    self.unit.push(c);
                } else if c == '.' {
                    self.stage = Stage::Fraction;
                    self.point = true;
                } else if !is_white_space(c) {
                    *self = Count::at(Stage::Refused);
                }
            },
            Stage::Fraction => {
                if digit && self.denominator <= MOST / 10 {
                    self.numerator = self.numerator * 10 + value;
                    self.denominator = self.denominator * 10;
                } else if is_unit_letter(c) && self.denominator > 1 {
                    self.stage = Stage::Unit;
                    self.unit.push(c);
                } else if !is_white_space(c) {
                    *self = Count::at(Stage::Refused);
                }
            },
            Stage::Unit => {
                if is_unit_letter(c) {
                    self.unit.push(c);
                } else if is_white_space(c) || digit {
                    let mut count = self.finished();
                    if digit && count.stage == Stage::Gap {
                        count.stage = Stage::Whole;
                        count.whole = value;
                    }
                    *self = count;
                } else {
                    *self = Count::at(Stage::Refused);
                }
            },
            Stage::Refused => {},
            Stage::Spilled => {},
        }
    }
}

/// Whether the parts of a text can be added up.
pub fn is_countable(text: &str) -> (is: bool)
    ensures
        is == countable(text@),
{
    let chars = chars_of(text);
    let mut count = Count::at(Stage::Gap);
    assert(chars@.take(0) == Seq::<char>::empty());
    for i in 0..chars.len()
        invariant
            count.wf(),
            count@ == tally(chars@.take(i as int)),
    {
        assert(chars@.take(i + 1).drop_last() == chars@.take(i as int));
        count.read(chars[i]);
    }
    assert(chars@.take(chars@.len() as int) == chars@);
    if count.stage == Stage::Unit {
        count = count.finished();
    }
    count.stage != Stage::Spilled
}

/// Whether a character is one the name of a unit is written with.
fn is_unit_letter(c: char) -> (is: bool)
    ensures
        is == unit_letter(c),
{
    ('a' <= c && c <= 'z') || ('A' <= c && c <= 'Z') || c == 'µ'
}

/// What is said of a text which is not a length of time.
pub open spec fn not_a_duration(text: Seq<char>, reason: Seq<char>) -> ErrorView {
    wrapped_user_error(
        reason,
        "We could not understand '"@ + text + "' as a length of time."@,
        seq![
            "Write durations with their units, e.g. '300ms', '1s', '1s 500ms' or '2m'."@,
            "A bare number is not enough — we will not guess whether you meant seconds or milliseconds."@,
        ],
    )
}

/// What is wrong with a length of time which is too long.
pub const TOO_LARGE: &'static str =
    "number is too large or cannot be represented without a lack of precision (values below 1ns are not supported)";

/// What a text is read as, without the white space around it: what it parses
/// to, and one whose parts cannot be added up is too long like any other.
pub open spec fn read_as(text: Seq<char>) -> Result<(u64, u32), Seq<char>> {
    if countable(text) {
        parsed_duration(text)
    } else {
        Err(TOO_LARGE@)
    }
}

/// What a text means once it has been parsed.
pub open spec fn meaning(text: Seq<char>, parsed: Result<(u64, u32), Seq<char>>) -> Result<
    Duration,
    ErrorView,
> {
    match parsed {
        Ok((seconds, nanos)) => Ok(Duration { seconds, nanos }),
        Err(reason) => Err(not_a_duration(text, reason)),
    }
}

/// Whether a result says what it should.
pub open spec fn says(
    result: Result<Duration, Error>,
    expected: Result<Duration, ErrorView>,
) -> bool {
    match result {
        Ok(duration) => expected == Ok::<Duration, ErrorView>(duration),
        Err(error) => expected == Err::<Duration, ErrorView>(error@),
    }
}

/// What a text means, given what parsing it without the white space around it
/// came to.
pub fn understand(text: &str, parsed: Result<(u64, u32), String>) -> (duration: Result<
    Duration,
    Error,
>)
    ensures
        says(
            duration,
            meaning(
                text@,
                match parsed {
                    Ok(parts) => Ok(parts),
                    Err(reason) => Err(reason@),
                },
            ),
        ),
{
    match parsed {
        Ok((seconds, nanos)) => Ok(Duration { seconds, nanos }),
        Err(reason) => {
            let mut description = "We could not understand '".to_owned();
            description.append(text);
            description.append("' as a length of time.");
            let error = Error::wrap_user(
                reason,
                description,
                vec![
                    "Write durations with their units, e.g. '300ms', '1s', '1s 500ms' or '2m'.",
                    "A bare number is not enough — we will not guess whether you meant seconds or milliseconds.",
                ],
            );
            assert(error@ =~= not_a_duration(text@, reason@));
            Err(error)
        },
    }
}

/// Parses a duration such as `300ms`, `1s` or `1s 500ms`.
pub fn parse(text: &str) -> (duration: Result<Duration, Error>)
    ensures
        says(duration, meaning(text@, read_as(trimmed(text@)))),
        duration matches Ok(duration) ==> duration.wf(),
{
    let bare = trim(text);
    let parsed = if is_countable(bare.as_str()) {
        humantime_parse(bare.as_str())
    } else {
        Err(TOO_LARGE.to_owned())
    };
    understand(text, parsed)
}

/// Renders a duration the way a profile would write it (`300ms`, `1s`).
///
/// What is rendered means the same duration when it is parsed again.
pub fn render(duration: Duration) -> (text: String)
    requires
        duration.wf(),
    ensures
        text@ == written_duration(duration.seconds, duration.nanos),
        meaning(text@, read_as(trimmed(text@))) == Ok::<Duration, ErrorView>(duration),
        trimmed(text@) == text@,
{
    let text = humantime_format(duration.seconds, duration.nanos);
    assert(trimmed(text@) == text@);
    text
}

/// What is rendered means the same duration when it is parsed again, whatever
/// white space stands around it.
pub proof fn a_rendered_duration_reads_back(
    duration: Duration,
    before: Seq<char>,
    text: Seq<char>,
    after: Seq<char>,
)
    requires
        trimmed(text) == text,
        meaning(text, read_as(trimmed(text))) == Ok::<Duration, ErrorView>(duration),
        forall|i: int| 0 <= i < before.len() ==> white_space(#[trigger] before[i]),
        forall|i: int| 0 <= i < after.len() ==> white_space(#[trigger] after[i]),
    ensures
        ({
            let padded = before + text + after;
            &&& trimmed(padded) == text
            &&& meaning(padded, read_as(trimmed(padded))) == Ok::<Duration, ErrorView>(
                duration,
            )
        }),
{
    trimming_ignores_white_space(before, text, after);
}

// --- What adding up comes to --------------------------------------------------------------
/// How many nanoseconds have been counted.
pub open spec fn counted(tally: Tally) -> nat {
    tally.seconds * 1_000_000_000 + tally.nanos
}

/// Adding up loses nothing, keeps the nanoseconds below a second, and only
/// fails where the seconds could not be held.
pub proof fn nothing_is_lost_in_adding_up(tally: Tally, seconds: nat, nanos: nat)
    ensures
        ({
            let sum = tally.plus(seconds, nanos);
            &&& sum.stage == Stage::Gap ==> counted(sum) == counted(tally) + seconds * 1_000_000_000
                + nanos && sum.nanos < 1_000_000_000
            &&& tally.nanos < 1_000_000_000 && nanos < 1_000_000_000 && tally.seconds + seconds
                < MOST ==> sum.stage == Stage::Gap
            &&& (sum.stage == Stage::Spilled) == (tally.seconds + seconds == MOST && tally.nanos
                + nanos == 1_000_000_000)
        }),
{
}

/// Each part of a text comes to its number times its unit, be it a fraction or
/// not.
pub proof fn a_part_comes_to_its_number_of_units(tally: Tally)
    requires
        tally.denominator > 0,
        !tally.point ==> tally.numerator == 0,
    ensures
        ({
            let done = tally.finished();
            done.stage == Stage::Gap ==> {
                &&& unit_length(tally.unit) > 0
                &&& (counted(done) - counted(tally)) * tally.denominator == (tally.whole
                    * tally.denominator + tally.numerator) * unit_length(tally.unit)
            }
        }),
{
    let length = unit_length(tally.unit);
    let seconds = length / NANOS_PER_SECOND as nat;
    let whole = tally.whole;
    let over = tally.denominator;
    let above = tally.numerator;
    let done = tally.finished();
    let first = if seconds == 0 {
        tally.plus(0, whole * length)
    } else {
        tally.plus(whole * seconds, 0)
    };
    nothing_is_lost_in_adding_up(tally, 0, whole * length);
    nothing_is_lost_in_adding_up(tally, whole * seconds, 0);
    if done.stage == Stage::Gap {
        assert(first.stage == Stage::Gap);
        assert(seconds > 0 ==> length == seconds * 1_000_000_000);
        if seconds > 0 {
            assert((whole * seconds) * 1_000_000_000 == whole * length) by (nonlinear_arith)
                requires
                    length == seconds * 1_000_000_000,
            ;
        }
        assert(counted(first) == counted(tally) + whole * length);
        if tally.point {
            let fine = length <= 60_000_000_000;
            let parts = above * if fine {
                length
            } else {
                seconds
            };
            let each = parts / over;
            assert(each * over == parts) by (nonlinear_arith)
                requires
                    each == parts / over,
                    parts % over == 0,
                    over > 0,
            ;
            nothing_is_lost_in_adding_up(first, 0, each);
            nothing_is_lost_in_adding_up(first, each, 0);
            if fine {
                assert(counted(done) - counted(tally) == whole * length + each);
                assert((whole * length + each) * over == (whole * over + above) * length)
                    by (nonlinear_arith)
                    requires
                        each * over == above * length,
                ;
            } else {
                assert(counted(done) - counted(tally) == whole * length + each * 1_000_000_000);
                assert((whole * length + each * 1_000_000_000) * over == (whole * over + above)
                    * length) by (nonlinear_arith)
                    requires
                        each * over == above * seconds,
                        length == seconds * 1_000_000_000,
                ;
            }
        } else {
            assert((whole * length) * over == (whole * over + 0) * length) by (nonlinear_arith);
        }
    }
}

/// A number and the unit behind it come to that many of the unit.
pub proof fn a_number_and_its_unit_are_read(n: nat, unit: Seq<char>)
    requires
        n <= MOST,
        unit.len() > 0,
        forall|i: int| 0 <= i < unit.len() ==> unit_letter(#[trigger] unit[i]),
    ensures
        ({
            let read = tally(decimal(n) + unit).ended();
            &&& read.stage == Stage::Gap ==> counted(read) == n * unit_length(unit)
            &&& (unit == "s"@ || unit == "ms"@) && n * unit_length(unit) < MOST ==> read.stage
                == Stage::Gap
        }),
{
    let before = Tally { stage: Stage::Unit, whole: n, unit, ..uncounted() };
    lemma_unit_is_read(n, unit);
    a_part_comes_to_its_number_of_units(before);
    let length = unit_length(unit);
    assert((n * 1 + 0) * length == n * length);
    assert(counted(before) == 0);
    reveal_strlit("s");
    reveal_strlit("ms");
    lemma_seconds_and_milliseconds();
    if unit == "s"@ && n * length < MOST {
        assert(before.finished().stage == Stage::Gap);
    }
    if unit == "ms"@ && n * length < MOST {
        assert(before.finished().stage == Stage::Gap);
    }
}

proof fn lemma_seconds_and_milliseconds()
    ensures
        unit_length("s"@) == 1_000_000_000,
        unit_length("ms"@) == 1_000_000,
{
    reveal_strlit("s");
    reveal_strlit("ms");
    reveal_strlit("nanos");
    reveal_strlit("nsec");
    reveal_strlit("ns");
    reveal_strlit("usec");
    reveal_strlit("us");
    reveal_strlit("µs");
    reveal_strlit("millis");
    reveal_strlit("msec");
    assert("s"@.len() == 1 && "ms"@.len() == 2);
    assert("ms"@[0] == 'm' && "us"@[0] == 'u' && "ns"@[0] == 'n' && "µs"@[0] == 'µ');
}

proof fn lemma_number_is_read(n: nat)
    requires
        n <= MOST,
    ensures
        tally(decimal(n)) == (Tally { stage: Stage::Whole, whole: n, ..uncounted() }),
    decreases n,
{
    let text = decimal(n);
    if n < 10 {
        assert(text.drop_last() =~= Seq::empty());
        assert(tally(text.drop_last()) == uncounted());
        assert(is_digit(text.last()));
    } else {
        lemma_number_is_read(n / 10);
        assert(text.drop_last() =~= decimal(n / 10));
        assert(is_digit(text.last()));
    }
}

proof fn lemma_unit_is_read(n: nat, unit: Seq<char>)
    requires
        n <= MOST,
        unit.len() > 0,
        forall|i: int| 0 <= i < unit.len() ==> unit_letter(#[trigger] unit[i]),
    ensures
        tally(decimal(n) + unit) == (Tally { stage: Stage::Unit, whole: n, unit, ..uncounted() }),
    decreases unit.len(),
{
    let text = decimal(n) + unit;
    let fewer = unit.drop_last();
    let c = unit[unit.len() - 1];
    assert(unit_letter(c));
    assert(!is_digit(c));
    assert(!white_space(c));
    assert(text.last() == c);
    assert(text.drop_last() =~= decimal(n) + fewer);
    if fewer.len() == 0 {
        lemma_number_is_read(n);
        assert(decimal(n) + fewer =~= decimal(n));
        assert(uncounted().unit.push(c) =~= unit);
    } else {
        assert forall|i: int| 0 <= i < fewer.len() implies unit_letter(#[trigger] fewer[i]) by {
            assert(fewer[i] == unit[i]);
        }
        lemma_unit_is_read(n, fewer);
        assert(fewer.push(c) =~= unit);
    }
}

} // verus!
