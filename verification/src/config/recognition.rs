//! The `recognition:` block: the profile's latency levers.
//!
//! Eager firing and confidence gating are mutually exclusive per utterance:
//! alternatives only exist on *finalized* results, so an eagerly fired command
//! can never be confidence-checked. Asking for both is an error.

use crate::audio::binary32::{
    exponent_of, fraction_of, scaled_value, unsigned_bits, Binary32,
};
use crate::errors::{user_error, Error, ErrorView};
use crate::recognition::RecognizerOptions;
use crate::text::{decimal, decimal_of};
use crate::time::Duration;
use vstd::arithmetic::power2::{lemma_pow2_pos, pow2};
use vstd::prelude::*;

verus! {

/// The bits of the margin which applies where a profile sets none: 3.0.
pub const DEFAULT_MARGIN_BITS: u32 = 0x4040_0000;

/// `recognition.silence`: the endpointer's trailing-silence threshold.
pub fn default_silence() -> (silence: Duration)
    ensures
        silence.wf(),
        silence.total_nanos() == 200_000_000,
{
    Duration::from_millis(200)
}

/// `recognition.eager_delay`: how long a partial hypothesis must hold still
/// before an unambiguous match fires from it.
pub fn default_eager_delay() -> (delay: Duration)
    ensures
        delay.wf(),
        delay.total_nanos() == 100_000_000,
{
    Duration::from_millis(100)
}

/// `recognition.confidence_margin`: how close a competing alternative's
/// confidence must be to the winner's before the utterance is suppressed.
pub fn default_confidence_margin() -> (margin: Binary32)
    ensures
        margin.bits == DEFAULT_MARGIN_BITS,
{
    Binary32 { bits: DEFAULT_MARGIN_BITS }
}

/// The optional `recognition:` block.
#[derive(Debug, Clone, Copy, PartialEq, Eq, Structural)]
pub struct RecognitionConfig {
    /// How much trailing silence finalizes an utterance.
    pub silence: Duration,
    /// Whether commands may fire from stable partial hypotheses before the
    /// endpointer finalizes the utterance, where the profile says.
    ///
    /// Kept as written so that "unset" can default differently depending on
    /// `alternatives`; read it through [`RecognitionConfig::eager`].
    pub eager: Option<bool>,
    /// How long an unambiguous partial must stay unchanged before it fires
    /// (only meaningful with `eager` on).
    pub eager_delay: Duration,
    /// How many alternative transcripts to request on finalized results; `0`
    /// disables confidence gating entirely.
    pub alternatives: u32,
    /// Suppress the utterance when a different-command alternative's
    /// confidence is within this margin of the winner's.
    pub confidence_margin: Binary32,
}

impl Default for RecognitionConfig {
    fn default() -> (config: Self)
        ensures
            config.silence.wf(),
            config.silence.total_nanos() == 200_000_000,
            config.eager is None,
            config.eager_delay.wf(),
            config.eager_delay.total_nanos() == 100_000_000,
            config.alternatives == 0,
            config.confidence_margin.bits == DEFAULT_MARGIN_BITS,
    {
        RecognitionConfig {
            silence: default_silence(),
            eager: None,
            eager_delay: default_eager_delay(),
            alternatives: 0,
            confidence_margin: default_confidence_margin(),
        }
    }
}

/// Whether a value is a finite number which is not below zero: no infinity,
/// nothing which is not a number, and no sign on anything but zero.
pub open spec fn non_negative_number(value: Binary32) -> bool {
    value.bits < 0x7f80_0000 || value.bits == 0x8000_0000
}

/// What is said of a block which asks for eager firing and alternatives.
pub open spec fn eager_with_alternatives(alternatives: u32) -> ErrorView {
    user_error(
        "Your 'recognition:' block sets both 'eager: true' and 'alternatives: "@ + decimal(
            alternatives as nat,
        )
            + "', which cannot work together: alternatives (and the confidence gating they enable) only exist once the recognizer has finalized an utterance, while eager firing acts on partial hypotheses before that ever happens — so an eagerly fired command could never be confidence-checked."@,
        seq![
            "Remove 'eager: true' to use confidence gating ('alternatives' implies 'eager: false' when 'eager' is not set)."@,
            "Or remove 'alternatives' to keep eager, low-latency firing."@,
        ],
    )
}

/// What is said of a margin which is not a non-negative number.
pub open spec fn nonsensical_margin(margin: Seq<char>) -> ErrorView {
    user_error(
        "Your 'recognition.confidence_margin' is "@ + margin
            + ", but it must be a non-negative number."@,
        seq![
            "Set it to how close a competing alternative may score before the utterance is suppressed, e.g. 'confidence_margin: 3.0'."@,
        ],
    )
}

impl RecognitionConfig {
    /// Whether eager (partial-driven) firing is on.
    pub open spec fn is_eager(&self) -> bool {
        match self.eager {
            Some(eager) => eager,
            None => self.alternatives == 0,
        }
    }

    /// What is wrong with the block, if anything, given how its margin is
    /// written.
    pub open spec fn problem(&self, margin: Seq<char>) -> Option<ErrorView> {
        if self.eager == Some(true) && self.alternatives > 0 {
            Some(eager_with_alternatives(self.alternatives))
        } else if !non_negative_number(self.confidence_margin) {
            Some(nonsensical_margin(margin))
        } else {
            None
        }
    }

    /// Whether eager (partial-driven) firing is on.
    ///
    /// Defaults to `true` *unless* `alternatives` enables confidence gating,
    /// in which case an unset `eager` defaults to `false`: gating needs the
    /// finalized n-best list, which an eagerly fired command never waits for.
    pub fn eager(&self) -> (eager: bool)
        ensures
            eager == self.is_eager(),
    {
        match self.eager {
            Some(eager) => eager,
            None => self.alternatives == 0,
        }
    }

    /// The recognizer-side slice of this block.
    pub fn recognizer_options(&self) -> (options: RecognizerOptions)
        ensures
            options == (RecognizerOptions {
                silence: self.silence,
                alternatives: self.alternatives,
            }),
    {
        RecognizerOptions { silence: self.silence, alternatives: self.alternatives }
    }

    /// The cross-field invariants, given how the block's margin is written.
    pub fn validate(&self, margin: &str) -> (checked: Result<(), Error>)
        ensures
            match checked {
                Ok(()) => self.problem(margin@) is None,
                Err(error) => self.problem(margin@) == Some(error@),
            },
    {
        let eager = match self.eager {
            Some(eager) => eager,
            None => false,
        };
        if eager && self.alternatives > 0 {
            let mut description =
                "Your 'recognition:' block sets both 'eager: true' and 'alternatives: ".to_owned();
            description.append(decimal_of(self.alternatives as u64).as_str());
            description.append(
                "', which cannot work together: alternatives (and the confidence gating they enable) only exist once the recognizer has finalized an utterance, while eager firing acts on partial hypotheses before that ever happens — so an eagerly fired command could never be confidence-checked.",
            );
            let error = Error::user(
                description,
                vec![
                    "Remove 'eager: true' to use confidence gating ('alternatives' implies 'eager: false' when 'eager' is not set).",
                    "Or remove 'alternatives' to keep eager, low-latency firing.",
                ],
            );
            assert(error@ =~= eager_with_alternatives(self.alternatives));
            return Err(error);
        }
        let bits: u32 = self.confidence_margin.bits;
        if !(bits < 0x7f80_0000 || bits == 0x8000_0000) {
            let mut description = "Your 'recognition.confidence_margin' is ".to_owned();
            description.append(margin);
            description.append(", but it must be a non-negative number.");
            let error = Error::user(
                description,
                vec![
                    "Set it to how close a competing alternative may score before the utterance is suppressed, e.g. 'confidence_margin: 3.0'.",
                ],
            );
            assert(error@ =~= nonsensical_margin(margin@));
            return Err(error);
        }
        Ok(())
    }
}

/// A block which passes its checks never fires eagerly while it asks for
/// alternatives.
pub proof fn eager_firing_excludes_gating(config: RecognitionConfig, margin: Seq<char>)
    requires
        config.problem(margin) is None,
    ensures
        !(config.is_eager() && config.alternatives > 0),
{
}

/// A block passes its checks exactly where it does not ask for eager firing and
/// alternatives, and its margin is a finite number which is not below zero.
pub proof fn a_block_passes_where_its_levers_go_together(
    config: RecognitionConfig,
    margin: Seq<char>,
)
    ensures
        config.problem(margin) is None <==> {
            &&& !(config.eager == Some(true) && config.alternatives > 0)
            &&& unsigned_bits(config.confidence_margin) < 0x7f80_0000
            &&& scaled_value(config.confidence_margin) >= 0
        },
{
    let value = config.confidence_margin;
    let unsigned = unsigned_bits(value);
    let size = fraction_of(unsigned);
    let power = pow2(exponent_of(unsigned));
    lemma_pow2_pos(exponent_of(unsigned));
    if size == 0 {
        assert(size * power == 0) by (nonlinear_arith)
            requires
                size == 0,
        ;
    } else {
        assert(size * power > 0) by (nonlinear_arith)
            requires
                size > 0,
                power > 0,
        ;
    }
}

/// Eager firing is on where the profile says so, and where it says nothing,
/// unless it asks for alternatives.
pub proof fn eager_firing_is_the_default_without_gating(config: RecognitionConfig)
    ensures
        config.eager is Some ==> config.is_eager() == config.eager->0,
        config.eager is None ==> config.is_eager() == (config.alternatives == 0),
{
}

} // verus!
