//! What travels to and from the speech recognizer.

use crate::text::{copied, is_among, views};
use crate::time::Duration;
use vstd::prelude::*;

verus! {

/// What the audio thread hands the recognizer.
#[derive(Debug, Clone)]
pub enum AudioMsg {
    /// One frame of mono PCM at the model's rate.
    Frame(Vec<i16>),
    /// Listening stopped: whatever was being heard is over.
    Reset,
    /// Listening is about to start: forget what is half-heard.
    Clear,
}

/// A finalized utterance.
#[derive(Debug, Clone, PartialEq, Eq)]
pub struct Utterance {
    /// What was said.
    pub text: String,
}

/// What the recognizer reports.
#[derive(Debug, Clone, PartialEq, Eq)]
pub enum RecognitionEvent {
    /// An utterance came to its end.
    Final(Utterance),
    /// What has been made out of the utterance so far.
    Partial(String),
    /// The recognizer was reset because listening stopped.
    Muted,
    /// The recognizer could not decode the audio.
    Failed,
}

/// What the recognizer is told about endpointing and alternatives.
#[derive(Debug, Clone, Copy, PartialEq, Eq, Structural)]
pub struct RecognizerOptions {
    /// How much trailing silence finalizes an utterance.
    pub silence: Duration,
    /// How many alternative transcripts to request on finalized results.
    pub alternatives: u32,
}

impl Default for RecognizerOptions {
    fn default() -> (options: Self)
        ensures
            options.silence.wf(),
            options.silence.total_nanos() == 200_000_000,
            options.alternatives == 0,
    {
        RecognizerOptions { silence: Duration::from_millis(200), alternatives: 0 }
    }
}

/// What a speech model can hear.
pub trait Vocabulary {
    /// Whether the model knows a word.
    spec fn knows(&self, word: Seq<char>) -> bool;

    /// The model's readable list of words, where it ships one.
    spec fn listed(&self) -> Option<Seq<Seq<char>>>;

    /// Whether the model knows a word.
    fn contains(&self, word: &str) -> (known: bool)
        ensures
            known == self.knows(word@),
    ;

    /// The model's readable list of words, where it ships one.
    fn words(&self) -> (words: Option<Vec<String>>)
        ensures
            match words {
                Some(words) => self.listed() == Some(views(words@)),
                None => self.listed() is None,
            },
    ;
}

/// A vocabulary which is written down.
#[derive(Debug, Clone, PartialEq, Eq)]
pub struct WordList {
    /// The words it knows.
    pub words: Vec<String>,
    /// The words it lists. A model without a readable word list has none.
    pub listing: Option<Vec<String>>,
}

impl Vocabulary for WordList {
    open spec fn knows(&self, word: Seq<char>) -> bool {
        views(self.words@).contains(word)
    }

    open spec fn listed(&self) -> Option<Seq<Seq<char>>> {
        match self.listing {
            Some(words) => Some(views(words@)),
            None => None,
        }
    }

    fn contains(&self, word: &str) -> (known: bool) {
        is_among(self.words.as_slice(), word)
    }

    fn words(&self) -> (words: Option<Vec<String>>) {
        match &self.listing {
            Some(words) => Some(copied(words.as_slice())),
            None => None,
        }
    }
}

} // verus!
