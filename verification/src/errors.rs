//! The one error type every fallible operation reports, and the conversion of
//! foreign failures into it.
//!
//! An error of [`Kind::User`] is something the person running the tool can act
//! on (a bad configuration, a missing permission); one of [`Kind::System`] is
//! unexpected. Either way it carries a description and advice.

use crate::text::{
    a_part_occurs, a_part_of_a_part_occurs, a_part_still_occurs, every_joined_text_occurs, joined,
    occurs_in, same_text, white_space,
};
use vstd::prelude::*;

verus! {

/// Who can do something about an error.
#[derive(Debug, Clone, Copy, PartialEq, Eq, Structural)]
pub enum Kind {
    /// The person running the tool.
    User,
    /// Whoever maintains the tool, or the system it runs on.
    System,
}

/// What an error was caused by.
#[derive(Debug, Clone, PartialEq, Eq)]
pub struct Cause {
    /// Who can do something about it, where it was worded for them; a foreign
    /// failure is in its own words.
    pub kind: Option<Kind>,
    pub text: String,
}

/// What a [`Cause`] says.
#[verifier::ext_equal]
pub struct CauseView {
    pub kind: Option<Kind>,
    pub text: Seq<char>,
}

impl View for Cause {
    type V = CauseView;

    open spec fn view(&self) -> CauseView {
        CauseView { kind: self.kind, text: self.text@ }
    }
}

/// What each of some causes says.
pub open spec fn cause_views(causes: Seq<Cause>) -> Seq<CauseView> {
    causes.map_values(|cause: Cause| cause@)
}

/// A foreign failure, in its own words.
pub open spec fn foreign(text: Seq<char>) -> CauseView {
    CauseView { kind: None, text }
}

/// A failure, worded for the person who has to deal with it.
#[derive(Debug, Clone)]
pub struct Error {
    /// Who can do something about it.
    pub kind: Kind,
    /// What went wrong.
    pub description: String,
    /// What to try, in the order it was written down.
    pub advice: Vec<&'static str>,
    /// What it was caused by, nearest first.
    pub causes: Vec<Cause>,
}

/// What an [`Error`] says.
#[verifier::ext_equal]
pub struct ErrorView {
    pub kind: Kind,
    pub description: Seq<char>,
    pub advice: Seq<Seq<char>>,
    pub causes: Seq<CauseView>,
}

/// The characters of each of some fixed texts.
pub open spec fn tips(advice: Seq<&'static str>) -> Seq<Seq<char>> {
    advice.map_values(|tip: &'static str| tip@)
}

/// Some texts, each where it first occurs.
pub open spec fn given_once(texts: Seq<Seq<char>>) -> Seq<Seq<char>>
    decreases texts.len(),
{
    if texts.len() == 0 {
        texts
    } else {
        let earlier = given_once(texts.drop_last());
        if earlier.contains(texts.last()) {
            earlier
        } else {
            earlier.push(texts.last())
        }
    }
}

/// The characters of a text which may be missing.
pub open spec fn optional(text: Option<String>) -> Option<Seq<char>> {
    match text {
        Some(text) => Some(text@),
        None => None,
    }
}

impl View for Error {
    type V = ErrorView;

    open spec fn view(&self) -> ErrorView {
        ErrorView {
            kind: self.kind,
            description: self.description@,
            advice: tips(self.advice@),
            causes: cause_views(self.causes@),
        }
    }
}

/// An error the user can act on.
pub open spec fn user_error(description: Seq<char>, advice: Seq<Seq<char>>) -> ErrorView {
    ErrorView { kind: Kind::User, description, advice, causes: Seq::empty() }
}

/// An error the user can act on, and what caused it.
pub open spec fn wrapped_user_error(
    cause: Seq<char>,
    description: Seq<char>,
    advice: Seq<Seq<char>>,
) -> ErrorView {
    ErrorView { kind: Kind::User, description, advice, causes: seq![foreign(cause)] }
}

/// An unexpected error.
pub open spec fn system_error(description: Seq<char>, advice: Seq<Seq<char>>) -> ErrorView {
    ErrorView { kind: Kind::System, description, advice, causes: Seq::empty() }
}

/// An unexpected error, and what caused it.
pub open spec fn wrapped_system_error(
    cause: Seq<char>,
    description: Seq<char>,
    advice: Seq<Seq<char>>,
) -> ErrorView {
    ErrorView { kind: Kind::System, description, advice, causes: seq![foreign(cause)] }
}

/// An error put into the context it happened in: what is said of the context
/// comes first, and what was said of the error becomes its nearest cause.
pub open spec fn in_context(
    inner: ErrorView,
    kind: Kind,
    description: Seq<char>,
    advice: Seq<Seq<char>>,
) -> ErrorView {
    ErrorView {
        kind,
        description,
        advice: advice + inner.advice,
        causes: seq![CauseView { kind: Some(inner.kind), text: inner.description }] + inner.causes,
    }
}

impl Error {
    /// Puts an error into the context it happened in.
    pub fn in_context(self, kind: Kind, description: String, advice: Vec<&'static str>) -> (error:
        Error)
        ensures
            error@ == in_context(self@, kind, description@, tips(advice@)),
    {
        let mut all = advice;
        let mut inner = self;
        let ghost given = all@;
        let ghost inherited = inner.advice@;
        all.append(&mut inner.advice);
        let nearest_cause = Cause { kind: Some(inner.kind), text: inner.description };
        let mut causes: Vec<Cause> = vec![nearest_cause];
        let ghost nearest = causes@;
        let ghost further = inner.causes@;
        causes.append(&mut inner.causes);
        assert(tips(all@) == tips(given) + tips(inherited));
        assert(cause_views(causes@) == cause_views(nearest) + cause_views(further));
        assert(cause_views(nearest) == seq![
            CauseView { kind: Some(self.kind), text: self@.description },
        ]);
        Error { kind, description, advice: all, causes }
    }

    /// An error the user can act on.
    pub fn user(description: String, advice: Vec<&'static str>) -> (error: Error)
        ensures
            error@ == user_error(description@, tips(advice@)),
    {
        let error = Error { kind: Kind::User, description, advice, causes: Vec::new() };
        assert(error@.causes == Seq::<CauseView>::empty());
        error
    }

    /// An error the user can act on, and what caused it.
    pub fn wrap_user(cause: String, description: String, advice: Vec<&'static str>) -> (error:
        Error)
        ensures
            error@ == wrapped_user_error(cause@, description@, tips(advice@)),
    {
        let causes = vec![Cause { kind: None, text: cause }];
        assert(cause_views(causes@) == seq![foreign(cause@)]);
        Error { kind: Kind::User, description, advice, causes }
    }

    /// An unexpected error.
    pub fn system(description: String, advice: Vec<&'static str>) -> (error: Error)
        ensures
            error@ == system_error(description@, tips(advice@)),
    {
        let error = Error { kind: Kind::System, description, advice, causes: Vec::new() };
        assert(error@.causes == Seq::<CauseView>::empty());
        error
    }

    /// An unexpected error, and what caused it.
    pub fn wrap_system(cause: String, description: String, advice: Vec<&'static str>) -> (error:
        Error)
        ensures
            error@ == wrapped_system_error(cause@, description@, tips(advice@)),
    {
        let causes = vec![Cause { kind: None, text: cause }];
        assert(cause_views(causes@) == seq![foreign(cause@)]);
        Error { kind: Kind::System, description, advice, causes }
    }

    /// Whether the error is of a kind.
    pub fn is(&self, kind: Kind) -> (is: bool)
        ensures
            is == (self@.kind == kind),
    {
        self.kind == kind
    }

    /// What to try: the advice closest to the cause first, each piece once.
    pub fn advice(&self) -> (advice: Vec<&'static str>)
        ensures
            tips(advice@) == given_once(self@.advice.reverse()),
    {
        let mut kept: Vec<&'static str> = Vec::new();
        let ghost all = self@.advice.reverse();
        assert(all.take(0) == Seq::<Seq<char>>::empty());
        for i in 0..self.advice.len()
            invariant
                all == self@.advice.reverse(),
                tips(kept@) == given_once(all.take(i as int)),
        {
            let tip = self.advice[self.advice.len() - 1 - i];
            assert(all.take(i + 1).drop_last() == all.take(i as int));
            assert(all.take(i + 1).last() == tip@);
            let mut seen = false;
            for j in 0..kept.len()
                invariant
                    seen == exists|k: int| 0 <= k < j && (#[trigger] kept@[k])@ == tip@,
            {
                if same_text(kept[j], tip) {
                    assert(kept@[j as int]@ == tip@);
                    seen = true;
                }
            }
            let ghost was = kept@;
            assert(seen == tips(was).contains(tip@)) by {
                if seen {
                    let k = choose|k: int| 0 <= k < was.len() && (#[trigger] was[k])@ == tip@;
                    assert(tips(was)[k] == tip@);
                }
                if tips(was).contains(tip@) {
                    let k = choose|k: int| 0 <= k < was.len() && tips(was)[k] == tip@;
                    assert(was[k]@ == tip@);
                }
            }
            if !seen {
                kept.push(tip);
                assert(tips(kept@) == tips(was).push(tip@));
            }
        }
        assert(all.take(self.advice.len() as int) == all);
        kept
    }

    /// What went wrong.
    pub fn description(&self) -> (description: String)
        ensures
            description@ == self@.description,
    {
        self.description.clone()
    }

    /// What happened, in the order it did: the deepest cause first, and the
    /// error itself last.
    pub fn told(&self) -> (told: Vec<Cause>)
        ensures
            cause_views(told@) == self@.causes.reverse().push(
                CauseView { kind: Some(self@.kind), text: self@.description },
            ),
    {
        let mut told: Vec<Cause> = Vec::new();
        let ghost all = self@.causes.reverse();
        for i in 0..self.causes.len()
            invariant
                all == self@.causes.reverse(),
                cause_views(told@) == all.take(i as int),
        {
            let cause = &self.causes[self.causes.len() - 1 - i];
            let ghost before = told@;
            told.push(Cause { kind: cause.kind, text: cause.text.clone() });
            assert(all[i as int] == cause@);
            assert(all.take(i + 1) == all.take(i as int).push(cause@));
            assert(cause_views(told@) == cause_views(before).push(cause@));
        }
        assert(all.take(self.causes.len() as int) == all);
        let ghost before = told@;
        told.push(Cause { kind: Some(self.kind), text: self.description.clone() });
        assert(cause_views(told@) == cause_views(before).push(told@.last()@));
        told
    }

    /// The whole error as it is printed on a terminal: what went wrong, what
    /// caused it, and what to try.
    pub fn pretty(&self) -> (text: String)
        ensures
            is_pretty(self@, text@),
    {
        let told = self.told();
        let mut advice: Vec<&'static str> = Vec::new();
        for i in 0..self.advice.len()
            invariant
                advice@ == self.advice@.take(i as int),
        {
            advice.push(self.advice[i]);
        }
        proof {
            let chain = cause_views(told@);
            assert(advice@ == self.advice@);
            assert(chain.last() == told@.last()@);
            assert(chain.drop_last() == self@.causes.reverse());
            assert(chain.drop_last().reverse() == self@.causes);
            assert(retold(chain, self@.advice) == self@);
        }
        pretty_of(told, advice)
    }
}

/// What stands for a kind where an error is printed.
pub open spec fn kind_tag(kind: Kind) -> Seq<char> {
    match kind {
        Kind::User => "usr"@,
        Kind::System => "sys"@,
    }
}

/// A cause as it is printed.
pub open spec fn cause_text(cause: CauseView) -> Seq<char> {
    match cause.kind {
        Some(kind) => "cause("@ + kind_tag(kind) + "): "@ + cause.text,
        None => "cause: "@ + cause.text,
    }
}

/// Everything an error has to say: what went wrong, what caused it, nearest
/// first, and what to try.
pub open spec fn whole_text(error: ErrorView) -> Seq<char> {
    let causes = error.causes.map_values(|cause: CauseView| cause_text(cause));
    let advice = given_once(error.advice.reverse());
    "error("@ + kind_tag(error.kind) + "): "@ + error.description + "\n"@ + joined(causes, "\n"@)
        + if advice.len() == 0 {
        Seq::empty()
    } else {
        "\nAdvice\n • "@ + joined(advice, "\n • "@)
    }
}

/// A text without its blanks.
pub open spec fn inked(text: Seq<char>) -> Seq<char> {
    text.filter(|c: char| !white_space(c))
}

/// Whether the characters of one text are found at some places of another, from
/// left to right.
pub open spec fn found_at(part: Seq<char>, places: Seq<int>, text: Seq<char>) -> bool {
    &&& places.len() == part.len()
    &&& forall|i: int|
        0 <= i < places.len() ==> 0 <= #[trigger] places[i] < text.len() && text[places[i]]
            == part[i]
    &&& forall|i: int, j: int| 0 <= i < j < places.len() ==> places[i] < places[j]
}

/// Whether a text is one [`Error::pretty`] may come to for an error: it opens
/// with "error(", and everything the error has to say runs through it, in that
/// order. What stands between is up to the terminal: blanks and line breaks,
/// colors, and the lines which frame it.
pub open spec fn is_pretty(error: ErrorView, text: Seq<char>) -> bool {
    &&& "error("@.is_prefix_of(text)
    &&& exists|places: Seq<int>| found_at(inked(whole_text(error)), places, text)
}

/// The error whose causes, the deepest first, are told before itself.
pub open spec fn retold(told: Seq<CauseView>, advice: Seq<Seq<char>>) -> ErrorView {
    ErrorView {
        kind: told.last().kind->0,
        description: told.last().text,
        advice,
        causes: told.drop_last().reverse(),
    }
}

/// Calls `human_errors::pretty`, and collects what it displays. `told` has the
/// causes, the deepest first, and the error itself at its end.
///
/// The text opens with "error(". The error's kind, its description, each cause
/// and each piece of advice follow in that order, with nothing but blanks left
/// out. Nothing is claimed of what stands between their characters: where the
/// lines are broken and framed is not stated, and whether they are colored
/// depends on the environment and on the terminal.
///
/// The advice is leaked: `human_errors` holds it for as long as the program
/// runs.
#[verifier::external_body]
fn pretty_of(told: Vec<Cause>, advice: Vec<&'static str>) -> (text: String)
    requires
        told@.len() > 0,
        told@.last().kind is Some,
    ensures
        is_pretty(retold(cause_views(told@), tips(advice@)), text@),
{
    let advice: &'static [&'static str] = advice.leak();
    let mut error: Option<Box<dyn std::error::Error + Send + Sync>> = None;
    for cause in told {
        let said: Box<dyn std::error::Error + Send + Sync> = match error {
            Some(inner) => human_errors::wrap(inner, cause.text).into(),
            None => cause.text.into(),
        };
        error = Some(match cause.kind {
            Some(Kind::User) => human_errors::user(said, advice).into(),
            Some(Kind::System) => human_errors::system(said, advice).into(),
            None => said,
        });
    }
    human_errors::pretty(error.unwrap().downcast_ref().unwrap()).to_string()
}

/// A foreign failure which can be worded for the person who has to deal with
/// it.
pub trait HumanizableError: Sized {
    /// What the failure says once it is worded.
    spec fn humanized(&self) -> ErrorView;

    /// Words the failure.
    fn to_human_error(self) -> (error: Error)
        ensures
            error@ == self.humanized(),
    ;
}

/// What kind of failure the filesystem reported.
#[derive(Debug, Clone, Copy, PartialEq, Eq, Structural)]
pub enum FileErrorKind {
    /// There is nothing at the path.
    NotFound,
    /// The path exists, and this user may not use it.
    PermissionDenied,
    /// There is something at the path already.
    AlreadyExists,
    /// Anything else.
    Other,
}

/// A failure the filesystem reported.
#[derive(Debug, Clone)]
pub struct FileError {
    pub kind: FileErrorKind,
    /// The failure in the system's own words.
    pub detail: String,
}

impl HumanizableError for FileError {
    open spec fn humanized(&self) -> ErrorView {
        match self.kind {
            FileErrorKind::NotFound => wrapped_user_error(
                self.detail@,
                "We could not find one of the files we needed."@,
                seq!["Make sure that the path you provided exists and is spelled correctly."@],
            ),
            FileErrorKind::PermissionDenied => wrapped_user_error(
                self.detail@,
                "We were not allowed to access one of the files we needed."@,
                seq![
                    "Make sure that the file is readable by your user."@,
                    "If this involves /dev/uinput or /dev/input, see the permissions guide in the documentation."@,
                ],
            ),
            _ => wrapped_system_error(
                self.detail@,
                "An unexpected filesystem error occurred which we could not recover from."@,
                seq!["Please report this issue on GitHub so that we can investigate."@],
            ),
        }
    }

    fn to_human_error(self) -> (error: Error) {
        match self.kind {
            FileErrorKind::NotFound => Error::wrap_user(
                self.detail,
                "We could not find one of the files we needed.".to_owned(),
                vec!["Make sure that the path you provided exists and is spelled correctly."],
            ),
            FileErrorKind::PermissionDenied => Error::wrap_user(
                self.detail,
                "We were not allowed to access one of the files we needed.".to_owned(),
                vec![
                    "Make sure that the file is readable by your user.",
                    "If this involves /dev/uinput or /dev/input, see the permissions guide in the documentation.",
                ],
            ),
            _ => Error::wrap_system(
                self.detail,
                "An unexpected filesystem error occurred which we could not recover from.".to_owned(),
                vec!["Please report this issue on GitHub so that we can investigate."],
            ),
        }
    }
}

/// Advice is given once, and none is lost: what is given is what there was, in
/// the order it first came up, and nothing in it is said twice.
pub proof fn no_advice_is_lost_or_repeated(texts: Seq<Seq<char>>, i: int)
    ensures
        0 <= i < texts.len() ==> given_once(texts).contains(texts[i]),
        forall|k: int|
            0 <= k < given_once(texts).len() ==> texts.contains(#[trigger] given_once(texts)[k]),
        given_once(texts).no_duplicates(),
        texts.no_duplicates() ==> given_once(texts) == texts,
        texts.len() > 0 ==> given_once(texts)[0] == texts[0],
    decreases texts.len(),
{
    if texts.len() > 0 {
        let fewer = texts.drop_last();
        let once = given_once(texts);
        let earlier = given_once(fewer);
        no_advice_is_lost_or_repeated(fewer, i);
        assert(earlier.is_prefix_of(once));
        if 0 <= i < texts.len() {
            if earlier.contains(texts[i]) {
                let k = choose|k: int| 0 <= k < earlier.len() && earlier[k] == texts[i];
                assert(once[k] == texts[i]);
            } else if i < fewer.len() {
                assert(fewer[i] == texts[i]);
            } else {
                assert(once[once.len() - 1] == texts[i]);
            }
        }
        assert forall|k: int| 0 <= k < once.len() implies texts.contains(#[trigger] once[k]) by {
            if k < earlier.len() {
                assert(fewer.contains(earlier[k]));
                let j = choose|j: int| 0 <= j < fewer.len() && fewer[j] == earlier[k];
                assert(texts[j] == once[k]);
            } else {
                assert(texts[texts.len() - 1] == once[k]);
            }
        }
        assert forall|a: int, b: int| 0 <= a < once.len() && 0 <= b < once.len() && a
            != b implies once[a] != once[b] by {
            if a < earlier.len() && b < earlier.len() {
                assert(earlier[a] != earlier[b]);
            } else if a < earlier.len() {
                assert(earlier.contains(earlier[a]));
            } else if b < earlier.len() {
                assert(earlier.contains(earlier[b]));
            }
        }
        if texts.no_duplicates() {
            assert forall|a: int, b: int| 0 <= a < fewer.len() && 0 <= b < fewer.len() && a
                != b implies fewer[a] != fewer[b] by {
                assert(texts[a] != texts[b]);
            }
            assert(earlier == fewer);
            if fewer.contains(texts.last()) {
                let k = choose|k: int| 0 <= k < fewer.len() && fewer[k] == texts.last();
                assert(texts[k] != texts[texts.len() - 1]);
            }
            assert(once =~= texts);
        }
        if fewer.len() > 0 {
            assert(once[0] == earlier[0]);
        }
    }
}

/// An error which is put into context keeps all it had to say: its description
/// becomes the nearest cause, with its kind, its own causes stay behind that, and
/// its advice behind what is advised in that context.
pub proof fn an_error_in_context_loses_nothing(
    inner: ErrorView,
    kind: Kind,
    description: Seq<char>,
    advice: Seq<Seq<char>>,
    i: int,
)
    ensures
        ({
            let outer = in_context(inner, kind, description, advice);
            &&& outer.kind == kind
            &&& outer.description == description
            &&& outer.causes.len() == inner.causes.len() + 1
            &&& outer.causes[0].text == inner.description
            &&& outer.causes[0].kind == Some(inner.kind)
            &&& 0 <= i < inner.causes.len() ==> outer.causes[i + 1] == inner.causes[i]
            &&& outer.advice.len() == advice.len() + inner.advice.len()
            &&& 0 <= i < advice.len() ==> outer.advice[i] == advice[i]
            &&& 0 <= i < inner.advice.len() ==> outer.advice[advice.len() + i] == inner.advice[i]
        }),
{
}

/// Whatever an error has to say is said: its description, every cause, and every
/// piece of advice.
pub proof fn an_error_is_told_in_full(error: ErrorView, i: int)
    ensures
        occurs_in(error.description, whole_text(error)),
        0 <= i < error.causes.len() ==> occurs_in(error.causes[i].text, whole_text(error)),
        0 <= i < error.advice.len() ==> occurs_in(error.advice[i], whole_text(error)),
{
    let nothing = Seq::<char>::empty();
    let causes = error.causes.map_values(|cause: CauseView| cause_text(cause));
    let advice = given_once(error.advice.reverse());
    let start = "error("@ + kind_tag(error.kind) + "): "@;
    let middle = joined(causes, "\n"@);
    let tips = joined(advice, "\n • "@);
    let end = if advice.len() == 0 {
        nothing
    } else {
        "\nAdvice\n • "@ + tips
    };
    let whole = whole_text(error);
    a_part_occurs(start, error.description, "\n"@ + middle + end);
    assert(start + error.description + ("\n"@ + middle + end) =~= whole);
    if 0 <= i < error.causes.len() {
        let cause = error.causes[i];
        let text = causes[i];
        every_joined_text_occurs(causes, "\n"@, i);
        a_part_still_occurs(text, start + error.description + "\n"@, middle, end);
        assert(start + error.description + "\n"@ + middle + end =~= whole);
        let label = match cause.kind {
            Some(kind) => "cause("@ + kind_tag(kind) + "): "@,
            None => "cause: "@,
        };
        a_part_occurs(label, cause.text, nothing);
        assert(label + cause.text + nothing =~= text);
        a_part_of_a_part_occurs(cause.text, text, whole);
    }
    if 0 <= i < error.advice.len() {
        let back = error.advice.len() - 1 - i;
        no_advice_is_lost_or_repeated(error.advice.reverse(), back);
        assert(error.advice.reverse()[back] == error.advice[i]);
        let k = choose|k: int| 0 <= k < advice.len() && advice[k] == error.advice[i];
        every_joined_text_occurs(advice, "\n • "@, k);
        let lead = start + error.description + "\n"@ + middle + "\nAdvice\n • "@;
        a_part_still_occurs(error.advice[i], lead, tips, nothing);
        assert(lead + tips + nothing =~= whole);
    }
}

/// A failure of the filesystem is told in the system's own words, as the cause,
/// and is the user's to act on just where they can.
pub proof fn a_failure_keeps_its_own_words(failure: FileError)
    ensures
        failure.humanized().causes.len() == 1,
        failure.humanized().causes[0].text == failure.detail@,
        failure.humanized().advice.len() > 0,
        (failure.humanized().kind == Kind::User) == (failure.kind == FileErrorKind::NotFound
            || failure.kind == FileErrorKind::PermissionDenied),
{
}

} // verus!
