//! `voice-orders validate <profile>`: structure, grammar analysis, and every
//! word checked against the model's vocabulary.
//!
//! The guiding rule is **one pass, everything reported**: a run tells you about
//! every problem in the profile at once. A missing model must not hide a broken
//! grammar, and the exit code is derived from the finished report instead of
//! from the first thing which went wrong.
//!
//! The checks, in report order: the lints of the grammar's analysis, the
//! automaton's compile diagnostics, the vocabulary sweep over the grammar's
//! words, and then the notes: the sizes of the rules, which rules the
//! recognizer is fed in fragments, and where the completion timeout is paid.

pub mod suggest;

use crate::config::duration::{render, written_duration};
use crate::config::Profile;
use crate::errors::{is_pretty, optional, user_error, Error, ErrorView, Kind};
use crate::recognition::Vocabulary;
use crate::text::{
    a_part_occurs, a_part_of_a_part_occurs, a_part_still_occurs, blank, decimal, decimal_of,
    every_joined_text_occurs, is_blank, join, joined, lines, lines_of, occurs_in, same_text, views,
};
use suggest::{
    all_halves, compound_splits, nearest, nearest_candidates, nearest_words, normalize, normalized,
    offered_splits, pair_views, sayable_words,
};
use vstd::prelude::*;

verus! {

/// What `validate` was asked for.
#[derive(Debug, Clone, PartialEq, Eq)]
pub struct ValidateArgs {
    /// The profile to validate: a local path or an https:// URL.
    pub profile: String,
    /// The model to check the profile's words against. Overrides the profile's
    /// `model:` field and `$VOSK_MODEL_PATH`.
    pub model: Option<String>,
}

/// The most concrete phrases of one rule the recognizer is fed whole.
pub const MAX_EXPANSIONS_PER_RULE: usize = 512;

// --- What is known of a grammar ----------------------------------------------
/// A phrase which is also the beginning of a longer command.
#[derive(Debug, Clone, PartialEq, Eq)]
pub struct Ambiguity {
    /// The rule the phrase belongs to.
    pub rule: String,
    /// The phrase itself.
    pub phrase: String,
    /// How a longer command continues it, where one can be named.
    pub continuation: Option<String>,
}

/// A rule the recognizer is fed in fragments.
#[derive(Debug, Clone, PartialEq, Eq)]
pub struct Decomposition {
    /// The rule.
    pub rule: String,
    /// How many concrete phrases it expands into; `usize::MAX` stands for more
    /// than can be counted.
    pub expansions: usize,
}

/// What a compiled grammar says about itself.
#[derive(Debug, Clone, PartialEq, Eq)]
pub struct Automaton {
    /// How many states each rule compiles into.
    pub rule_sizes: Vec<(String, usize)>,
    /// Where the completion timeout is paid.
    pub prefix_ambiguities: Vec<Ambiguity>,
}

/// What analysis found out about a grammar.
#[derive(Debug)]
pub struct Grammar {
    /// The published rules: the commands, in the order they are written.
    pub published: Vec<String>,
    /// The lints static analysis attached.
    pub lints: Vec<String>,
    /// The compiled automaton, or every reason there is none.
    pub automaton: Result<Automaton, Vec<Error>>,
    /// The rules the recognizer is fed in fragments.
    pub decompositions: Vec<Decomposition>,
    /// Every distinct word the grammar listens for.
    pub words: Vec<String>,
}

// --- The report ----------------------------------------------------------------
/// One thing worth saying about a profile or one of its commands.
#[derive(Debug, Clone)]
pub enum Finding {
    /// Something which is broken: the profile will not run as written.
    Error(Error),
    /// Something which will run, but almost certainly not as intended.
    Warning(String),
    /// Something worth knowing about how the profile will behave.
    Note(String),
}

/// A [`Finding`] in mathematical terms.
#[verifier::ext_equal]
pub enum FindingView {
    Error(ErrorView),
    Warning(Seq<char>),
    Note(Seq<char>),
}

impl View for Finding {
    type V = FindingView;

    open spec fn view(&self) -> FindingView {
        match self {
            Finding::Error(error) => FindingView::Error(error@),
            Finding::Warning(message) => FindingView::Warning(message@),
            Finding::Note(message) => FindingView::Note(message@),
        }
    }
}

/// Some findings in mathematical terms.
pub open spec fn finding_views(findings: Seq<Finding>) -> Seq<FindingView> {
    findings.map_values(|finding: Finding| finding@)
}

/// The findings for one published rule, under the name it will be reported by.
#[derive(Debug, Clone)]
pub struct Section {
    pub title: String,
    pub findings: Vec<Finding>,
}

/// A [`Section`] in mathematical terms.
#[verifier::ext_equal]
pub struct SectionView {
    pub title: Seq<char>,
    pub findings: Seq<FindingView>,
}

impl View for Section {
    type V = SectionView;

    open spec fn view(&self) -> SectionView {
        SectionView { title: self.title@, findings: finding_views(self.findings@) }
    }
}

/// Some sections in mathematical terms.
pub open spec fn section_views(sections: Seq<Section>) -> Seq<SectionView> {
    sections.map_values(|section: Section| section@)
}

/// A complete validation report: profile-wide findings, then one section per
/// published rule, then the summary.
#[derive(Debug, Clone)]
pub struct Report {
    pub header: String,
    pub profile: Vec<Finding>,
    pub commands: Vec<Section>,
}

/// A [`Report`] in mathematical terms.
#[verifier::ext_equal]
pub struct ReportView {
    pub header: Seq<char>,
    pub profile: Seq<FindingView>,
    pub commands: Seq<SectionView>,
}

impl View for Report {
    type V = ReportView;

    open spec fn view(&self) -> ReportView {
        ReportView {
            header: self.header@,
            profile: finding_views(self.profile@),
            commands: section_views(self.commands@),
        }
    }
}

/// What kind of finding is counted.
#[derive(Debug, Clone, Copy, PartialEq, Eq, Structural)]
pub enum Severity {
    Error,
    Warning,
}

/// Whether a finding is of a kind.
pub open spec fn counts(finding: FindingView, severity: Severity) -> bool {
    match severity {
        Severity::Error => finding is Error,
        Severity::Warning => finding is Warning,
    }
}

/// How many of some findings are of a kind.
pub open spec fn count_in(findings: Seq<FindingView>, severity: Severity) -> nat
    decreases findings.len(),
{
    if findings.len() == 0 {
        0
    } else {
        count_in(findings.drop_last(), severity) + if counts(findings.last(), severity) {
            1nat
        } else {
            0
        }
    }
}

/// How many findings of some sections are of a kind.
pub open spec fn count_across(sections: Seq<SectionView>, severity: Severity) -> nat
    decreases sections.len(),
{
    if sections.len() == 0 {
        0
    } else {
        count_across(sections.drop_last(), severity) + count_in(sections.last().findings, severity)
    }
}

impl ReportView {
    /// How many findings of the whole report are of a kind.
    pub open spec fn count(self, severity: Severity) -> nat {
        count_in(self.profile, severity) + count_across(self.commands, severity)
    }

    /// The errors of the whole report, in the order they are rendered.
    pub open spec fn all_errors(self) -> Seq<ErrorView> {
        errors_in(self.profile) + errors_across(self.commands)
    }
}

/// Whether a finding is of a kind.
fn is_counted(finding: &Finding, severity: Severity) -> (is: bool)
    ensures
        is == counts(finding@, severity),
{
    match (finding, severity) {
        (Finding::Error(_), Severity::Error) => true,
        (Finding::Warning(_), Severity::Warning) => true,
        _ => false,
    }
}

/// How many of some findings are of a kind.
fn count_of(findings: &[Finding], severity: Severity) -> (count: usize)
    ensures
        count == count_in(finding_views(findings@), severity),
{
    let mut count: usize = 0;
    let ghost all = finding_views(findings@);
    assert(all.take(0) == Seq::<FindingView>::empty());
    for i in 0..findings.len()
        invariant
            all == finding_views(findings@),
            count == count_in(all.take(i as int), severity),
            count <= i,
    {
        assert(all.take(i + 1).drop_last() == all.take(i as int));
        assert(all.take(i + 1).last() == findings@[i as int]@);
        if is_counted(&findings[i], severity) {
            count = count + 1;
        }
    }
    assert(all.take(findings.len() as int) == all);
    count
}

/// More sections never hold fewer findings.
proof fn lemma_count_grows(sections: Seq<SectionView>, severity: Severity, end: int)
    requires
        0 <= end <= sections.len(),
    ensures
        count_across(sections.take(end), severity) <= count_across(sections, severity),
    decreases sections.len() - end,
{
    if end == sections.len() {
        assert(sections.take(end) == sections);
    } else {
        assert(sections.take(end + 1).drop_last() == sections.take(end));
        lemma_count_grows(sections, severity, end + 1);
    }
}

/// `one` or `many`, as the count asks for.
pub open spec fn plural_of(count: nat, one: Seq<char>, many: Seq<char>) -> Seq<char> {
    if count == 1 {
        one
    } else {
        many
    }
}

/// `one` or `many`, as the count asks for.
pub fn plural<'a>(count: usize, one: &'a str, many: &'a str) -> (text: &'a str)
    ensures
        text@ == plural_of(count as nat, one@, many@),
{
    if count == 1 {
        one
    } else {
        many
    }
}

/// Lines of text, each on a line of its own and indented unless it is blank.
pub open spec fn indented(found: Seq<Seq<char>>) -> Seq<char>
    decreases found.len(),
{
    if found.len() == 0 {
        Seq::empty()
    } else {
        indented(found.drop_last()) + if blank(found.last()) {
            "\n"@
        } else {
            "  "@ + found.last() + "\n"@
        }
    }
}

/// Lines of text, each on a line of its own and indented unless it is blank.
fn indent(text: &str) -> (indented_text: String)
    ensures
        indented_text@ == indented(lines(text@)),
{
    let found = lines_of(text);
    let mut out = String::new();
    let ghost all = views(found@);
    assert(all.take(0) == Seq::<Seq<char>>::empty());
    for i in 0..found.len()
        invariant
            all == views(found@),
            out@ == indented(all.take(i as int)),
    {
        assert(all.take(i + 1).drop_last() == all.take(i as int));
        assert(all.take(i + 1).last() == found@[i as int]@);
        let ghost before = out@;
        if is_blank(found[i].as_str()) {
            out.append("\n");
        } else {
            out.append("  ");
            out.append(found[i].as_str());
            out.append("\n");
            assert(out@ == before + ("  "@ + found@[i as int]@ + "\n"@));
        }
    }
    assert(all.take(found.len() as int) == all);
    out
}

/// The text of some findings. Errors are written out in full, as `pretty` has
/// them: the first error's text first.
pub open spec fn findings_text(findings: Seq<FindingView>, pretty: Seq<Seq<char>>) -> Seq<char>
    decreases findings.len(),
{
    if findings.len() == 0 {
        Seq::empty()
    } else {
        let earlier = findings.drop_last();
        findings_text(earlier, pretty) + match findings.last() {
            FindingView::Error(_) => indented(
                lines(pretty[count_in(earlier, Severity::Error) as int]),
            ),
            FindingView::Warning(message) => "  warning: "@ + message + "\n"@,
            FindingView::Note(message) => "  note: "@ + message + "\n"@,
        }
    }
}

/// The text of a section's findings, with `empty` where there are none.
pub open spec fn section_text(
    findings: Seq<FindingView>,
    empty: Option<Seq<char>>,
    pretty: Seq<Seq<char>>,
) -> Seq<char> {
    if findings.len() == 0 {
        match empty {
            Some(empty) => "  "@ + empty + "\n"@,
            None => Seq::empty(),
        }
    } else {
        findings_text(findings, pretty)
    }
}

/// Renders a section's findings, indented, with `empty` shown when there are
/// none (profile-wide findings simply render nothing when there is nothing to
/// say). `first` is which of the texts in `pretty` is the first error's.
pub fn render_findings(findings: &[Finding], empty: Option<&str>, pretty: &[String], first: usize)
    -> (text: String)
    requires
        first + count_in(finding_views(findings@), Severity::Error) <= pretty@.len(),
    ensures
        text@ == section_text(
            finding_views(findings@),
            match empty {
                Some(empty) => Some(empty@),
                None => None,
            },
            views(pretty@).skip(first as int),
        ),
{
    let mut out = String::new();
    if findings.len() == 0 {
        if let Some(empty) = empty {
            out.append("  ");
            out.append(empty);
            out.append("\n");
        }
        return out;
    }
    let ghost all = finding_views(findings@);
    let ghost texts = views(pretty@).skip(first as int);
    let mut errors: usize = 0;
    let pretty_len: usize = pretty.len();
    assert(all.take(0) == Seq::<FindingView>::empty());
    for i in 0..findings.len()
        invariant
            all == finding_views(findings@),
            texts == views(pretty@).skip(first as int),
            first + count_in(all, Severity::Error) <= pretty@.len(),
            pretty_len == pretty@.len(),
            errors == count_in(all.take(i as int), Severity::Error),
            out@ == findings_text(all.take(i as int), texts),
    {
        assert(all.take(i + 1).drop_last() == all.take(i as int));
        assert(all.take(i + 1).last() == findings@[i as int]@);
        proof {
            lemma_count_in_grows(all, Severity::Error, i + 1);
        }
        let ghost before = out@;
        match &findings[i] {
            Finding::Error(_) => {
                assert(texts[errors as int] == pretty@[first + errors]@);
                let text = indent(pretty[first + errors].as_str());
                out.append(text.as_str());
                errors = errors + 1;
            },
            Finding::Warning(message) => {
                out.append("  warning: ");
                out.append(message.as_str());
                out.append("\n");
                assert(out@ == before + ("  warning: "@ + message@ + "\n"@));
            },
            Finding::Note(message) => {
                out.append("  note: ");
                out.append(message.as_str());
                out.append("\n");
                assert(out@ == before + ("  note: "@ + message@ + "\n"@));
            },
        }
    }
    assert(all.take(findings.len() as int) == all);
    out
}

/// More findings never count for less.
proof fn lemma_count_in_grows(findings: Seq<FindingView>, severity: Severity, end: int)
    requires
        0 <= end <= findings.len(),
    ensures
        count_in(findings.take(end), severity) <= count_in(findings, severity),
    decreases findings.len() - end,
{
    if end == findings.len() {
        assert(findings.take(end) == findings);
    } else {
        assert(findings.take(end + 1).drop_last() == findings.take(end));
        lemma_count_in_grows(findings, severity, end + 1);
    }
}

/// The errors among some findings.
pub open spec fn errors_in(findings: Seq<FindingView>) -> Seq<ErrorView>
    decreases findings.len(),
{
    if findings.len() == 0 {
        Seq::empty()
    } else {
        let earlier = errors_in(findings.drop_last());
        match findings.last() {
            FindingView::Error(error) => earlier.push(error),
            _ => earlier,
        }
    }
}

/// The errors among the findings of some sections, the first section's first.
pub open spec fn errors_across(sections: Seq<SectionView>) -> Seq<ErrorView>
    decreases sections.len(),
{
    if sections.len() == 0 {
        Seq::empty()
    } else {
        errors_across(sections.drop_last()) + errors_in(sections.last().findings)
    }
}

/// Whether some texts are ones which some errors may be printed as, one for
/// each of them.
pub open spec fn are_pretty(errors: Seq<ErrorView>, texts: Seq<Seq<char>>) -> bool {
    &&& texts.len() == errors.len()
    &&& forall|i: int| 0 <= i < texts.len() ==> is_pretty(errors[i], #[trigger] texts[i])
}

/// Adds the texts of the errors among some findings to others.
fn push_pretty(pretty: &mut Vec<String>, findings: &[Finding])
    ensures
        old(pretty)@.is_prefix_of(final(pretty)@),
        are_pretty(
            errors_in(finding_views(findings@)),
            views(final(pretty)@).skip(old(pretty)@.len() as int),
        ),
        final(pretty)@.len() == old(pretty)@.len() + count_in(
            finding_views(findings@),
            Severity::Error,
        ),
{
    let ghost all = finding_views(findings@);
    let ghost had = pretty@;
    assert(all.take(0) == Seq::<FindingView>::empty());
    for i in 0..findings.len()
        invariant
            all == finding_views(findings@),
            had.is_prefix_of(pretty@),
            are_pretty(errors_in(all.take(i as int)), views(pretty@).skip(had.len() as int)),
            pretty@.len() == had.len() + count_in(all.take(i as int), Severity::Error),
    {
        assert(all.take(i + 1).drop_last() == all.take(i as int));
        assert(all.take(i + 1).last() == findings@[i as int]@);
        if let Finding::Error(error) = &findings[i] {
            let ghost before = views(pretty@).skip(had.len() as int);
            let text = error.pretty();
            pretty.push(text);
            assert(views(pretty@).skip(had.len() as int) == before.push(text@));
        }
    }
    assert(all.take(findings.len() as int) == all);
}

/// The text of some sections, each under its title. `pretty` has the errors'
/// texts, the first section's first.
pub open spec fn sections_text(sections: Seq<SectionView>, pretty: Seq<Seq<char>>) -> Seq<char>
    decreases sections.len(),
{
    if sections.len() == 0 {
        Seq::empty()
    } else {
        let earlier = sections.drop_last();
        sections_text(earlier, pretty) + ("\n"@ + sections.last().title + "\n"@ + section_text(
            sections.last().findings,
            Some("ok"@),
            pretty.skip(count_across(earlier, Severity::Error) as int),
        ))
    }
}

/// The last line of a report.
pub open spec fn summary_text(report: ReportView) -> Seq<char> {
    let commands = report.commands.len();
    let errors = report.count(Severity::Error);
    let warnings = report.count(Severity::Warning);
    decimal(commands) + " "@ + plural_of(commands, "command"@, "commands"@) + " checked — "@
        + decimal(errors) + " "@ + plural_of(errors, "error"@, "errors"@) + ", "@ + decimal(
        warnings,
    ) + " "@ + plural_of(warnings, "warning"@, "warnings"@) + "."@
}

/// A whole report as it is printed. `pretty` has the texts of its errors, in
/// the order they are rendered.
pub open spec fn report_text(report: ReportView, pretty: Seq<Seq<char>>) -> Seq<char> {
    report.header + "\n"@ + section_text(report.profile, None, pretty) + sections_text(
        report.commands,
        pretty.skip(count_in(report.profile, Severity::Error) as int),
    ) + "\n"@ + summary_text(report) + "\n"@
}

impl Report {
    /// Whether the report's findings can be counted.
    pub open spec fn countable(&self) -> bool {
        self@.count(Severity::Error) <= usize::MAX && self@.count(Severity::Warning) <= usize::MAX
    }

    /// The number of errors across the whole report.
    pub fn errors(&self) -> (count: usize)
        requires
            self.countable(),
        ensures
            count == self@.count(Severity::Error),
    {
        self.count(Severity::Error)
    }

    /// The number of warnings across the whole report.
    pub fn warnings(&self) -> (count: usize)
        requires
            self.countable(),
        ensures
            count == self@.count(Severity::Warning),
    {
        self.count(Severity::Warning)
    }

    fn count(&self, severity: Severity) -> (count: usize)
        requires
            self.countable(),
        ensures
            count == self@.count(severity),
    {
        let mut count: usize = count_of(self.profile.as_slice(), severity);
        let ghost sections = section_views(self.commands@);
        assert(sections.take(0) == Seq::<SectionView>::empty());
        for i in 0..self.commands.len()
            invariant
                self.countable(),
                sections == section_views(self.commands@),
                count == count_in(finding_views(self.profile@), severity) + count_across(
                    sections.take(i as int),
                    severity,
                ),
        {
            assert(sections.take(i + 1).drop_last() == sections.take(i as int));
            assert(sections.take(i + 1).last() == self.commands@[i as int]@);
            proof {
                lemma_count_grows(sections, severity, i + 1);
                assert(self@.count(severity) <= usize::MAX);
            }
            count = count + count_of(self.commands[i].findings.as_slice(), severity);
        }
        assert(sections.take(self.commands.len() as int) == sections);
        count
    }

    /// `0` when nothing is broken (warnings and notes are fine), `1` otherwise.
    pub fn exit_code(&self) -> (code: i32)
        requires
            self.countable(),
        ensures
            code == if self@.count(Severity::Error) > 0 { 1i32 } else { 0 },
    {
        if self.errors() > 0 {
            1
        } else {
            0
        }
    }

    /// The texts of the report's errors, in the order they are rendered.
    fn pretty_errors(&self) -> (pretty: Vec<String>)
        requires
            self.countable(),
        ensures
            are_pretty(self@.all_errors(), views(pretty@)),
            pretty@.len() == self@.count(Severity::Error),
    {
        let mut pretty: Vec<String> = Vec::new();
        push_pretty(&mut pretty, self.profile.as_slice());
        assert(views(pretty@).skip(0) == views(pretty@));
        let ghost own = errors_in(finding_views(self.profile@));
        let ghost sections = section_views(self.commands@);
        let ghost mine = count_in(finding_views(self.profile@), Severity::Error);
        assert(sections.take(0) == Seq::<SectionView>::empty());
        for i in 0..self.commands.len()
            invariant
                sections == section_views(self.commands@),
                are_pretty(own + errors_across(sections.take(i as int)), views(pretty@)),
                pretty@.len() == mine + count_across(sections.take(i as int), Severity::Error),
        {
            assert(sections.take(i + 1).drop_last() == sections.take(i as int));
            assert(sections.take(i + 1).last() == self.commands@[i as int]@);
            let ghost before = pretty@;
            let ghost earlier = own + errors_across(sections.take(i as int));
            push_pretty(&mut pretty, self.commands[i].findings.as_slice());
            let ghost added = errors_in(sections[i as int].findings);
            assert(own + errors_across(sections.take(i + 1)) == earlier + added);
            assert forall|k: int| 0 <= k < pretty@.len() implies is_pretty(
                (earlier + added)[k],
                #[trigger] views(pretty@)[k],
            ) by {
                if k < before.len() {
                    assert(views(pretty@)[k] == views(before)[k]);
                } else {
                    let mine = views(pretty@).skip(before.len() as int);
                    assert(views(pretty@)[k] == mine[k - before.len()]);
                }
            }
        }
        assert(sections.take(self.commands.len() as int) == sections);
        pretty
    }

    /// The whole report as it is printed. How an error is set out and colored
    /// is up to the terminal, so the texts of the errors are whatever
    /// [`Error::pretty`] came to, one for each of them.
    pub fn render(&self) -> (text: String)
        requires
            self.countable(),
        ensures
            exists|pretty: Seq<Seq<char>>|
                {
                    &&& #[trigger] are_pretty(self@.all_errors(), pretty)
                    &&& pretty.len() == self@.count(Severity::Error)
                    &&& text@ == report_text(self@, pretty)
                },
    {
        let pretty = self.pretty_errors();
        let text = self.render_with(pretty.as_slice());
        assert(are_pretty(self@.all_errors(), views(pretty@)));
        text
    }

    /// The whole report as it is printed. `pretty` has the texts of its errors,
    /// in the order they are rendered.
    pub fn render_with(&self, pretty: &[String]) -> (text: String)
        requires
            self.countable(),
            self@.count(Severity::Error) == pretty@.len(),
        ensures
            text@ == report_text(self@, views(pretty@)),
    {
        let mut out = self.header.clone();
        out.append("\n");
        assert(views(pretty@).skip(0) == views(pretty@));
        let findings = render_findings(self.profile.as_slice(), None, pretty, 0);
        out.append(findings.as_str());
        let ghost head = out@;
        let ghost sections = section_views(self.commands@);
        let ghost mine = count_in(finding_views(self.profile@), Severity::Error);
        let ghost texts = views(pretty@).skip(mine as int);
        let mut first: usize = count_of(self.profile.as_slice(), Severity::Error);
        assert(sections.take(0) == Seq::<SectionView>::empty());
        assert(head + Seq::<char>::empty() == head);
        for i in 0..self.commands.len()
            invariant
                self.countable(),
                self@.count(Severity::Error) == pretty@.len(),
                sections == section_views(self.commands@),
                mine == count_in(finding_views(self.profile@), Severity::Error),
                texts == views(pretty@).skip(mine as int),
                first == mine + count_across(sections.take(i as int), Severity::Error),
                out@ == head + sections_text(sections.take(i as int), texts),
        {
            assert(sections.take(i + 1).drop_last() == sections.take(i as int));
            assert(sections.take(i + 1).last() == self.commands@[i as int]@);
            proof {
                lemma_count_grows(sections, Severity::Error, i + 1);
            }
            let ghost before = out@;
            let section = &self.commands[i];
            let findings = render_findings(section.findings.as_slice(), Some("ok"), pretty, first);
            out.append("\n");
            out.append(section.title.as_str());
            out.append("\n");
            out.append(findings.as_str());
            assert(views(pretty@).skip(first as int) == texts.skip(
                count_across(sections.take(i as int), Severity::Error) as int,
            ));
            assert(out@ == before + ("\n"@ + section.title@ + "\n"@ + findings@));
            assert(out@ == head + (sections_text(sections.take(i as int), texts) + ("\n"@
                + section.title@ + "\n"@ + findings@)));
            first = first + count_of(section.findings.as_slice(), Severity::Error);
        }
        assert(sections.take(self.commands.len() as int) == sections);
        out.append("\n");
        out.append(self.summary().as_str());
        out.append("\n");
        out
    }

    /// The last line of the report.
    pub fn summary(&self) -> (text: String)
        requires
            self.countable(),
        ensures
            text@ == summary_text(self@),
    {
        let commands: usize = self.commands.len();
        let errors: usize = self.errors();
        let warnings: usize = self.warnings();
        let mut text = decimal_of(commands as u64);
        text.append(" ");
        text.append(plural(commands, "command", "commands"));
        text.append(" checked — ");
        text.append(decimal_of(errors as u64).as_str());
        text.append(" ");
        text.append(plural(errors, "error", "errors"));
        text.append(", ");
        text.append(decimal_of(warnings as u64).as_str());
        text.append(" ");
        text.append(plural(warnings, "warning", "warnings"));
        text.append(".");
        text
    }
}

// --- Words the model does not know ---------------------------------------------
/// Each of some texts between quotes.
pub open spec fn quoted(texts: Seq<Seq<char>>) -> Seq<Seq<char>> {
    texts.map_values(|text: Seq<char>| "'"@ + text + "'"@)
}

/// Both halves of each of some splits, between quotes.
pub open spec fn quoted_pairs(pairs: Seq<(Seq<char>, Seq<char>)>) -> Seq<Seq<char>> {
    pairs.map_values(|pair: (Seq<char>, Seq<char>)| "'"@ + pair.0 + " "@ + pair.1 + "'"@)
}

/// What a word the model does not know may have been meant to be: its
/// normalized form, then its splits, then the nearest words. Punctuation pasted
/// into a literal never reaches the recognizer, so a word which is only unknown
/// *because* of it is really a spelling problem.
pub open spec fn suggestions<V: Vocabulary>(
    word: Seq<char>,
    vocabulary: V,
    candidates: Option<Seq<Seq<char>>>,
) -> Seq<Seq<char>> {
    let spelling = normalized(word);
    let fixed = if spelling != word && spelling.len() > 0 && vocabulary.knows(spelling) {
        seq![spelling]
    } else {
        Seq::empty()
    };
    quoted(fixed) + quoted_pairs(all_halves(word, offered_splits(word, vocabulary))) + quoted(
        match candidates {
            Some(candidates) => nearest_words(word, candidates),
            None => Seq::empty(),
        },
    )
}

/// What is said of a word the model does not know.
pub open spec fn unknown_word_error(
    model: Seq<char>,
    word: Seq<char>,
    suggested: Seq<Seq<char>>,
) -> ErrorView {
    user_error(
        "The model at '"@ + model + "' does not know the word '"@ + word
            + "', so no command using it can ever be recognized."@ + if suggested.len() == 0 {
            Seq::empty()
        } else {
            " Did you mean "@ + joined(suggested, ", "@) + "?"@
        },
        seq![
            "Replace the word with one the model knows, or offer both spellings as alternatives, e.g. (\"autocannon\" | \"auto cannon\")."@,
            "A larger model knows more words — the model list at https://alphacephei.com/vosk/models shows what is available."@,
        ],
    )
}

/// Adds some texts to others, each between quotes.
fn push_quoted(suggested: &mut Vec<String>, texts: &[String])
    ensures
        views(final(suggested)@) == views(old(suggested)@) + quoted(views(texts@)),
{
    let ghost before = views(suggested@);
    let ghost all = quoted(views(texts@));
    assert(before + all.take(0) == before);
    for i in 0..texts.len()
        invariant
            all == quoted(views(texts@)),
            views(suggested@) == before + all.take(i as int),
    {
        let ghost had = suggested@;
        let mut text = "'".to_owned();
        text.append(texts[i].as_str());
        text.append("'");
        assert(text@ == all[i as int]);
        suggested.push(text);
        assert(views(suggested@) == views(had).push(text@));
        assert(all.take(i + 1) == all.take(i as int).push(text@));
        assert(before + all.take(i + 1) == (before + all.take(i as int)).push(text@));
    }
    assert(all.take(texts.len() as int) == all);
}

/// Builds the "the model does not know this word" error, with suggestions.
pub fn unknown_word<V: Vocabulary>(
    model: &str,
    word: &str,
    vocabulary: &V,
    candidates: &Option<Vec<String>>,
) -> (finding: Finding)
    ensures
        finding@ == FindingView::Error(
            unknown_word_error(
                model@,
                word@,
                suggestions(
                    word@,
                    *vocabulary,
                    match candidates {
                        Some(candidates) => Some(views(candidates@)),
                        None => None,
                    },
                ),
            ),
        ),
{
    let mut suggested: Vec<String> = Vec::new();
    assert(views(suggested@) == Seq::<Seq<char>>::empty());
    let spelling = normalize(word);
    let mut fixed: Vec<String> = Vec::new();
    assert(views(fixed@) == Seq::<Seq<char>>::empty());
    if !same_text(spelling.as_str(), word) && !spelling.as_str().is_empty()
        && vocabulary.contains(spelling.as_str()) {
        fixed.push(spelling);
        assert(views(fixed@) == seq![spelling@]);
    }
    push_quoted(&mut suggested, fixed.as_slice());
    let ghost first = quoted(views(fixed@));
    assert(views(suggested@) == first);
    let splits = compound_splits(word, vocabulary);
    let ghost pairs = quoted_pairs(pair_views(splits@));
    assert(first + pairs.take(0) == first);
    for i in 0..splits.len()
        invariant
            pairs == quoted_pairs(pair_views(splits@)),
            views(suggested@) == first + pairs.take(i as int),
    {
        let ghost had = suggested@;
        let mut text = "'".to_owned();
        text.append(splits[i].0.as_str());
        text.append(" ");
        text.append(splits[i].1.as_str());
        text.append("'");
        assert(text@ == pairs[i as int]);
        suggested.push(text);
        assert(views(suggested@) == views(had).push(text@));
        assert(pairs.take(i + 1) == pairs.take(i as int).push(text@));
        assert(first + pairs.take(i + 1) == (first + pairs.take(i as int)).push(text@));
    }
    assert(pairs.take(splits.len() as int) == pairs);
    match candidates {
        Some(candidates) => {
            let words = nearest(word, candidates.as_slice());
            push_quoted(&mut suggested, words.as_slice());
        },
        None => {
            assert(quoted(Seq::empty()) == Seq::<Seq<char>>::empty());
            assert(first + pairs + Seq::<Seq<char>>::empty() == first + pairs);
        },
    }
    let ghost all = suggestions(
        word@,
        *vocabulary,
        match candidates {
            Some(candidates) => Some(views(candidates@)),
            None => None,
        },
    );
    assert(views(suggested@) == all);
    let mut message = "The model at '".to_owned();
    message.append(model);
    message.append("' does not know the word '");
    message.append(word);
    message.append("', so no command using it can ever be recognized.");
    let ghost plain = message@;
    if suggested.len() > 0 {
        message.append(" Did you mean ");
        message.append(join(suggested.as_slice(), ", ").as_str());
        message.append("?");
        assert(message@ == plain + (" Did you mean "@ + joined(all, ", "@) + "?"@));
    } else {
        assert(message@ == plain + Seq::<char>::empty());
    }
    let error = Error::user(
        message,
        vec![
            "Replace the word with one the model knows, or offer both spellings as alternatives, e.g. (\"autocannon\" | \"auto cannon\").",
            "A larger model knows more words — the model list at https://alphacephei.com/vosk/models shows what is available.",
        ],
    );
    assert(error@ =~= unknown_word_error(model@, word@, all));
    Finding::Error(error)
}

// --- The checks --------------------------------------------------------------------
/// A finding, and the rule it is about. One about no rule in particular is
/// about the whole profile.
#[verifier::ext_equal]
pub struct Filing {
    pub rule: Option<Seq<char>>,
    pub finding: FindingView,
}

/// The findings of a report which is being put together.
#[verifier::ext_equal]
pub struct Filed {
    pub profile: Seq<FindingView>,
    pub commands: Seq<SectionView>,
}

/// Where the first section with a title stands, or how many sections there are.
pub open spec fn titled(sections: Seq<SectionView>, title: Seq<char>) -> int
    decreases sections.len(),
{
    if sections.len() == 0 || sections[0].title == title {
        0
    } else {
        1 + titled(sections.drop_first(), title)
    }
}

/// Files a finding: under the section of its rule, or profile-wide for a
/// private rule, which has no section of its own.
pub open spec fn filed(so_far: Filed, filing: Filing) -> Filed {
    let at = match filing.rule {
        Some(rule) => titled(so_far.commands, rule),
        None => so_far.commands.len() as int,
    };
    if at < so_far.commands.len() {
        let section = so_far.commands[at];
        Filed {
            commands: so_far.commands.update(
                at,
                SectionView { findings: section.findings.push(filing.finding), ..section },
            ),
            ..so_far
        }
    } else {
        Filed { profile: so_far.profile.push(filing.finding), ..so_far }
    }
}

/// Files some findings, one after the other.
pub open spec fn filed_all(so_far: Filed, filings: Seq<Filing>) -> Filed
    decreases filings.len(),
{
    if filings.len() == 0 {
        so_far
    } else {
        filed(filed_all(so_far, filings.drop_last()), filings.last())
    }
}

/// A report with a section for each published rule, and nothing in it.
pub open spec fn unfiled(published: Seq<Seq<char>>) -> Filed {
    Filed {
        profile: Seq::empty(),
        commands: published.map_values(
            |title: Seq<char>| SectionView { title, findings: Seq::empty() },
        ),
    }
}

/// The lints static analysis attached. They are not attributed to a rule.
pub open spec fn lint_filings(lints: Seq<String>) -> Seq<Filing> {
    lints.map_values(
        |lint: String| Filing { rule: None, finding: FindingView::Warning(lint@) },
    )
}

/// How large each rule's automaton is.
pub open spec fn size_filings(sizes: Seq<(String, usize)>) -> Seq<Filing> {
    sizes.map_values(
        |size: (String, usize)|
            Filing {
                rule: Some(size.0@),
                finding: FindingView::Note(
                    "compiles into "@ + decimal(size.1 as nat) + " automaton states"@,
                ),
            },
    )
}

/// What is said of an ambiguous prefix, which makes the matcher wait to see
/// whether the longer command is coming.
pub open spec fn ambiguity_text(ambiguity: Ambiguity, timeout: Seq<char>) -> Seq<char> {
    "saying \""@ + ambiguity.phrase@ + "\" will wait "@ + timeout
        + match ambiguity.continuation {
        Some(longer) => " in case you continue with \""@ + longer@ + "\""@,
        None => " in case you continue with a longer command"@,
    }
}

/// Where the completion timeout is paid.
pub open spec fn ambiguity_filings(ambiguities: Seq<Ambiguity>, timeout: Seq<char>) -> Seq<
    Filing,
> {
    ambiguities.map_values(
        |ambiguity: Ambiguity|
            Filing {
                rule: Some(ambiguity.rule@),
                finding: FindingView::Note(ambiguity_text(ambiguity, timeout)),
            },
    )
}

/// The reasons a grammar does not compile.
pub open spec fn diagnostic_filings(diagnostics: Seq<Error>) -> Seq<Filing> {
    diagnostics.map_values(
        |diagnostic: Error| Filing { rule: None, finding: FindingView::Error(diagnostic@) },
    )
}

/// What is said of a rule the recognizer is fed in fragments.
pub open spec fn decomposition_text(decomposition: Decomposition) -> Seq<char> {
    "the rule '"@ + decomposition.rule@ + "' expands into "@ + if decomposition.expansions
        == usize::MAX {
        "more concrete phrases than we can count"@
    } else {
        decimal(decomposition.expansions as nat) + " concrete phrases"@
    } + " (more than the "@ + decimal(512)
        + " the recognizer is fed whole), so it is decomposed into fragment phrases for recognition"@
}

/// The rules the recognizer is fed in fragments.
pub open spec fn decomposition_filings(decompositions: Seq<Decomposition>) -> Seq<Filing> {
    decompositions.map_values(
        |decomposition: Decomposition|
            Filing {
                rule: Some(decomposition.rule@),
                finding: FindingView::Note(decomposition_text(decomposition)),
            },
    )
}

/// The words of a grammar the model does not know.
pub open spec fn unknown_filings<V: Vocabulary>(
    words: Seq<Seq<char>>,
    model: Seq<char>,
    vocabulary: V,
    candidates: Option<Seq<Seq<char>>>,
) -> Seq<Filing>
    decreases words.len(),
{
    if words.len() == 0 {
        Seq::empty()
    } else {
        let earlier = unknown_filings(words.drop_last(), model, vocabulary, candidates);
        if vocabulary.knows(words.last()) {
            earlier
        } else {
            earlier.push(
                Filing {
                    rule: None,
                    finding: FindingView::Error(
                        unknown_word_error(
                            model,
                            words.last(),
                            suggestions(words.last(), vocabulary, candidates),
                        ),
                    ),
                },
            )
        }
    }
}

/// The words of a model a person could say, where it lists any.
pub open spec fn known_candidates<V: Vocabulary>(vocabulary: V) -> Option<Seq<Seq<char>>> {
    match vocabulary.listed() {
        Some(words) => Some(sayable_words(words)),
        None => None,
    }
}

/// What is said of a model which does not list its words.
pub open spec fn no_word_list() -> Filing {
    Filing {
        rule: None,
        finding: FindingView::Note(
            "this model does not ship a readable word list (<model>/graph/words.txt), so we cannot suggest the words it does know — only spelling fixes and compound splits"@,
        ),
    }
}

/// Every distinct word of the grammar, checked against the model's vocabulary.
/// That the model does not list its words is said once, and only where a word
/// is unknown.
pub open spec fn vocabulary_filings<V: Vocabulary>(
    words: Seq<Seq<char>>,
    model: Seq<char>,
    vocabulary: V,
) -> Seq<Filing> {
    let unknown = unknown_filings(words, model, vocabulary, known_candidates(vocabulary));
    if unknown.len() > 0 && vocabulary.listed() is None {
        unknown.push(no_word_list())
    } else {
        unknown
    }
}

/// What is wrong with a grammar, and what is odd about it.
pub open spec fn problem_filings(grammar: Grammar) -> Seq<Filing> {
    lint_filings(grammar.lints@) + match grammar.automaton {
        Ok(_) => Seq::empty(),
        Err(diagnostics) => diagnostic_filings(diagnostics@),
    }
}

/// What is worth knowing about how a grammar behaves.
pub open spec fn note_filings(grammar: Grammar, timeout: Seq<char>) -> Seq<Filing> {
    let decomposed = decomposition_filings(grammar.decompositions@);
    match grammar.automaton {
        Ok(automaton) => size_filings(automaton.rule_sizes@) + decomposed + ambiguity_filings(
            automaton.prefix_ambiguities@,
            timeout,
        ),
        Err(_) => decomposed,
    }
}

/// Everything there is to say about a profile, in the order it is reported: the
/// lints and the diagnostics of its grammar, what the vocabulary lacks, and
/// then the notes.
pub open spec fn all_filings<V: Vocabulary>(
    grammar: Grammar,
    timeout: Seq<char>,
    model: Seq<char>,
    vocabulary: Result<&V, Error>,
) -> Seq<Filing> {
    problem_filings(grammar) + match vocabulary {
        Ok(vocabulary) => vocabulary_filings(views(grammar.words@), model, *vocabulary),
        Err(error) => seq![Filing { rule: None, finding: FindingView::Error(error@) }],
    } + note_filings(grammar, timeout)
}

/// The first line of a report.
pub open spec fn header_text(source: Seq<char>, name: Option<Seq<char>>) -> Seq<char> {
    match name {
        Some(name) => source + " — "@ + name,
        None => source,
    }
}

/// A report which is being put together.
struct Draft {
    profile: Vec<Finding>,
    commands: Vec<Section>,
}

impl View for Draft {
    type V = Filed;

    closed spec fn view(&self) -> Filed {
        Filed {
            profile: finding_views(self.profile@),
            commands: section_views(self.commands@),
        }
    }
}

/// A section with a title stands among the sections, if any does.
proof fn lemma_titled(sections: Seq<SectionView>, title: Seq<char>)
    ensures
        0 <= titled(sections, title) <= sections.len(),
    decreases sections.len(),
{
    if sections.len() > 0 && sections[0].title != title {
        lemma_titled(sections.drop_first(), title);
    }
}

impl Draft {
    /// A report with a section for each published rule, and nothing in it.
    fn new(published: &[String]) -> (draft: Draft)
        ensures
            draft@ == unfiled(views(published@)),
    {
        let mut commands: Vec<Section> = Vec::new();
        let ghost all = unfiled(views(published@)).commands;
        for i in 0..published.len()
            invariant
                all == unfiled(views(published@)).commands,
                section_views(commands@) == all.take(i as int),
        {
            let ghost before = commands@;
            let section = Section { title: published[i].clone(), findings: Vec::new() };
            assert(section@ =~= all[i as int]);
            commands.push(section);
            assert(section_views(commands@) == section_views(before).push(section@));
            assert(all.take(i + 1) == all.take(i as int).push(all[i as int]));
        }
        assert(all.take(published.len() as int) == all);
        let draft = Draft { profile: Vec::new(), commands };
        assert(draft@ =~= unfiled(views(published@)));
        draft
    }

    /// The section with a title, or how many sections there are.
    fn section_of(&self, title: &str) -> (at: usize)
        ensures
            at == titled(self@.commands, title@),
    {
        let ghost all = self@.commands;
        assert(all.skip(0) == all);
        for i in 0..self.commands.len()
            invariant
                all == section_views(self.commands@),
                titled(all, title@) == i + titled(all.skip(i as int), title@),
        {
            assert(all.skip(i as int)[0] == self.commands@[i as int]@);
            assert(all.skip(i as int).drop_first() == all.skip(i + 1));
            if same_text(self.commands[i].title.as_str(), title) {
                return i;
            }
        }
        self.commands.len()
    }

    /// Files a finding under the section of its rule, if it has one.
    fn file(&mut self, rule: Option<&str>, finding: Finding)
        ensures
            final(self)@ == filed(
                old(self)@,
                Filing {
                    rule: match rule {
                        Some(rule) => Some(rule@),
                        None => None,
                    },
                    finding: finding@,
                },
            ),
    {
        let ghost filing = Filing {
            rule: match rule {
                Some(rule) => Some(rule@),
                None => None,
            },
            finding: finding@,
        };
        let at: usize = match rule {
            Some(rule) => self.section_of(rule),
            None => self.commands.len(),
        };
        let ghost before = *self;
        if at < self.commands.len() {
            let mut section = self.commands.remove(at);
            let ghost was = section;
            section.findings.push(finding);
            assert(finding_views(section.findings@) == finding_views(was.findings@).push(finding@));
            self.commands.insert(at, section);
            assert(section_views(self.commands@) == section_views(before.commands@).update(
                at as int,
                section@,
            ));
            assert(section@ =~= (SectionView {
                findings: was@.findings.push(finding@),
                ..was@
            }));
        } else {
            self.profile.push(finding);
            assert(finding_views(self.profile@) == finding_views(before.profile@).push(finding@));
        }
        assert(self@ =~= filed(before@, filing));
    }
}

/// Filing one more finding after some others.
proof fn lemma_filed_next(so_far: Filed, filings: Seq<Filing>, filing: Filing)
    ensures
        filed_all(so_far, filings.push(filing)) == filed(filed_all(so_far, filings), filing),
{
    assert(filings.push(filing).drop_last() == filings);
}

/// Files the lints of a grammar.
fn file_lints(
    draft: &mut Draft,
    lints: &[String],
    Ghost(blank_draft): Ghost<Filed>,
    Ghost(before): Ghost<Seq<Filing>>,
)
    requires
        old(draft)@ == filed_all(blank_draft, before),
    ensures
        final(draft)@ == filed_all(blank_draft, before + lint_filings(lints@)),
{
    let ghost all = lint_filings(lints@);
    assert(before + all.take(0) == before);
    for i in 0..lints.len()
        invariant
            all == lint_filings(lints@),
            draft@ == filed_all(blank_draft, before + all.take(i as int)),
    {
        let finding = Finding::Warning(lints[i].clone());
        draft.file(None, finding);
        proof {
            let filing = Filing { rule: None, finding: finding@ };
            lemma_filed_next(blank_draft, before + all.take(i as int), filing);
            assert(filing == all[i as int]);
            assert(before + all.take(i + 1) == (before + all.take(i as int)).push(filing));
        }
    }
    assert(all.take(lints.len() as int) == all);
}

/// Files the reasons a grammar has no automaton.
fn file_diagnostics(
    draft: &mut Draft,
    diagnostics: Vec<Error>,
    Ghost(blank_draft): Ghost<Filed>,
    Ghost(before): Ghost<Seq<Filing>>,
)
    requires
        old(draft)@ == filed_all(blank_draft, before),
    ensures
        final(draft)@ == filed_all(blank_draft, before + diagnostic_filings(diagnostics@)),
{
    let mut left = diagnostics;
    let ghost all = diagnostic_filings(diagnostics@);
    let ghost mut gone: int = 0;
    assert(diagnostics@.skip(0) == diagnostics@);
    assert(before + all.take(0) == before);
    while left.len() > 0
        invariant
            all == diagnostic_filings(diagnostics@),
            0 <= gone <= diagnostics@.len(),
            left@ == diagnostics@.skip(gone),
            draft@ == filed_all(blank_draft, before + all.take(gone)),
        decreases left.len(),
    {
        let finding = Finding::Error(left.remove(0));
        draft.file(None, finding);
        proof {
            let filing = Filing { rule: None, finding: finding@ };
            lemma_filed_next(blank_draft, before + all.take(gone), filing);
            assert(filing =~= all[gone]);
            assert(before + all.take(gone + 1) == (before + all.take(gone)).push(filing));
            gone = gone + 1;
        }
        assert(left@ == diagnostics@.skip(gone));
    }
    assert(all.take(gone) == all);
}

/// Files the sizes of the rules of an automaton.
fn file_sizes(
    draft: &mut Draft,
    sizes: &[(String, usize)],
    Ghost(blank_draft): Ghost<Filed>,
    Ghost(before): Ghost<Seq<Filing>>,
)
    requires
        old(draft)@ == filed_all(blank_draft, before),
    ensures
        final(draft)@ == filed_all(blank_draft, before + size_filings(sizes@)),
{
    let ghost all = size_filings(sizes@);
    assert(before + all.take(0) == before);
    for i in 0..sizes.len()
        invariant
            all == size_filings(sizes@),
            draft@ == filed_all(blank_draft, before + all.take(i as int)),
    {
        let mut text = "compiles into ".to_owned();
        text.append(decimal_of(sizes[i].1 as u64).as_str());
        text.append(" automaton states");
        let finding = Finding::Note(text);
        draft.file(Some(sizes[i].0.as_str()), finding);
        proof {
            let filing = Filing { rule: Some(sizes@[i as int].0@), finding: finding@ };
            lemma_filed_next(blank_draft, before + all.take(i as int), filing);
            assert(filing =~= all[i as int]);
            assert(before + all.take(i + 1) == (before + all.take(i as int)).push(filing));
        }
    }
    assert(all.take(sizes.len() as int) == all);
}

/// Files the rules the recognizer is fed in fragments.
fn file_decompositions(
    draft: &mut Draft,
    decompositions: &[Decomposition],
    Ghost(blank_draft): Ghost<Filed>,
    Ghost(before): Ghost<Seq<Filing>>,
)
    requires
        old(draft)@ == filed_all(blank_draft, before),
    ensures
        final(draft)@ == filed_all(blank_draft, before + decomposition_filings(decompositions@)),
{
    let ghost all = decomposition_filings(decompositions@);
    assert(before + all.take(0) == before);
    for i in 0..decompositions.len()
        invariant
            all == decomposition_filings(decompositions@),
            draft@ == filed_all(blank_draft, before + all.take(i as int)),
    {
        let decomposition = &decompositions[i];
        let mut text = "the rule '".to_owned();
        text.append(decomposition.rule.as_str());
        text.append("' expands into ");
        let ghost head = text@;
        if decomposition.expansions == usize::MAX {
            text.append("more concrete phrases than we can count");
        } else {
            text.append(decimal_of(decomposition.expansions as u64).as_str());
            text.append(" concrete phrases");
            assert(text@ == head + (decimal(decomposition.expansions as nat)
                + " concrete phrases"@));
        }
        text.append(" (more than the ");
        text.append(decimal_of(MAX_EXPANSIONS_PER_RULE as u64).as_str());
        text.append(
            " the recognizer is fed whole), so it is decomposed into fragment phrases for recognition",
        );
        let finding = Finding::Note(text);
        draft.file(Some(decomposition.rule.as_str()), finding);
        proof {
            let filing = Filing { rule: Some(decomposition.rule@), finding: finding@ };
            lemma_filed_next(blank_draft, before + all.take(i as int), filing);
            assert(filing =~= all[i as int]);
            assert(before + all.take(i + 1) == (before + all.take(i as int)).push(filing));
        }
    }
    assert(all.take(decompositions.len() as int) == all);
}

/// Files where the completion timeout is paid: an ambiguous prefix makes the
/// matcher wait to see whether the longer command is coming.
fn file_ambiguities(
    draft: &mut Draft,
    ambiguities: &[Ambiguity],
    timeout: &str,
    Ghost(blank_draft): Ghost<Filed>,
    Ghost(before): Ghost<Seq<Filing>>,
)
    requires
        old(draft)@ == filed_all(blank_draft, before),
    ensures
        final(draft)@ == filed_all(blank_draft, before + ambiguity_filings(ambiguities@, timeout@)),
{
    let ghost all = ambiguity_filings(ambiguities@, timeout@);
    assert(before + all.take(0) == before);
    for i in 0..ambiguities.len()
        invariant
            all == ambiguity_filings(ambiguities@, timeout@),
            draft@ == filed_all(blank_draft, before + all.take(i as int)),
    {
        let ambiguity = &ambiguities[i];
        let mut text = "saying \"".to_owned();
        text.append(ambiguity.phrase.as_str());
        text.append("\" will wait ");
        text.append(timeout);
        let ghost head = text@;
        match &ambiguity.continuation {
            Some(longer) => {
                text.append(" in case you continue with \"");
                text.append(longer.as_str());
                text.append("\"");
                assert(text@ == head + (" in case you continue with \""@ + longer@ + "\""@));
            },
            None => {
                text.append(" in case you continue with a longer command");
            },
        }
        let finding = Finding::Note(text);
        draft.file(Some(ambiguity.rule.as_str()), finding);
        proof {
            let filing = Filing { rule: Some(ambiguity.rule@), finding: finding@ };
            lemma_filed_next(blank_draft, before + all.take(i as int), filing);
            assert(filing =~= all[i as int]);
            assert(before + all.take(i + 1) == (before + all.take(i as int)).push(filing));
        }
    }
    assert(all.take(ambiguities.len() as int) == all);
}

/// Checks every distinct word in the grammar against the model's vocabulary.
fn check_vocabulary<V: Vocabulary>(
    draft: &mut Draft,
    words: &[String],
    model: &str,
    vocabulary: &V,
    Ghost(blank_draft): Ghost<Filed>,
    Ghost(before): Ghost<Seq<Filing>>,
)
    requires
        old(draft)@ == filed_all(blank_draft, before),
    ensures
        final(draft)@ == filed_all(
            blank_draft,
            before + vocabulary_filings(views(words@), model@, *vocabulary),
        ),
{
    let listed = vocabulary.words();
    let candidates = match &listed {
        Some(words) => Some(nearest_candidates(words.as_slice())),
        None => None,
    };
    let ghost known = known_candidates(*vocabulary);
    let ghost all = views(words@);
    let ghost mut unknown: Seq<Filing> = Seq::empty();
    let mut saw_unknown: bool = false;
    assert(all.take(0) == Seq::<Seq<char>>::empty());
    assert(before + unknown == before);
    for i in 0..words.len()
        invariant
            all == views(words@),
            known == known_candidates(*vocabulary),
            match candidates {
                Some(candidates) => known == Some(views(candidates@)),
                None => known is None,
            },
            unknown == unknown_filings(all.take(i as int), model@, *vocabulary, known),
            saw_unknown == (unknown.len() > 0),
            draft@ == filed_all(blank_draft, before + unknown),
    {
        assert(all.take(i + 1).drop_last() == all.take(i as int));
        assert(all.take(i + 1).last() == words@[i as int]@);
        if !vocabulary.contains(words[i].as_str()) {
            saw_unknown = true;
            let finding = unknown_word(model, words[i].as_str(), vocabulary, &candidates);
            draft.file(None, finding);
            proof {
                let filing = Filing { rule: None, finding: finding@ };
                lemma_filed_next(blank_draft, before + unknown, filing);
                assert((before + unknown).push(filing) == before + unknown.push(filing));
                unknown = unknown.push(filing);
            }
        }
    }
    assert(all.take(words.len() as int) == all);
    if saw_unknown && candidates.is_none() {
        let finding = Finding::Note(
            "this model does not ship a readable word list (<model>/graph/words.txt), so we cannot suggest the words it does know — only spelling fixes and compound splits".to_owned(),
        );
        draft.file(None, finding);
        proof {
            let filing = no_word_list();
            assert(filing =~= Filing { rule: None, finding: finding@ });
            lemma_filed_next(blank_draft, before + unknown, filing);
            assert((before + unknown).push(filing) == before + unknown.push(filing));
        }
    }
}

/// Runs every check against a loaded profile.
///
/// `vocabulary` is either the model's vocabulary or the error which explains
/// why we do not have one; in the latter case every other check still runs and
/// the failure is reported as one more finding.
pub fn check<V: Vocabulary>(
    source: &str,
    profile: &Profile,
    grammar: Grammar,
    model: &str,
    vocabulary: Result<&V, Error>,
) -> (report: Report)
    requires
        profile.completion_timeout.wf(),
    ensures
        ({
            let timeout = written_duration(
                profile.completion_timeout.seconds,
                profile.completion_timeout.nanos,
            );
            let filings = all_filings(grammar, timeout, model@, vocabulary);
            let everything = filed_all(unfiled(views(grammar.published@)), filings);
            report@ == (ReportView {
                header: header_text(source@, optional(profile.name)),
                profile: everything.profile,
                commands: everything.commands,
            })
        }),
{
    let mut header = source.to_owned();
    if let Some(name) = &profile.name {
        header.append(" — ");
        header.append(name.as_str());
    }
    let timeout = render(profile.completion_timeout);
    let mut draft = Draft::new(grammar.published.as_slice());
    let ghost blank_draft = unfiled(views(grammar.published@));
    let ghost whole = grammar;
    let Grammar { published, lints, automaton, decompositions, words } = grammar;
    let ghost mut before: Seq<Filing> = Seq::empty();
    file_lints(&mut draft, lints.as_slice(), Ghost(blank_draft), Ghost(before));
    proof {
        before = lint_filings(lints@);
        assert(Seq::<Filing>::empty() + before == before);
    }
    let compiled: Option<Automaton> = match automaton {
        Ok(automaton) => {
            assert(problem_filings(whole) == before);
            Some(automaton)
        },
        Err(diagnostics) => {
            file_diagnostics(&mut draft, diagnostics, Ghost(blank_draft), Ghost(before));
            None
        },
    };
    proof {
        before = problem_filings(whole);
    }
    match vocabulary {
        Ok(vocabulary) => {
            check_vocabulary(
                &mut draft,
                words.as_slice(),
                model,
                vocabulary,
                Ghost(blank_draft),
                Ghost(before),
            );
            proof {
                before = before + vocabulary_filings(views(words@), model@, *vocabulary);
            }
        },
        Err(error) => {
            let finding = Finding::Error(error);
            draft.file(None, finding);
            proof {
                let filing = Filing { rule: None, finding: finding@ };
                lemma_filed_next(blank_draft, before, filing);
                assert(before.push(filing) == before + seq![filing]);
                before = before + seq![filing];
            }
        },
    }
    let ghost problems = before;
    let ghost decomposed = decomposition_filings(decompositions@);
    let fragments = decompositions.as_slice();
    match compiled {
        Some(automaton) => {
            let ghost sizes = size_filings(automaton.rule_sizes@);
            let ghost waits = ambiguity_filings(automaton.prefix_ambiguities@, timeout@);
            file_sizes(
                &mut draft,
                automaton.rule_sizes.as_slice(),
                Ghost(blank_draft),
                Ghost(problems),
            );
            file_decompositions(&mut draft, fragments, Ghost(blank_draft), Ghost(problems + sizes));
            file_ambiguities(
                &mut draft,
                automaton.prefix_ambiguities.as_slice(),
                timeout.as_str(),
                Ghost(blank_draft),
                Ghost(problems + sizes + decomposed),
            );
            assert(problems + sizes + decomposed + waits == problems + (sizes + decomposed
                + waits));
        },
        None => {
            file_decompositions(&mut draft, fragments, Ghost(blank_draft), Ghost(problems));
        },
    }
    assert(draft@ == filed_all(blank_draft, problems + note_filings(whole, timeout@)));
    Report { header, profile: draft.profile, commands: draft.commands }
}

// --- What holds of every report ---------------------------------------------------
/// How many of some filings are of a kind.
pub open spec fn count_filed(filings: Seq<Filing>, severity: Severity) -> nat
    decreases filings.len(),
{
    if filings.len() == 0 {
        0
    } else {
        count_filed(filings.drop_last(), severity) + if counts(
            filings.last().finding,
            severity,
        ) {
            1nat
        } else {
            0
        }
    }
}

/// How many findings of a report which is being put together are of a kind.
pub open spec fn count_so_far(so_far: Filed, severity: Severity) -> nat {
    count_in(so_far.profile, severity) + count_across(so_far.commands, severity)
}

/// Changing one section changes the count by what it changes in that section.
proof fn lemma_count_updated(
    sections: Seq<SectionView>,
    at: int,
    section: SectionView,
    severity: Severity,
)
    requires
        0 <= at < sections.len(),
    ensures
        count_across(sections.update(at, section), severity) + count_in(
            sections[at].findings,
            severity,
        ) == count_across(sections, severity) + count_in(section.findings, severity),
    decreases sections.len(),
{
    let updated = sections.update(at, section);
    if at == sections.len() - 1 {
        assert(updated.drop_last() == sections.drop_last());
    } else {
        assert(updated.drop_last() == sections.drop_last().update(at, section));
        lemma_count_updated(sections.drop_last(), at, section, severity);
    }
}

/// One pass, everything reported: whatever a check finds is in the report, once,
/// whether it is filed under a rule or profile-wide.
pub proof fn everything_is_reported(so_far: Filed, filings: Seq<Filing>, severity: Severity)
    ensures
        count_so_far(filed_all(so_far, filings), severity) == count_so_far(so_far, severity)
            + count_filed(filings, severity),
        filed_all(so_far, filings).commands.len() == so_far.commands.len(),
    decreases filings.len(),
{
    if filings.len() > 0 {
        let earlier = filed_all(so_far, filings.drop_last());
        let filing = filings.last();
        everything_is_reported(so_far, filings.drop_last(), severity);
        let at = match filing.rule {
            Some(rule) => titled(earlier.commands, rule),
            None => earlier.commands.len() as int,
        };
        match filing.rule {
            Some(rule) => {
                lemma_titled(earlier.commands, rule);
            },
            None => {},
        }
        if at < earlier.commands.len() {
            let section = earlier.commands[at];
            let changed = SectionView { findings: section.findings.push(filing.finding), ..section };
            lemma_count_updated(earlier.commands, at, changed, severity);
            assert(section.findings.push(filing.finding).drop_last() == section.findings);
        } else {
            assert(earlier.profile.push(filing.finding).drop_last() == earlier.profile);
        }
    }
}

/// Sections keep their titles and their order, whatever is filed under them.
pub proof fn sections_keep_their_titles(so_far: Filed, filings: Seq<Filing>, i: int)
    requires
        0 <= i < so_far.commands.len(),
    ensures
        filed_all(so_far, filings).commands.len() == so_far.commands.len(),
        filed_all(so_far, filings).commands[i].title == so_far.commands[i].title,
    decreases filings.len(),
{
    if filings.len() > 0 {
        sections_keep_their_titles(so_far, filings.drop_last(), i);
        let earlier = filed_all(so_far, filings.drop_last());
        if let Some(rule) = filings.last().rule {
            lemma_titled(earlier.commands, rule);
        }
    }
}

/// A missing model hides nothing: everything there is to say about the grammar
/// is reported, and the model's failure is one more finding.
pub proof fn a_missing_model_hides_nothing<V: Vocabulary>(
    grammar: Grammar,
    timeout: Seq<char>,
    model: Seq<char>,
    error: Error,
)
    ensures
        all_filings::<V>(grammar, timeout, model, Err(error)) == problem_filings(grammar).push(
            Filing { rule: None, finding: FindingView::Error(error@) },
        ) + note_filings(grammar, timeout),
{
    let filing = Filing { rule: None, finding: FindingView::Error(error@) };
    assert(problem_filings(grammar) + seq![filing] == problem_filings(grammar).push(filing));
}

/// A vocabulary which knows every word has nothing to say.
pub proof fn known_words_go_unmentioned<V: Vocabulary>(
    words: Seq<Seq<char>>,
    model: Seq<char>,
    vocabulary: V,
)
    requires
        forall|i: int| 0 <= i < words.len() ==> vocabulary.knows(#[trigger] words[i]),
    ensures
        vocabulary_filings(words, model, vocabulary).len() == 0,
    decreases words.len(),
{
    if words.len() > 0 {
        known_words_go_unmentioned(words.drop_last(), model, vocabulary);
        assert(vocabulary.knows(words.last()));
        let known = known_candidates(vocabulary);
        let earlier = unknown_filings(words.drop_last(), model, vocabulary, known);
        assert(earlier.len() == 0);
    }
}

/// There is a filing for each unknown word, in their order.
proof fn lemma_unknown_filings<V: Vocabulary>(
    words: Seq<Seq<char>>,
    model: Seq<char>,
    vocabulary: V,
    candidates: Option<Seq<Seq<char>>>,
)
    ensures
        ({
            let unknown = words.filter(|word: Seq<char>| !vocabulary.knows(word));
            let filings = unknown_filings(words, model, vocabulary, candidates);
            &&& filings.len() == unknown.len()
            &&& forall|k: int|
                0 <= k < unknown.len() ==> (#[trigger] filings[k]) == (Filing {
                    rule: None,
                    finding: FindingView::Error(
                        unknown_word_error(
                            model,
                            unknown[k],
                            suggestions(unknown[k], vocabulary, candidates),
                        ),
                    ),
                })
        }),
    decreases words.len(),
{
    reveal(Seq::filter);
    if words.len() > 0 {
        lemma_unknown_filings(words.drop_last(), model, vocabulary, candidates);
    }
}

/// Every word the model has never heard of is reported, once and by itself: the
/// vocabulary has as many errors to report as there are such words, each names
/// its word and the model, and, where the model does not list its words, one
/// note says so behind them.
pub proof fn every_unknown_word_is_reported<V: Vocabulary>(
    words: Seq<Seq<char>>,
    model: Seq<char>,
    vocabulary: V,
    k: int,
)
    ensures
        ({
            let unknown = words.filter(|word: Seq<char>| !vocabulary.knows(word));
            let filings = vocabulary_filings(words, model, vocabulary);
            let noted: nat = if unknown.len() > 0 && vocabulary.listed() is None {
                1
            } else {
                0
            };
            &&& filings.len() == unknown.len() + noted
            &&& noted > 0 ==> filings.last().finding is Note && filings.last().rule is None
            &&& 0 <= k < unknown.len() ==> {
                &&& filings[k].rule is None
                &&& filings[k].finding matches FindingView::Error(error)
                &&& error == unknown_word_error(
                    model,
                    unknown[k],
                    suggestions(unknown[k], vocabulary, known_candidates(vocabulary)),
                )
                &&& ("The model at '"@ + model + "' does not know the word '"@ + unknown[k]
                    + "', so no command using it can ever be recognized."@).is_prefix_of(
                    error.description,
                )
            }
        }),
        forall|i: int|
            0 <= i < words.len() && !vocabulary.knows(#[trigger] words[i]) ==> words.filter(
                |word: Seq<char>| !vocabulary.knows(word),
            ).contains(words[i]),
{
    let missing = |word: Seq<char>| !vocabulary.knows(word);
    let unknown = words.filter(missing);
    lemma_unknown_filings(words, model, vocabulary, known_candidates(vocabulary));
    let filings = vocabulary_filings(words, model, vocabulary);
    if 0 <= k < unknown.len() {
        let error = unknown_word_error(
            model,
            unknown[k],
            suggestions(unknown[k], vocabulary, known_candidates(vocabulary)),
        );
        let lead = "The model at '"@ + model + "' does not know the word '"@ + unknown[k]
            + "', so no command using it can ever be recognized."@;
        assert(filings[k].finding == FindingView::Error(error));
        assert(error.description.take(lead.len() as int) =~= lead);
    }
    assert forall|i: int| 0 <= i < words.len() && !vocabulary.knows(
        #[trigger] words[i],
    ) implies unknown.contains(words[i]) by {
        words.lemma_filter_contains(missing, i);
    }
}

/// The counts of two runs of filings are those of each.
proof fn lemma_count_filed_add(first: Seq<Filing>, second: Seq<Filing>, severity: Severity)
    ensures
        count_filed(first + second, severity) == count_filed(first, severity) + count_filed(
            second,
            severity,
        ),
    decreases second.len(),
{
    if second.len() == 0 {
        assert(first + second == first);
    } else {
        lemma_count_filed_add(first, second.drop_last(), severity);
        assert((first + second).drop_last() == first + second.drop_last());
    }
}

/// Where every filing is of a kind, or none is, that decides the count.
proof fn lemma_count_uniform(filings: Seq<Filing>, severity: Severity, all: bool)
    requires
        forall|i: int|
            0 <= i < filings.len() ==> counts((#[trigger] filings[i]).finding, severity) == all,
    ensures
        count_filed(filings, severity) == if all {
            filings.len()
        } else {
            0
        },
    decreases filings.len(),
{
    if filings.len() > 0 {
        let fewer = filings.drop_last();
        assert forall|i: int| 0 <= i < fewer.len() implies counts(
            (#[trigger] fewer[i]).finding,
            severity,
        ) == all by {
            assert(fewer[i] == filings[i]);
        }
        lemma_count_uniform(fewer, severity, all);
        assert(counts(filings[filings.len() - 1].finding, severity) == all);
    }
}

/// A report counts every problem there is, and nothing else: a warning for each
/// lint, and an error for each reason the grammar does not compile, and for each
/// word the model does not know, or one for the model which is missing.
pub proof fn a_report_counts_every_problem<V: Vocabulary>(
    grammar: Grammar,
    timeout: Seq<char>,
    model: Seq<char>,
    vocabulary: Result<&V, Error>,
)
    ensures
        ({
            let everything = filed_all(
                unfiled(views(grammar.published@)),
                all_filings(grammar, timeout, model, vocabulary),
            );
            let diagnostics: nat = match grammar.automaton {
                Ok(_) => 0,
                Err(diagnostics) => diagnostics@.len(),
            };
            let missing: nat = match vocabulary {
                Ok(vocabulary) => views(grammar.words@).filter(
                    |word: Seq<char>| !vocabulary.knows(word),
                ).len(),
                Err(_) => 1,
            };
            &&& count_so_far(everything, Severity::Warning) == grammar.lints@.len()
            &&& count_so_far(everything, Severity::Error) == diagnostics + missing
            &&& everything.commands.len() == grammar.published@.len()
        }),
{
    let blank_draft = unfiled(views(grammar.published@));
    let filings = all_filings(grammar, timeout, model, vocabulary);
    let lints = lint_filings(grammar.lints@);
    let reasons = match grammar.automaton {
        Ok(_) => Seq::empty(),
        Err(diagnostics) => diagnostic_filings(diagnostics@),
    };
    let heard = match vocabulary {
        Ok(vocabulary) => vocabulary_filings(views(grammar.words@), model, *vocabulary),
        Err(error) => seq![Filing { rule: None, finding: FindingView::Error(error@) }],
    };
    let notes = note_filings(grammar, timeout);
    lemma_blank(views(grammar.published@), Severity::Error);
    lemma_blank(views(grammar.published@), Severity::Warning);
    everything_is_reported(blank_draft, filings, Severity::Error);
    everything_is_reported(blank_draft, filings, Severity::Warning);
    lemma_count_filed_add(lints, reasons, Severity::Error);
    lemma_count_filed_add(lints, reasons, Severity::Warning);
    lemma_count_filed_add(lints + reasons, heard, Severity::Error);
    lemma_count_filed_add(lints + reasons, heard, Severity::Warning);
    lemma_count_filed_add(lints + reasons + heard, notes, Severity::Error);
    lemma_count_filed_add(lints + reasons + heard, notes, Severity::Warning);
    lemma_count_uniform(lints, Severity::Error, false);
    lemma_count_uniform(lints, Severity::Warning, true);
    lemma_count_uniform(reasons, Severity::Error, true);
    lemma_count_uniform(reasons, Severity::Warning, false);
    assert forall|i: int| 0 <= i < notes.len() implies (#[trigger] notes[i]).finding is Note by {
        lemma_notes_are_notes(grammar, timeout, i);
    }
    lemma_count_uniform(notes, Severity::Error, false);
    lemma_count_uniform(notes, Severity::Warning, false);
    match vocabulary {
        Ok(vocabulary) => {
            let known = known_candidates(*vocabulary);
            let unknown = unknown_filings(views(grammar.words@), model, *vocabulary, known);
            lemma_unknown_filings(views(grammar.words@), model, *vocabulary, known);
            lemma_count_uniform(unknown, Severity::Error, true);
            lemma_count_uniform(unknown, Severity::Warning, false);
            if heard.len() > unknown.len() {
                assert(heard.drop_last() =~= unknown);
                assert(heard.last() == no_word_list());
            }
        },
        Err(_) => {
            lemma_count_uniform(heard, Severity::Error, true);
            lemma_count_uniform(heard, Severity::Warning, false);
        },
    }
}

/// What is noted about a grammar is a note.
proof fn lemma_notes_are_notes(grammar: Grammar, timeout: Seq<char>, i: int)
    requires
        0 <= i < note_filings(grammar, timeout).len(),
    ensures
        note_filings(grammar, timeout)[i].finding is Note,
{
}

/// There is nothing in a report nothing has been filed in.
proof fn lemma_blank(published: Seq<Seq<char>>, severity: Severity)
    ensures
        count_so_far(unfiled(published), severity) == 0,
        unfiled(published).commands.len() == published.len(),
    decreases published.len(),
{
    if published.len() > 0 {
        lemma_blank(published.drop_last(), severity);
        assert(unfiled(published).commands.drop_last() =~= unfiled(published.drop_last()).commands);
    }
}

/// The findings which belong in the section with a title, in their order.
pub open spec fn findings_for(filings: Seq<Filing>, title: Seq<char>) -> Seq<FindingView> {
    filings.filter(|filing: Filing| filing.rule == Some(title)).map_values(
        |filing: Filing| filing.finding,
    )
}

/// Each finding about a published rule is in that rule's section, and no other
/// is: a section holds exactly what was filed under its title, in that order. Of
/// two sections with one title, the first gets it all.
pub proof fn a_section_holds_what_is_about_its_rule(
    so_far: Filed,
    filings: Seq<Filing>,
    i: int,
)
    requires
        0 <= i < so_far.commands.len(),
    ensures
        ({
            let section = filed_all(so_far, filings).commands[i];
            let title = so_far.commands[i].title;
            let first = forall|j: int| 0 <= j < i ==> (#[trigger] so_far.commands[j]).title != title;
            &&& section.title == title
            &&& first ==> section.findings == so_far.commands[i].findings + findings_for(
                filings,
                title,
            )
            &&& !first ==> section.findings == so_far.commands[i].findings
        }),
    decreases filings.len(),
{
    reveal(Seq::filter);
    let title = so_far.commands[i].title;
    let picked = |filing: Filing| filing.rule == Some(title);
    let worded = |filing: Filing| filing.finding;
    sections_keep_their_titles(so_far, filings, i);
    if filings.len() == 0 {
        assert(findings_for(filings, title) =~= Seq::<FindingView>::empty());
        assert(so_far.commands[i].findings + findings_for(filings, title)
            =~= so_far.commands[i].findings);
    } else {
        let fewer = filings.drop_last();
        let filing = filings.last();
        let earlier = filed_all(so_far, fewer);
        a_section_holds_what_is_about_its_rule(so_far, fewer, i);
        sections_keep_their_titles(so_far, fewer, i);
        let known = findings_for(fewer, title);
        assert(findings_for(filings, title) =~= if picked(filing) {
            known.push(filing.finding)
        } else {
            known
        }) by {
            if picked(filing) {
                assert(filings.filter(picked) =~= fewer.filter(picked).push(filing));
            } else {
                assert(filings.filter(picked) =~= fewer.filter(picked));
            }
        }
        if let Some(rule) = filing.rule {
            let at = titled(earlier.commands, rule);
            lemma_titled(earlier.commands, rule);
            lemma_titled_first(earlier.commands, rule);
            if at == i {
                assert(earlier.commands[at].title == rule);
                assert forall|j: int| 0 <= j < i implies (#[trigger] so_far.commands[j]).title
                    != title by {
                    sections_keep_their_titles(so_far, fewer, j);
                    assert(earlier.commands[j].title != rule);
                }
                assert((so_far.commands[i].findings + known).push(filing.finding)
                    =~= so_far.commands[i].findings + known.push(filing.finding));
            } else if rule == title {
                assert(at < i) by {
                    if at > i {
                        assert(earlier.commands[i].title != rule);
                    }
                }
                sections_keep_their_titles(so_far, fewer, at);
                assert(so_far.commands[at].title == title);
            }
        }
    }
}

/// The first section with a title has it, and none before it does.
proof fn lemma_titled_first(sections: Seq<SectionView>, title: Seq<char>)
    ensures
        titled(sections, title) < sections.len() ==> sections[titled(sections, title)].title
            == title,
        forall|j: int|
            0 <= j < titled(sections, title) && j < sections.len() ==> (#[trigger] sections[j]).title
                != title,
    decreases sections.len(),
{
    if sections.len() > 0 && sections[0].title != title {
        let rest = sections.drop_first();
        lemma_titled_first(rest, title);
        lemma_titled(rest, title);
        assert forall|j: int|
            0 <= j < titled(sections, title) && j < sections.len() implies (
        #[trigger] sections[j]).title != title by {
            if j > 0 {
                assert(rest[j - 1] == sections[j]);
            }
        }
    }
}

/// What is about no published rule is reported for the whole profile, in the
/// order it was found.
pub proof fn anything_else_is_about_the_profile(so_far: Filed, filings: Seq<Filing>)
    requires
        forall|i: int, j: int|
            0 <= i < filings.len() && 0 <= j < so_far.commands.len() ==> (
            #[trigger] filings[i]).rule != Some((#[trigger] so_far.commands[j]).title),
    ensures
        filed_all(so_far, filings).profile == so_far.profile + filings.map_values(
            |filing: Filing| filing.finding,
        ),
        filed_all(so_far, filings).commands == so_far.commands,
    decreases filings.len(),
{
    let worded = |filing: Filing| filing.finding;
    if filings.len() == 0 {
        assert(so_far.profile + filings.map_values(worded) =~= so_far.profile);
    } else {
        let fewer = filings.drop_last();
        assert forall|i: int, j: int|
            0 <= i < fewer.len() && 0 <= j < so_far.commands.len() implies (
        #[trigger] fewer[i]).rule != Some((#[trigger] so_far.commands[j]).title) by {
            assert(fewer[i] == filings[i]);
        }
        anything_else_is_about_the_profile(so_far, fewer);
        let filing = filings.last();
        if let Some(rule) = filing.rule {
            lemma_titled(so_far.commands, rule);
            lemma_titled_first(so_far.commands, rule);
            if titled(so_far.commands, rule) < so_far.commands.len() {
                let at = titled(so_far.commands, rule);
                assert(filings[filings.len() - 1].rule != Some(so_far.commands[at].title));
            }
        }
        assert(filings.map_values(worded) =~= fewer.map_values(worded).push(filing.finding));
        assert((so_far.profile + fewer.map_values(worded)).push(filing.finding)
            =~= so_far.profile + filings.map_values(worded));
    }
}

/// Everything which is known about a grammar is filed: each lint as a warning,
/// each reason it does not compile as an error, and, under the rule they are
/// about, each rule's size, each rule which is taken apart, and each place where
/// the completion timeout is paid.
pub proof fn everything_known_is_filed<V: Vocabulary>(
    grammar: Grammar,
    timeout: Seq<char>,
    model: Seq<char>,
    vocabulary: Result<&V, Error>,
    i: int,
)
    ensures
        ({
            let filings = all_filings(grammar, timeout, model, vocabulary);
            &&& 0 <= i < grammar.lints@.len() ==> filings.contains(
                Filing { rule: None, finding: FindingView::Warning(grammar.lints@[i]@) },
            )
            &&& grammar.automaton matches Err(diagnostics) ==> 0 <= i < diagnostics@.len()
                ==> filings.contains(
                Filing { rule: None, finding: FindingView::Error(diagnostics@[i]@) },
            )
            &&& 0 <= i < grammar.decompositions@.len() ==> filings.contains(
                Filing {
                    rule: Some(grammar.decompositions@[i].rule@),
                    finding: FindingView::Note(decomposition_text(grammar.decompositions@[i])),
                },
            )
            &&& grammar.automaton matches Ok(automaton) ==> {
                &&& 0 <= i < automaton.rule_sizes@.len() ==> filings.contains(
                    Filing {
                        rule: Some(automaton.rule_sizes@[i].0@),
                        finding: FindingView::Note(
                            "compiles into "@ + decimal(automaton.rule_sizes@[i].1 as nat)
                                + " automaton states"@,
                        ),
                    },
                )
                &&& 0 <= i < automaton.prefix_ambiguities@.len() ==> filings.contains(
                    Filing {
                        rule: Some(automaton.prefix_ambiguities@[i].rule@),
                        finding: FindingView::Note(
                            ambiguity_text(automaton.prefix_ambiguities@[i], timeout),
                        ),
                    },
                )
            }
        }),
{
    let filings = all_filings(grammar, timeout, model, vocabulary);
    let lints = lint_filings(grammar.lints@);
    let problems = problem_filings(grammar);
    let heard = match vocabulary {
        Ok(vocabulary) => vocabulary_filings(views(grammar.words@), model, *vocabulary),
        Err(error) => seq![Filing { rule: None, finding: FindingView::Error(error@) }],
    };
    let notes = note_filings(grammar, timeout);
    let decomposed = decomposition_filings(grammar.decompositions@);
    let before = (problems.len() + heard.len()) as int;
    assert(filings == problems + heard + notes);
    if 0 <= i < grammar.lints@.len() {
        assert(filings[i] == lints[i]);
    }
    match grammar.automaton {
        Err(diagnostics) => {
            if 0 <= i < diagnostics@.len() {
                assert(filings[lints.len() + i] == diagnostic_filings(diagnostics@)[i]);
            }
            if 0 <= i < grammar.decompositions@.len() {
                assert(filings[before + i] == decomposed[i]);
            }
        },
        Ok(automaton) => {
            let sizes = size_filings(automaton.rule_sizes@);
            let waits = ambiguity_filings(automaton.prefix_ambiguities@, timeout);
            if 0 <= i < sizes.len() {
                assert(filings[before + i] == sizes[i]);
            }
            if 0 <= i < decomposed.len() {
                assert(filings[before + sizes.len() + i] == decomposed[i]);
            }
            if 0 <= i < waits.len() {
                assert(filings[before + sizes.len() + decomposed.len() + i] == waits[i]);
            }
        },
    }
}

/// More findings are printed behind those before them.
proof fn lemma_printed_behind(findings: Seq<FindingView>, pretty: Seq<Seq<char>>, end: int)
    requires
        0 <= end <= findings.len(),
    ensures
        findings_text(findings.take(end), pretty).is_prefix_of(findings_text(findings, pretty)),
    decreases findings.len() - end,
{
    if end == findings.len() {
        assert(findings.take(end) =~= findings);
    } else {
        let more = findings.take(end + 1);
        assert(more.drop_last() =~= findings.take(end));
        lemma_printed_behind(findings, pretty, end + 1);
        let here = findings_text(findings.take(end), pretty);
        let there = findings_text(more, pretty);
        let all = findings_text(findings, pretty);
        assert(here.is_prefix_of(there));
        assert(here =~= all.take(here.len() as int)) by {
            assert(there == all.take(there.len() as int));
            assert(here == there.take(here.len() as int));
        }
    }
}

/// Every finding is printed, as what it is: a warning and a note on a line which
/// says so, and an error as its own text has it, indented.
pub proof fn every_finding_is_printed(findings: Seq<FindingView>, pretty: Seq<Seq<char>>, i: int)
    requires
        0 <= i < findings.len(),
    ensures
        ({
            let text = findings_text(findings, pretty);
            &&& findings[i] matches FindingView::Warning(message) ==> occurs_in(
                "  warning: "@ + message + "\n"@,
                text,
            )
            &&& findings[i] matches FindingView::Note(message) ==> occurs_in(
                "  note: "@ + message + "\n"@,
                text,
            )
            &&& findings[i] is Error ==> occurs_in(
                indented(
                    lines(
                        pretty[findings.take(i).filter(
                            |finding: FindingView| finding is Error,
                        ).len() as int],
                    ),
                ),
                text,
            )
        }),
{
    let text = findings_text(findings, pretty);
    let until = findings.take(i + 1);
    let earlier = findings.take(i);
    assert(until.drop_last() =~= earlier);
    assert(until.last() == findings[i]);
    lemma_printed_behind(findings, pretty, i + 1);
    lemma_errors_are_counted(earlier);
    let before = findings_text(earlier, pretty);
    let part = match findings[i] {
        FindingView::Error(_) => indented(lines(pretty[count_in(earlier, Severity::Error) as int])),
        FindingView::Warning(message) => "  warning: "@ + message + "\n"@,
        FindingView::Note(message) => "  note: "@ + message + "\n"@,
    };
    let at = before.len() as int;
    assert(findings_text(until, pretty) == before + part);
    let shown = before + part;
    assert(shown == text.take(shown.len() as int));
    assert forall|k: int| 0 <= k < part.len() implies text.subrange(at, at + part.len())[k]
        == part[k] by {
        assert(text[at + k] == text.take(shown.len() as int)[at + k]);
        assert(shown[at + k] == part[k]);
    }
    assert(text.subrange(at, at + part.len()) =~= part);
}

/// Counting errors counts the findings which are errors.
proof fn lemma_errors_are_counted(findings: Seq<FindingView>)
    ensures
        count_in(findings, Severity::Error) == findings.filter(
            |finding: FindingView| finding is Error,
        ).len(),
        count_in(findings, Severity::Warning) == findings.filter(
            |finding: FindingView| finding is Warning,
        ).len(),
    decreases findings.len(),
{
    reveal(Seq::filter);
    if findings.len() > 0 {
        lemma_errors_are_counted(findings.drop_last());
    }
}

/// What is counted is what there is: the errors and the warnings of the profile
/// and of each of its sections.
pub proof fn counting_counts_each_finding_once(report: ReportView)
    ensures
        report.commands.len() == 0 ==> {
            &&& report.count(Severity::Error) == report.profile.filter(
                |finding: FindingView| finding is Error,
            ).len()
            &&& report.count(Severity::Warning) == report.profile.filter(
                |finding: FindingView| finding is Warning,
            ).len()
        },
        report.commands.len() > 0 ==> {
            let fewer = ReportView { commands: report.commands.drop_last(), ..report };
            &&& report.count(Severity::Error) == fewer.count(Severity::Error)
                + report.commands.last().findings.filter(
                |finding: FindingView| finding is Error,
            ).len()
            &&& report.count(Severity::Warning) == fewer.count(Severity::Warning)
                + report.commands.last().findings.filter(
                |finding: FindingView| finding is Warning,
            ).len()
        },
{
    lemma_errors_are_counted(report.profile);
    if report.commands.len() > 0 {
        lemma_errors_are_counted(report.commands.last().findings);
    }
}

/// Every section is printed under its title, and one with nothing in it says
/// that it is fine.
pub proof fn every_section_is_printed(sections: Seq<SectionView>, pretty: Seq<Seq<char>>, i: int)
    requires
        0 <= i < sections.len(),
    ensures
        ({
            let text = sections_text(sections, pretty);
            &&& occurs_in("\n"@ + sections[i].title + "\n"@, text)
            &&& sections[i].findings.len() == 0 ==> occurs_in(
                "\n"@ + sections[i].title + "\n"@ + ("  "@ + "ok"@ + "\n"@),
                text,
            )
        }),
    decreases sections.len(),
{
    let fewer = sections.drop_last();
    let text = sections_text(sections, pretty);
    let earlier = sections_text(fewer, pretty);
    let title = "\n"@ + sections[i].title + "\n"@;
    let fine = title + ("  "@ + "ok"@ + "\n"@);
    if i == sections.len() - 1 {
        let at = earlier.len() as int;
        assert(text.subrange(at, at + title.len()) =~= title);
        if sections[i].findings.len() == 0 {
            assert(text.subrange(at, at + fine.len()) =~= fine);
        }
    } else {
        every_section_is_printed(fewer, pretty, i);
        assert(fewer[i] == sections[i]);
        let at = choose|at: int|
            0 <= at <= earlier.len() - title.len() && #[trigger] earlier.subrange(
                at,
                at + title.len(),
            ) == title;
        assert(text.subrange(at, at + title.len()) =~= earlier.subrange(at, at + title.len()));
        if sections[i].findings.len() == 0 {
            let at = choose|at: int|
                0 <= at <= earlier.len() - fine.len() && #[trigger] earlier.subrange(
                    at,
                    at + fine.len(),
                ) == fine;
            assert(text.subrange(at, at + fine.len()) =~= earlier.subrange(at, at + fine.len()));
        }
    }
}

/// What a word may have been meant to be is offered in full: its spelling without
/// punctuation where the model knows that, and behind it every split and every
/// near word there is.
pub proof fn every_suggestion_is_made<V: Vocabulary>(
    word: Seq<char>,
    vocabulary: V,
    candidates: Option<Seq<Seq<char>>>,
    i: int,
)
    ensures
        ({
            let made = suggestions(word, vocabulary, candidates);
            let spelling = normalized(word);
            let splits = all_halves(word, offered_splits(word, vocabulary));
            &&& spelling != word && spelling.len() > 0 && vocabulary.knows(spelling) ==> made.len()
                > 0 && made[0] == "'"@ + spelling + "'"@
            &&& 0 <= i < splits.len() ==> made.contains(
                "'"@ + splits[i].0 + " "@ + splits[i].1 + "'"@,
            )
            &&& candidates matches Some(candidates) ==> 0 <= i < nearest_words(
                word,
                candidates,
            ).len() ==> made.contains("'"@ + nearest_words(word, candidates)[i] + "'"@)
        }),
{
    let made = suggestions(word, vocabulary, candidates);
    let spelling = normalized(word);
    let fixed = if spelling != word && spelling.len() > 0 && vocabulary.knows(spelling) {
        seq![spelling]
    } else {
        Seq::empty()
    };
    let splits = all_halves(word, offered_splits(word, vocabulary));
    if fixed.len() > 0 {
        assert(made[0] == quoted(fixed)[0]);
    }
    if 0 <= i < splits.len() {
        assert(made[fixed.len() + i] == quoted_pairs(splits)[i]);
    }
    if let Some(candidates) = candidates {
        let near = nearest_words(word, candidates);
        if 0 <= i < near.len() {
            assert(made[fixed.len() + splits.len() + i] == quoted(near)[i]);
        }
    }
}

/// The whole of a report is printed: what it is about at its start, what was
/// found of the profile and of each command below, and at its end how much there
/// was of everything.
pub proof fn the_whole_report_is_printed(report: ReportView, pretty: Seq<Seq<char>>)
    ensures
        ({
            let text = report_text(report, pretty);
            let commands = report.commands.len();
            let errors = report.count(Severity::Error);
            let warnings = report.count(Severity::Warning);
            let mine = report.profile.filter(|finding: FindingView| finding is Error).len();
            &&& report.header.is_prefix_of(text)
            &&& report.profile.len() > 0 ==> occurs_in(findings_text(report.profile, pretty), text)
            &&& occurs_in(sections_text(report.commands, pretty.skip(mine as int)), text)
            &&& occurs_in(
                decimal(commands) + " command"@ + one_or_more(commands) + " checked"@,
                text,
            )
            &&& occurs_in(
                decimal(errors) + " error"@ + one_or_more(errors) + ", "@ + decimal(warnings)
                    + " warning"@ + one_or_more(warnings) + "."@,
                text,
            )
        }),
{
    let text = report_text(report, pretty);
    let nothing = Seq::<char>::empty();
    let alone = ReportView { commands: Seq::empty(), ..report };
    counting_counts_each_finding_once(alone);
    let mine = report.profile.filter(|finding: FindingView| finding is Error).len();
    assert(alone.count(Severity::Error) == count_in(report.profile, Severity::Error));
    let own = section_text(report.profile, None, pretty);
    let sections = sections_text(report.commands, pretty.skip(mine as int));
    let summary = summary_text(report);
    let start = report.header + "\n"@;
    assert(start + own + (sections + "\n"@ + summary + "\n"@) =~= text);
    assert(report.header.is_prefix_of(text));
    a_part_occurs(start, own, sections + "\n"@ + summary + "\n"@);
    a_part_occurs(start + own, sections, "\n"@ + summary + "\n"@);
    assert(start + own + sections + ("\n"@ + summary + "\n"@) =~= text);
    let before = start + own + sections + "\n"@;
    a_part_occurs(before, summary, "\n"@);
    assert(before + summary + "\n"@ =~= text);
    let commands = report.commands.len();
    let errors = report.count(Severity::Error);
    let warnings = report.count(Severity::Warning);
    let checked = decimal(commands) + " command"@ + one_or_more(commands) + " checked"@;
    let found = decimal(errors) + " error"@ + one_or_more(errors) + ", "@ + decimal(warnings)
        + " warning"@ + one_or_more(warnings) + "."@;
    lemma_summary(report);
    a_part_occurs(nothing, checked, " — "@ + found);
    assert(nothing + checked + (" — "@ + found) =~= summary);
    a_part_occurs(checked + " — "@, found, nothing);
    assert(checked + " — "@ + found + nothing =~= summary);
    a_part_of_a_part_occurs(checked, summary, text);
    a_part_of_a_part_occurs(found, summary, text);
}

/// What turns the word for one thing into the word for some number of them.
pub open spec fn one_or_more(count: nat) -> Seq<char> {
    if count == 1 {
        ""@
    } else {
        "s"@
    }
}

proof fn lemma_plurals(count: nat)
    ensures
        " "@ + plural_of(count, "command"@, "commands"@) == " command"@ + one_or_more(count),
        " "@ + plural_of(count, "error"@, "errors"@) == " error"@ + one_or_more(count),
        " "@ + plural_of(count, "warning"@, "warnings"@) == " warning"@ + one_or_more(count),
{
    reveal_strlit("");
    reveal_strlit("s");
    reveal_strlit(" ");
    assert(" "@ + plural_of(count, "command"@, "commands"@) =~= " command"@ + one_or_more(
        count,
    )) by {
        reveal_strlit("command");
        reveal_strlit("commands");
        reveal_strlit(" command");
    }
    assert(" "@ + plural_of(count, "error"@, "errors"@) =~= " error"@ + one_or_more(count)) by {
        reveal_strlit("error");
        reveal_strlit("errors");
        reveal_strlit(" error");
    }
    assert(" "@ + plural_of(count, "warning"@, "warnings"@) =~= " warning"@ + one_or_more(
        count,
    )) by {
        reveal_strlit("warning");
        reveal_strlit("warnings");
        reveal_strlit(" warning");
    }
}

proof fn lemma_summary(report: ReportView)
    ensures
        ({
            let commands = report.commands.len();
            let errors = report.count(Severity::Error);
            let warnings = report.count(Severity::Warning);
            summary_text(report) == decimal(commands) + " command"@ + one_or_more(commands)
                + " checked"@ + " — "@ + (decimal(errors) + " error"@ + one_or_more(errors) + ", "@
                + decimal(warnings) + " warning"@ + one_or_more(warnings) + "."@)
        }),
{
    let commands = report.commands.len();
    let errors = report.count(Severity::Error);
    let warnings = report.count(Severity::Warning);
    lemma_plurals(commands);
    lemma_plurals(errors);
    lemma_plurals(warnings);
    assert(" checked — "@ =~= " checked"@ + " — "@) by {
        reveal_strlit(" checked — ");
        reveal_strlit(" checked");
        reveal_strlit(" — ");
    }
    lemma_regrouped(
        decimal(commands),
        plural_of(commands, "command"@, "commands"@),
        decimal(errors),
        plural_of(errors, "error"@, "errors"@),
        decimal(warnings),
        plural_of(warnings, "warning"@, "warnings"@),
    );
    assert(decimal(commands) + (" command"@ + one_or_more(commands)) =~= decimal(commands)
        + " command"@ + one_or_more(commands));
    assert(decimal(errors) + (" error"@ + one_or_more(errors)) + ", "@ + decimal(warnings) + (
    " warning"@ + one_or_more(warnings)) + "."@ =~= decimal(errors) + " error"@ + one_or_more(
        errors,
    ) + ", "@ + decimal(warnings) + " warning"@ + one_or_more(warnings) + "."@);
}

proof fn lemma_regrouped(
    a: Seq<char>,
    b: Seq<char>,
    c: Seq<char>,
    d: Seq<char>,
    e: Seq<char>,
    f: Seq<char>,
)
    ensures
        a + " "@ + b + (" checked"@ + " — "@) + c + " "@ + d + ", "@ + e + " "@ + f + "."@ == a + (
        " "@ + b) + " checked"@ + " — "@ + (c + (" "@ + d) + ", "@ + e + (" "@ + f) + "."@),
{
    assert(a + " "@ + b + (" checked"@ + " — "@) + c + " "@ + d + ", "@ + e + " "@ + f + "."@ =~= a
        + (" "@ + b) + " checked"@ + " — "@ + (c + (" "@ + d) + ", "@ + e + (" "@ + f) + "."@));
}

/// What is said of an unknown word names it, the model which does not know it,
/// and every word it might have been meant for.
pub proof fn an_unknown_word_is_named(
    model: Seq<char>,
    word: Seq<char>,
    suggested: Seq<Seq<char>>,
    i: int,
)
    ensures
        ({
            let error = unknown_word_error(model, word, suggested);
            &&& error.kind == Kind::User
            &&& error.advice.len() > 0
            &&& occurs_in(model, error.description)
            &&& occurs_in(word, error.description)
            &&& 0 <= i < suggested.len() ==> occurs_in(suggested[i], error.description)
        }),
{
    let nothing = Seq::<char>::empty();
    let text = unknown_word_error(model, word, suggested).description;
    let start = "The model at '"@;
    let middle = "' does not know the word '"@;
    let end = "', so no command using it can ever be recognized."@;
    let listed = joined(suggested, ", "@);
    let more = if suggested.len() == 0 {
        nothing
    } else {
        " Did you mean "@ + listed + "?"@
    };
    a_part_occurs(start, model, middle + word + end + more);
    assert(start + model + (middle + word + end + more) =~= text);
    a_part_occurs(start + model + middle, word, end + more);
    assert(start + model + middle + word + (end + more) =~= text);
    if 0 <= i < suggested.len() {
        every_joined_text_occurs(suggested, ", "@, i);
        let before = start + model + middle + word + end + " Did you mean "@;
        a_part_still_occurs(suggested[i], before, listed, "?"@);
        assert(before + listed + "?"@ =~= text);
    }
}

/// What is said of a rule which is fed in fragments names it, and how many
/// phrases it comes to where they can be counted.
pub proof fn a_decomposed_rule_is_named(decomposition: Decomposition)
    ensures
        occurs_in(decomposition.rule@, decomposition_text(decomposition)),
        decomposition.expansions < usize::MAX ==> occurs_in(
            decimal(decomposition.expansions as nat) + " concrete phrases"@,
            decomposition_text(decomposition),
        ),
{
    let text = decomposition_text(decomposition);
    let start = "the rule '"@;
    let rule = decomposition.rule@;
    let middle = "' expands into "@;
    let counted = if decomposition.expansions == usize::MAX {
        "more concrete phrases than we can count"@
    } else {
        decimal(decomposition.expansions as nat) + " concrete phrases"@
    };
    let end = " (more than the "@ + decimal(512)
        + " the recognizer is fed whole), so it is decomposed into fragment phrases for recognition"@;
    a_part_occurs(start, rule, middle + counted + end);
    assert(start + rule + (middle + counted + end) =~= text);
    a_part_occurs(start + rule + middle, counted, end);
    assert(start + rule + middle + counted + end =~= text);
}

/// What is said of a phrase which could go on says which phrase it is, how long
/// is waited for it, and how it could go on where that is known.
pub proof fn an_ambiguous_phrase_is_named(ambiguity: Ambiguity, timeout: Seq<char>)
    ensures
        ({
            let text = ambiguity_text(ambiguity, timeout);
            &&& occurs_in(ambiguity.phrase@, text)
            &&& occurs_in(timeout, text)
            &&& ambiguity.continuation matches Some(longer) ==> occurs_in(longer@, text)
        }),
{
    let text = ambiguity_text(ambiguity, timeout);
    let start = "saying \""@;
    let phrase = ambiguity.phrase@;
    let middle = "\" will wait "@;
    let end = match ambiguity.continuation {
        Some(longer) => " in case you continue with \""@ + longer@ + "\""@,
        None => " in case you continue with a longer command"@,
    };
    a_part_occurs(start, phrase, middle + timeout + end);
    assert(start + phrase + (middle + timeout + end) =~= text);
    a_part_occurs(start + phrase + middle, timeout, end);
    assert(start + phrase + middle + timeout + end =~= text);
    if let Some(longer) = ambiguity.continuation {
        let before = start + phrase + middle + timeout + " in case you continue with \""@;
        a_part_occurs(before, longer@, "\""@);
        assert(before + longer@ + "\""@ =~= text);
    }
}

/// A report fails just where it holds an error, of the profile or of a command:
/// neither a warning nor a note does.
pub proof fn only_an_error_fails_a_report(report: &Report, code: i32)
    requires
        call_ensures(Report::exit_code, (report,), code),
    ensures
        (code == 0) == (report@.count(Severity::Error) == 0),
        code == 0 || code == 1,
{
}

} // verus!
