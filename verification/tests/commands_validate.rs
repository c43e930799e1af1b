use voice_orders::commands::validate::suggest::{
    compound_splits, nearest, nearest_candidates, normalize, MAX_NEAREST_SUGGESTIONS,
    MAX_SUGGESTION_DISTANCE,
};
use voice_orders::commands::validate::{
    check, plural, render_findings, Ambiguity, Automaton, Decomposition, Finding, Grammar, Report,
    Section, MAX_EXPANSIONS_PER_RULE,
};
use voice_orders::config::output::OutputDefaults;
use voice_orders::config::recognition::RecognitionConfig;
use voice_orders::config::{defaults, AudioConfig, Profile};
use voice_orders::errors::Error;
use voice_orders::recognition::{Vocabulary, WordList};
use voice_orders::time::Duration;

fn owned(texts: &[&str]) -> Vec<String> {
    texts.iter().map(ToString::to_string).collect()
}

/// A vocabulary which knows `words` and will list them.
fn knowing(words: &[&str]) -> WordList {
    WordList {
        words: owned(words),
        listing: Some(owned(words)),
    }
}

/// The same vocabulary, but without a readable word list.
fn without_word_list(vocabulary: WordList) -> WordList {
    WordList {
        listing: None,
        ..vocabulary
    }
}

/// Every word the test grammars below use, so that a test which is not
/// about the vocabulary never trips over it.
fn full_vocabulary() -> WordList {
    knowing(&[
        "deploy", "the", "auto", "cannon", "sentry", "open", "terminal", "salute", "reload",
        "weapon", "a", "b", "c", "d", "x", "go", "now", "hold", "forward",
    ])
}

fn profile() -> Profile {
    Profile {
        name: None,
        model: Some("/models/en".to_string()),
        audio: AudioConfig { device: None },
        hotkey: None,
        completion_timeout: defaults::completion_timeout(),
        recognition: RecognitionConfig::default(),
        defaults: OutputDefaults::default(),
        commands: Vec::new(),
    }
}

/// What a grammar with these commands and words comes to.
fn grammar(published: &[&str], words: &[&str]) -> Grammar {
    Grammar {
        published: owned(published),
        lints: Vec::new(),
        automaton: Ok(Automaton {
            rule_sizes: published
                .iter()
                .map(|rule| (rule.to_string(), 3))
                .collect(),
            prefix_ambiguities: Vec::new(),
        }),
        decompositions: Vec::new(),
        words: owned(words),
    }
}

fn validate(grammar: Grammar, vocabulary: &WordList) -> Report {
    check(
        "test-profile.yaml",
        &profile(),
        grammar,
        "/models/en",
        Ok(vocabulary),
    )
}

fn error_messages(report: &Report) -> Vec<String> {
    report
        .profile
        .iter()
        .chain(report.commands.iter().flat_map(|s| s.findings.iter()))
        .filter_map(|finding| match finding {
            Finding::Error(e) => Some(e.description()),
            _ => None,
        })
        .collect()
}

const NEVER_RELEASED: &str = "the rule holds 'w' and will never release it";

#[test]
fn test_a_clean_profile_reports_no_problems() {
    let report = validate(
        grammar(
            &["Terminal", "Salute"],
            &["open", "the", "terminal", "salute"],
        ),
        &full_vocabulary(),
    );

    let rendered = report.render();
    assert_eq!(report.errors(), 0, "unexpected errors:\n{rendered}");
    assert_eq!(report.warnings(), 0, "unexpected warnings:\n{rendered}");
    assert_eq!(report.exit_code(), 0);

    assert!(
        rendered.contains("Terminal"),
        "every command gets a section:\n{rendered}"
    );
    assert!(
        rendered.contains("2 commands checked — 0 errors, 0 warnings."),
        "unexpected summary:\n{rendered}"
    );
}

#[test]
fn test_the_header_names_the_source_and_the_profile() {
    let profile = Profile {
        name: Some("Deep Rock Galactic".to_string()),
        ..profile()
    };
    let report = check(
        "test-profile.yaml",
        &profile,
        grammar(&["Salute"], &["salute"]),
        "/models/en",
        Ok(&full_vocabulary()),
    );

    assert!(
        report
            .render()
            .starts_with("test-profile.yaml — Deep Rock Galactic\n"),
        "unexpected report:\n{}",
        report.render()
    );
}

#[test]
fn test_grammar_lints_are_reported_as_warnings() {
    // A hold with no release loads fine, but validate must say so.
    let report = validate(
        Grammar {
            lints: owned(&[NEVER_RELEASED]),
            ..grammar(&["HoldForward"], &["hold", "forward"])
        },
        &full_vocabulary(),
    );

    let rendered = report.render();
    assert!(
        rendered.contains("warning:") && rendered.contains("never release"),
        "the load-time lint should surface here:\n{rendered}"
    );
    assert_eq!(report.warnings(), 1);
    assert_eq!(report.exit_code(), 0, "lints do not fail validation");
}

#[test]
fn test_compile_diagnostics_are_errors_naming_both_rules() {
    // Two commands accepting the same words with different keys is only
    // detectable on the automaton, so it lands here rather than at load.
    let report = validate(
        Grammar {
            automaton: Err(vec![Error::user(
                "The rules 'First' and 'Second' both accept \"salute\".".to_string(),
                vec!["Change one of them."],
            )]),
            ..grammar(&["First", "Second"], &["salute", "the"])
        },
        &full_vocabulary(),
    );

    assert_eq!(report.exit_code(), 1);
    let messages = error_messages(&report);
    assert!(
        messages
            .iter()
            .any(|m| m.contains("'First'") && m.contains("'Second'")),
        "the error should name both rules: {messages:?}"
    );
}

#[test]
fn test_rule_sizes_are_noted_per_command() {
    let report = validate(grammar(&["Salute"], &["salute"]), &full_vocabulary());

    assert!(
        report.render().contains("note: compiles into")
            && report.render().contains("automaton states"),
        "unexpected report:\n{}",
        report.render()
    );
}

#[test]
fn test_decomposed_rules_are_noted() {
    // Five chained four-way groups expand to 4^5 = 1024 phrases, past the
    // 512 the recognizer is fed whole.
    assert_eq!(MAX_EXPANSIONS_PER_RULE, 512);
    let report = validate(
        Grammar {
            decompositions: vec![
                Decomposition {
                    rule: "big".to_string(),
                    expansions: 1024,
                },
                Decomposition {
                    rule: "Use".to_string(),
                    expansions: 1024,
                },
            ],
            ..grammar(&["Use"], &["go", "a", "b", "c", "d", "now"])
        },
        &full_vocabulary(),
    );

    let rendered = report.render();
    assert!(
        rendered.contains("note: the rule 'Use' expands into 1024 concrete phrases")
            && rendered.contains("decomposed into fragment phrases for recognition"),
        "unexpected report:\n{rendered}"
    );
    // The private rule has no section of its own, so its note is
    // profile-wide — but still present.
    assert!(
        rendered.contains("the rule 'big' expands into 1024 concrete phrases"),
        "unexpected report:\n{rendered}"
    );
    assert_eq!(report.errors(), 0, "decomposition is a note, not an error");
}

#[test]
fn test_prefix_relations_are_noted_with_the_timeout() {
    let profile = Profile {
        completion_timeout: Duration::from_millis(350),
        ..profile()
    };
    let mut grammar = grammar(&["Reload", "ReloadWeapon"], &["reload", "weapon"]);
    grammar.automaton = Ok(Automaton {
        rule_sizes: Vec::new(),
        prefix_ambiguities: vec![Ambiguity {
            rule: "Reload".to_string(),
            phrase: "reload".to_string(),
            continuation: Some("reload weapon".to_string()),
        }],
    });
    let report = check(
        "test-profile.yaml",
        &profile,
        grammar,
        "/models/en",
        Ok(&full_vocabulary()),
    );

    let rendered = report.render();
    assert!(
        rendered.contains(
            "note: saying \"reload\" will wait 350ms in case you continue with \"reload weapon\""
        ),
        "unexpected report:\n{rendered}"
    );
    assert_eq!(report.errors(), 0);
    assert_eq!(report.exit_code(), 0);
}

#[test]
fn test_unknown_words_are_errors() {
    let report = validate(
        grammar(&["Deploy"], &["deploy", "the", "autocannon"]),
        &knowing(&["deploy", "the", "sentry"]),
    );

    assert_eq!(report.exit_code(), 1);
    let messages = error_messages(&report);
    assert_eq!(messages.len(), 1, "unexpected errors: {messages:?}");
    assert!(
        messages[0].contains("does not know the word 'autocannon'"),
        "unexpected error: {}",
        messages[0]
    );
}

#[test]
fn test_a_compound_word_is_suggested_as_a_split() {
    // The model has never heard "autocannon", but it knows both halves of it.
    let report = validate(
        grammar(&["Deploy"], &["deploy", "autocannon"]),
        &without_word_list(knowing(&["deploy", "auto", "cannon", "a", "utocannon"])),
    );

    let messages = error_messages(&report);
    assert_eq!(messages.len(), 1, "unexpected errors: {messages:?}");
    // 'auto cannon' (4 vs 6) is more balanced than 'a utocannon' (1 vs 9),
    // so it leads.
    assert!(
        messages[0].contains("Did you mean 'auto cannon', 'a utocannon'?"),
        "unexpected error: {}",
        messages[0]
    );
}

#[test]
fn test_at_most_two_splits_are_offered() {
    // "abcd" splits three ways; the model knows the halves of two of them.
    let report = validate(
        grammar(&["Abcd"], &["abcd"]),
        &without_word_list(knowing(&["a", "b", "c", "d", "ab", "cd", "abc"])),
    );

    let message = error_messages(&report).remove(0);
    assert!(
        message.contains("Did you mean 'ab cd', 'abc d'?"),
        "the most balanced split should lead, and only two should be offered: {message}"
    );
}

#[test]
fn test_punctuation_is_normalized_away() {
    // The grammar allows apostrophes inside literal words, so this reaches
    // the vocabulary check intact.
    let report = validate(
        grammar(&["Deploy"], &["deploy", "don't"]),
        &knowing(&["dont", "deploy"]),
    );

    let message = error_messages(&report).remove(0);
    assert!(
        message.contains("does not know the word 'don't'") && message.contains("'dont'"),
        "unexpected error: {message}"
    );
}

#[test]
fn test_nearest_words_are_ranked_and_capped() {
    // Every one of these is one edit away from "bat", so the ranking has
    // nothing to go on but the shared first letter and the alphabet — and
    // only three of the six may be offered.
    let report = validate(
        grammar(&["Bat"], &["bat"]),
        &knowing(&["cat", "bad", "bar", "bag", "bit", "hat"]),
    );

    let message = error_messages(&report).remove(0);
    assert!(
        message.contains("Did you mean 'bad', 'bag', 'bar'?"),
        "a shared first letter should win ties, capped at {MAX_NEAREST_SUGGESTIONS}: {message}"
    );
}

#[test]
fn test_distant_words_are_never_suggested() {
    let report = validate(
        grammar(&["Gubbins"], &["gubbins"]),
        &knowing(&["deploy", "sentry"]),
    );

    let message = error_messages(&report).remove(0);
    assert!(
        !message.contains("Did you mean"),
        "nothing is within {MAX_SUGGESTION_DISTANCE} edits, so we should stay quiet: {message}"
    );
}

#[test]
fn test_fst_symbols_are_never_suggested() {
    let vocabulary = WordList {
        words: owned(&["deploy", "sentry"]),
        listing: Some(owned(&[
            "deploy", "sentry", "<eps>", "<unk>", "#0", "!SIL", "1234",
        ])),
    };
    let report = validate(grammar(&["Deploy"], &["deploy", "sentrz"]), &vocabulary);

    let message = error_messages(&report).remove(0);
    for symbol in ["<eps>", "<unk>", "#0", "!SIL", "1234"] {
        assert!(
            !message.contains(symbol),
            "'{symbol}' is not something a person can say: {message}"
        );
    }
    assert!(message.contains("'sentry'"), "unexpected error: {message}");
}

#[test]
fn test_a_model_without_a_word_list_says_so_once() {
    let report = validate(
        grammar(&["First", "Second"], &["deploy", "sentrz", "gubbins"]),
        &without_word_list(knowing(&["deploy"])),
    );

    let rendered = report.render();
    assert_eq!(
        rendered
            .matches("does not ship a readable word list")
            .count(),
        1,
        "the note belongs to the profile, not to every word:\n{rendered}"
    );
    assert_eq!(report.errors(), 2, "both words are still reported");
}

#[test]
fn test_a_known_profile_never_mentions_the_missing_word_list() {
    let report = validate(
        grammar(&["Salute"], &["salute"]),
        &without_word_list(full_vocabulary()),
    );

    assert!(
        !report.render().contains("readable word list"),
        "there is nothing to suggest, so nothing to apologise for"
    );
}

#[test]
fn test_a_missing_model_does_not_hide_the_grammar_findings() {
    let report = check::<WordList>(
        "test-profile.yaml",
        &profile(),
        Grammar {
            lints: owned(&[NEVER_RELEASED]),
            ..grammar(&["HoldForward"], &["hold", "forward"])
        },
        "/models/en",
        Err(Error::user(
            "We could not find a Vosk model at '/models/en'.".to_string(),
            vec!["Check the path."],
        )),
    );

    let rendered = report.render();
    assert!(
        rendered.contains("could not find a Vosk model"),
        "the model failure is reported:\n{rendered}"
    );
    assert!(
        rendered.contains("never release"),
        "and so is everything it could have hidden:\n{rendered}"
    );
    assert_eq!(report.errors(), 1);
    assert_eq!(report.warnings(), 1);
    assert_eq!(report.exit_code(), 1);
}

#[test]
fn test_everything_is_reported_in_one_pass() {
    // A lint, an unknown word, and a prefix note all appear together.
    let mut grammar = Grammar {
        lints: owned(&[NEVER_RELEASED]),
        ..grammar(
            &["HoldForward", "Gubbins", "GubbinsNow"],
            &["hold", "forward", "gubbins", "now"],
        )
    };
    grammar.automaton = Ok(Automaton {
        rule_sizes: Vec::new(),
        prefix_ambiguities: vec![Ambiguity {
            rule: "Gubbins".to_string(),
            phrase: "gubbins".to_string(),
            continuation: None,
        }],
    });
    let report = validate(grammar, &full_vocabulary());

    let rendered = report.render();
    assert!(rendered.contains("never release"), "{rendered}");
    assert!(rendered.contains("'gubbins'"), "{rendered}");
    assert!(rendered.contains("will wait"), "{rendered}");
    assert_eq!(report.errors(), 1);
    assert_eq!(report.warnings(), 1);
    assert!(
        rendered.contains("3 commands checked — 1 error, 1 warning."),
        "unexpected summary:\n{rendered}"
    );
}

/// What kind of finding this is, and what it says.
fn told(finding: &Finding) -> (&'static str, String) {
    match finding {
        Finding::Error(e) => ("error", e.description()),
        Finding::Warning(text) => ("warning", text.clone()),
        Finding::Note(text) => ("note", text.clone()),
    }
}

#[test]
fn findings_are_reported_problems_first_and_notes_last() {
    let broken = Grammar {
        lints: owned(&[NEVER_RELEASED]),
        automaton: Err(vec![Error::user(
            "it does not compile".to_string(),
            vec!["fix it"],
        )]),
        decompositions: vec![Decomposition {
            rule: "shared".to_string(),
            expansions: 1024,
        }],
        ..grammar(&["Open"], &["open", "gubbins"])
    };
    let report = validate(broken, &full_vocabulary());
    let findings: Vec<(&str, String)> = report.profile.iter().map(told).collect();
    assert_eq!(findings.len(), 4, "{findings:?}");
    assert_eq!(findings[0], ("warning", NEVER_RELEASED.to_string()));
    assert_eq!(findings[1], ("error", "it does not compile".to_string()));
    assert_eq!(findings[2].0, "error");
    assert!(findings[2].1.contains("'gubbins'"), "{findings:?}");
    assert_eq!(findings[3].0, "note");
    assert!(findings[3].1.contains("'shared'"), "{findings:?}");

    let sound = Grammar {
        automaton: Ok(Automaton {
            rule_sizes: vec![("Open".to_string(), 3)],
            prefix_ambiguities: vec![Ambiguity {
                rule: "Open".to_string(),
                phrase: "open".to_string(),
                continuation: None,
            }],
        }),
        decompositions: vec![Decomposition {
            rule: "Open".to_string(),
            expansions: 1024,
        }],
        ..grammar(&["Open"], &["open"])
    };
    let report = validate(sound, &full_vocabulary());
    let notes: Vec<(&str, String)> = report.commands[0].findings.iter().map(told).collect();
    assert_eq!(notes.len(), 3, "{notes:?}");
    assert_eq!(
        notes[0],
        ("note", "compiles into 3 automaton states".to_string())
    );
    assert!(notes[1].1.contains("decomposed into fragment phrases"), "{notes:?}");
    assert!(notes[2].1.contains("will wait"), "{notes:?}");
}

#[test]
fn test_exit_code_semantics() {
    for (errors, warnings, expected) in [(0, 0, 0), (0, 3, 0), (1, 0, 1), (2, 5, 1)] {
        let mut findings = Vec::new();
        for _ in 0..errors {
            findings.push(Finding::Error(Error::user(
                "broken".to_string(),
                vec!["fix it"],
            )));
        }
        for _ in 0..warnings {
            findings.push(Finding::Warning("odd".to_string()));
        }

        let report = Report {
            header: "test-profile.yaml".to_string(),
            profile: Vec::new(),
            commands: vec![Section {
                title: "a command".to_string(),
                findings,
            }],
        };

        assert_eq!(report.errors(), errors);
        assert_eq!(report.warnings(), warnings);
        assert_eq!(report.exit_code(), expected);
    }
}

#[test]
fn a_whole_report_reads_top_to_bottom() {
    let broken = || Finding::Error(Error::user("broken".to_string(), Vec::new()));
    let report = Report {
        header: "profile.yaml".to_string(),
        profile: vec![Finding::Note("fine".to_string()), broken()],
        commands: vec![
            Section {
                title: "Salute".to_string(),
                findings: Vec::new(),
            },
            Section {
                title: "Reload".to_string(),
                findings: vec![Finding::Warning("odd".to_string()), broken()],
            },
        ],
    };
    let pretty = vec!["first\n\nof two".to_string(), "second".to_string()];
    assert_eq!(
        report.render_with(&pretty),
        "profile.yaml\n  note: fine\n  first\n\n  of two\n\nSalute\n  ok\n\nReload\n  warning: odd\n  second\n\n2 commands checked — 2 errors, 1 warning.\n"
    );

    // The errors' texts are their own, indented.
    let rendered = report.render();
    assert_eq!(rendered.matches("  error(").count(), 2, "{rendered}");
    assert_eq!(rendered.matches("broken").count(), 2, "{rendered}");
}

#[test]
fn findings_start_at_their_own_error() {
    let broken = Finding::Error(Error::user("broken".to_string(), Vec::new()));
    let pretty = vec!["first".to_string(), "second".to_string()];
    assert_eq!(render_findings(&[broken], None, &pretty, 1), "  second\n");
    assert_eq!(render_findings(&[], None, &[], 0), "");
    assert_eq!(render_findings(&[], Some("ok"), &[], 0), "  ok\n");
    assert_eq!(plural(1, "error", "errors"), "error");
    assert_eq!(plural(0, "error", "errors"), "errors");
}

// --- Suggestions ----------------------------------------------------------

#[test]
fn every_offered_split_is_of_known_words() {
    let vocabulary = knowing(&["auto", "cannon", "a", "utocannon"]);
    for (left, right) in compound_splits("autocannon", &vocabulary) {
        assert!(vocabulary.contains(&left) && vocabulary.contains(&right));
        assert_eq!(format!("{left}{right}"), "autocannon");
    }
    assert!(compound_splits("a", &vocabulary).is_empty());
    assert!(compound_splits("", &vocabulary).is_empty());
}

#[test]
fn splits_are_balanced_in_bytes_and_cut_between_characters() {
    let vocabulary = knowing(&["é", "ab", "éa", "b"]);
    // Each 'é' is two bytes: 'é|ab' is even, 'éa|b' is not.
    assert_eq!(
        compound_splits("éab", &vocabulary),
        vec![
            ("é".to_string(), "ab".to_string()),
            ("éa".to_string(), "b".to_string()),
        ]
    );
}

#[test]
fn words_are_normalized_and_lowered() {
    assert_eq!(normalize("Don't!"), "dont");
    assert_eq!(normalize("ÉCLAIR-2"), "éclair-2");
    assert_eq!(normalize("..."), "");
}

#[test]
fn only_words_which_can_be_said_are_candidates() {
    assert_eq!(
        nearest_candidates(&owned(&[
            "deploy", "éclair", "DON'T", "<eps>", "#0", "!SIL", "1234", "", "don't",
        ])),
        owned(&["deploy", "éclair", "don't"])
    );
}

#[test]
fn the_nearest_words_are_within_two_edits() {
    let candidates = owned(&["sentry", "sentries", "entry", "gantry"]);
    assert_eq!(
        nearest("sentrz", &candidates),
        owned(&["sentry", "entry"]),
        "one edit, then two"
    );
    assert!(nearest("zzzzzzzz", &candidates).is_empty());
}
