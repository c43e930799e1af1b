use voice_orders::commands::validate::suggest::Split;
use voice_orders::errors::{Error, Kind};
use voice_orders::path::{file_name, join_path};
use voice_orders::ranking::best_of;
use voice_orders::text::{
    byte_len_of, comes_before, contains, decimal_of, ends_with, eq_ignoring_case, fields_of,
    is_among, is_blank, is_white_space, join, lines_of, number_of, padded_of, signed_decimal_of,
    starts_with, trim,
};

const TEXTS: [&str; 14] = [
    "",
    "\n",
    "\r\n",
    "a",
    "a\n",
    "a\nb",
    "a\r\nb\r",
    "a\n\nb\n\n",
    "\r",
    "  two words  ",
    "\u{a0}é\u{2003}",
    "input:x:992:alice,bob",
    "::",
    "ßtraße",
];

#[test]
fn white_space_is_what_it_is_everywhere_else() {
    for code in 0..=0x10ffffu32 {
        if let Some(c) = char::from_u32(code) {
            assert_eq!(is_white_space(c), c.is_whitespace(), "{code:#x}");
        }
    }
}

#[test]
fn texts_are_cut_where_they_always_are() {
    for text in TEXTS {
        assert_eq!(trim(text), text.trim(), "{text:?}");
        assert_eq!(is_blank(text), text.trim().is_empty(), "{text:?}");
        assert_eq!(lines_of(text), text.lines().collect::<Vec<_>>(), "{text:?}");
        assert_eq!(
            fields_of(text, ':'),
            text.split(':').collect::<Vec<_>>(),
            "{text:?}"
        );
        assert_eq!(byte_len_of(text), text.len(), "{text:?}");
    }
}

#[test]
fn texts_are_ordered_and_searched_as_usual() {
    for a in TEXTS {
        for b in TEXTS {
            assert_eq!(comes_before(a, b), a < b, "{a:?} {b:?}");
            assert_eq!(contains(a, b), a.contains(b), "{a:?} {b:?}");
            assert_eq!(starts_with(a, b), a.starts_with(b), "{a:?} {b:?}");
            assert_eq!(ends_with(a, b), a.ends_with(b), "{a:?} {b:?}");
            assert_eq!(
                eq_ignoring_case(a, b),
                a.eq_ignore_ascii_case(b),
                "{a:?} {b:?}"
            );
        }
    }
    assert!(eq_ignoring_case("Default", "dEFAULT"));
    assert!(!eq_ignoring_case("É", "é"));
}

#[test]
fn numbers_are_read_and_written() {
    for text in [
        "0", "7", "+7", "-7", "", "+", "007", "4294967295", "4294967296", "12a", " 1", "99999999999",
    ] {
        assert_eq!(number_of(text), text.parse::<u32>().ok(), "{text:?}");
    }
    assert_eq!(decimal_of(0), "0");
    assert_eq!(decimal_of(u64::MAX), u64::MAX.to_string());
    assert_eq!(signed_decimal_of(i32::MIN), i32::MIN.to_string());
    assert_eq!(padded_of(7), "07");
    assert_eq!(padded_of(59), "59");
}

#[test]
fn lists_are_joined_and_searched() {
    let words = vec!["a".to_string(), "b".to_string()];
    assert_eq!(join(&words, ", "), "a, b");
    assert_eq!(join(&[], ", "), "");
    assert!(is_among(&words, "b") && !is_among(&words, "c"));
}

#[test]
fn a_file_name_is_the_last_component() {
    for (path, expected) in [
        ("/usr/bin/sleep", Some("sleep")),
        ("sleep/", Some("sleep")),
        ("sleep/.", Some("sleep")),
        ("sleep//", Some("sleep")),
        ("/", None),
        ("..", None),
        ("a/..", None),
        ("", None),
        (".", None),
    ] {
        assert_eq!(file_name(false, path).as_deref(), expected, "{path:?}");
        assert_eq!(
            file_name(false, path).as_deref(),
            std::path::Path::new(path)
                .file_name()
                .and_then(|name| name.to_str()),
            "{path:?}"
        );
    }
    for (path, expected) in [
        (r"C:\Games\x.exe", Some("x.exe")),
        ("C:/Games/x.exe", Some("x.exe")),
        (r"C:\Games\", Some("Games")),
        (r"C:\Games\.\", Some("Games")),
        ("C:x.exe", Some("x.exe")),
        (r"C:\", None),
        ("C:", None),
        ("C:.", None),
        (r"\\nas\games", None),
        (r"\\nas\games\x.exe", Some("x.exe")),
        (r"\\nas", Some("nas")),
        (r"\x.exe", Some("x.exe")),
        ("1:x.exe", Some("1:x.exe")),
        (r"\\?\C:\Games\x.exe", Some("x.exe")),
        (r"\\?\C:\Games\", Some("Games")),
        (r"\\?\C:\Games/x.exe", Some("Games/x.exe")),
        (r"\\?\C:/x.exe", Some("x.exe")),
        (r"\\?\C:\Games\.", None),
        (r"\\?\C:\Games\..", None),
        (r"\\?\C:\", None),
        (r"\\?\UNC\nas\games", None),
        (r"\\?\UNC\nas\games\x.exe", Some("x.exe")),
        (r"\\?\games", None),
        (r"\\.\COM1", None),
        (r"\\.\", None),
    ] {
        assert_eq!(file_name(true, path).as_deref(), expected, "{path:?}");
    }
    assert_eq!(file_name(false, r"C:\x.exe").as_deref(), Some(r"C:\x.exe"));
}

#[test]
fn paths_are_joined_as_the_platform_does() {
    for (base, rest) in [
        ("/models", "en"),
        ("/models/", "en"),
        ("", "en"),
        ("/models", "/opt/en"),
        ("/models", ""),
        (r"C:\models", r"\en"),
    ] {
        assert_eq!(
            join_path(false, base, rest),
            std::path::Path::new(base).join(rest).to_str().expect("text"),
            "{base:?} {rest:?}"
        );
    }
    for (base, rest, expected) in [
        (r"C:\models", "en", r"C:\models\en"),
        (r"C:\", "en", r"C:\en"),
        ("C:", "en", "C:en"),
        ("", "en", "en"),
        (r"C:\models", r"\en", r"C:\en"),
        (r"\\nas\share\models", r"\en", r"\\nas\share\en"),
        ("models", "/en", "/en"),
        (r"C:\models", r"D:\en", r"D:\en"),
        (r"C:\models", "D:en", "D:en"),
        (r"C:\models", r"\\nas\share", r"\\nas\share"),
        (r"C:\models", r"\\nas", r"C:\\nas"),
        (r"\\.\COM1\models", r"\en", r"\\.\COM1\en"),
        ("//?/C:/models", "/en", "//?/C:/en"),
        // What starts with `\\?\` is taken as it stands: `/` separates nothing
        // in it, and what is joined to it is resolved right away.
        (r"\\?\UNC\nas\share\models", r"\en", r"\\?\UNC\nas\share\en"),
        (r"\\?\UNC\nas\share", "en", r"\\?\UNC\nas\share\en"),
        (r"\\?\UNC\nas", r"\en", r"\\?\UNC\nas\en"),
        (r"\\?\models\small", r"\en", r"\\?\models\en"),
        (r"\\?\C:", "en", r"\\?\C:\en"),
        (r"\\?\C:\", "en", r"\\?\C:\en"),
        (r"\\?\C:\models", "en", r"\\?\C:\models\en"),
        (r"\\?\C:\models\", "en", r"\\?\C:\models\en"),
        (r"\\?\C:\models", "", r"\\?\C:\models\"),
        (r"\\?\C:\models", r"..\en", r"\\?\C:\en"),
        (r"\\?\C:\models", "./a/../en", r"\\?\C:\models\en"),
        (r"\\?\C:\models", "..", r"\\?\C:\"),
        (r"\\?\C:", "..", r"\\?\C:"),
        (r"\\?\C:\models", "/", r"\\?\C:\"),
        (r"\\?\C:\models\..", r"..\en", r"\\?\C:\models\..\en"),
        (r"\\?\C:\models/small", "en", r"\\?\C:\models/small\en"),
        (r"\\?\C:/models", "en", r"\\?\C:\models\en"),
        (r"\\?\C:\models", r"D:\en", r"D:\en"),
    ] {
        assert_eq!(join_path(true, base, rest), expected, "{base:?} {rest:?}");
    }
}

// --- Errors ---------------------------------------------------------------

#[test]
fn advice_closest_to_the_cause_comes_first() {
    let error = Error::wrap_user(
        "os error 2".to_string(),
        "There is no such file.".to_string(),
        vec!["Check the path.", "Try again."],
    )
    .in_context(
        Kind::System,
        "We could not load the profile.".to_string(),
        vec!["Try again.", "Report this."],
    );
    assert_eq!(
        error.advice(),
        vec!["Try again.", "Check the path.", "Report this."]
    );
    assert!(error.is(Kind::System));
    assert_eq!(error.description(), "We could not load the profile.");
}

#[test]
fn an_error_is_printed_with_its_causes_and_advice() {
    let error = Error::wrap_user(
        "os error 2".to_string(),
        "There is no such file.".to_string(),
        vec!["Check the path."],
    )
    .in_context(
        Kind::System,
        "We could not load the profile.".to_string(),
        vec!["Report this."],
    );
    let outside = human_errors::wrap_system(
        human_errors::wrap_user("os error 2", "There is no such file.", &["Check the path."]),
        "We could not load the profile.",
        &["Report this."],
    );
    assert_eq!(error.pretty(), human_errors::pretty(&outside).to_string());
    assert!(error.pretty().starts_with("error("));

    let plain = Error::user("broken".to_string(), vec!["fix it", "or not"]);
    let outside = human_errors::user("broken", &["fix it", "or not"]);
    assert_eq!(plain.pretty(), human_errors::pretty(&outside).to_string());
}

#[test]
fn everything_an_error_says_runs_through_its_text() {
    let word = "x".repeat(150);
    let error = Error::wrap_user(
        "line one\nline two, which is a well-known and rather long-winded one, padded   out".to_string(),
        format!("There is no {word}."),
        vec!["Check the path, and check it again until it is the one which you had in mind.\r\nReally."],
    )
    .in_context(
        Kind::System,
        "  We could not \u{1b}[0mload the profile.  ".to_string(),
        vec!["Report this.", "Report this."],
    );
    let whole = format!(
        "error(sys): We could not \u{1b}[0mload the profile.\n\
         cause(usr): There is no {word}.\n\
         cause: line one\nline two, which is a well-known and rather long-winded one, padded out\n\
         Advice\n\
         • Check the path, and check it again until it is the one which you had in mind. Really.\n\
         • Report this."
    );
    let text = error.pretty();
    let mut rest = text.chars();
    for c in whole.chars().filter(|c| !c.is_whitespace()) {
        assert!(rest.any(|found| found == c), "{c:?} of {whole}\nis missing from\n{text}");
    }
    assert_eq!(text.matches("Report this.").count(), 1);
}

// --- Ranking --------------------------------------------------------------

#[test]
fn the_best_are_picked_in_order() {
    let gaps = [5, 1, 4, 1, 3];
    let splits: Vec<Split> = gaps
        .iter()
        .enumerate()
        .map(|(at, gap)| Split { gap: *gap, at })
        .collect();
    let picked = |room: usize| -> Vec<(usize, usize)> {
        best_of(splits.clone(), room)
            .iter()
            .map(|split| (split.gap, split.at))
            .collect()
    };
    assert_eq!(picked(0), vec![]);
    assert_eq!(picked(3), vec![(1, 1), (1, 3), (3, 4)]);
    assert_eq!(picked(9).len(), gaps.len());
}
