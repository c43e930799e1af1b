use voice_orders::commands::new::{create_error, written, SCAFFOLD};
use voice_orders::commands::update::{format_release_list, report, Idle, Release, Task, UpdateArgs};
use voice_orders::errors::{FileError, FileErrorKind, Kind};

#[test]
fn test_the_scaffold_documents_every_option() {
    for option in [
        "name:",
        "model:",
        "audio:",
        "device:",
        "hotkey:",
        "key:",
        "mode:",
        "interrupt:",
        "completion_timeout:",
        "defaults:",
        "duration:",
        "interval:",
        "grammar:",
    ] {
        assert!(
            SCAFFOLD.contains(option),
            "the scaffold should mention '{option}'"
        );
    }
}

#[test]
fn test_refuses_to_overwrite_an_existing_file() {
    let path = "/tmp/profiles/profile.yaml";
    let error = create_error(
        path,
        FileError {
            kind: FileErrorKind::AlreadyExists,
            detail: "file exists".to_string(),
        },
    );

    let message = error.description();
    assert!(
        message.contains(path),
        "the error should name the path, got: {message}"
    );
    assert!(
        message.contains("will not overwrite"),
        "unexpected error: {message}"
    );
    assert!(error.is(Kind::User));
}

#[test]
fn test_reports_an_unwritable_directory() {
    let path = "/tmp/profiles/no-such-directory/profile.yaml";
    for kind in [
        FileErrorKind::NotFound,
        FileErrorKind::PermissionDenied,
        FileErrorKind::Other,
    ] {
        let error = create_error(
            path,
            FileError {
                kind,
                detail: "no such directory".to_string(),
            },
        );

        let message = error.description();
        assert!(
            message.contains(path),
            "the error should name the path, got: {message}"
        );
        assert!(error.is(Kind::User));

        // What the filesystem said, and what we made of it, are both still there.
        let pretty = error.pretty();
        assert!(pretty.contains("no such directory"), "{pretty}");
        let expected = if kind == FileErrorKind::Other {
            Kind::System
        } else {
            Kind::User
        };
        assert_eq!(error.causes[0].kind, Some(expected));
    }
}

#[test]
fn a_written_profile_is_announced() {
    assert!(written("profile.yaml").contains("profile.yaml"));
}

// --- Updating -------------------------------------------------------------

fn release(tag: &str, installed: bool, prerelease: bool, available: bool) -> Release {
    Release {
        id: tag.to_string(),
        installed,
        available,
        prerelease,
    }
}

#[test]
fn test_the_listing_marks_the_installed_unavailable_and_prerelease_entries() {
    let releases = vec![
        release("v1.2.0", false, false, true),
        release("v1.1.0", true, false, true),
        release("v1.0.0", false, false, false),
        release("v1.3.0-rc.1", false, true, true),
    ];

    let listing = format_release_list(&releases);
    let lines: Vec<&str> = listing.lines().collect();

    assert_eq!(lines[0], "  v1.2.0", "an available release is unmarked");
    assert_eq!(lines[1], "* v1.1.0", "the running version is marked");
    assert_eq!(
        lines[2], "! v1.0.0",
        "a release with no asset for this platform is marked"
    );
    assert_eq!(
        lines[3], "  v1.3.0-rc.1 (pre-release)",
        "a pre-release is labelled"
    );
}

#[test]
fn test_a_development_build_marks_nothing_as_installed() {
    let listing = format_release_list(&[release("v1.2.0", false, false, true)]);

    assert_eq!(listing, "  v1.2.0\n");
}

fn args() -> UpdateArgs {
    UpdateArgs {
        version: None,
        list: false,
        prerelease: false,
        state: None,
    }
}

#[test]
fn what_there_is_to_do_follows_the_arguments() {
    let resuming = UpdateArgs {
        state: Some("{}".to_string()),
        list: true,
        ..args()
    };
    assert!(matches!(resuming.task(true), Task::Resume));
    let listing = UpdateArgs {
        list: true,
        ..args()
    };
    assert!(matches!(listing.task(true), Task::List));
    assert!(matches!(args().task(true), Task::DevelopmentBuild));
    assert!(matches!(args().task(false), Task::Choose));
}

#[test]
fn there_being_nothing_to_download_is_explained() {
    assert_eq!(
        report(Idle::UpToDate, "1.2.0", "x"),
        "voice-orders 1.2.0 is already the newest release.\nIf you would like to roll back to a specific version, you can do so with `voice-orders update v1.2.0`.\n"
    );
    assert_eq!(
        report(Idle::DevelopmentBuild, "0.0.0-dev", "Install a release."),
        "This is a development build (0.0.0-dev).\nInstall a release.\n"
    );
    assert!(report(Idle::Unavailable, "1.2.0", "x").contains("--list"));
}
