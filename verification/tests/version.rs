//! The version line.
use kcptun_std::log;
use kcptun_std::cli::RunOutcome;
use kcptun_std::config::{client_app, client_app_for, server_app_for};
use kcptun_std::{
    is_selfbuild, is_selfbuild_version, version_line, version_string, APP_NAME, SELFBUILD, VERSION,
};

#[test]
fn test_version_string() {
    assert_eq!(version_string(), format!("{APP_NAME} version {VERSION}"));

    assert_eq!(VERSION, "SELFBUILD");
    assert_eq!(version_string(), "kcptun version SELFBUILD");
    assert!(is_selfbuild());
}

/// A build without a version number shows the file and line of each message.
#[test]
fn test_is_selfbuild_drives_log_flags() {
    assert_eq!(is_selfbuild(), VERSION == SELFBUILD);
    let want = if is_selfbuild() {
        log::LSTD_FLAGS | log::LSHORTFILE
    } else {
        log::LSTD_FLAGS
    };
    assert_eq!(log::default_flags(), want);
}

/// The app name is what the help and the version line start with.
#[test]
fn test_app_name() {
    assert_eq!(APP_NAME, "kcptun");
    assert!(version_string().starts_with("kcptun version "));
}

/// A stamped version is shown, and its log lines carry no file and line.
#[test]
fn a_stamped_version_is_shown_everywhere() {
    let stamp = String::from("v20260101");
    assert!(!is_selfbuild_version(&stamp));
    assert!(is_selfbuild_version("SELFBUILD"));
    assert_eq!(version_line(&stamp), "kcptun version v20260101");
    assert_eq!(log::flags_for_version(&stamp), log::LSTD_FLAGS);
    assert_eq!(
        log::flags_for_version(SELFBUILD),
        log::LSTD_FLAGS | log::LSHORTFILE
    );
    assert_eq!(log::Logger::for_version(&stamp).flags(), log::LSTD_FLAGS);
    assert_eq!(log::Logger::for_version(&stamp).prefix(), "");

    let argv = vec!["kcptun".to_string(), "-v".to_string()];
    for app in [client_app_for("c", &stamp), server_app_for("s", &stamp)] {
        assert_eq!(app.run(&argv, &()).stdout, "kcptun version v20260101\n");
        assert!(app.render_help().contains("\nVERSION:\n   v20260101\n"));
    }
    assert_eq!(
        client_app("c").render_help(),
        client_app_for("c", VERSION).render_help()
    );
}

/// Without a version there is no flag that shows it.
#[test]
fn an_empty_version_is_not_shown() {
    let app = client_app_for("c", "");
    assert!(!app.render_help().contains("VERSION"));
    let argv = vec!["kcptun".to_string(), "-v".to_string()];
    assert!(matches!(app.run(&argv, &()).outcome, RunOutcome::Exit(2)));
}
