//! The watch loop's decision logic, linting, settings and the render
//! context.

use genkit::lint::{classify_status, group_conditions, lint_success, UrlCondition};
use genkit::watch::{Debouncer, FsEventKind, WatchAction, WatchController};
use genkit::{current_mode, get_data_filename, set_current_mode, set_data_filename, Mode, Settings};

#[test]
fn debounce_coalesces_a_burst_into_one_trigger() {
    let mut d = Debouncer::new(500);
    d.note_event(0, FsEventKind::Modify);
    d.note_event(100, FsEventKind::Modify);
    d.note_event(400, FsEventKind::Modify);
    assert!(!d.poll_due(499));
    // The burst fires exactly once.
    assert!(d.poll_due(500));
    assert!(!d.poll_due(501));
    // An event after the window closed triggers a second, separate rebuild.
    d.note_event(600, FsEventKind::Modify);
    assert!(!d.poll_due(900));
    assert!(d.poll_due(1100));
    assert!(!d.poll_due(1200));
}

#[test]
fn only_modify_events_qualify() {
    let mut d = Debouncer::new(500);
    d.note_event(0, FsEventKind::Other);
    assert!(!d.poll_due(10_000));
    d.note_event(0, FsEventKind::Modify);
    assert!(d.poll_due(10_000));
}

#[test]
fn at_most_one_build_in_flight() {
    let mut c = WatchController::new(500);
    c.on_fs_events(0, &vec![FsEventKind::Modify, FsEventKind::Modify]);
    assert_eq!(c.on_tick(499), WatchAction::Idle);
    assert_eq!(c.on_tick(500), WatchAction::StartBuild);
    // Events during the build are held, not started.
    c.on_fs_events(600, &vec![FsEventKind::Modify]);
    assert_eq!(c.on_tick(1200), WatchAction::Idle);
    // When the build finishes, the held batch starts at once.
    let (action, restart) = c.on_build_done(true);
    assert_eq!(action, WatchAction::NotifyAndExport);
    assert!(restart);
    // A failing build reports and keeps watching.
    let (action, restart) = c.on_build_done(false);
    assert_eq!(action, WatchAction::ReportError);
    assert!(!restart);
}

#[test]
fn statuses_classify_as_documented() {
    assert_eq!(classify_status(200), UrlCondition::Normal);
    assert_eq!(classify_status(301), UrlCondition::Redirected);
    assert_eq!(classify_status(399), UrlCondition::Redirected);
    assert_eq!(classify_status(404), UrlCondition::NotFound);
    assert_eq!(classify_status(400), UrlCondition::Normal);
    assert_eq!(classify_status(500), UrlCondition::ServerError);
    assert_eq!(classify_status(599), UrlCondition::ServerError);
    assert_eq!(classify_status(600), UrlCondition::Normal);
}

#[test]
fn lint_groups_offenders_and_keeps_order() {
    let results = vec![
        ("https://ok.example".to_string(), UrlCondition::Normal),
        ("https://gone.example".to_string(), UrlCondition::NotFound),
        ("https://moved.example".to_string(), UrlCondition::Redirected),
        ("https://also-gone.example".to_string(), UrlCondition::NotFound),
        ("https://broken.example".to_string(), UrlCondition::ServerError),
    ];
    let report = group_conditions(&results);
    assert_eq!(report.not_found, vec!["https://gone.example", "https://also-gone.example"]);
    assert_eq!(report.redirected, vec!["https://moved.example"]);
    assert_eq!(report.server_error, vec!["https://broken.example"]);
    assert!(!lint_success(&report));
    let clean = group_conditions(&vec![("https://ok.example".to_string(), UrlCondition::Normal)]);
    assert!(lint_success(&clean));
}

#[test]
fn settings_hold_the_mode_and_the_data_filename() {
    let mut s = Settings::new();
    assert!(matches!(current_mode(&s), Mode::Unknown));
    set_current_mode(&mut s, Mode::Build);
    assert!(matches!(current_mode(&s), Mode::Build));
    assert_eq!(get_data_filename(&s), "genkit.json");
    set_data_filename(&mut s, "site.json".to_string());
    assert_eq!(get_data_filename(&s), "site.json");
}

#[test]
fn context_bindings_shadow() {
    let mut ctx = genkit::entity::Context::new();
    assert!(ctx.get("k").is_none());
    ctx.insert("k".to_string(), "v1".to_string());
    ctx.insert("k".to_string(), "v2".to_string());
    assert_eq!(ctx.get("k").map(|s| s.as_str()), Some("v2"));
    assert!(ctx.get("other").is_none());
}

#[test]
fn trim_start_matches_strips_repeated_prefixes() {
    assert_eq!(genkit::text::trim_start_matches_filter("ababX", "ab"), "X");
    assert_eq!(genkit::text::trim_start_matches_filter("xyz", "ab"), "xyz");
    assert_eq!(genkit::text::trim_start_matches_filter("aaa", ""), "aaa");
}

#[test]
fn defaults_match_the_documented_configuration() {
    assert!(genkit::entity::MarkdownConfig::default_highlight_code());
    assert_eq!(genkit::entity::MarkdownConfig::default_highlight_theme(), "monokai");
}
