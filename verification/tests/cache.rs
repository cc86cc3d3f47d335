//! The preview cache: singleflight, no-refetch, retry, dirty-gated
//! persistence.

use genkit::data::{GenkitData, PreviewEvent, UrlPreviewInfo};

fn record(title: &str, description: &str, image: Option<&str>) -> UrlPreviewInfo {
    UrlPreviewInfo {
        title: title.to_string(),
        description: description.to_string(),
        image: image.map(|s| s.to_string()),
    }
}

#[test]
fn singleflight_second_request_joins() {
    let mut data = GenkitData::new();
    let (first_new, first_seen) = data.preview_url("https://a.example");
    assert!(first_new);
    assert!(first_seen.is_none());
    // Further requests before resolution join the same fetch.
    let (second_new, second_seen) = data.preview_url("https://a.example");
    assert!(!second_new);
    assert!(second_seen.is_none());
    let (third_new, _) = data.preview_url("https://a.example");
    assert!(!third_new);
    // Exactly one fetch is pending.
    let pending = data.pending_fetches();
    assert_eq!(pending.len(), 1);
    assert_eq!(pending[0], "https://a.example");
}

#[test]
fn no_refetch_on_success() {
    let mut data = GenkitData::new();
    let (is_new, _) = data.preview_url("https://a.example");
    assert!(is_new);
    data.resolve_preview("https://a.example", PreviewEvent::Finished(record("T", "D", None)));
    // A later request observes the record without a new fetch.
    let (again_new, seen) = data.preview_url("https://a.example");
    assert!(!again_new);
    match seen {
        Some(PreviewEvent::Finished(info)) => {
            assert_eq!(info.title, "T");
            assert_eq!(info.description, "D");
        }
        other => panic!("expected a finished outcome, got {:?}", other),
    }
    assert!(data.get_preview("https://a.example").is_some());
}

#[test]
fn retry_on_failure() {
    let mut data = GenkitData::new();
    let (is_new, _) = data.preview_url("https://b.example");
    assert!(is_new);
    data.resolve_preview("https://b.example", PreviewEvent::Failed("timeout".to_string()));
    // The failure is published but never recorded.
    assert!(data.get_preview("https://b.example").is_none());
    let drained = data.drain_preview("https://b.example");
    match drained {
        Some(PreviewEvent::Failed(msg)) => assert_eq!(msg, "timeout"),
        other => panic!("expected the failure, got {:?}", other),
    }
    // After draining, the next request fetches again.
    let (retry_new, seen) = data.preview_url("https://b.example");
    assert!(retry_new);
    assert!(seen.is_none());
}

#[test]
fn export_is_dirty_gated() {
    let mut data = GenkitData::new();
    // An empty cache never materializes a file.
    assert!(data.export().is_none());
    let (_, _) = data.preview_url("https://a.example");
    data.resolve_preview("https://a.example", PreviewEvent::Finished(record("T", "D", None)));
    // Dirty and non-empty: a write is due once.
    let first = data.export();
    assert!(first.is_some());
    // The write succeeded: after confirming, a second export with no
    // intervening mutation is a no-op.
    data.mark_exported();
    assert!(data.export().is_none());
    // A new insertion makes the cache dirty again.
    let (_, _) = data.preview_url("https://b.example");
    data.resolve_preview("https://b.example", PreviewEvent::Finished(record("U", "E", None)));
    assert!(data.export().is_some());
}

#[test]
fn a_failed_write_keeps_the_cache_dirty() {
    let mut data = GenkitData::new();
    let (_, _) = data.preview_url("https://a.example");
    data.resolve_preview("https://a.example", PreviewEvent::Finished(record("T", "D", None)));
    let first = data.export();
    assert!(first.is_some());
    // The caller's file write failed, so nothing is confirmed: a later
    // export offers the same payload again.
    let again = data.export();
    assert_eq!(again, first);
    data.mark_exported();
    assert!(data.export().is_none());
}

#[test]
fn resolution_truncates_to_200_chars() {
    let mut data = GenkitData::new();
    let long = "x".repeat(250);
    let (_, _) = data.preview_url("https://long.example");
    data.resolve_preview(
        "https://long.example",
        PreviewEvent::Finished(record(&long, &long, Some("i.png"))),
    );
    let info = data.get_preview("https://long.example").unwrap();
    assert_eq!(info.title.chars().count(), 200);
    assert_eq!(info.description.chars().count(), 200);
    assert_eq!(info.image.as_deref(), Some("i.png"));
}

#[test]
fn previews_snapshot_is_sorted_by_url() {
    let mut data = GenkitData::new();
    for url in ["https://c.example", "https://a.example", "https://b.example"] {
        let (_, _) = data.preview_url(url);
        data.resolve_preview(url, PreviewEvent::Finished(record("t", "d", None)));
    }
    let all = data.get_all_previews();
    let urls: Vec<&str> = all.iter().map(|e| e.0.as_str()).collect();
    assert_eq!(urls, vec!["https://a.example", "https://b.example", "https://c.example"]);
}

#[test]
fn markdown_config_is_shared_state() {
    let mut data = GenkitData::new();
    assert!(data.get_markdown_config().highlight_code);
    assert_eq!(data.get_markdown_config().highlight_theme, "monokai");
    let cfg = genkit::entity::MarkdownConfig {
        highlight_code: false,
        highlight_theme: "InspiredGitHub".to_string(),
    };
    data.set_markdown_config(cfg);
    assert!(!data.get_markdown_config().highlight_code);
    assert_eq!(data.get_markdown_config().highlight_theme, "InspiredGitHub");
}
