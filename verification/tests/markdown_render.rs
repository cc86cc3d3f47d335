//! The Markdown transducer: heading ids, depth normalization,
//! feed-safe suppression, built-in blocks, images and code blocks.

use genkit::data::GenkitData;
use genkit::entity::MarkdownConfig;
use genkit::markdown::MarkdownRender;

fn plain_config() -> MarkdownConfig {
    MarkdownConfig { highlight_code: false, highlight_theme: "monokai".to_string() }
}

#[test]
fn heading_id_is_derived_from_the_title() {
    let mut data = GenkitData::new();
    let mut render = MarkdownRender::new(&plain_config());
    render.enable_toc();
    render.render_html(&mut data, "# Long Title").unwrap();
    let toc = render.get_toc();
    assert_eq!(toc.len(), 1);
    assert_eq!(toc[0].id.as_deref(), Some("long-title"));
    assert_eq!(toc[0].title, "Long Title");
    assert_eq!(toc[0].level, 1);
}

#[test]
fn explicit_heading_id_wins() {
    let mut data = GenkitData::new();
    let mut render = MarkdownRender::new(&plain_config());
    render.enable_toc();
    render.render_html(&mut data, "# Title {#custom}").unwrap();
    let toc = render.get_toc();
    assert_eq!(toc.len(), 1);
    assert_eq!(toc[0].id.as_deref(), Some("custom"));
    assert_eq!(toc[0].title, "Title");
}

#[test]
fn depths_are_normalized_over_distinct_levels() {
    let mut data = GenkitData::new();
    let mut render = MarkdownRender::new(&plain_config());
    render.enable_toc();
    render.render_html(&mut data, "## A\n\n## B\n\n#### C").unwrap();
    let toc = render.get_toc();
    let depths: Vec<usize> = toc.iter().map(|t| t.depth).collect();
    let levels: Vec<usize> = toc.iter().map(|t| t.level).collect();
    assert_eq!(levels, vec![2, 2, 4]);
    assert_eq!(depths, vec![1, 1, 2]);
}

#[test]
fn heading_renders_through_the_template() {
    let mut data = GenkitData::new();
    let mut render = MarkdownRender::new(&plain_config());
    let html = render.render_html(&mut data, "# Hi").unwrap();
    assert_eq!(html, "<h1 id=\"hi\">Hi</h1>");
}

#[test]
fn get_toc_is_empty_without_enabling() {
    let mut data = GenkitData::new();
    let mut render = MarkdownRender::new(&plain_config());
    render.render_html(&mut data, "# Hi").unwrap();
    assert!(render.get_toc().is_empty());
}

#[test]
fn feed_safe_mode_suppresses_url_previews() {
    let mut data = GenkitData::new();
    let mut render = MarkdownRender::new(&plain_config());
    render.enable_rss_mode();
    let md = "before\n\n```url-preview\nhttps://x.example\n```\n\nafter";
    let html = render.render_html(&mut data, md).unwrap();
    // No fetch was registered and no preview markup was emitted.
    assert!(data.pending_fetches().is_empty());
    assert!(!html.contains("url-preview"));
    assert!(html.contains("before"));
    assert!(html.contains("after"));
}

#[test]
fn article_mode_registers_the_fetch_and_renders_a_placeholder() {
    let mut data = GenkitData::new();
    let mut render = MarkdownRender::new(&plain_config());
    let md = "```url-preview\nhttps://x.example\n```";
    let html = render.render_html(&mut data, md).unwrap();
    assert_eq!(data.pending_fetches(), vec!["https://x.example".to_string()]);
    assert!(html.contains("url-preview-pending"));
    assert!(html.contains("data-url=\"https://x.example\""));
}

#[test]
fn recorded_preview_renders_a_card() {
    let mut data = GenkitData::new();
    let (_, _) = data.preview_url("https://x.example");
    data.resolve_preview(
        "https://x.example",
        genkit::data::PreviewEvent::Finished(genkit::data::UrlPreviewInfo {
            title: "A Page".to_string(),
            description: "About things".to_string(),
            image: None,
        }),
    );
    let mut render = MarkdownRender::new(&plain_config());
    let html = render.render_html(&mut data, "```url-preview\nhttps://x.example\n```").unwrap();
    assert!(html.contains("<strong>A Page</strong>"));
    assert!(html.contains("<em>About things</em>"));
    assert!(!html.contains("url-preview-pending"));
}

#[test]
fn callout_block_renders_and_bad_options_abort() {
    let mut data = GenkitData::new();
    let mut render = MarkdownRender::new(&plain_config());
    let html = render
        .render_html(&mut data, "```callout, kind=warning\nBe careful\n```")
        .unwrap();
    assert!(html.contains("callout callout-warning"));
    assert!(html.contains("Be careful"));

    let err = render
        .render_html(&mut data, "```callout, tone=warning\nBe careful\n```")
        .unwrap_err();
    assert_eq!(err.message(), "malformed block: callout");
}

#[test]
fn callout_kind_defaults_to_note() {
    let mut data = GenkitData::new();
    let mut render = MarkdownRender::new(&plain_config());
    let html = render.render_html(&mut data, "```callout\nJust a note\n```").unwrap();
    assert!(html.contains("callout callout-note"));
}

#[test]
fn quote_block_renders_and_empty_content_aborts() {
    let mut data = GenkitData::new();
    let mut render = MarkdownRender::new(&plain_config());
    let md = "```quote\nauthor: Ada\nbio: mathematician\nComputers are useless without programs.\n```";
    let html = render.render_html(&mut data, md).unwrap();
    assert!(html.contains("<cite>Ada</cite>"));
    assert!(html.contains("mathematician"));
    assert!(html.contains("Computers are useless without programs."));

    let err = render.render_html(&mut data, "```quote\nauthor: Ada\n```").unwrap_err();
    assert_eq!(err.message(), "malformed block: quote");
}

#[test]
fn plain_code_block_without_highlighting() {
    let mut data = GenkitData::new();
    let mut render = MarkdownRender::new(&plain_config());
    let html = render.render_html(&mut data, "```rust\nlet x = 1;\n```").unwrap();
    assert_eq!(html, "<pre>let x = 1;\n</pre>");
}

#[test]
fn highlighting_uses_the_configured_theme() {
    let cfg = MarkdownConfig {
        highlight_code: true,
        highlight_theme: "InspiredGitHub".to_string(),
    };
    let mut data = GenkitData::new();
    let mut render = MarkdownRender::new(&cfg);
    let html = render.render_html(&mut data, "```rust\nlet x = 1;\n```").unwrap();
    assert!(html.contains("<pre"));
    assert!(html.contains("style"));
}

#[test]
fn an_unknown_theme_is_a_configuration_error() {
    let cfg = MarkdownConfig {
        highlight_code: true,
        highlight_theme: "no-such-theme".to_string(),
    };
    let mut data = GenkitData::new();
    let mut render = MarkdownRender::new(&cfg);
    let err = render.render_html(&mut data, "```rust\nlet x = 1;\n```").unwrap_err();
    assert_eq!(err.message(), "unknown highlight theme: no-such-theme");
}

#[test]
fn images_load_lazily() {
    let mut data = GenkitData::new();
    let mut render = MarkdownRender::new(&plain_config());
    let html = render.render_html(&mut data, "![alt text](img.png)").unwrap();
    assert!(html.contains("<img src=\"img.png\""));
    assert!(html.contains("loading=\"lazy\""));
}

#[test]
fn plain_paragraphs_pass_through() {
    let mut data = GenkitData::new();
    let mut render = MarkdownRender::new(&plain_config());
    let html = render.render_html(&mut data, "hello *world*").unwrap();
    assert_eq!(html, "<p>hello <em>world</em></p>\n");
}

#[test]
fn markdown_to_rss_is_feed_safe() {
    let mut data = GenkitData::new();
    let md = "para\n\n```url-preview\nhttps://x.example\n```";
    let html = genkit::markdown::markdown_to_rss_function(&mut data, md).unwrap();
    assert!(data.pending_fetches().is_empty());
    assert!(!html.contains("url-preview"));
    assert!(html.contains("para"));
}

struct ShoutVisitor;

impl genkit::visitor::MarkdownVisitor for ShoutVisitor {
    fn visit_code(&self, code: &str) -> Option<String> {
        if code == "magic" {
            Some("<b>MAGIC</b>".to_string())
        } else {
            None
        }
    }

    fn visit_custom_block(
        &self,
        fenced: &genkit::code_blocks::Fenced,
        content: &str,
    ) -> Option<String> {
        if fenced.name == "shout" {
            Some(format!("<div class=\"shout\">{}</div>", content.trim().to_uppercase()))
        } else {
            None
        }
    }
}

#[test]
fn the_visitor_gets_first_refusal() {
    let mut data = GenkitData::new();
    let render = MarkdownRender::new(&plain_config());
    let mut render = render.set_markdown_visitor(ShoutVisitor);
    let html = render
        .render_html(&mut data, "`magic` and `plain`\n\n```shout\nhello\n```")
        .unwrap();
    assert!(html.contains("<b>MAGIC</b>"));
    assert!(html.contains("<code>plain</code>"));
    assert!(html.contains("<div class=\"shout\">HELLO</div>"));
}

#[test]
fn fenced_info_strings_parse_into_name_and_options() {
    let f = genkit::code_blocks::Fenced::parse("callout, kind=warning, flag");
    assert_eq!(f.name, "callout");
    assert_eq!(f.options.len(), 2);
    assert_eq!(f.options[0], ("kind".to_string(), "warning".to_string()));
    assert_eq!(f.options[1], ("flag".to_string(), "".to_string()));
    let bare = genkit::code_blocks::Fenced::parse("  rust  ");
    assert_eq!(bare.name, "rust");
    assert!(bare.options.is_empty());
}
