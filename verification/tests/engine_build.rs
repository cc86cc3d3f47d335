//! One build cycle through the engine with a small site generator.

use std::sync::atomic::{AtomicUsize, Ordering};

use genkit::data::GenkitData;
use genkit::engine::{GenkitEngine, Generator};
use genkit::entity::{BuildError, Context, Entity, MarkdownConfig};

static RENDERED: AtomicUsize = AtomicUsize::new(0);

struct Doc {
    markdown: String,
    html: Option<String>,
}

impl Entity for Doc {
    fn parse(&mut self, data: &mut GenkitData, _source: &String) -> Result<(), BuildError> {
        let cfg = MarkdownConfig {
            highlight_code: false,
            highlight_theme: "monokai".to_string(),
        };
        let mut render = genkit::markdown::MarkdownRender::new(&cfg);
        match render.render_html(data, &self.markdown) {
            Ok(html) => {
                self.html = Some(html);
                Ok(())
            }
            Err(e) => Err(BuildError::Message(e.message())),
        }
    }

    fn render(
        &self,
        _data: &mut GenkitData,
        _context: &Context,
        _dest: &String,
    ) -> Result<(), BuildError> {
        RENDERED.fetch_add(1, Ordering::SeqCst);
        Ok(())
    }
}

struct Site;

impl Generator for Site {
    type Entity = Vec<Doc>;

    fn on_load(&self, _source: &String) -> Result<Vec<Doc>, BuildError> {
        Ok(vec![
            Doc { markdown: "# One".to_string(), html: None },
            Doc { markdown: "two".to_string(), html: None },
        ])
    }

    fn on_reload(&self, source: &String) -> Result<Vec<Doc>, BuildError> {
        self.on_load(source)
    }

    fn get_markdown_config(&self, _entity: &Vec<Doc>) -> Option<MarkdownConfig> {
        Some(MarkdownConfig { highlight_code: false, highlight_theme: "plain".to_string() })
    }

    fn on_render(
        &self,
        _data: &mut GenkitData,
        _context: &Context,
        _entity: &Vec<Doc>,
    ) -> Result<(), BuildError> {
        Ok(())
    }
}

#[test]
fn build_parses_every_entity_and_pushes_the_configuration() {
    let mut data = GenkitData::new();
    let mut engine = GenkitEngine::new("src".to_string(), "out".to_string(), Site);
    engine.build(&mut data, false).unwrap();
    assert_eq!(RENDERED.load(Ordering::SeqCst), 2);
    // The effective configuration was pushed into the cache before
    // rendering began.
    assert_eq!(data.get_markdown_config().highlight_theme, "plain");
    assert!(!data.get_markdown_config().highlight_code);
}

struct FailingSite;

impl Generator for FailingSite {
    type Entity = Vec<Doc>;

    fn on_load(&self, _source: &String) -> Result<Vec<Doc>, BuildError> {
        Err(BuildError::Message("no sources".to_string()))
    }

    fn on_reload(&self, source: &String) -> Result<Vec<Doc>, BuildError> {
        self.on_load(source)
    }

    fn get_markdown_config(&self, _entity: &Vec<Doc>) -> Option<MarkdownConfig> {
        None
    }

    fn on_render(
        &self,
        _data: &mut GenkitData,
        _context: &Context,
        _entity: &Vec<Doc>,
    ) -> Result<(), BuildError> {
        Ok(())
    }
}

#[test]
fn a_failing_load_surfaces_its_error() {
    let mut data = GenkitData::new();
    let mut engine = GenkitEngine::new("src".to_string(), "out".to_string(), FailingSite);
    let err = match engine.build(&mut data, false) {
        Err(e) => e,
        Ok(()) => panic!("expected the load error"),
    };
    assert_eq!(err.message(), "no sources");
}
