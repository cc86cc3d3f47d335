//! Content-build engine for static sites: a deduplicating remote-preview
//! cache with dirty-gated persistence, a streaming Markdown-to-HTML
//! transducer with table-of-contents extraction, and the decision logic of
//! an incremental build/watch orchestrator.

use vstd::prelude::*;

pub mod code_blocks;
pub mod data;
pub mod engine;
pub mod entity;
pub mod highlight;
pub mod html;
pub mod json;
pub mod lint;
pub mod markdown;
pub mod templates;
pub mod text;
pub mod visitor;
pub mod watch;

verus! {

/// The run mode the process was started in.
#[derive(Copy, Clone, PartialEq, Eq, Structural, Debug)]
pub enum Mode {
    Build,
    Serve,
    Unknown,
}

/// Process-wide settings: the run mode and the name of the persisted
/// cache file. Held in an explicit value rather than ambient global state,
/// and handed to the components that need it.
pub struct Settings {
    mode: Mode,
    data_filename: Option<String>,
}

impl Settings {
    /// Fresh settings: unknown mode, default cache-file name.
    pub fn new() -> (s: Settings)
        ensures
            s.spec_mode() == Mode::Unknown,
            s.spec_data_filename() is None,
    {
        Settings { mode: Mode::Unknown, data_filename: None }
    }

    pub closed spec fn spec_mode(self) -> Mode {
        self.mode
    }

    pub closed spec fn spec_data_filename(self) -> Option<String> {
        self.data_filename
    }
}

/// Get the current run mode.
pub fn current_mode(s: &Settings) -> (m: Mode)
    ensures
        m == s.spec_mode(),
{
    s.mode
}

/// Set the current run mode.
pub fn set_current_mode(s: &mut Settings, mode: Mode)
    ensures
        final(s).spec_mode() == mode,
        final(s).spec_data_filename() == old(s).spec_data_filename(),
{
    s.mode = mode;
}

/// Set the name of the persisted cache file. May be called at most once.
pub fn set_data_filename(s: &mut Settings, filename: String)
    requires
        old(s).spec_data_filename() is None,
    ensures
        final(s).spec_data_filename() == Some(filename),
        final(s).spec_mode() == old(s).spec_mode(),
{
    s.data_filename = Some(filename);
}

/// The name of the persisted cache file: the configured one, or the
/// default.
pub fn get_data_filename(s: &Settings) -> (r: String)
    ensures
        match s.spec_data_filename() {
            Some(f) => r@ == f@,
            None => r@ == "genkit.json"@,
        },
{
    match &s.data_filename {
        Some(f) => f.clone(),
        None => String::from_str("genkit.json"),
    }
}

} // verus!
