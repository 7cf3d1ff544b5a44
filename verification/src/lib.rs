//! A book-outline renumbering library: selected nesting depths of a chapter
//! tree are re-numbered to start at zero instead of one, either globally (by
//! configured depth) or locally (by an in-content marker that zero-indexes the
//! marked chapter's direct children).

pub mod book;
pub mod config;
pub mod engine;
pub mod laws;
pub mod text;

use vstd::prelude::*;

use crate::book::Book;
use crate::config::Config;
use crate::config::ConfigError;
use crate::config::ConfigView;
use crate::config::RawSettings;
use crate::config::levels_setting_ok;
use crate::config::marker_setting_ok;
use crate::config::spec_resolve_error;
use crate::config::spec_resolved_levels;
use crate::config::spec_resolved_marker;
use crate::engine::spec_apply;
use crate::text::str_eq;

verus! {

/// The preprocessor itself: stateless; configuration is resolved per run.
pub struct ChapterZeroPreprocessor;

/// The name under which the host tool's settings table addresses this
/// preprocessor.
pub open spec fn spec_name() -> Seq<char> {
    "chapter-zero"@
}

/// The configuration a run resolves from the raw settings.
pub open spec fn spec_resolved_config(raw: Option<RawSettings>) -> ConfigView {
    ConfigView { levels: spec_resolved_levels(raw), marker: spec_resolved_marker(raw) }
}

impl ChapterZeroPreprocessor {
    pub fn new() -> (r: ChapterZeroPreprocessor) {
        ChapterZeroPreprocessor
    }

    /// The preprocessor's name in the host tool's configuration.
    pub fn name(&self) -> (r: &'static str)
        ensures
            r@ == spec_name(),
    {
        "chapter-zero"
    }

    /// Runs regardless of the selected renderer, except for the one renderer
    /// named `not-supported` (which exists to exercise renderer gating).
    pub fn supports_renderer(&self, renderer: &str) -> (r: bool)
        ensures
            r == (renderer@ != "not-supported"@),
    {
        !str_eq(renderer, "not-supported")
    }

    /// One whole run: resolves the raw settings and, if they are valid,
    /// renumbers the tree; an invalid setting aborts the run before any
    /// mutation, reporting which setting was at fault.
    pub fn run(&self, raw: Option<RawSettings>, book: Book) -> (r: Result<Book, ConfigError>)
        ensures
            (match raw {
                Option::None => r is Ok,
                Option::Some(s) => r is Ok <==> levels_setting_ok(s.levels)
                    && marker_setting_ok(s.marker),
            }),
            (match r {
                Result::Ok(b) => b@ == spec_apply(spec_resolved_config(raw), book@),
                Result::Err(e) => raw matches Some(s) && e == spec_resolve_error(s),
            }),
    {
        let cfg = match Config::resolve(raw) {
            Result::Ok(c) => c,
            Result::Err(e) => {
                return Result::Err(e);
            },
        };
        Result::Ok(crate::engine::apply(&cfg, book))
    }
}

} // verus!
