//! Lini's verified core: the property ledger, the `format:` engine, the
//! civil calendar, content-addressed names, and the paint tables.

pub mod error;
pub mod figures;
pub mod layout;
pub mod lexer;
pub mod ledger;
pub mod name;
pub mod palette;
pub mod render;
pub mod resolve;
pub mod testing;
pub mod text;

pub use layout::wires::{Rule, Severity, Violation};

use vstd::prelude::*;

verus! {

#[verifier::external_type_specification]
#[verifier::external_body]
pub struct ExPathBuf(std::path::PathBuf);

/// Output wrapper format.
#[derive(Clone, Copy, Debug, PartialEq, Eq, Structural)]
pub enum OutputFormat {
    Svg,
    Html,
}

impl Default for OutputFormat {
    fn default() -> (f: OutputFormat)
        ensures
            f == OutputFormat::Svg,
    {
        OutputFormat::Svg
    }
}

/// Top-level compile options threaded through every phase. Build with
/// `Options::default()` and override fields with the struct-update syntax.
#[derive(Debug)]
pub struct Options {
    /// `--static`: emit `var()` values inline as their resolved literal
    /// **and** outline text to paths — self-contained for renderers without
    /// CSS-variable or font support.
    pub static_mode: bool,
    /// `--embed-font`: inline a base64 `@font-face` per bundled family ×
    /// weight actually used, under Lini-scoped family names.
    pub embed_font: bool,
    /// Output wrapper format.
    pub format: OutputFormat,
    /// Raw CSS text whose `--lini-*` declarations override built-in defaults.
    pub theme_css: Option<String>,
    /// The source file's directory — where a local `|image| src:` path
    /// resolves. `None` (stdin) resolves paths as written.
    pub base_dir: Option<std::path::PathBuf>,
    /// The serve traversal boundary: asset reads are confined to this root.
    /// `None` is unbounded.
    pub asset_root: Option<std::path::PathBuf>,
}

impl Default for Options {
    fn default() -> (o: Options)
        ensures
            !o.static_mode,
            !o.embed_font,
            o.format == OutputFormat::Svg,
            o.theme_css is None,
            o.base_dir is None,
            o.asset_root is None,
    {
        Options {
            static_mode: false,
            embed_font: false,
            format: OutputFormat::Svg,
            theme_css: None,
            base_dir: None,
            asset_root: None,
        }
    }
}

/// The HTML page an `--html` render is wrapped in: a minimal document whose
/// body is the SVG.
pub fn wrap_html(svg: &str) -> (page: String)
    ensures
        page@ == "<!doctype html>\n<html>\n<head>\n  <meta charset=\"utf-8\">\n  <title>lini</title>\n</head>\n<body>\n"@
            + svg@ + "</body>\n</html>\n"@,
{
    let mut page = String::new();
    text::push_str(&mut page, "<!doctype html>\n<html>\n<head>\n  <meta charset=\"utf-8\">\n  <title>lini</title>\n</head>\n<body>\n");
    text::push_str(&mut page, svg);
    text::push_str(&mut page, "</body>\n</html>\n");
    proof {
        assert(page@ =~= "<!doctype html>\n<html>\n<head>\n  <meta charset=\"utf-8\">\n  <title>lini</title>\n</head>\n<body>\n"@
            + svg@ + "</body>\n</html>\n"@);
    }
    page
}

} // verus!
