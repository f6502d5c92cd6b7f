//! Diagram layout and text logic shared by the SVG/PNG renderers.
//!
//! Each diagram family keeps its own interpretation module under
//! [`renderers`]; the families meet only at the card layout and at the
//! drawing boundary.

pub mod greeting;
pub mod raster;
pub mod renderers;
pub mod scene;
pub mod svg;
pub mod text;
pub mod theme;

use vstd::prelude::*;

pub use crate::theme::{Theme, ThemePreset};

use crate::text::{ascii_lower, str_eq, to_ascii_lowercase};

verus! {

/// Requested output representation.
#[derive(Clone, Copy, Debug, PartialEq, Eq, Structural)]
pub enum OutputFormat {
    /// Scalable Vector Graphics.
    Svg,
    /// Portable Network Graphics rasterized from the generated SVG.
    Png,
}

/// The output format a caller asked for; `Auto` follows the output file's extension.
#[derive(Clone, Copy, Debug, PartialEq, Eq, Structural)]
pub enum FormatArg {
    Auto,
    Svg,
    Png,
}

/// The format chosen for a request and the output file's extension: an
/// explicit choice wins; otherwise a `png` extension (in any ASCII case)
/// selects PNG and anything else SVG.
pub open spec fn resolve_output_format_spec(requested: FormatArg, extension: Option<Seq<char>>) -> OutputFormat {
    match requested {
        FormatArg::Svg => OutputFormat::Svg,
        FormatArg::Png => OutputFormat::Png,
        FormatArg::Auto => match extension {
            Some(e) => if e.map_values(|c: char| ascii_lower(c)) == "png"@ {
                OutputFormat::Png
            } else {
                OutputFormat::Svg
            },
            None => OutputFormat::Svg,
        },
    }
}

/// Chooses the output format; see [`resolve_output_format_spec`].
pub fn resolve_output_format(requested: FormatArg, extension: Option<&str>) -> (f: OutputFormat)
    ensures
        f == resolve_output_format_spec(
            requested,
            match extension {
                Some(e) => Some(e@),
                None => None,
            },
        ),
{
    match requested {
        FormatArg::Svg => OutputFormat::Svg,
        FormatArg::Png => OutputFormat::Png,
        FormatArg::Auto => match extension {
            Some(e) => {
                let lower = to_ascii_lowercase(e);
                if str_eq(lower.as_str(), "png") {
                    OutputFormat::Png
                } else {
                    OutputFormat::Svg
                }
            },
            None => OutputFormat::Svg,
        },
    }
}

/// Checks a requested PNG width: zero is refused.
pub fn validate_width(width: Option<u32>) -> (r: Result<(), String>)
    ensures
        r is Err <==> width == Some(0u32),
        match r {
            Err(msg) => msg@ == "PNG width must be greater than zero"@,
            Ok(()) => true,
        },
{
    match width {
        Some(0) => Err(String::from_str("PNG width must be greater than zero")),
        _ => Ok(()),
    }
}

impl Default for OutputFormat {
    fn default() -> (f: OutputFormat)
        ensures
            f == OutputFormat::Svg,
    {
        OutputFormat::Svg
    }
}

} // verus!
