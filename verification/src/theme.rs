//! Built-in drawing palettes.

use vstd::prelude::*;

use crate::text::{owned, str_eq};

verus! {

/// Built-in palette identity.
#[derive(Clone, Copy, Debug, PartialEq, Eq, Structural)]
pub enum ThemePreset {
    Light,
    Dark,
}

/// Semantic drawing colors and the font stack consumed by the layout modules.
#[derive(Clone, Debug, PartialEq, Eq)]
pub struct Theme {
    pub font_family: String,
    pub foreground: String,
    pub muted: String,
    pub line: String,
    pub surface: String,
    pub surface_alt: String,
    pub accent: String,
    pub accent_soft: String,
    pub positive: String,
    pub warning: String,
    pub danger: String,
    pub grid: String,
    /// Categorical ramp, read through [`Theme::series`].
    pub series: [String; 8],
}

/// The font stack of both built-in palettes.
pub open spec fn builtin_font() -> Seq<char> {
    "Inter, ui-sans-serif, system-ui, sans-serif"@
}

/// The color values of a theme, in field order, followed by its eight series slots.
pub open spec fn colors(t: Theme) -> Seq<Seq<char>> {
    seq![
        t.foreground@, t.muted@, t.line@, t.surface@, t.surface_alt@, t.accent@, t.accent_soft@,
        t.positive@, t.warning@, t.danger@, t.grid@,
    ] + t.series@.map_values(|s: String| s@)
}

/// The colors of the built-in light palette, in the order of [`colors`].
pub open spec fn light_colors() -> Seq<Seq<char>> {
    seq![
        "#172033"@, "#657089"@, "#334155"@, "#ffffff"@, "#f5f7fb"@, "#2563eb"@, "#dbeafe"@,
        "#059669"@, "#d97706"@, "#dc2626"@, "#d9e0ec"@, "#2563eb"@, "#059669"@, "#d97706"@,
        "#dc2626"@, "#7c3aed"@, "#0891b2"@, "#db2777"@, "#65a30d"@,
    ]
}

/// The colors of the built-in dark palette, in the order of [`colors`].
pub open spec fn dark_colors() -> Seq<Seq<char>> {
    seq![
        "#e6edf7"@, "#9aa8bd"@, "#bac7d9"@, "#182235"@, "#101827"@, "#60a5fa"@, "#1e3a5f"@,
        "#34d399"@, "#fbbf24"@, "#fb7185"@, "#344258"@, "#60a5fa"@, "#34d399"@, "#fbbf24"@,
        "#fb7185"@, "#a78bfa"@, "#22d3ee"@, "#f472b6"@, "#a3e635"@,
    ]
}

impl ThemePreset {
    /// The palette this preset names.
    pub fn resolve(self) -> (t: Theme)
        ensures
            t.font_family@ == builtin_font(),
            colors(t) == match self {
                ThemePreset::Light => light_colors(),
                ThemePreset::Dark => dark_colors(),
            },
    {
        match self {
            ThemePreset::Light => Theme::light(),
            ThemePreset::Dark => Theme::dark(),
        }
    }
}

impl Theme {
    /// The built-in light palette.
    pub fn light() -> (t: Theme)
        ensures
            t.font_family@ == builtin_font(),
            colors(t) == light_colors(),
    {
        let series: [String; 8] = [
            owned("#2563eb"),
            owned("#059669"),
            owned("#d97706"),
            owned("#dc2626"),
            owned("#7c3aed"),
            owned("#0891b2"),
            owned("#db2777"),
            owned("#65a30d"),
        ];
        let t = Theme {
            font_family: owned("Inter, ui-sans-serif, system-ui, sans-serif"),
            foreground: owned("#172033"),
            muted: owned("#657089"),
            line: owned("#334155"),
            surface: owned("#ffffff"),
            surface_alt: owned("#f5f7fb"),
            accent: owned("#2563eb"),
            accent_soft: owned("#dbeafe"),
            positive: owned("#059669"),
            warning: owned("#d97706"),
            danger: owned("#dc2626"),
            grid: owned("#d9e0ec"),
            series,
        };
        assert(colors(t) =~= light_colors());
        t
    }

    /// The built-in dark palette.
    pub fn dark() -> (t: Theme)
        ensures
            t.font_family@ == builtin_font(),
            colors(t) == dark_colors(),
    {
        let series: [String; 8] = [
            owned("#60a5fa"),
            owned("#34d399"),
            owned("#fbbf24"),
            owned("#fb7185"),
            owned("#a78bfa"),
            owned("#22d3ee"),
            owned("#f472b6"),
            owned("#a3e635"),
        ];
        let t = Theme {
            font_family: owned("Inter, ui-sans-serif, system-ui, sans-serif"),
            foreground: owned("#e6edf7"),
            muted: owned("#9aa8bd"),
            line: owned("#bac7d9"),
            surface: owned("#182235"),
            surface_alt: owned("#101827"),
            accent: owned("#60a5fa"),
            accent_soft: owned("#1e3a5f"),
            positive: owned("#34d399"),
            warning: owned("#fbbf24"),
            danger: owned("#fb7185"),
            grid: owned("#344258"),
            series,
        };
        assert(colors(t) =~= dark_colors());
        t
    }

    /// The palette a legacy theme name selects: `dark` is the dark palette,
    /// any other legacy name the light one.
    pub fn legacy(name: &str) -> (t: Theme)
        ensures
            t.font_family@ == builtin_font(),
            colors(t) == if name@ == "dark"@ {
                dark_colors()
            } else {
                light_colors()
            },
    {
        if str_eq(name, "dark") {
            Theme::dark()
        } else {
            Theme::light()
        }
    }

    /// Series slot `index`, cycling through the eight colors.
    pub fn series(&self, index: usize) -> (s: &str)
        ensures
            s@ == self.series@[index as int % 8]@,
    {
        self.series[index % 8].as_str()
    }
}

/// Law: the series ramp cycles with period eight.
pub proof fn lemma_series_cycles(t: Theme, i: nat)
    ensures
        t.series@[(i + 8) as int % 8] == t.series@[i as int % 8],
{
}

impl Default for ThemePreset {
    fn default() -> (p: ThemePreset)
        ensures
            p == ThemePreset::Light,
    {
        ThemePreset::Light
    }
}

impl Default for Theme {
    fn default() -> (t: Theme)
        ensures
            t.font_family@ == builtin_font(),
            colors(t) == light_colors(),
    {
        Theme::light()
    }
}

} // verus!
