use diagram_render_rs::raster::check_raster_size;
use diagram_render_rs::scene::{TextAnchor, TextWeight};
use diagram_render_rs::svg::{anchor_name, escape_attr, escape_text, weight_value};
use diagram_render_rs::theme::{Theme, ThemePreset};
use diagram_render_rs::{resolve_output_format, validate_width, FormatArg, OutputFormat};

#[test]
fn the_series_ramp_has_eight_distinct_slots_and_cycles() {
    for theme in [Theme::light(), Theme::dark()] {
        let mut distinct = theme.series.to_vec();
        distinct.sort_unstable();
        distinct.dedup();
        assert_eq!(distinct.len(), 8);
        assert!(!theme.series.contains(&theme.muted));
        assert_eq!(theme.series(8), theme.series(0));
        assert_eq!(theme.series(13), theme.series(5));
    }
}

#[test]
fn presets_resolve_to_their_palettes_and_legacy_names_stay_distinct() {
    assert_eq!(ThemePreset::Light.resolve(), Theme::light());
    assert_eq!(ThemePreset::Dark.resolve(), Theme::dark());
    assert_eq!(Theme::legacy("light"), Theme::light());
    assert_eq!(Theme::legacy("dark"), Theme::dark());
    assert_ne!(Theme::light(), Theme::dark());
    assert_eq!(Theme::light().foreground, "#172033");
    assert_eq!(Theme::dark().surface, "#182235");
    assert_eq!(Theme::light().font_family, "Inter, ui-sans-serif, system-ui, sans-serif");
}

#[test]
fn escape_text_replaces_markup_characters() {
    assert_eq!(escape_text("<unsafe & visible>"), "&lt;unsafe &amp; visible&gt;");
    assert_eq!(escape_text("say \"hi\""), "say \"hi\"");
    assert_eq!(escape_attr("a'b\"c<&>"), "a&apos;b&quot;c&lt;&amp;&gt;");
}

#[test]
fn existing_entities_are_escaped_again() {
    assert_eq!(escape_text("&lt;"), "&amp;lt;");
    assert_eq!(escape_text("a&&b"), "a&amp;&amp;b");
}

#[test]
fn text_attribute_spellings() {
    assert_eq!(anchor_name(TextAnchor::Middle), "middle");
    assert_eq!(anchor_name(TextAnchor::End), "end");
    assert_eq!(weight_value(TextWeight::Bold), "650");
    assert_eq!(weight_value(TextWeight::Normal), "400");
}

#[test]
fn output_format_follows_the_extension_only_when_automatic() {
    assert_eq!(resolve_output_format(FormatArg::Auto, Some("PNG")), OutputFormat::Png);
    assert_eq!(resolve_output_format(FormatArg::Auto, Some("svg")), OutputFormat::Svg);
    assert_eq!(resolve_output_format(FormatArg::Auto, None), OutputFormat::Svg);
    assert_eq!(resolve_output_format(FormatArg::Svg, Some("png")), OutputFormat::Svg);
    assert_eq!(resolve_output_format(FormatArg::Png, None), OutputFormat::Png);
}

#[test]
fn zero_png_width_is_rejected() {
    assert_eq!(validate_width(Some(0)), Err("PNG width must be greater than zero".to_owned()));
    assert_eq!(validate_width(Some(640)), Ok(()));
    assert_eq!(validate_width(None), Ok(()));
}

#[test]
fn raster_sizes_are_bounded() {
    assert_eq!(check_raster_size(640, 480), Ok(()));
    assert_eq!(check_raster_size(0, 10), Err("rendered image has zero size".to_owned()));
    assert_eq!(
        check_raster_size(40000, 10),
        Err("rendered image exceeds 32768px dimension limit (40000x10)".to_owned())
    );
    assert_eq!(
        check_raster_size(20000, 20000),
        Err("rendered image exceeds 100000000 pixel limit (20000x20000)".to_owned())
    );
    assert_eq!(check_raster_size(10000, 10000), Ok(()));
}

#[test]
fn defaults_are_the_light_palette_and_svg() {
    assert_eq!(Theme::default(), Theme::light());
    assert_eq!(ThemePreset::default(), ThemePreset::Light);
    assert_eq!(OutputFormat::default(), OutputFormat::Svg);
}
