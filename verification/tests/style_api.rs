use iyon_tui::style::{
    BorderEdges, BorderGlyphs, BorderSpec, BorderStyle, ColorSpec, Insets, StyleSpec, TextAttribute,
    ThemeKey,
};

#[test]
fn style_sparse_style_overlay_preserves_unspecified_fields_and_allows_false() {
    let mut existing = StyleSpec::new().foreground(ColorSpec::Ansi(1)).bold();
    existing.overlay(&StyleSpec::new().italic());
    assert_eq!(existing.foreground, Some(ColorSpec::Ansi(1)));
    assert_eq!(existing.attributes.bold, Some(true));
    assert_eq!(existing.attributes.italic, Some(true));

    existing.overlay(&StyleSpec::new().attribute(TextAttribute::Bold, false));
    assert_eq!(existing.attributes.bold, Some(false));
}

#[test]
fn api_sparse_style_overlay_preserves_unspecified_fields_and_allows_false() {
    let mut existing = StyleSpec::new().foreground(ColorSpec::Ansi(1)).bold();
    existing.overlay(&StyleSpec::new().italic());
    assert_eq!(existing.foreground, Some(ColorSpec::Ansi(1)));
    assert_eq!(existing.attributes.bold, Some(true));
    assert_eq!(existing.attributes.italic, Some(true));

    existing.overlay(&StyleSpec::new().attribute(TextAttribute::Bold, false));
    assert_eq!(existing.attributes.bold, Some(false));
}

#[test]
fn semantic_style_primitive_constructors_lower_to_existing_values() {
    assert_eq!(Insets::horizontal(2), Insets::new(0, 2, 0, 2));
    assert_eq!(Insets::from(3), Insets::all(3));
    assert_eq!(ColorSpec::ansi(3), ColorSpec::Ansi(3));
    assert_eq!(ColorSpec::rgb(1, 2, 3), ColorSpec::Rgb { r: 1, g: 2, b: 3 });
    assert_eq!(
        ColorSpec::theme("text.muted"),
        ColorSpec::Theme(ThemeKey::from("text.muted"))
    );
    assert_eq!(
        ColorSpec::theme(String::from("text.muted")),
        ColorSpec::Theme(ThemeKey::from("text.muted")),
    );
}

#[test]
fn border_constructors_set_style_and_replaceable_color() {
    assert_eq!(
        BorderSpec::plain(),
        BorderSpec {
            style: BorderStyle::Plain,
            color: None,
            edges: BorderEdges::all(),
            glyphs: BorderGlyphs::plain(),
            top_label: None,
        }
    );
    assert_eq!(BorderSpec::rounded().style, BorderStyle::Rounded);
    assert_eq!(BorderSpec::double().style, BorderStyle::Double);
    assert_eq!(
        BorderSpec::rounded()
            .color(ColorSpec::ansi(2))
            .color(ColorSpec::ansi(3)),
        BorderSpec {
            style: BorderStyle::Rounded,
            color: Some(ColorSpec::ansi(3)),
            edges: BorderEdges::all(),
            glyphs: BorderGlyphs::rounded(),
            top_label: None,
        },
    );
}

fn overlaid(base: &StyleSpec, patch: &StyleSpec) -> StyleSpec {
    let mut out = base.clone();
    out.overlay(patch);
    out
}

#[test]
fn overlay_laws_hold_on_concrete_styles() {
    let a = StyleSpec::new().foreground(ColorSpec::ansi(1)).bold();
    let b = StyleSpec::new().background(ColorSpec::rgb(1, 2, 3)).attribute(TextAttribute::Bold, false);
    let c = StyleSpec::new().foreground(ColorSpec::ansi(7)).italic();
    // Associative.
    assert_eq!(overlaid(&overlaid(&a, &b), &c), overlaid(&a, &overlaid(&b, &c)));
    // Idempotent.
    assert_eq!(overlaid(&overlaid(&a, &b), &b), overlaid(&a, &b));
    // The empty patch is the identity, both ways.
    assert_eq!(overlaid(&a, &StyleSpec::new()), a);
    assert_eq!(overlaid(&StyleSpec::new(), &a), a);
    // Nothing specified is cleared, and the last write wins.
    let ab = overlaid(&a, &b);
    assert_eq!(ab.foreground, Some(ColorSpec::ansi(1)));
    assert_eq!(ab.attributes.bold, Some(false));
}
