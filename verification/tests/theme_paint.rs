use iyon_tui::physical::{PhysicalAnsiColor, PhysicalColor, PhysicalStyle};
use iyon_tui::style::{AnsiColor, ColorSpec, StyleSpec};
use iyon_tui::theme::{StyleRef, Theme, ThemeColor, ThemeResolver};
use iyon_tui::view::{IntoView, View};

#[test]
fn missing_tokens_lower_to_terminal_defaults_and_empty_named_styles() {
    let resolver = ThemeResolver::default();
    assert_eq!(
        resolver.resolve_color(&ColorSpec::theme("missing")),
        PhysicalColor::Default
    );
    assert_eq!(
        resolver.resolve_text_style(PhysicalStyle::default(), &StyleRef::theme("missing")),
        PhysicalStyle::default()
    );
}

#[test]
fn tests_surface_background_does_not_enter_text_style_cascade() {
    let mut view = View::text("x").into_view();
    view.decoration.surface_background = Some(ColorSpec::Ansi(1));
    let resolved = ThemeResolver::default().resolve_text_style(
        PhysicalStyle::default(),
        &StyleRef::local(view.decoration.text_style.clone()),
    );
    assert_eq!(resolved.background, None);
}

#[test]
fn named_style_then_local_override_resolve_in_order() {
    let theme = Theme::new()
        .with_color("accent", ThemeColor::Named(AnsiColor::Green))
        .with_style(
            "heading",
            StyleSpec::new().foreground(ColorSpec::theme("accent")).bold(),
        );
    let resolver = ThemeResolver::new(&theme);
    let style = resolver.resolve_text_style(
        PhysicalStyle::default(),
        &StyleRef::themed("heading", StyleSpec::new().foreground(ColorSpec::Named(AnsiColor::Red))),
    );
    assert_eq!(
        style.foreground,
        Some(PhysicalColor::Named(PhysicalAnsiColor::Red))
    );
    assert!(style.bold);

    let themed_only = resolver.resolve_text_style(PhysicalStyle::default(), &StyleRef::theme("heading"));
    assert_eq!(
        themed_only.foreground,
        Some(PhysicalColor::Named(PhysicalAnsiColor::Green))
    );
}

#[test]
fn theme_colors_resolve_each_kind_exactly() {
    let theme = Theme::new()
        .with_color("index", ThemeColor::Indexed(42))
        .with_color("rgb", ThemeColor::Rgb { r: 1, g: 2, b: 3 })
        .with_color("index", ThemeColor::Default);
    let resolver = ThemeResolver::new(&theme);
    assert_eq!(resolver.resolve_color(&ColorSpec::theme("index")), PhysicalColor::Default);
    assert_eq!(
        resolver.resolve_color(&ColorSpec::theme("rgb")),
        PhysicalColor::Rgb { r: 1, g: 2, b: 3 }
    );
    assert_eq!(resolver.resolve_color(&ColorSpec::Ansi(7)), PhysicalColor::Indexed(7));
    assert_eq!(theme.color("rgb"), Some(ThemeColor::Rgb { r: 1, g: 2, b: 3 }));
    assert_eq!(theme.style("rgb"), None);
}

#[test]
fn empty_patch_keeps_inherited_style() {
    let inherited = PhysicalStyle {
        foreground: Some(PhysicalColor::Indexed(3)),
        italic: true,
        ..PhysicalStyle::default()
    };
    let resolver = ThemeResolver::default();
    assert_eq!(
        resolver.resolve_text_style(inherited, &StyleRef::local(StyleSpec::new())),
        inherited
    );
}
