use iyon_tui::style::{ColorSpec, Insets, StyleSpec};
use iyon_tui::view::{
    Decoration, HorizontalAlign, IntoView, RowChild, TextSpan, View, ViewKind, WidthRule, WrapMode,
};

#[test]
fn view_style_merges_node_intent_without_rewriting_spans() {
    let mut view = View::styled_text(vec![
        TextSpan::plain("plain"),
        TextSpan::styled("bold", StyleSpec::new().bold()),
    ])
    .style(StyleSpec::new().foreground(ColorSpec::Ansi(1)))
    .style(StyleSpec::new().italic())
    .into_view();

    assert_eq!(
        view.decoration.text_style.foreground,
        Some(ColorSpec::Ansi(1))
    );
    assert_eq!(view.decoration.text_style.attributes.italic, Some(true));
    let ViewKind::Text(text) = &mut view.kind else {
        panic!("expected text view");
    };
    assert_eq!(text.spans[0].style, StyleSpec::default());
    assert_eq!(text.spans[1].style.attributes.bold, Some(true));
}

#[test]
fn api_row_and_container_are_owned_data() {
    let view = View::box_(
        View::row(
            vec![
                RowChild::content(View::text("●").no_wrap().into_view()),
                RowChild::flex(View::text("long command").width(WidthRule::Fill).into_view()),
            ],
            1,
        ),
        Decoration::background(ColorSpec::Theme("tool.running".into())).padding(Insets::all(1)),
    );
    assert!(matches!(view.kind, ViewKind::Container(_)));
    assert!(!view.decoration.padding.eq(&Insets::zero()));
}

#[test]
fn text_style_merges_node_intent_without_rewriting_spans() {
    let text = View::styled_text(vec![
        TextSpan::plain("plain"),
        TextSpan::styled("bold", StyleSpec::new().bold()),
    ])
    .style(StyleSpec::new().foreground(ColorSpec::Ansi(1)))
    .style(StyleSpec::new().italic());

    let mut view = text.clone().into_view();
    assert_eq!(
        view.decoration.text_style.foreground,
        Some(ColorSpec::Ansi(1))
    );
    assert_eq!(view.decoration.text_style.attributes.italic, Some(true));
    let ViewKind::Text(text_view) = &mut view.kind else {
        panic!("expected text view");
    };
    assert_eq!(text_view.spans[0].style, StyleSpec::default());
    assert_eq!(text_view.spans[1].style.attributes.bold, Some(true));

    let converted = text.into_view();
    assert!(matches!(converted.kind, ViewKind::Text(_)));
}

#[test]
fn typed_text_methods_update_only_canonical_text_payload() {
    let text = View::text("abcdef")
        .wrap(WrapMode::Grapheme)
        .text_align(HorizontalAlign::End)
        .style(StyleSpec::new().foreground(ColorSpec::Ansi(3)))
        .fill_width();

    let view = text.into_view();
    assert_eq!(view.width, WidthRule::Fill);
    assert_eq!(
        view.decoration.text_style.foreground,
        Some(ColorSpec::Ansi(3))
    );
    let ViewKind::Text(text_view) = &view.kind else {
        panic!("expected text view");
    };
    assert_eq!(text_view.wrap, WrapMode::Grapheme);
    assert_eq!(text_view.align, HorizontalAlign::End);
    assert_eq!(text_view.spans[0].style, StyleSpec::default());
}

#[test]
fn typed_width_modifiers_preserve_text_and_last_write_wins() {
    let view = View::text("x")
        .fill_width()
        .no_wrap()
        .text_align(HorizontalAlign::End)
        .fit_width()
        .into_view();

    assert_eq!(view.width, WidthRule::Fit);
    assert!(matches!(view.kind, ViewKind::Text(_)));
    assert_eq!(view.decoration, Decoration::default());
}

#[test]
fn into_view_conversions_are_owned_and_view_conversion_is_identity() {
    let original = View::column(vec![View::spacer(1)], 0);
    assert_eq!(original.clone().into_view(), original);

    let string_view = String::from("hello").into_view();
    let borrowed_source = String::from("hello");
    let borrowed_view = (&borrowed_source).into_view();
    let str_view = "hello".into_view();
    let expected = View::text("hello").into_view();
    assert_eq!(string_view, expected);
    assert_eq!(borrowed_view, expected);
    assert_eq!(str_view, expected);

    let mut source = String::from("owned");
    let view = (&source).into_view();
    source.clear();
    source.push_str("changed");
    let ViewKind::Text(text) = view.kind else {
        panic!("expected text view");
    };
    assert_eq!(text.spans[0].text, "owned");
}

#[derive(Debug)]
struct CustomStatus {
    value: String,
}

impl IntoView for CustomStatus {
    fn into_view(self) -> View {
        View::text(self.value)
            .style(StyleSpec::new().bold())
            .into_view()
    }
}

#[test]
fn custom_into_view_implementation_uses_open_boundary() {
    let view = CustomStatus {
        value: "status".to_string(),
    }
    .into_view();
    assert_eq!(view.decoration.text_style.attributes.bold, Some(true));
    assert!(matches!(view.kind, ViewKind::Text(_)));
}

#[test]
fn view_row_and_container_are_owned_data() {
    let view = View::box_(
        View::row(
            vec![
                RowChild::content(View::text("●").no_wrap().into_view()),
                RowChild::flex(
                    View::text("long command")
                        .width(WidthRule::Fill)
                        .into_view(),
                ),
            ],
            1,
        ),
        Decoration::background(ColorSpec::Theme("tool.running".into())).padding(Insets::all(1)),
    );
    assert!(matches!(view.kind, ViewKind::Container(_)));
    assert!(!view.decoration.padding.eq(&Insets::zero()));
}

#[test]
fn explicit_style_properties_merge_without_losing_fields() {
    let view = View::text("x")
        .foreground(ColorSpec::ansi(1))
        .bold()
        .style(StyleSpec::new().italic())
        .into_view();

    assert_eq!(
        view.decoration.text_style.foreground,
        Some(ColorSpec::ansi(1))
    );
    assert_eq!(view.decoration.text_style.attributes.bold, Some(true));
    assert_eq!(view.decoration.text_style.attributes.italic, Some(true));
}
