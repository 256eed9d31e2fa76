//! The owned semantic view tree and its construction API.
//!
//! Features describe owned view trees; the presentation compiler owns width,
//! wrapping, coordinates, and terminal integration. A view holds no terminal
//! state, callbacks, coordinates, or physical row calculations.

use crate::style::{
    BorderSpec, ColorSpec, Insets, OverflowIndicator, StyleSpec, duplicate_color, VerticalAlign, style_overlay,
};
use crate::tracks::TrackSize;
use vstd::prelude::*;
use vstd::view::View as _;

verus! {

/// Width allocation requested from a parent.
#[derive(Clone, Copy, Debug, PartialEq, Eq, Structural)]
pub enum WidthRule {
    Fit,
    Fill,
}

impl Default for WidthRule {
    fn default() -> (r: Self)
        ensures
            r == WidthRule::Fit,
    {
        WidthRule::Fit
    }
}

/// Generic text wrapping behavior.
#[derive(Clone, Copy, Debug, PartialEq, Eq, Structural)]
pub enum WrapMode {
    WordThenGrapheme,
    Grapheme,
    NoWrap,
}

impl Default for WrapMode {
    fn default() -> (r: Self)
        ensures
            r == WrapMode::WordThenGrapheme,
    {
        WrapMode::WordThenGrapheme
    }
}

/// Horizontal alignment inside an allocated track.
#[derive(Clone, Copy, Debug, PartialEq, Eq, Structural)]
pub enum HorizontalAlign {
    Start,
    Center,
    End,
}

impl Default for HorizontalAlign {
    fn default() -> (r: Self)
        ensures
            r == HorizontalAlign::Start,
    {
        HorizontalAlign::Start
    }
}

/// A semantic text span.
#[derive(Debug, PartialEq)]
pub struct TextSpan {
    pub text: String,
    pub style: StyleSpec,
}

impl TextSpan {
    pub fn plain<S: Into<String>>(text: S) -> (r: Self)
        ensures
            call_ensures(S::into, (text,), r.text),
            r.style == StyleSpec::spec_empty(),
    {
        TextSpan { text: text.into(), style: StyleSpec::new() }
    }

    pub fn styled<S: Into<String>>(text: S, style: StyleSpec) -> (r: Self)
        ensures
            call_ensures(S::into, (text,), r.text),
            r.style == style,
    {
        TextSpan { text: text.into(), style }
    }
}

/// Styled text, represented without terminal types.
#[derive(Debug, PartialEq)]
pub struct TextView {
    pub spans: Vec<TextSpan>,
    pub wrap: WrapMode,
    pub align: HorizontalAlign,
}

impl TextView {
    pub fn plain<S: Into<String>>(text: S) -> (r: Self)
        ensures
            r.spans@.len() == 1,
            call_ensures(S::into, (text,), r.spans@[0].text),
            r.spans@[0].style == StyleSpec::spec_empty(),
            r.wrap == WrapMode::WordThenGrapheme,
            r.align == HorizontalAlign::Start,
    {
        let mut spans: Vec<TextSpan> = Vec::new();
        spans.push(TextSpan::plain(text));
        TextView { spans, wrap: WrapMode::WordThenGrapheme, align: HorizontalAlign::Start }
    }
}

/// Vertical composition. The parent owns sibling gaps.
#[derive(Debug, PartialEq)]
pub struct ColumnView {
    pub children: Vec<View>,
    pub gap: u16,
}

/// Horizontal composition. The parent owns sibling gaps.
#[derive(Debug, PartialEq)]
pub struct RowView {
    pub children: Vec<RowChild>,
    pub gap: u16,
    pub vertical_align: VerticalAlign,
}

/// One row child and its width track.
#[derive(Debug, PartialEq)]
pub struct RowChild {
    pub track: TrackSize,
    pub view: View,
}

impl RowChild {
    /// A child sized by its measured content.
    pub fn content(view: View) -> (r: Self)
        ensures
            r == (RowChild { track: TrackSize::Content { max: None }, view }),
    {
        RowChild { track: TrackSize::Content { max: None }, view }
    }

    /// A child of exactly `width` cells, as far as space allows.
    pub fn fixed(width: u16, view: View) -> (r: Self)
        ensures
            r == (RowChild { track: TrackSize::Fixed(width), view }),
    {
        RowChild { track: TrackSize::Fixed(width), view }
    }

    /// A child sharing the remaining space, at least one cell wide.
    pub fn flex(view: View) -> (r: Self)
        ensures
            r == (RowChild { track: TrackSize::Flex { min: 1 }, view }),
    {
        RowChild { track: TrackSize::Flex { min: 1 }, view }
    }
}

/// Structural container holding one semantic child.
#[derive(Debug, PartialEq)]
pub struct ContainerNode {
    pub child: Box<View>,
}

/// Truncation behavior after physical layout.
#[derive(Debug, PartialEq)]
pub struct ClampRowsView {
    pub child: Box<View>,
    pub max_rows: u16,
    pub overflow: OverflowIndicator,
}

/// Common semantic decoration applied by the compiler around a view node.
#[derive(Debug, PartialEq, Eq)]
pub struct Decoration {
    pub padding: Insets,
    /// Paints the allocated physical surface, including transparent geometry.
    pub surface_background: Option<ColorSpec>,
    pub border: Option<BorderSpec>,
    /// Sparse text intent inherited by descendants and text spans.
    pub text_style: StyleSpec,
}

impl Decoration {
    /// No padding, no surface, no border and no text intent.
    pub open spec fn spec_default() -> Decoration {
        Decoration {
            padding: Insets::spec_zero(),
            surface_background: None,
            border: None,
            text_style: StyleSpec::spec_empty(),
        }
    }

    /// A decoration that only paints its surface with `color`.
    pub fn background(color: ColorSpec) -> (r: Self)
        ensures
            r == (Decoration { surface_background: Some(color), ..Decoration::spec_default() }),
    {
        Decoration { surface_background: Some(color), ..Decoration::default() }
    }

    pub fn padding(self, padding: Insets) -> (r: Self)
        ensures
            r == (Decoration { padding, ..self }),
    {
        Decoration { padding, ..self }
    }
}

impl Default for Decoration {
    fn default() -> (r: Self)
        ensures
            r == Decoration::spec_default(),
    {
        Decoration {
            padding: Insets::zero(),
            surface_background: None,
            border: None,
            text_style: StyleSpec::new(),
        }
    }
}

/// Generic view node kinds understood by the compiler.
#[derive(Debug, PartialEq)]
pub enum ViewKind {
    Text(TextView),
    Column(ColumnView),
    Row(RowView),
    Container(ContainerNode),
    Spacer { rows: u16 },
    ClampRows(ClampRowsView),
}

/// A pure, owned declarative presentation tree.
#[derive(Debug, PartialEq)]
pub struct View {
    pub width: WidthRule,
    pub decoration: Decoration,
    pub kind: ViewKind,
}

/// Two views with the same content: equal sizing, decoration and text, and
/// children that have the same content in turn.
pub open spec fn same_view(a: View, b: View) -> bool
    decreases a,
{
    &&& a.width == b.width
    &&& a.decoration == b.decoration
    &&& same_kind(a.kind, b.kind)
}

/// Two view kinds with the same content.
pub open spec fn same_kind(a: ViewKind, b: ViewKind) -> bool
    decreases a,
{
    match a {
        ViewKind::Text(x) => b matches ViewKind::Text(y) && x.spans@ == y.spans@ && x.wrap == y.wrap && x.align
            == y.align,
        ViewKind::Column(x) => b matches ViewKind::Column(y) && x.gap == y.gap && x.children@.len()
            == y.children@.len() && forall|i: int|
            0 <= i < x.children@.len() ==> same_view(#[trigger] x.children@[i], y.children@[i]),
        ViewKind::Row(x) => b matches ViewKind::Row(y) && x.gap == y.gap && x.vertical_align == y.vertical_align
            && x.children@.len() == y.children@.len() && forall|i: int|
            0 <= i < x.children@.len() ==> x.children@[i].track == y.children@[i].track && same_view(
                #[trigger] x.children@[i].view,
                y.children@[i].view,
            ),
        ViewKind::Container(x) => b matches ViewKind::Container(y) && same_view(*x.child, *y.child),
        ViewKind::Spacer { rows } => b == ViewKind::Spacer { rows },
        ViewKind::ClampRows(x) => b matches ViewKind::ClampRows(y) && x.max_rows == y.max_rows && x.overflow
            == y.overflow && same_view(*x.child, *y.child),
    }
}

/// Two child lists whose children pairwise have the same content.
pub open spec fn same_children(a: Seq<View>, b: Seq<View>) -> bool {
    &&& a.len() == b.len()
    &&& forall|i: int| 0 <= i < a.len() ==> same_view(#[trigger] a[i], b[i])
}

/// Two row child lists with equal tracks and views of the same content.
pub open spec fn same_row_children(a: Seq<RowChild>, b: Seq<RowChild>) -> bool {
    &&& a.len() == b.len()
    &&& forall|i: int| 0 <= i < a.len() ==> (#[trigger] a[i]).track == b[i].track && same_view(a[i].view, b[i].view)
}

impl Clone for TextSpan {
    fn clone(&self) -> (r: Self)
        ensures
            r == *self,
    {
        TextSpan { text: self.text.clone(), style: self.style.duplicate() }
    }
}

impl Clone for TextView {
    fn clone(&self) -> (r: Self)
        ensures
            r.spans@ == self.spans@,
            r.wrap == self.wrap,
            r.align == self.align,
    {
        let mut spans: Vec<TextSpan> = Vec::new();
        let mut index: usize = 0;
        while index < self.spans.len()
            invariant
                0 <= index <= self.spans@.len(),
                spans@ == self.spans@.take(index as int),
            decreases self.spans@.len() - index,
        {
            spans.push(self.spans[index].clone());
            index += 1;
            proof {
                assert(spans@ =~= self.spans@.take(index as int));
            }
        }
        proof {
            assert(self.spans@.take(index as int) =~= self.spans@);
        }
        TextView { spans, wrap: self.wrap, align: self.align }
    }
}

impl Clone for Decoration {
    fn clone(&self) -> (r: Self)
        ensures
            r == *self,
    {
        Decoration {
            padding: self.padding,
            surface_background: duplicate_color(&self.surface_background),
            border: match &self.border {
                Some(border) => Some(border.clone()),
                None => None,
            },
            text_style: self.text_style.duplicate(),
        }
    }
}

impl Clone for View {
    fn clone(&self) -> (r: Self)
        ensures
            same_view(r, *self),
        decreases self,
    {
        View { width: self.width, decoration: self.decoration.clone(), kind: self.kind.clone() }
    }
}

impl Clone for ViewKind {
    fn clone(&self) -> (r: Self)
        ensures
            same_kind(r, *self),
        decreases self,
    {
        match self {
            ViewKind::Text(text) => ViewKind::Text(text.clone()),
            ViewKind::Column(column) => ViewKind::Column(column.clone()),
            ViewKind::Row(row) => ViewKind::Row(row.clone()),
            ViewKind::Container(container) => ViewKind::Container(container.clone()),
            ViewKind::Spacer { rows } => ViewKind::Spacer { rows: *rows },
            ViewKind::ClampRows(clamp) => ViewKind::ClampRows(clamp.clone()),
        }
    }
}

impl Clone for ColumnView {
    fn clone(&self) -> (r: Self)
        ensures
            same_children(r.children@, self.children@) && r.gap == self.gap,
        decreases self,
    {
        let mut children: Vec<View> = Vec::new();
        let mut index: usize = 0;
        while index < self.children.len()
            invariant
                0 <= index <= self.children@.len(),
                same_children(children@, self.children@.take(index as int)),
            decreases self.children@.len() - index,
        {
            children.push(self.children[index].clone());
            index += 1;
        }
        proof {
            assert(self.children@.take(index as int) =~= self.children@);
        }
        ColumnView { children, gap: self.gap }
    }
}

impl Clone for RowView {
    fn clone(&self) -> (r: Self)
        ensures
            same_row_children(r.children@, self.children@) && r.gap == self.gap && r.vertical_align == self.vertical_align,
        decreases self,
    {
        let mut children: Vec<RowChild> = Vec::new();
        let mut index: usize = 0;
        while index < self.children.len()
            invariant
                0 <= index <= self.children@.len(),
                same_row_children(children@, self.children@.take(index as int)),
            decreases self.children@.len() - index,
        {
            children.push(self.children[index].clone());
            index += 1;
        }
        proof {
            assert(self.children@.take(index as int) =~= self.children@);
        }
        RowView { children, gap: self.gap, vertical_align: self.vertical_align }
    }
}

impl Clone for RowChild {
    fn clone(&self) -> (r: Self)
        ensures
            r.track == self.track && same_view(r.view, self.view),
        decreases self,
    {
        RowChild { track: self.track, view: self.view.clone() }
    }
}

impl Clone for ContainerNode {
    fn clone(&self) -> (r: Self)
        ensures
            same_view(*r.child, *self.child),
        decreases self,
    {
        ContainerNode { child: Box::new((*self.child).clone()) }
    }
}

impl Clone for ClampRowsView {
    fn clone(&self) -> (r: Self)
        ensures
            same_view(*r.child, *self.child) && r.max_rows == self.max_rows && r.overflow == self.overflow,
        decreases self,
    {
        ClampRowsView {
            child: Box::new((*self.child).clone()),
            max_rows: self.max_rows,
            overflow: self.overflow.clone(),
        }
    }
}

impl View {
    pub fn text<S: Into<String>>(text: S) -> (r: Text)
        ensures
            r@.width == WidthRule::Fit,
            r@.decoration == Decoration::spec_default(),
            r@.kind matches ViewKind::Text(view) && view.wrap == WrapMode::WordThenGrapheme
                && view.align == HorizontalAlign::Start && view.spans@.len() == 1
                && view.spans@[0].style == StyleSpec::spec_empty() && call_ensures(
                S::into,
                (text,),
                view.spans@[0].text,
            ),
    {
        Text::plain(text)
    }

    pub fn styled_text(spans: Vec<TextSpan>) -> (r: Text)
        ensures
            r@ == (View {
                width: WidthRule::Fit,
                decoration: Decoration::spec_default(),
                kind: ViewKind::Text(
                    TextView { spans, wrap: WrapMode::WordThenGrapheme, align: HorizontalAlign::Start },
                ),
            }),
    {
        Text::styled(spans)
    }

    pub fn column(children: Vec<View>, gap: u16) -> (r: Self)
        ensures
            r == (View {
                width: WidthRule::Fit,
                decoration: Decoration::spec_default(),
                kind: ViewKind::Column(ColumnView { children, gap }),
            }),
    {
        View {
            width: WidthRule::Fit,
            decoration: Decoration::default(),
            kind: ViewKind::Column(ColumnView { children, gap }),
        }
    }

    pub fn row(children: Vec<RowChild>, gap: u16) -> (r: Self)
        ensures
            r == (View {
                width: WidthRule::Fill,
                decoration: Decoration::spec_default(),
                kind: ViewKind::Row(RowView { children, gap, vertical_align: VerticalAlign::Top }),
            }),
    {
        View {
            width: WidthRule::Fill,
            decoration: Decoration::default(),
            kind: ViewKind::Row(RowView { children, gap, vertical_align: VerticalAlign::Top }),
        }
    }

    /// Decorates `child`; the container keeps the child's width rule.
    pub fn box_(child: View, decoration: Decoration) -> (r: Self)
        ensures
            r == (View {
                width: child.width,
                decoration,
                kind: ViewKind::Container(ContainerNode { child: Box::new(child) }),
            }),
    {
        let width = child.width;
        View { width, decoration, kind: ViewKind::Container(ContainerNode { child: Box::new(child) }) }
    }

    pub fn spacer(rows: u16) -> (r: Self)
        ensures
            r == (View {
                width: WidthRule::Fit,
                decoration: Decoration::spec_default(),
                kind: ViewKind::Spacer { rows },
            }),
    {
        View { width: WidthRule::Fit, decoration: Decoration::default(), kind: ViewKind::Spacer { rows } }
    }

    /// Truncates `child` after layout; the clamp keeps the child's width rule.
    pub fn clamp_rows(child: View, max_rows: u16, overflow: OverflowIndicator) -> (r: Self)
        ensures
            r == (View {
                width: child.width,
                decoration: Decoration::spec_default(),
                kind: ViewKind::ClampRows(ClampRowsView { child: Box::new(child), max_rows, overflow }),
            }),
    {
        let width = child.width;
        View {
            width,
            decoration: Decoration::default(),
            kind: ViewKind::ClampRows(ClampRowsView { child: Box::new(child), max_rows, overflow }),
        }
    }

    pub fn fit_width(self) -> (r: Self)
        ensures
            r == (View { width: WidthRule::Fit, ..self }),
    {
        View { width: WidthRule::Fit, ..self }
    }

    pub fn fill_width(self) -> (r: Self)
        ensures
            r == (View { width: WidthRule::Fill, ..self }),
    {
        View { width: WidthRule::Fill, ..self }
    }

    pub fn width(self, width: WidthRule) -> (r: Self)
        ensures
            r == (View { width, ..self }),
    {
        View { width, ..self }
    }

    /// Turns wrapping off for a text view; other views are unchanged.
    pub fn no_wrap(self) -> (r: Self)
        ensures
            r == (match self.kind {
                ViewKind::Text(text) => View {
                    kind: ViewKind::Text(TextView { wrap: WrapMode::NoWrap, ..text }),
                    ..self
                },
                _ => self,
            }),
    {
        self.wrap(WrapMode::NoWrap)
    }

    /// Sets the wrapping of a text view; other views are unchanged.
    pub fn wrap(self, wrap: WrapMode) -> (r: Self)
        ensures
            r == (match self.kind {
                ViewKind::Text(text) => View { kind: ViewKind::Text(TextView { wrap, ..text }), ..self },
                _ => self,
            }),
    {
        let View { width, decoration, kind } = self;
        match kind {
            ViewKind::Text(text) => View { width, decoration, kind: ViewKind::Text(TextView { wrap, ..text }) },
            kind => View { width, decoration, kind },
        }
    }

    /// Merges `style` into a text view's node intent without rewriting its
    /// spans; other views are unchanged.
    pub fn style(self, style: StyleSpec) -> (r: Self)
        ensures
            r == (if self.kind is Text {
                View {
                    decoration: Decoration {
                        text_style: style_overlay(self.decoration.text_style, style),
                        ..self.decoration
                    },
                    ..self
                }
            } else {
                self
            }),
    {
        let mut next = self;
        if let ViewKind::Text(_) = next.kind {
            next.decoration.text_style.overlay(&style);
        }
        next
    }
}

/// Typed semantic text leaf backed by the canonical [`View`] representation.
/// The wrapped view always holds text.
#[derive(Debug, PartialEq)]
pub struct Text {
    view: View,
}

impl vstd::view::View for Text {
    type V = View;

    closed spec fn view(&self) -> View {
        self.view
    }
}

/// The text payload of a view that holds text.
pub open spec fn text_of(view: View) -> TextView {
    match view.kind {
        ViewKind::Text(text) => text,
        _ => arbitrary(),
    }
}

impl Clone for Text {
    fn clone(&self) -> (r: Self)
        ensures
            same_view(r@, self@),
    {
        proof {
            use_type_invariant(self);
        }
        match &self.view.kind {
            ViewKind::Text(text) => Text {
                view: View {
                    width: self.view.width,
                    decoration: self.view.decoration.clone(),
                    kind: ViewKind::Text(text.clone()),
                },
            },
            _ => {
                proof {
                    assert(false);
                }
                Text::plain("")
            },
        }
    }
}

impl Text {
    #[verifier::type_invariant]
    spec fn holds_text(self) -> bool {
        self.view.kind is Text
    }

    pub fn plain<S: Into<String>>(text: S) -> (r: Self)
        ensures
            r@.width == WidthRule::Fit,
            r@.decoration == Decoration::spec_default(),
            r@.kind matches ViewKind::Text(view) && view.wrap == WrapMode::WordThenGrapheme
                && view.align == HorizontalAlign::Start && view.spans@.len() == 1
                && view.spans@[0].style == StyleSpec::spec_empty() && call_ensures(
                S::into,
                (text,),
                view.spans@[0].text,
            ),
    {
        Text::from_text_view(TextView::plain(text))
    }

    pub fn styled(spans: Vec<TextSpan>) -> (r: Self)
        ensures
            r@ == (View {
                width: WidthRule::Fit,
                decoration: Decoration::spec_default(),
                kind: ViewKind::Text(
                    TextView { spans, wrap: WrapMode::WordThenGrapheme, align: HorizontalAlign::Start },
                ),
            }),
    {
        Text::from_text_view(TextView { spans, wrap: WrapMode::WordThenGrapheme, align: HorizontalAlign::Start })
    }

    fn from_text_view(text: TextView) -> (r: Self)
        ensures
            r@ == (View { width: WidthRule::Fit, decoration: Decoration::spec_default(), kind: ViewKind::Text(text) }),
    {
        Text { view: View { width: WidthRule::Fit, decoration: Decoration::default(), kind: ViewKind::Text(text) } }
    }

    /// The canonical view; it always holds text.
    pub fn into_canonical_view(self) -> (r: View)
        ensures
            r == self@,
            r.kind is Text,
    {
        proof {
            use_type_invariant(&self);
        }
        self.view
    }

    /// Rebuilds the text payload with `update`'s fields.
    fn with_text(self, wrap: Option<WrapMode>, align: Option<HorizontalAlign>) -> (r: Self)
        ensures
            r@ == (View {
                kind: ViewKind::Text(
                    TextView {
                        wrap: match wrap {
                            Some(w) => w,
                            None => text_of(self@).wrap,
                        },
                        align: match align {
                            Some(a) => a,
                            None => text_of(self@).align,
                        },
                        ..text_of(self@)
                    },
                ),
                ..self@
            }),
    {
        proof {
            use_type_invariant(&self);
        }
        let Text { view } = self;
        let View { width, decoration, kind } = view;
        match kind {
            ViewKind::Text(text) => {
                let wrap = match wrap {
                    Some(w) => w,
                    None => text.wrap,
                };
                let align = match align {
                    Some(a) => a,
                    None => text.align,
                };
                Text { view: View { width, decoration, kind: ViewKind::Text(TextView { wrap, align, ..text }) } }
            },
            _ => {
                proof {
                    assert(false);
                }
                Text { view: View { width, decoration, kind } }
            },
        }
    }

    pub fn wrap(self, wrap: WrapMode) -> (r: Self)
        ensures
            r@ == (View { kind: ViewKind::Text(TextView { wrap, ..text_of(self@) }), ..self@ }),
    {
        self.with_text(Some(wrap), None)
    }

    pub fn no_wrap(self) -> (r: Self)
        ensures
            r@ == (View { kind: ViewKind::Text(TextView { wrap: WrapMode::NoWrap, ..text_of(self@) }), ..self@ }),
    {
        self.with_text(Some(WrapMode::NoWrap), None)
    }

    pub fn text_align(self, align: HorizontalAlign) -> (r: Self)
        ensures
            r@ == (View { kind: ViewKind::Text(TextView { align, ..text_of(self@) }), ..self@ }),
    {
        self.with_text(None, Some(align))
    }

    /// Merges `style` into the node's text intent without rewriting spans.
    pub fn style(self, style: StyleSpec) -> (r: Self)
        ensures
            r@ == (View {
                decoration: Decoration {
                    text_style: style_overlay(self@.decoration.text_style, style),
                    ..self@.decoration
                },
                ..self@
            }),
    {
        proof {
            use_type_invariant(&self);
        }
        let Text { view } = self;
        let mut view = view;
        view.decoration.text_style.overlay(&style);
        Text { view }
    }

    /// Sets the foreground of the node's text intent, keeping its other fields.
    pub fn foreground(self, color: ColorSpec) -> (r: Self)
        ensures
            r@ == (View {
                decoration: Decoration {
                    text_style: StyleSpec { foreground: Some(color), ..self@.decoration.text_style },
                    ..self@.decoration
                },
                ..self@
            }),
    {
        self.style(StyleSpec::new().foreground(color))
    }

    /// Makes the node's text intent bold, keeping its other fields.
    pub fn bold(self) -> (r: Self)
        ensures
            r@ == (View {
                decoration: Decoration {
                    text_style: self@.decoration.text_style.spec_attribute(crate::style::TextAttribute::Bold, true),
                    ..self@.decoration
                },
                ..self@
            }),
    {
        self.style(StyleSpec::new().bold())
    }

    pub fn fit_width(self) -> (r: Self)
        ensures
            r@ == (View { width: WidthRule::Fit, ..self@ }),
    {
        self.width(WidthRule::Fit)
    }

    pub fn fill_width(self) -> (r: Self)
        ensures
            r@ == (View { width: WidthRule::Fill, ..self@ }),
    {
        self.width(WidthRule::Fill)
    }

    pub fn width(self, width: WidthRule) -> (r: Self)
        ensures
            r@ == (View { width, ..self@ }),
    {
        proof {
            use_type_invariant(&self);
        }
        let Text { view } = self;
        Text { view: View { width, ..view } }
    }
}

/// Explicit conversion from semantic construction values into the canonical
/// owned [`View`] representation.
pub trait IntoView {
    fn into_view(self) -> View;
}

impl IntoView for View {
    fn into_view(self) -> (r: View)
        ensures
            r == self,
    {
        self
    }
}

impl IntoView for Text {
    fn into_view(self) -> (r: View)
        ensures
            r == self@,
    {
        self.into_canonical_view()
    }
}

impl IntoView for String {
    fn into_view(self) -> (r: View)
        ensures
            r.width == WidthRule::Fit,
            r.decoration == Decoration::spec_default(),
            r.kind matches ViewKind::Text(view) && view.spans@.len() == 1 && view.spans@[0].text@ == self@,
    {
        let mut spans: Vec<TextSpan> = Vec::new();
        spans.push(TextSpan { text: self, style: StyleSpec::new() });
        let text = Text::from_text_view(
            TextView { spans, wrap: WrapMode::WordThenGrapheme, align: HorizontalAlign::Start },
        );
        text.into_canonical_view()
    }
}

impl<'a> IntoView for &'a str {
    fn into_view(self) -> (r: View)
        ensures
            r.width == WidthRule::Fit,
            r.decoration == Decoration::spec_default(),
            r.kind matches ViewKind::Text(view) && view.spans@.len() == 1 && view.spans@[0].text@ == self@,
    {
        let owned: String = self.to_owned();
        owned.into_view()
    }
}

impl<'a> IntoView for &'a String {
    fn into_view(self) -> (r: View)
        ensures
            r.width == WidthRule::Fit,
            r.decoration == Decoration::spec_default(),
            r.kind matches ViewKind::Text(view) && view.spans@.len() == 1 && view.spans@[0].text@ == self@,
    {
        self.as_str().into_view()
    }
}

} // verus!
