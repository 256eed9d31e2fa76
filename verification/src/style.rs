//! Backend-neutral semantic styling and decoration vocabulary.

use crate::unicode::{graphemes, spec_graphemes, spec_str_width, str_width};
use vstd::prelude::*;

verus! {

/// Vertical alignment for children in a horizontal composition.
#[derive(Clone, Copy, Debug, PartialEq, Eq, Structural)]
pub enum VerticalAlign {
    Top,
    Center,
    Bottom,
}

/// Selects a sparse semantic text attribute.
#[derive(Clone, Copy, Debug, PartialEq, Eq, Structural)]
pub enum TextAttribute {
    Bold,
    Dim,
    Italic,
    Underline,
    Reversed,
}

/// Sparse text-attribute intent used by semantic style patches.
#[derive(Clone, Copy, Debug, PartialEq, Eq, Structural)]
pub struct TextAttributeSpec {
    pub bold: Option<bool>,
    pub dim: Option<bool>,
    pub italic: Option<bool>,
    pub underline: Option<bool>,
    pub reversed: Option<bool>,
}

/// The field of `spec` that `attribute` selects.
pub open spec fn attribute_field(spec: TextAttributeSpec, attribute: TextAttribute) -> Option<bool> {
    match attribute {
        TextAttribute::Bold => spec.bold,
        TextAttribute::Dim => spec.dim,
        TextAttribute::Italic => spec.italic,
        TextAttribute::Underline => spec.underline,
        TextAttribute::Reversed => spec.reversed,
    }
}

/// A sparse field patch: the incoming value wins when it is specified.
pub open spec fn patch<T>(existing: Option<T>, incoming: Option<T>) -> Option<T> {
    if incoming is Some { incoming } else { existing }
}

/// Attribute intent after applying `incoming` over `existing`.
pub open spec fn attributes_overlay(existing: TextAttributeSpec, incoming: TextAttributeSpec) -> TextAttributeSpec {
    TextAttributeSpec {
        bold: patch(existing.bold, incoming.bold),
        dim: patch(existing.dim, incoming.dim),
        italic: patch(existing.italic, incoming.italic),
        underline: patch(existing.underline, incoming.underline),
        reversed: patch(existing.reversed, incoming.reversed),
    }
}

impl TextAttributeSpec {
    /// Attribute intent with every field unspecified.
    pub open spec fn spec_empty() -> TextAttributeSpec {
        TextAttributeSpec { bold: None, dim: None, italic: None, underline: None, reversed: None }
    }

    pub fn empty() -> (r: Self)
        ensures
            r == Self::spec_empty(),
    {
        TextAttributeSpec { bold: None, dim: None, italic: None, underline: None, reversed: None }
    }

    /// Explicitly sets one attribute, leaving the others unchanged.
    pub fn set(&mut self, attribute: TextAttribute, enabled: bool)
        ensures
            attribute_field(*final(self), attribute) == Some(enabled),
            forall|other: TextAttribute|
                other != attribute ==> attribute_field(*final(self), other) == attribute_field(
                    *old(self),
                    other,
                ),
    {
        match attribute {
            TextAttribute::Bold => self.bold = Some(enabled),
            TextAttribute::Dim => self.dim = Some(enabled),
            TextAttribute::Italic => self.italic = Some(enabled),
            TextAttribute::Underline => self.underline = Some(enabled),
            TextAttribute::Reversed => self.reversed = Some(enabled),
        }
    }

    /// Applies the explicitly specified attributes of `incoming`.
    pub fn overlay(&mut self, incoming: Self)
        ensures
            *final(self) == attributes_overlay(*old(self), incoming),
    {
        if incoming.bold.is_some() {
            self.bold = incoming.bold;
        }
        if incoming.dim.is_some() {
            self.dim = incoming.dim;
        }
        if incoming.italic.is_some() {
            self.italic = incoming.italic;
        }
        if incoming.underline.is_some() {
            self.underline = incoming.underline;
        }
        if incoming.reversed.is_some() {
            self.reversed = incoming.reversed;
        }
    }
}


impl Default for VerticalAlign {
    fn default() -> (r: Self)
        ensures
            r == VerticalAlign::Top,
    {
        VerticalAlign::Top
    }
}

impl Default for TextAttributeSpec {
    fn default() -> (r: Self)
        ensures
            r == TextAttributeSpec::spec_empty(),
    {
        TextAttributeSpec::empty()
    }
}

/// The sixteen named ANSI colors.
#[derive(Clone, Copy, Debug, PartialEq, Eq, Structural)]
pub enum AnsiColor {
    Black,
    Red,
    Green,
    Yellow,
    Blue,
    Magenta,
    Cyan,
    Gray,
    DarkGray,
    LightRed,
    LightGreen,
    LightYellow,
    LightBlue,
    LightMagenta,
    LightCyan,
    White,
}

/// Opaque semantic key resolved by the host theme.
#[derive(Debug, PartialEq, Eq)]
pub struct ThemeKey(pub String);

impl View for ThemeKey {
    type V = Seq<char>;

    open spec fn view(&self) -> Seq<char> {
        self.0@
    }
}

impl ThemeKey {
    /// A copy of this key that is equal to it.
    pub fn duplicate(&self) -> (r: Self)
        ensures
            r == *self,
    {
        ThemeKey(self.0.clone())
    }

    /// The key's text.
    pub fn as_str(&self) -> (r: &str)
        ensures
            r@ == self@,
    {
        self.0.as_str()
    }
}

impl From<&str> for ThemeKey {
    fn from(value: &str) -> (r: Self)
        ensures
            r@ == value@,
    {
        ThemeKey(value.to_owned())
    }
}

impl vstd::std_specs::convert::FromSpecImpl<&str> for ThemeKey {
    open spec fn obeys_from_spec() -> bool {
        false
    }

    open spec fn from_spec(v: &str) -> ThemeKey {
        arbitrary()
    }
}

impl From<String> for ThemeKey {
    fn from(value: String) -> (r: Self)
        ensures
            r.0 == value,
    {
        ThemeKey(value)
    }
}

impl vstd::std_specs::convert::FromSpecImpl<String> for ThemeKey {
    open spec fn obeys_from_spec() -> bool {
        true
    }

    open spec fn from_spec(v: String) -> ThemeKey {
        ThemeKey(v)
    }
}

/// Backend-neutral theme, named ANSI, indexed ANSI, or RGB color specification.
#[derive(Debug, PartialEq, Eq)]
pub enum ColorSpec {
    Theme(ThemeKey),
    Named(AnsiColor),
    Ansi(u8),
    Rgb { r: u8, g: u8, b: u8 },
}

impl ColorSpec {
    /// A themed color whose key is `key` converted into a [`ThemeKey`].
    pub fn theme<K: Into<ThemeKey>>(key: K) -> (r: Self)
        ensures
            exists|k: ThemeKey| call_ensures(K::into, (key,), k) && r == ColorSpec::Theme(k),
    {
        let k: ThemeKey = key.into();
        ColorSpec::Theme(k)
    }

    pub fn ansi(value: u8) -> (r: Self)
        ensures
            r == ColorSpec::Ansi(value),
    {
        ColorSpec::Ansi(value)
    }

    pub fn rgb(r: u8, g: u8, b: u8) -> (c: Self)
        ensures
            c == (ColorSpec::Rgb { r, g, b }),
    {
        ColorSpec::Rgb { r, g, b }
    }

    /// A copy of this color that is equal to it.
    pub fn duplicate(&self) -> (r: Self)
        ensures
            r == *self,
    {
        match self {
            ColorSpec::Theme(key) => ColorSpec::Theme(key.duplicate()),
            ColorSpec::Named(color) => ColorSpec::Named(*color),
            ColorSpec::Ansi(value) => ColorSpec::Ansi(*value),
            ColorSpec::Rgb { r, g, b } => ColorSpec::Rgb { r: *r, g: *g, b: *b },
        }
    }
}

/// A copy of an optional color that is equal to it.
pub fn duplicate_color(color: &Option<ColorSpec>) -> (r: Option<ColorSpec>)
    ensures
        r == *color,
{
    match color {
        Some(color) => Some(color.duplicate()),
        None => None,
    }
}

/// Sparse backend-neutral text-style intent. Unspecified fields inherit from
/// the preceding cascade layer.
#[derive(Debug, PartialEq, Eq)]
pub struct StyleSpec {
    pub foreground: Option<ColorSpec>,
    pub background: Option<ColorSpec>,
    pub attributes: TextAttributeSpec,
}

/// Style intent after applying the explicitly specified fields of
/// `incoming` over `existing`.
pub open spec fn style_overlay(existing: StyleSpec, incoming: StyleSpec) -> StyleSpec {
    StyleSpec {
        foreground: patch(existing.foreground, incoming.foreground),
        background: patch(existing.background, incoming.background),
        attributes: attributes_overlay(existing.attributes, incoming.attributes),
    }
}

impl StyleSpec {
    /// Style intent with every field unspecified.
    pub open spec fn spec_empty() -> StyleSpec {
        StyleSpec { foreground: None, background: None, attributes: TextAttributeSpec::spec_empty() }
    }

    pub fn new() -> (r: Self)
        ensures
            r == Self::spec_empty(),
    {
        StyleSpec { foreground: None, background: None, attributes: TextAttributeSpec::empty() }
    }

    pub fn foreground(self, color: ColorSpec) -> (r: Self)
        ensures
            r == (StyleSpec { foreground: Some(color), ..self }),
    {
        StyleSpec { foreground: Some(color), ..self }
    }

    pub fn background(self, color: ColorSpec) -> (r: Self)
        ensures
            r == (StyleSpec { background: Some(color), ..self }),
    {
        StyleSpec { background: Some(color), ..self }
    }

    pub fn bold(self) -> (r: Self)
        ensures
            r == self.spec_attribute(TextAttribute::Bold, true),
    {
        self.attribute(TextAttribute::Bold, true)
    }

    pub fn dim(self) -> (r: Self)
        ensures
            r == self.spec_attribute(TextAttribute::Dim, true),
    {
        self.attribute(TextAttribute::Dim, true)
    }

    pub fn italic(self) -> (r: Self)
        ensures
            r == self.spec_attribute(TextAttribute::Italic, true),
    {
        self.attribute(TextAttribute::Italic, true)
    }

    pub fn underline(self) -> (r: Self)
        ensures
            r == self.spec_attribute(TextAttribute::Underline, true),
    {
        self.attribute(TextAttribute::Underline, true)
    }

    pub fn reversed(self) -> (r: Self)
        ensures
            r == self.spec_attribute(TextAttribute::Reversed, true),
    {
        self.attribute(TextAttribute::Reversed, true)
    }

    /// `self` with exactly one attribute explicitly set to `enabled`.
    pub open spec fn spec_attribute(self, attribute: TextAttribute, enabled: bool) -> StyleSpec {
        StyleSpec {
            attributes: attributes_overlay(self.attributes, TextAttributeSpec::single(attribute, enabled)),
            ..self
        }
    }

    pub fn attribute(self, attribute: TextAttribute, enabled: bool) -> (r: Self)
        ensures
            r == self.spec_attribute(attribute, enabled),
    {
        let mut next = self;
        next.attributes.set(attribute, enabled);
        proof {
            TextAttributeSpec::lemma_set_is_single_overlay(self.attributes, next.attributes, attribute, enabled);
        }
        next
    }

    /// Applies the explicitly specified fields from `incoming`; it is the
    /// more-specific patch and never clears unspecified fields.
    pub fn overlay(&mut self, incoming: &Self)
        ensures
            *final(self) == style_overlay(*old(self), *incoming),
    {
        if incoming.foreground.is_some() {
            self.foreground = duplicate_color(&incoming.foreground);
        }
        if incoming.background.is_some() {
            self.background = duplicate_color(&incoming.background);
        }
        self.attributes.overlay(incoming.attributes);
    }

    /// A copy of this style that is equal to it.
    pub fn duplicate(&self) -> (r: Self)
        ensures
            r == *self,
    {
        StyleSpec {
            foreground: duplicate_color(&self.foreground),
            background: duplicate_color(&self.background),
            attributes: self.attributes,
        }
    }
}

/// Two colors compare equal: theme keys by their text, the rest by value.
pub open spec fn color_same(a: ColorSpec, b: ColorSpec) -> bool {
    match (a, b) {
        (ColorSpec::Theme(x), ColorSpec::Theme(y)) => x@ == y@,
        (ColorSpec::Named(x), ColorSpec::Named(y)) => x == y,
        (ColorSpec::Ansi(x), ColorSpec::Ansi(y)) => x == y,
        (ColorSpec::Rgb { r: r1, g: g1, b: b1 }, ColorSpec::Rgb { r: r2, g: g2, b: b2 }) => r1 == r2 && g1
            == g2 && b1 == b2,
        _ => false,
    }
}

pub open spec fn option_color_same(a: Option<ColorSpec>, b: Option<ColorSpec>) -> bool {
    match (a, b) {
        (Some(x), Some(y)) => color_same(x, y),
        (None, None) => true,
        _ => false,
    }
}

/// Two styles compare equal field by field.
pub open spec fn style_same(a: StyleSpec, b: StyleSpec) -> bool {
    &&& option_color_same(a.foreground, b.foreground)
    &&& option_color_same(a.background, b.background)
    &&& a.attributes == b.attributes
}

fn colors_equal(a: &Option<ColorSpec>, b: &Option<ColorSpec>) -> (r: bool)
    ensures
        r == option_color_same(*a, *b),
{
    match (a, b) {
        (Some(ColorSpec::Theme(x)), Some(ColorSpec::Theme(y))) => x.0 == y.0,
        (Some(ColorSpec::Named(x)), Some(ColorSpec::Named(y))) => *x == *y,
        (Some(ColorSpec::Ansi(x)), Some(ColorSpec::Ansi(y))) => *x == *y,
        (Some(ColorSpec::Rgb { r: r1, g: g1, b: b1 }), Some(ColorSpec::Rgb { r: r2, g: g2, b: b2 })) => *r1
            == *r2 && *g1 == *g2 && *b1 == *b2,
        (None, None) => true,
        _ => false,
    }
}

/// Compares two styles as their `==` does.
pub fn styles_equal(a: &StyleSpec, b: &StyleSpec) -> (r: bool)
    ensures
        r == style_same(*a, *b),
{
    colors_equal(&a.foreground, &b.foreground) && colors_equal(&a.background, &b.background)
        && a.attributes == b.attributes
}

impl Default for StyleSpec {
    fn default() -> (r: Self)
        ensures
            r == StyleSpec::spec_empty(),
    {
        StyleSpec::new()
    }
}

impl TextAttributeSpec {
    /// Attribute intent in which only `attribute` is specified.
    pub open spec fn single(attribute: TextAttribute, enabled: bool) -> TextAttributeSpec {
        let e = TextAttributeSpec::spec_empty();
        match attribute {
            TextAttribute::Bold => TextAttributeSpec { bold: Some(enabled), ..e },
            TextAttribute::Dim => TextAttributeSpec { dim: Some(enabled), ..e },
            TextAttribute::Italic => TextAttributeSpec { italic: Some(enabled), ..e },
            TextAttribute::Underline => TextAttributeSpec { underline: Some(enabled), ..e },
            TextAttribute::Reversed => TextAttributeSpec { reversed: Some(enabled), ..e },
        }
    }

    proof fn lemma_set_is_single_overlay(
        before: TextAttributeSpec,
        after: TextAttributeSpec,
        attribute: TextAttribute,
        enabled: bool,
    )
        requires
            attribute_field(after, attribute) == Some(enabled),
            forall|other: TextAttribute|
                other != attribute ==> attribute_field(after, other) == attribute_field(before, other),
        ensures
            after == attributes_overlay(before, TextAttributeSpec::single(attribute, enabled)),
    {
        assert(attribute_field(after, TextAttribute::Bold) == attribute_field(after, TextAttribute::Bold));
        assert(attribute_field(after, TextAttribute::Dim) == attribute_field(after, TextAttribute::Dim));
        assert(attribute_field(after, TextAttribute::Italic) == attribute_field(after, TextAttribute::Italic));
        assert(attribute_field(after, TextAttribute::Underline) == attribute_field(after, TextAttribute::Underline));
        assert(attribute_field(after, TextAttribute::Reversed) == attribute_field(after, TextAttribute::Reversed));
    }
}


/// Insets applied to a semantic view's surface. Padding belongs to the
/// decorated view, not its structural child.
#[derive(Clone, Copy, Debug, PartialEq, Eq)]
pub struct Insets {
    pub top: u16,
    pub right: u16,
    pub bottom: u16,
    pub left: u16,
}

impl Insets {
    pub open spec fn spec_zero() -> Insets {
        Insets { top: 0, right: 0, bottom: 0, left: 0 }
    }

    /// Insets of zero on every side.
    pub fn zero() -> (r: Self)
        ensures
            r == Self::spec_zero(),
    {
        Insets { top: 0, right: 0, bottom: 0, left: 0 }
    }

    pub fn all(value: u16) -> (r: Self)
        ensures
            r == (Insets { top: value, right: value, bottom: value, left: value }),
    {
        Insets { top: value, right: value, bottom: value, left: value }
    }

    pub fn vertical(value: u16) -> (r: Self)
        ensures
            r == (Insets { top: value, right: 0, bottom: value, left: 0 }),
    {
        Insets { top: value, right: 0, bottom: value, left: 0 }
    }

    pub fn horizontal(value: u16) -> (r: Self)
        ensures
            r == (Insets { top: 0, right: value, bottom: 0, left: value }),
    {
        Insets { top: 0, right: value, bottom: 0, left: value }
    }

    /// Creates insets in top, right, bottom, left order.
    pub fn new(top: u16, right: u16, bottom: u16, left: u16) -> (r: Self)
        ensures
            r == (Insets { top, right, bottom, left }),
    {
        Insets { top, right, bottom, left }
    }
}

impl Default for Insets {
    fn default() -> (r: Self)
        ensures
            r == Insets::spec_zero(),
    {
        Insets::zero()
    }
}

impl From<u16> for Insets {
    fn from(value: u16) -> (r: Self) {
        Insets::all(value)
    }
}

impl vstd::std_specs::convert::FromSpecImpl<u16> for Insets {
    open spec fn obeys_from_spec() -> bool {
        true
    }

    open spec fn from_spec(v: u16) -> Insets {
        Insets { top: v, right: v, bottom: v, left: v }
    }
}

/// Which sides of a semantic border are painted.
#[derive(Clone, Copy, Debug, PartialEq, Eq)]
pub struct BorderEdges {
    pub top: bool,
    pub right: bool,
    pub bottom: bool,
    pub left: bool,
}

impl BorderEdges {
    pub open spec fn spec_none() -> BorderEdges {
        BorderEdges { top: false, right: false, bottom: false, left: false }
    }

    pub open spec fn spec_all() -> BorderEdges {
        BorderEdges { top: true, right: true, bottom: true, left: true }
    }

    /// No edge is painted.
    pub fn none() -> (r: Self)
        ensures
            r == Self::spec_none(),
    {
        BorderEdges { top: false, right: false, bottom: false, left: false }
    }

    /// Every edge is painted.
    pub fn all() -> (r: Self)
        ensures
            r == Self::spec_all(),
    {
        BorderEdges { top: true, right: true, bottom: true, left: true }
    }

    /// Only the top and bottom edges are painted.
    pub fn top_bottom() -> (r: Self)
        ensures
            r == (BorderEdges { top: true, right: false, bottom: true, left: false }),
    {
        BorderEdges { top: true, right: false, bottom: true, left: false }
    }

    pub fn new(top: bool, right: bool, bottom: bool, left: bool) -> (r: Self)
        ensures
            r == (BorderEdges { top, right, bottom, left }),
    {
        BorderEdges { top, right, bottom, left }
    }
}

impl Default for BorderEdges {
    fn default() -> (r: Self)
        ensures
            r == BorderEdges::spec_none(),
    {
        BorderEdges::none()
    }
}


/// Failure to construct a border glyph that occupies exactly one cell.
#[derive(Clone, Debug, PartialEq, Eq)]
pub struct BorderGlyphError {
    pub field: &'static str,
    pub width: usize,
    pub graphemes: usize,
}

/// A border glyph must be one grapheme cluster of display width one.
pub open spec fn glyph_ok(glyph: Seq<char>) -> bool {
    spec_graphemes(glyph).len() == 1 && spec_str_width(glyph) == 1
}

/// The error reported for a glyph that is not one cell wide.
pub open spec fn glyph_error(field: &'static str, glyph: Seq<char>) -> BorderGlyphError {
    BorderGlyphError {
        field,
        width: spec_str_width(glyph) as usize,
        graphemes: spec_graphemes(glyph).len() as usize,
    }
}

/// The outcome of checking the eight glyphs in declaration order: the first
/// glyph that is not one cell wide is reported.
pub open spec fn glyphs_check(glyphs: Seq<Seq<char>>) -> Result<(), BorderGlyphError>
    recommends
        glyphs.len() == 8,
{
    if !glyph_ok(glyphs[0]) {
        Err(glyph_error("top", glyphs[0]))
    } else if !glyph_ok(glyphs[1]) {
        Err(glyph_error("right", glyphs[1]))
    } else if !glyph_ok(glyphs[2]) {
        Err(glyph_error("bottom", glyphs[2]))
    } else if !glyph_ok(glyphs[3]) {
        Err(glyph_error("left", glyphs[3]))
    } else if !glyph_ok(glyphs[4]) {
        Err(glyph_error("top_left", glyphs[4]))
    } else if !glyph_ok(glyphs[5]) {
        Err(glyph_error("top_right", glyphs[5]))
    } else if !glyph_ok(glyphs[6]) {
        Err(glyph_error("bottom_left", glyphs[6]))
    } else if !glyph_ok(glyphs[7]) {
        Err(glyph_error("bottom_right", glyphs[7]))
    } else {
        Ok(())
    }
}

fn check_glyph(field: &'static str, glyph: &String) -> (r: Result<(), BorderGlyphError>)
    ensures
        r is Ok <==> glyph_ok(glyph@),
        r is Err ==> r->Err_0 == glyph_error(field, glyph@),
{
    let clusters = graphemes(glyph.as_str());
    let count = clusters.len();
    let width = str_width(glyph.as_str());
    proof {
        assert(clusters@.map_values(|g: String| g@).len() == clusters@.len());
    }
    if count != 1 || width != 1 {
        Err(BorderGlyphError { field, width, graphemes: count })
    } else {
        Ok(())
    }
}

/// Custom one-cell border glyphs. Applications can use ASCII, Unicode box
/// drawing, or another backend-supported pattern.
#[derive(Debug, PartialEq, Eq)]
pub struct BorderGlyphs {
    pub top: String,
    pub right: String,
    pub bottom: String,
    pub left: String,
    pub top_left: String,
    pub top_right: String,
    pub bottom_left: String,
    pub bottom_right: String,
}

impl BorderGlyphs {
    /// The eight glyph texts in declaration order.
    pub open spec fn glyph_views(self) -> Seq<Seq<char>> {
        seq![
            self.top@,
            self.right@,
            self.bottom@,
            self.left@,
            self.top_left@,
            self.top_right@,
            self.bottom_left@,
            self.bottom_right@,
        ]
    }

    /// Checks already converted glyphs; succeeds exactly when each is one
    /// grapheme of width one, and otherwise reports the first that is not.
    pub fn from_strings(
        top: String,
        right: String,
        bottom: String,
        left: String,
        top_left: String,
        top_right: String,
        bottom_left: String,
        bottom_right: String,
    ) -> (r: Result<Self, BorderGlyphError>)
        ensures
            ({
                let glyphs = BorderGlyphs { top, right, bottom, left, top_left, top_right, bottom_left, bottom_right };
                match glyphs_check(glyphs.glyph_views()) {
                    Ok(()) => r == Ok::<BorderGlyphs, BorderGlyphError>(glyphs),
                    Err(e) => r == Err::<BorderGlyphs, BorderGlyphError>(e),
                }
            }),
    {
        let glyphs = BorderGlyphs { top, right, bottom, left, top_left, top_right, bottom_left, bottom_right };
        let ghost views = glyphs.glyph_views();
        let c = check_glyph("top", &glyphs.top);
        if let Err(e) = c {
            return Err(e);
        }
        let c = check_glyph("right", &glyphs.right);
        if let Err(e) = c {
            return Err(e);
        }
        let c = check_glyph("bottom", &glyphs.bottom);
        if let Err(e) = c {
            return Err(e);
        }
        let c = check_glyph("left", &glyphs.left);
        if let Err(e) = c {
            return Err(e);
        }
        let c = check_glyph("top_left", &glyphs.top_left);
        if let Err(e) = c {
            return Err(e);
        }
        let c = check_glyph("top_right", &glyphs.top_right);
        if let Err(e) = c {
            return Err(e);
        }
        let c = check_glyph("bottom_left", &glyphs.bottom_left);
        if let Err(e) = c {
            return Err(e);
        }
        let c = check_glyph("bottom_right", &glyphs.bottom_right);
        if let Err(e) = c {
            return Err(e);
        }
        Ok(glyphs)
    }

    /// Converts each argument into a `String` and checks the glyphs as
    /// [`BorderGlyphs::from_strings`] does.
    pub fn new<A: Into<String>, B: Into<String>, C: Into<String>, D: Into<String>, E: Into<String>, F: Into<String>, G: Into<String>, H: Into<String>>(
        top: A,
        right: B,
        bottom: C,
        left: D,
        top_left: E,
        top_right: F,
        bottom_left: G,
        bottom_right: H,
    ) -> (r: Result<Self, BorderGlyphError>)
        ensures
            exists|glyphs: BorderGlyphs|
                {
                    &&& call_ensures(A::into, (top,), glyphs.top)
                    &&& call_ensures(B::into, (right,), glyphs.right)
                    &&& call_ensures(C::into, (bottom,), glyphs.bottom)
                    &&& call_ensures(D::into, (left,), glyphs.left)
                    &&& call_ensures(E::into, (top_left,), glyphs.top_left)
                    &&& call_ensures(F::into, (top_right,), glyphs.top_right)
                    &&& call_ensures(G::into, (bottom_left,), glyphs.bottom_left)
                    &&& call_ensures(H::into, (bottom_right,), glyphs.bottom_right)
                    &&& match glyphs_check(glyphs.glyph_views()) {
                        Ok(()) => r == Ok::<BorderGlyphs, BorderGlyphError>(glyphs),
                        Err(e) => r == Err::<BorderGlyphs, BorderGlyphError>(e),
                    }
                },
    {
        let t: String = top.into();
        let r_: String = right.into();
        let b: String = bottom.into();
        let l: String = left.into();
        let tl: String = top_left.into();
        let tr: String = top_right.into();
        let bl: String = bottom_left.into();
        let br: String = bottom_right.into();
        let ghost glyphs = BorderGlyphs {
            top: t,
            right: r_,
            bottom: b,
            left: l,
            top_left: tl,
            top_right: tr,
            bottom_left: bl,
            bottom_right: br,
        };
        let result = Self::from_strings(t, r_, b, l, tl, tr, bl, br);
        assert(glyphs.glyph_views() == glyphs.glyph_views());
        result
    }

    /// Light box-drawing glyphs.
    pub fn plain() -> (r: Self)
        ensures
            r.top@ == "─"@,
            r.right@ == "│"@,
            r.bottom@ == "─"@,
            r.left@ == "│"@,
            r.top_left@ == "┌"@,
            r.top_right@ == "┐"@,
            r.bottom_left@ == "└"@,
            r.bottom_right@ == "┘"@,
    {
        BorderGlyphs {
            top: "─".to_owned(),
            right: "│".to_owned(),
            bottom: "─".to_owned(),
            left: "│".to_owned(),
            top_left: "┌".to_owned(),
            top_right: "┐".to_owned(),
            bottom_left: "└".to_owned(),
            bottom_right: "┘".to_owned(),
        }
    }

    /// Light box-drawing glyphs with rounded corners.
    pub fn rounded() -> (r: Self)
        ensures
            r.top@ == "─"@,
            r.right@ == "│"@,
            r.bottom@ == "─"@,
            r.left@ == "│"@,
            r.top_left@ == "╭"@,
            r.top_right@ == "╮"@,
            r.bottom_left@ == "╰"@,
            r.bottom_right@ == "╯"@,
    {
        BorderGlyphs {
            top: "─".to_owned(),
            right: "│".to_owned(),
            bottom: "─".to_owned(),
            left: "│".to_owned(),
            top_left: "╭".to_owned(),
            top_right: "╮".to_owned(),
            bottom_left: "╰".to_owned(),
            bottom_right: "╯".to_owned(),
        }
    }

    /// Double-line box-drawing glyphs.
    pub fn double() -> (r: Self)
        ensures
            r.top@ == "═"@,
            r.right@ == "║"@,
            r.bottom@ == "═"@,
            r.left@ == "║"@,
            r.top_left@ == "╔"@,
            r.top_right@ == "╗"@,
            r.bottom_left@ == "╚"@,
            r.bottom_right@ == "╝"@,
    {
        BorderGlyphs {
            top: "═".to_owned(),
            right: "║".to_owned(),
            bottom: "═".to_owned(),
            left: "║".to_owned(),
            top_left: "╔".to_owned(),
            top_right: "╗".to_owned(),
            bottom_left: "╚".to_owned(),
            bottom_right: "╝".to_owned(),
        }
    }
}

/// Terminal-independent border family used by the convenience constructors.
#[derive(Clone, Copy, Debug, PartialEq, Eq, Structural)]
pub enum BorderStyle {
    Plain,
    Rounded,
    Double,
}

impl Default for BorderStyle {
    fn default() -> (r: Self)
        ensures
            r == BorderStyle::Plain,
    {
        BorderStyle::Plain
    }
}

/// Backend-neutral border description. Edges are independently optional;
/// corners are painted only when both adjacent edges are enabled.
#[derive(Debug, PartialEq, Eq)]
pub struct BorderSpec {
    pub style: BorderStyle,
    pub color: Option<ColorSpec>,
    pub edges: BorderEdges,
    pub glyphs: BorderGlyphs,
    pub top_label: Option<String>,
}

impl BorderSpec {
    pub fn plain() -> (r: Self)
        ensures
            r.style == BorderStyle::Plain,
            r.color is None,
            r.edges == BorderEdges::spec_all(),
            r.glyphs.glyph_views() == BorderGlyphs::plain_views(),
            r.top_label is None,
    {
        BorderSpec {
            style: BorderStyle::Plain,
            color: None,
            edges: BorderEdges::all(),
            glyphs: BorderGlyphs::plain(),
            top_label: None,
        }
    }

    pub fn rounded() -> (r: Self)
        ensures
            r.style == BorderStyle::Rounded,
            r.color is None,
            r.edges == BorderEdges::spec_all(),
            r.glyphs.glyph_views() == BorderGlyphs::rounded_views(),
            r.top_label is None,
    {
        BorderSpec {
            style: BorderStyle::Rounded,
            color: None,
            edges: BorderEdges::all(),
            glyphs: BorderGlyphs::rounded(),
            top_label: None,
        }
    }

    pub fn double() -> (r: Self)
        ensures
            r.style == BorderStyle::Double,
            r.color is None,
            r.edges == BorderEdges::spec_all(),
            r.glyphs.glyph_views() == BorderGlyphs::double_views(),
            r.top_label is None,
    {
        BorderSpec {
            style: BorderStyle::Double,
            color: None,
            edges: BorderEdges::all(),
            glyphs: BorderGlyphs::double(),
            top_label: None,
        }
    }

    pub fn custom(glyphs: BorderGlyphs) -> (r: Self)
        ensures
            r == (BorderSpec {
                style: BorderStyle::Plain,
                color: None,
                edges: BorderEdges::spec_all(),
                glyphs,
                top_label: None,
            }),
    {
        BorderSpec {
            style: BorderStyle::Plain,
            color: None,
            edges: BorderEdges::all(),
            glyphs,
            top_label: None,
        }
    }

    pub fn edges(self, edges: BorderEdges) -> (r: Self)
        ensures
            r == (BorderSpec { edges, ..self }),
    {
        BorderSpec { edges, ..self }
    }

    pub fn color(self, color: ColorSpec) -> (r: Self)
        ensures
            r == (BorderSpec { color: Some(color), ..self }),
    {
        BorderSpec { color: Some(color), ..self }
    }

    /// Places a semantic label over the top edge without changing geometry.
    pub fn top_label<L: Into<String>>(self, label: L) -> (r: Self)
        ensures
            exists|text: String|
                call_ensures(L::into, (label,), text) && r == (BorderSpec { top_label: Some(text), ..self }),
    {
        let text: String = label.into();
        BorderSpec { top_label: Some(text), ..self }
    }

    /// Cells taken by the left edge.
    pub fn left_width(&self) -> (r: u16)
        ensures
            r == (if self.edges.left { 1u16 } else { 0u16 }),
    {
        if self.edges.left { 1 } else { 0 }
    }

    /// Cells taken by the right edge.
    pub fn right_width(&self) -> (r: u16)
        ensures
            r == (if self.edges.right { 1u16 } else { 0u16 }),
    {
        if self.edges.right { 1 } else { 0 }
    }

    /// Rows taken by the top edge.
    pub fn top_height(&self) -> (r: u16)
        ensures
            r == (if self.edges.top { 1u16 } else { 0u16 }),
    {
        if self.edges.top { 1 } else { 0 }
    }

    /// Rows taken by the bottom edge.
    pub fn bottom_height(&self) -> (r: u16)
        ensures
            r == (if self.edges.bottom { 1u16 } else { 0u16 }),
    {
        if self.edges.bottom { 1 } else { 0 }
    }
}

impl BorderGlyphs {
    pub open spec fn plain_views() -> Seq<Seq<char>> {
        seq!["─"@, "│"@, "─"@, "│"@, "┌"@, "┐"@, "└"@, "┘"@]
    }

    pub open spec fn rounded_views() -> Seq<Seq<char>> {
        seq!["─"@, "│"@, "─"@, "│"@, "╭"@, "╮"@, "╰"@, "╯"@]
    }

    pub open spec fn double_views() -> Seq<Seq<char>> {
        seq!["═"@, "║"@, "═"@, "║"@, "╔"@, "╗"@, "╚"@, "╝"@]
    }
}

/// Overflow treatment for a structurally clamped view.
#[derive(Debug, PartialEq)]
pub enum OverflowIndicator {
    /// No indicator is shown.
    NoIndicator,
    Ellipsis { style: StyleSpec },
    Footer { prefix: String, style: StyleSpec },
}

/// Applying an unspecified patch leaves a style unchanged.
pub proof fn lemma_overlay_empty_is_identity(style: StyleSpec)
    ensures
        style_overlay(style, StyleSpec::spec_empty()) == style,
{
}

/// A patch applied over an unspecified style is the patch itself.
pub proof fn lemma_overlay_onto_empty(style: StyleSpec)
    ensures
        style_overlay(StyleSpec::spec_empty(), style) == style,
{
}

/// Applying the same patch twice is the same as applying it once.
pub proof fn lemma_overlay_idempotent(existing: StyleSpec, incoming: StyleSpec)
    ensures
        style_overlay(style_overlay(existing, incoming), incoming) == style_overlay(existing, incoming),
{
}

/// Successive patches compose: applying `b` then `c` equals applying `c`
/// over `b` and the result once.
pub proof fn lemma_overlay_associative(a: StyleSpec, b: StyleSpec, c: StyleSpec)
    ensures
        style_overlay(style_overlay(a, b), c) == style_overlay(a, style_overlay(b, c)),
{
}

/// A patch never clears a field: every field specified before the patch is
/// still specified after it.
pub proof fn lemma_overlay_never_clears(existing: StyleSpec, incoming: StyleSpec)
    ensures
        existing.foreground is Some ==> style_overlay(existing, incoming).foreground is Some,
        existing.background is Some ==> style_overlay(existing, incoming).background is Some,
        forall|a: TextAttribute|
            attribute_field(existing.attributes, a) is Some ==> attribute_field(
                style_overlay(existing, incoming).attributes,
                a,
            ) is Some,
{
}

/// The last explicit write of an attribute wins, including `false`.
pub proof fn lemma_attribute_last_write_wins(
    style: StyleSpec,
    attribute: TextAttribute,
    first: bool,
    second: bool,
)
    ensures
        attribute_field(
            style.spec_attribute(attribute, first).spec_attribute(attribute, second).attributes,
            attribute,
        ) == Some(second),
{
}

impl Clone for ThemeKey {
    fn clone(&self) -> (r: Self)
        ensures
            r == *self,
    {
        self.duplicate()
    }
}

impl Clone for ColorSpec {
    fn clone(&self) -> (r: Self)
        ensures
            r == *self,
    {
        self.duplicate()
    }
}

impl Clone for StyleSpec {
    fn clone(&self) -> (r: Self)
        ensures
            r == *self,
    {
        self.duplicate()
    }
}

impl Clone for BorderGlyphs {
    fn clone(&self) -> (r: Self)
        ensures
            r == *self,
    {
        BorderGlyphs {
            top: self.top.clone(),
            right: self.right.clone(),
            bottom: self.bottom.clone(),
            left: self.left.clone(),
            top_left: self.top_left.clone(),
            top_right: self.top_right.clone(),
            bottom_left: self.bottom_left.clone(),
            bottom_right: self.bottom_right.clone(),
        }
    }
}

impl Clone for BorderSpec {
    fn clone(&self) -> (r: Self)
        ensures
            r == *self,
    {
        BorderSpec {
            style: self.style,
            color: duplicate_color(&self.color),
            edges: self.edges,
            glyphs: self.glyphs.clone(),
            top_label: match &self.top_label {
                Some(label) => Some(label.clone()),
                None => None,
            },
        }
    }
}

impl Clone for OverflowIndicator {
    fn clone(&self) -> (r: Self)
        ensures
            r == *self,
    {
        match self {
            OverflowIndicator::NoIndicator => OverflowIndicator::NoIndicator,
            OverflowIndicator::Ellipsis { style } => OverflowIndicator::Ellipsis { style: style.duplicate() },
            OverflowIndicator::Footer { prefix, style } => OverflowIndicator::Footer {
                prefix: prefix.clone(),
                style: style.duplicate(),
            },
        }
    }
}

} // verus!
