//! Semantic style cascade and theme-key resolution into physical styles.

use crate::physical::{PhysicalAnsiColor, PhysicalColor, PhysicalStyle};
use crate::style::{AnsiColor, ColorSpec, StyleSpec, ThemeKey, TextAttributeSpec};
use vstd::prelude::*;

verus! {

/// A color a theme assigns to a key.
#[derive(Clone, Copy, Debug, PartialEq, Eq, Structural)]
pub enum ThemeColor {
    Default,
    Named(AnsiColor),
    Indexed(u8),
    Rgb { r: u8, g: u8, b: u8 },
}

/// Host theme: named colors and named styles. A later entry for a key
/// replaces an earlier one.
#[derive(Debug)]
pub struct Theme {
    colors: Vec<(String, ThemeColor)>,
    styles: Vec<(String, StyleSpec)>,
}

/// The last entry for `key` among the first `n` entries.
pub open spec fn last_entry<V>(entries: Seq<(String, V)>, key: Seq<char>, n: int) -> Option<V>
    decreases n,
{
    if n <= 0 {
        None
    } else if entries[n - 1].0@ == key {
        Some(entries[n - 1].1)
    } else {
        last_entry(entries, key, n - 1)
    }
}

impl Theme {
    /// The color the theme assigns to `key`.
    pub closed spec fn color_of(&self, key: Seq<char>) -> Option<ThemeColor> {
        last_entry(self.colors@, key, self.colors@.len() as int)
    }

    /// The style the theme assigns to `key`.
    pub closed spec fn style_of(&self, key: Seq<char>) -> Option<StyleSpec> {
        last_entry(self.styles@, key, self.styles@.len() as int)
    }

    /// A theme with no colors and no styles.
    pub fn new() -> (r: Self)
        ensures
            forall|key: Seq<char>| #[trigger] r.color_of(key) is None && r.style_of(key) is None,
    {
        Theme { colors: Vec::new(), styles: Vec::new() }
    }

    /// Assigns `color` to `key`.
    pub fn with_color<K: Into<String>>(self, key: K, color: ThemeColor) -> (r: Self)
        ensures
            exists|k: String|
                {
                    &&& call_ensures(K::into, (key,), k)
                    &&& forall|q: Seq<char>|
                        #[trigger] r.color_of(q) == if q == k@ {
                            Some(color)
                        } else {
                            self.color_of(q)
                        }
                },
            forall|q: Seq<char>| #[trigger] r.style_of(q) == self.style_of(q),
    {
        let Theme { colors, styles } = self;
        let mut colors = colors;
        let k: String = key.into();
        let ghost key_view = k@;
        let ghost before = colors@;
        colors.push((k, color));
        proof {
            assert forall|q: Seq<char>| #[trigger] last_entry(colors@, q, colors@.len() as int) == if q
                == key_view {
                Some(color)
            } else {
                last_entry(before, q, before.len() as int)
            } by {
                lemma_last_entry_frame(before, colors@, q, before.len() as int);
            }
        }
        Theme { colors, styles }
    }

    /// Assigns `style` to `key`.
    pub fn with_style<K: Into<String>>(self, key: K, style: StyleSpec) -> (r: Self)
        ensures
            exists|k: String|
                {
                    &&& call_ensures(K::into, (key,), k)
                    &&& forall|q: Seq<char>|
                        #[trigger] r.style_of(q) == if q == k@ {
                            Some(style)
                        } else {
                            self.style_of(q)
                        }
                },
            forall|q: Seq<char>| #[trigger] r.color_of(q) == self.color_of(q),
    {
        let Theme { colors, styles } = self;
        let mut styles = styles;
        let k: String = key.into();
        let ghost key_view = k@;
        let ghost before = styles@;
        styles.push((k, style));
        proof {
            assert forall|q: Seq<char>| #[trigger] last_entry(styles@, q, styles@.len() as int) == if q
                == key_view {
                Some(style)
            } else {
                last_entry(before, q, before.len() as int)
            } by {
                lemma_last_entry_frame(before, styles@, q, before.len() as int);
            }
        }
        Theme { colors, styles }
    }

    /// The color assigned to `key`, if any.
    pub fn color(&self, key: &str) -> (r: Option<ThemeColor>)
        ensures
            r == self.color_of(key@),
    {
        let wanted: String = key.to_owned();
        let mut index = self.colors.len();
        while index > 0
            invariant
                0 <= index <= self.colors@.len(),
                wanted@ == key@,
                last_entry(self.colors@, key@, self.colors@.len() as int) == last_entry(
                    self.colors@,
                    key@,
                    index as int,
                ),
            decreases index,
        {
            let entry = &self.colors[index - 1];
            if entry.0 == wanted {
                return Some(entry.1);
            }
            index -= 1;
        }
        None
    }

    /// The style assigned to `key`, if any.
    pub fn style(&self, key: &str) -> (r: Option<&StyleSpec>)
        ensures
            match r {
                Some(style) => self.style_of(key@) == Some(*style),
                None => self.style_of(key@) is None,
            },
    {
        let wanted: String = key.to_owned();
        let mut index = self.styles.len();
        while index > 0
            invariant
                0 <= index <= self.styles@.len(),
                wanted@ == key@,
                last_entry(self.styles@, key@, self.styles@.len() as int) == last_entry(
                    self.styles@,
                    key@,
                    index as int,
                ),
            decreases index,
        {
            let entry = &self.styles[index - 1];
            if entry.0 == wanted {
                return Some(&entry.1);
            }
            index -= 1;
        }
        None
    }

    /// A copy of this theme that assigns the same colors and styles.
    pub fn duplicate(&self) -> (r: Self)
        ensures
            forall|q: Seq<char>| #[trigger] r.color_of(q) == self.color_of(q),
            forall|q: Seq<char>| #[trigger] r.style_of(q) == self.style_of(q),
    {
        let mut colors: Vec<(String, ThemeColor)> = Vec::new();
        let mut index: usize = 0;
        while index < self.colors.len()
            invariant
                0 <= index <= self.colors@.len(),
                colors@.len() == index,
                forall|i: int| 0 <= i < index ==> (#[trigger] colors@[i]).0@ == self.colors@[i].0@
                    && colors@[i].1 == self.colors@[i].1,
            decreases self.colors@.len() - index,
        {
            let entry = &self.colors[index];
            colors.push((entry.0.clone(), entry.1));
            index += 1;
        }
        let mut styles: Vec<(String, StyleSpec)> = Vec::new();
        let mut index: usize = 0;
        while index < self.styles.len()
            invariant
                0 <= index <= self.styles@.len(),
                styles@.len() == index,
                forall|i: int| 0 <= i < index ==> (#[trigger] styles@[i]).0@ == self.styles@[i].0@
                    && styles@[i].1 == self.styles@[i].1,
            decreases self.styles@.len() - index,
        {
            let entry = &self.styles[index];
            styles.push((entry.0.clone(), entry.1.duplicate()));
            index += 1;
        }
        proof {
            assert forall|q: Seq<char>| #[trigger] last_entry(colors@, q, colors@.len() as int)
                == last_entry(self.colors@, q, self.colors@.len() as int) by {
                lemma_last_entry_same(colors@, self.colors@, q, colors@.len() as int);
            }
            assert forall|q: Seq<char>| #[trigger] last_entry(styles@, q, styles@.len() as int)
                == last_entry(self.styles@, q, self.styles@.len() as int) by {
                lemma_last_entry_same(styles@, self.styles@, q, styles@.len() as int);
            }
        }
        Theme { colors, styles }
    }
}

proof fn lemma_last_entry_frame<V>(before: Seq<(String, V)>, after: Seq<(String, V)>, key: Seq<char>, n: int)
    requires
        0 <= n,
        after.len() == n + 1,
        forall|i: int| 0 <= i < n ==> after[i] == before[i],
    ensures
        last_entry(after, key, n + 1) == if after[n].0@ == key {
            Some(after[n].1)
        } else {
            last_entry(before, key, n)
        },
        last_entry(after, key, n) == last_entry(before, key, n),
    decreases n,
{
    if n > 0 {
        lemma_last_entry_frame(before, after.drop_last(), key, n - 1);
        assert(after.drop_last().drop_last() =~= after.drop_last().take(n - 1));
        lemma_last_entry_prefix(after, key, n);
        lemma_last_entry_prefix(after.drop_last(), key, n - 1);
    }
}

proof fn lemma_last_entry_prefix<V>(entries: Seq<(String, V)>, key: Seq<char>, n: int)
    requires
        0 <= n <= entries.len(),
    ensures
        last_entry(entries, key, n) == last_entry(entries.take(n), key, n),
    decreases n,
{
    if n > 0 {
        lemma_last_entry_prefix(entries, key, n - 1);
        lemma_last_entry_prefix(entries.take(n), key, n - 1);
        assert(entries.take(n).take(n - 1) =~= entries.take(n - 1));
    }
}

proof fn lemma_last_entry_same<V>(a: Seq<(String, V)>, b: Seq<(String, V)>, key: Seq<char>, n: int)
    requires
        0 <= n <= a.len(),
        n <= b.len(),
        forall|i: int| 0 <= i < n ==> (#[trigger] a[i]).0@ == b[i].0@ && a[i].1 == b[i].1,
    ensures
        last_entry(a, key, n) == last_entry(b, key, n),
    decreases n,
{
    if n > 0 {
        lemma_last_entry_same(a, b, key, n - 1);
    }
}

impl Default for Theme {
    fn default() -> (r: Self)
        ensures
            forall|key: Seq<char>| #[trigger] r.color_of(key) is None && r.style_of(key) is None,
    {
        Theme::new()
    }
}

/// A style patch that may first apply a named theme style.
#[derive(Clone, Debug, PartialEq, Eq)]
pub struct StyleRef {
    pub theme: Option<ThemeKey>,
    pub local: StyleSpec,
}

impl StyleRef {
    /// Only the named theme style `key`.
    pub fn theme<K: Into<ThemeKey>>(key: K) -> (r: Self)
        ensures
            r.local == StyleSpec::spec_empty(),
            r.theme matches Some(k) && call_ensures(K::into, (key,), k),
    {
        StyleRef { theme: Some(key.into()), local: StyleSpec::new() }
    }

    /// The named theme style `key`, then `local` over it.
    pub fn themed<K: Into<ThemeKey>>(key: K, local: StyleSpec) -> (r: Self)
        ensures
            r.local == local,
            r.theme matches Some(k) && call_ensures(K::into, (key,), k),
    {
        StyleRef { theme: Some(key.into()), local }
    }

    /// Only `local`, with no theme style.
    pub fn local(local: StyleSpec) -> (r: Self)
        ensures
            r == (StyleRef { theme: None, local }),
    {
        StyleRef { theme: None, local }
    }
}

/// The physical counterpart of a named color.
pub open spec fn spec_physical_ansi(color: AnsiColor) -> PhysicalAnsiColor {
    match color {
        AnsiColor::Black => PhysicalAnsiColor::Black,
        AnsiColor::Red => PhysicalAnsiColor::Red,
        AnsiColor::Green => PhysicalAnsiColor::Green,
        AnsiColor::Yellow => PhysicalAnsiColor::Yellow,
        AnsiColor::Blue => PhysicalAnsiColor::Blue,
        AnsiColor::Magenta => PhysicalAnsiColor::Magenta,
        AnsiColor::Cyan => PhysicalAnsiColor::Cyan,
        AnsiColor::Gray => PhysicalAnsiColor::Gray,
        AnsiColor::DarkGray => PhysicalAnsiColor::DarkGray,
        AnsiColor::LightRed => PhysicalAnsiColor::LightRed,
        AnsiColor::LightGreen => PhysicalAnsiColor::LightGreen,
        AnsiColor::LightYellow => PhysicalAnsiColor::LightYellow,
        AnsiColor::LightBlue => PhysicalAnsiColor::LightBlue,
        AnsiColor::LightMagenta => PhysicalAnsiColor::LightMagenta,
        AnsiColor::LightCyan => PhysicalAnsiColor::LightCyan,
        AnsiColor::White => PhysicalAnsiColor::White,
    }
}

/// The slot of a named semantic color in the terminal's sixteen-color
/// palette.
pub open spec fn palette_slot(color: AnsiColor) -> int {
    match color {
        AnsiColor::Black => 0,
        AnsiColor::Red => 1,
        AnsiColor::Green => 2,
        AnsiColor::Yellow => 3,
        AnsiColor::Blue => 4,
        AnsiColor::Magenta => 5,
        AnsiColor::Cyan => 6,
        AnsiColor::Gray => 7,
        AnsiColor::DarkGray => 8,
        AnsiColor::LightRed => 9,
        AnsiColor::LightGreen => 10,
        AnsiColor::LightYellow => 11,
        AnsiColor::LightBlue => 12,
        AnsiColor::LightMagenta => 13,
        AnsiColor::LightCyan => 14,
        AnsiColor::White => 15,
    }
}

/// The slot of a named physical color in the terminal's sixteen-color
/// palette.
pub open spec fn physical_palette_slot(color: PhysicalAnsiColor) -> int {
    match color {
        PhysicalAnsiColor::Black => 0,
        PhysicalAnsiColor::Red => 1,
        PhysicalAnsiColor::Green => 2,
        PhysicalAnsiColor::Yellow => 3,
        PhysicalAnsiColor::Blue => 4,
        PhysicalAnsiColor::Magenta => 5,
        PhysicalAnsiColor::Cyan => 6,
        PhysicalAnsiColor::Gray => 7,
        PhysicalAnsiColor::DarkGray => 8,
        PhysicalAnsiColor::LightRed => 9,
        PhysicalAnsiColor::LightGreen => 10,
        PhysicalAnsiColor::LightYellow => 11,
        PhysicalAnsiColor::LightBlue => 12,
        PhysicalAnsiColor::LightMagenta => 13,
        PhysicalAnsiColor::LightCyan => 14,
        PhysicalAnsiColor::White => 15,
    }
}

/// A named color keeps its name through resolution: naming it directly, or
/// through a theme color, resolves to the physical named color in the same
/// palette slot; and distinct names resolve to distinct physical colors.
pub proof fn lemma_named_colors_keep_their_names(theme: ThemeResolver, color: AnsiColor, other: AnsiColor)
    ensures
        theme.spec_resolve_color(ColorSpec::Named(color)) is Named,
        physical_palette_slot(theme.spec_resolve_color(ColorSpec::Named(color))->Named_0) == palette_slot(color),
        spec_physical_color(ThemeColor::Named(color)) == theme.spec_resolve_color(ColorSpec::Named(color)),
        color != other ==> theme.spec_resolve_color(ColorSpec::Named(color)) != theme.spec_resolve_color(
            ColorSpec::Named(other),
        ),
{
}

/// The physical counterpart of a theme color.
pub open spec fn spec_physical_color(color: ThemeColor) -> PhysicalColor {
    match color {
        ThemeColor::Default => PhysicalColor::Default,
        ThemeColor::Named(color) => PhysicalColor::Named(spec_physical_ansi(color)),
        ThemeColor::Indexed(value) => PhysicalColor::Indexed(value),
        ThemeColor::Rgb { r, g, b } => PhysicalColor::Rgb { r, g, b },
    }
}

fn to_physical_color(color: ThemeColor) -> (r: PhysicalColor)
    ensures
        r == spec_physical_color(color),
{
    match color {
        ThemeColor::Default => PhysicalColor::Default,
        ThemeColor::Named(color) => PhysicalColor::Named(to_physical_ansi(color)),
        ThemeColor::Indexed(value) => PhysicalColor::Indexed(value),
        ThemeColor::Rgb { r, g, b } => PhysicalColor::Rgb { r, g, b },
    }
}

fn to_physical_ansi(color: AnsiColor) -> (r: PhysicalAnsiColor)
    ensures
        r == spec_physical_ansi(color),
{
    match color {
        AnsiColor::Black => PhysicalAnsiColor::Black,
        AnsiColor::Red => PhysicalAnsiColor::Red,
        AnsiColor::Green => PhysicalAnsiColor::Green,
        AnsiColor::Yellow => PhysicalAnsiColor::Yellow,
        AnsiColor::Blue => PhysicalAnsiColor::Blue,
        AnsiColor::Magenta => PhysicalAnsiColor::Magenta,
        AnsiColor::Cyan => PhysicalAnsiColor::Cyan,
        AnsiColor::Gray => PhysicalAnsiColor::Gray,
        AnsiColor::DarkGray => PhysicalAnsiColor::DarkGray,
        AnsiColor::LightRed => PhysicalAnsiColor::LightRed,
        AnsiColor::LightGreen => PhysicalAnsiColor::LightGreen,
        AnsiColor::LightYellow => PhysicalAnsiColor::LightYellow,
        AnsiColor::LightBlue => PhysicalAnsiColor::LightBlue,
        AnsiColor::LightMagenta => PhysicalAnsiColor::LightMagenta,
        AnsiColor::LightCyan => PhysicalAnsiColor::LightCyan,
        AnsiColor::White => PhysicalAnsiColor::White,
    }
}

/// Resolves semantic styles against a theme.
#[derive(Debug)]
pub struct ThemeResolver {
    pub theme: Theme,
}

/// `value` if specified, else `current`.
pub open spec fn patched(current: bool, value: Option<bool>) -> bool {
    match value {
        Some(v) => v,
        None => current,
    }
}

impl ThemeResolver {
    /// The physical color `color` resolves to; a theme key without a color
    /// resolves to the terminal default.
    pub open spec fn spec_resolve_color(&self, color: ColorSpec) -> PhysicalColor {
        match color {
            ColorSpec::Ansi(value) => PhysicalColor::Indexed(value),
            ColorSpec::Named(color) => PhysicalColor::Named(spec_physical_ansi(color)),
            ColorSpec::Rgb { r, g, b } => PhysicalColor::Rgb { r, g, b },
            ColorSpec::Theme(key) => match self.theme.color_of(key@) {
                Some(color) => spec_physical_color(color),
                None => PhysicalColor::Default,
            },
        }
    }

    /// `resolved` with every field that `patch` specifies replaced.
    pub open spec fn spec_apply_style(&self, resolved: PhysicalStyle, patch: StyleSpec) -> PhysicalStyle {
        let attributes: TextAttributeSpec = patch.attributes;
        PhysicalStyle {
            foreground: match patch.foreground {
                Some(color) => Some(self.spec_resolve_color(color)),
                None => resolved.foreground,
            },
            background: match patch.background {
                Some(color) => Some(self.spec_resolve_color(color)),
                None => resolved.background,
            },
            bold: patched(resolved.bold, attributes.bold),
            dim: patched(resolved.dim, attributes.dim),
            italic: patched(resolved.italic, attributes.italic),
            underline: patched(resolved.underline, attributes.underline),
            reversed: patched(resolved.reversed, attributes.reversed),
        }
    }

    /// The cascade: the inherited style, then the named theme style (if the
    /// key names one), then the local patch.
    pub open spec fn spec_resolve_text_style(&self, inherited: PhysicalStyle, patch: StyleRef) -> PhysicalStyle {
        let themed = match patch.theme {
            Some(key) => match self.theme.style_of(key@) {
                Some(named) => self.spec_apply_style(inherited, named),
                None => inherited,
            },
            None => inherited,
        };
        self.spec_apply_style(themed, patch.local)
    }

    pub fn new(theme: &Theme) -> (r: Self)
        ensures
            forall|q: Seq<char>| #[trigger] r.theme.color_of(q) == theme.color_of(q),
            forall|q: Seq<char>| #[trigger] r.theme.style_of(q) == theme.style_of(q),
    {
        ThemeResolver { theme: theme.duplicate() }
    }

    pub fn resolve_text_style(&self, inherited: PhysicalStyle, patch: &StyleRef) -> (r: PhysicalStyle)
        ensures
            r == self.spec_resolve_text_style(inherited, *patch),
    {
        let mut resolved = inherited;
        if let Some(key) = &patch.theme {
            if let Some(named) = self.theme.style(key.as_str()) {
                resolved = self.apply_style(resolved, named);
            }
        }
        self.apply_style(resolved, &patch.local)
    }

    /// `resolved` with every field that the bare style `patch` specifies
    /// replaced.
    pub fn apply_style(&self, resolved: PhysicalStyle, patch: &StyleSpec) -> (r: PhysicalStyle)
        ensures
            r == self.spec_apply_style(resolved, *patch),
    {
        let mut resolved = resolved;
        if let Some(foreground) = &patch.foreground {
            resolved.foreground = Some(self.resolve_color(foreground));
        }
        if let Some(background) = &patch.background {
            resolved.background = Some(self.resolve_color(background));
        }
        if let Some(value) = patch.attributes.bold {
            resolved.bold = value;
        }
        if let Some(value) = patch.attributes.dim {
            resolved.dim = value;
        }
        if let Some(value) = patch.attributes.italic {
            resolved.italic = value;
        }
        if let Some(value) = patch.attributes.underline {
            resolved.underline = value;
        }
        if let Some(value) = patch.attributes.reversed {
            resolved.reversed = value;
        }
        resolved
    }

    pub fn resolve_color(&self, color: &ColorSpec) -> (r: PhysicalColor)
        ensures
            r == self.spec_resolve_color(*color),
    {
        match color {
            ColorSpec::Ansi(value) => PhysicalColor::Indexed(*value),
            ColorSpec::Named(color) => PhysicalColor::Named(to_physical_ansi(*color)),
            ColorSpec::Rgb { r, g, b } => PhysicalColor::Rgb { r: *r, g: *g, b: *b },
            ColorSpec::Theme(key) => match self.theme.color(key.as_str()) {
                Some(color) => to_physical_color(color),
                None => PhysicalColor::Default,
            },
        }
    }
}

impl Default for ThemeResolver {
    fn default() -> (r: Self)
        ensures
            forall|q: Seq<char>| #[trigger] r.theme.color_of(q) is None && r.theme.style_of(q) is None,
    {
        ThemeResolver::new(&Theme::default())
    }
}

/// An empty patch leaves a physical style unchanged.
pub proof fn lemma_apply_empty_is_identity(resolver: ThemeResolver, style: PhysicalStyle)
    ensures
        resolver.spec_apply_style(style, StyleSpec::spec_empty()) == style,
{
}

/// A field the local patch specifies wins over the named theme style and the
/// inherited style.
pub proof fn lemma_local_overrides_theme(
    resolver: ThemeResolver,
    inherited: PhysicalStyle,
    patch: StyleRef,
)
    ensures
        ({
            let r = resolver.spec_resolve_text_style(inherited, patch);
            &&& patch.local.foreground matches Some(c) ==> r.foreground == Some(resolver.spec_resolve_color(c))
            &&& patch.local.background matches Some(c) ==> r.background == Some(resolver.spec_resolve_color(c))
            &&& patch.local.attributes.bold matches Some(b) ==> r.bold == b
            &&& patch.local.attributes.dim matches Some(b) ==> r.dim == b
            &&& patch.local.attributes.italic matches Some(b) ==> r.italic == b
            &&& patch.local.attributes.underline matches Some(b) ==> r.underline == b
            &&& patch.local.attributes.reversed matches Some(b) ==> r.reversed == b
        }),
{
}

/// A theme key the theme does not know adds nothing to the cascade.
pub proof fn lemma_unknown_theme_key_is_ignored(resolver: ThemeResolver, inherited: PhysicalStyle, key: ThemeKey)
    requires
        resolver.theme.style_of(key@) is None,
    ensures
        resolver.spec_resolve_text_style(inherited, StyleRef { theme: Some(key), local: StyleSpec::spec_empty() })
            == inherited,
{
}

} // verus!
