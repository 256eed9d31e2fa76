//! Border painting onto a physical surface.

use crate::physical::{CellView, PhysicalCell, PhysicalStyle, Surface};
use crate::style::BorderSpec;
use crate::theme::ThemeResolver;
use crate::unicode::{graphemes, spec_graphemes, string_views};
use vstd::prelude::*;

verus! {

/// The style of border cells before each keeps its own backing: the border's
/// color over no attributes where it has one, else the inherited style; in
/// either case without a background, which belongs to what lies beneath.
pub open spec fn spec_border_style(
    border: BorderSpec,
    theme: ThemeResolver,
    inherited: PhysicalStyle,
) -> PhysicalStyle {
    let base = match border.color {
        Some(color) => PhysicalStyle {
            foreground: Some(theme.spec_resolve_color(color)),
            ..PhysicalStyle::spec_default()
        },
        None => inherited,
    };
    PhysicalStyle { background: None, ..base }
}

/// The graphemes of the border's top label; none where it has no label.
pub open spec fn label_graphemes(border: BorderSpec) -> Seq<Seq<char>> {
    match border.top_label {
        Some(label) => spec_graphemes(label@),
        None => Seq::empty(),
    }
}

/// The text a border leaves in column `x` of row `y` of a `width` by `height`
/// surface, or `None` where it leaves the cell alone. Corners win over the
/// label, the label over the top-left corner, and the corners and the label
/// over the edges; of two edges that meet, right wins over left, and left
/// over bottom and top.
pub open spec fn border_glyph_at(
    border: BorderSpec,
    width: int,
    height: int,
    x: int,
    y: int,
) -> Option<Seq<char>> {
    let edges = border.edges;
    let glyphs = border.glyphs;
    let labels = label_graphemes(border);
    let last_x = width - 1;
    let last_y = height - 1;
    if edges.bottom && edges.right && x == last_x && y == last_y {
        Some(glyphs.bottom_right@)
    } else if edges.bottom && edges.left && x == 0 && y == last_y {
        Some(glyphs.bottom_left@)
    } else if edges.top && edges.right && x == last_x && y == 0 {
        Some(glyphs.top_right@)
    } else if edges.top && y == 0 && x < labels.len() {
        Some(labels[x])
    } else if edges.top && edges.left && x == 0 && y == 0 {
        Some(glyphs.top_left@)
    } else if edges.right && x == last_x {
        Some(glyphs.right@)
    } else if edges.left && x == 0 {
        Some(glyphs.left@)
    } else if edges.bottom && y == last_y {
        Some(glyphs.bottom@)
    } else if edges.top && y == 0 {
        Some(glyphs.top@)
    } else {
        None
    }
}

/// `cell` once a border glyph is painted over it: the glyph, in `style`
/// over the cell's own background, painted and not a continuation.
pub open spec fn painted_cell(cell: CellView, glyph: Seq<char>, style: PhysicalStyle) -> CellView {
    CellView {
        grapheme: Some(glyph),
        style: PhysicalStyle { background: cell.style.background, ..style },
        painted: true,
        continuation: false,
    }
}

/// `cell` after the border: painted where the border leaves a glyph.
pub open spec fn after_border(cell: CellView, glyph: Option<Seq<char>>, style: PhysicalStyle) -> CellView {
    match glyph {
        Some(g) => painted_cell(cell, g, style),
        None => cell,
    }
}

fn border_style(border: &BorderSpec, theme: &ThemeResolver, inherited: PhysicalStyle) -> (r:
    PhysicalStyle)
    ensures
        r == spec_border_style(*border, *theme, inherited),
{
    let mut style = match &border.color {
        Some(color) => PhysicalStyle {
            foreground: Some(theme.resolve_color(color)),
            ..PhysicalStyle::default()
        },
        None => inherited,
    };
    style.background = None;
    style
}

/// Paints `grapheme` into column `x` of row `y`, over the cell's background;
/// outside the surface nothing changes.
fn set_cell(surface: &mut Surface, x: u16, y: u16, grapheme: String, style: PhysicalStyle)
    ensures
        final(surface)@.complete == old(surface)@.complete,
        final(surface).spec_width() == old(surface).spec_width(),
        final(surface).spec_height() == old(surface).spec_height(),
        forall|cx: int, cy: int|
            0 <= cx < old(surface).spec_width() && 0 <= cy < old(surface).spec_height() ==> #[trigger] final(surface).cell_at(cx, cy) == if cx == x && cy == y {
                painted_cell(old(surface).cell_at(cx, cy), grapheme@, style)
            } else {
                old(surface).cell_at(cx, cy)
            },
{
    if x >= surface.width() || y >= surface.height() {
        return;
    }
    let mut style = style;
    style.background = surface.get(x, y).style.background;
    let cell = PhysicalCell { grapheme: Some(grapheme), style, painted: true, continuation: false };
    surface.set(x, y, cell);
}

/// Paints `glyph` into every cell of row `y`.
fn paint_row(surface: &mut Surface, y: u16, glyph: &String, style: PhysicalStyle)
    requires
        y < old(surface).spec_height(),
    ensures
        final(surface)@.complete == old(surface)@.complete,
        final(surface).spec_width() == old(surface).spec_width(),
        final(surface).spec_height() == old(surface).spec_height(),
        forall|cx: int, cy: int|
            0 <= cx < old(surface).spec_width() && 0 <= cy < old(surface).spec_height() ==> #[trigger] final(surface).cell_at(cx, cy) == if cy == y {
                painted_cell(old(surface).cell_at(cx, cy), glyph@, style)
            } else {
                old(surface).cell_at(cx, cy)
            },
{
    let ghost start = *surface;
    let width = surface.width();
    let mut x: u16 = 0;
    while x < width
        invariant
            x <= width,
            width == start.spec_width(),
            surface.spec_width() == start.spec_width(),
            surface.spec_height() == start.spec_height(),
            surface@.complete == start@.complete,
            y < start.spec_height(),
            forall|cx: int, cy: int|
                0 <= cx < start.spec_width() && 0 <= cy < start.spec_height() ==> #[trigger] surface.cell_at(cx, cy) == if cy == y && cx < x {
                    painted_cell(start.cell_at(cx, cy), glyph@, style)
                } else {
                    start.cell_at(cx, cy)
                },
        decreases width - x,
    {
        set_cell(surface, x, y, glyph.clone(), style);
        x = x + 1;
    }
}

/// Paints `glyph` into every cell of column `x`.
fn paint_column(surface: &mut Surface, x: u16, glyph: &String, style: PhysicalStyle)
    requires
        x < old(surface).spec_width(),
    ensures
        final(surface)@.complete == old(surface)@.complete,
        final(surface).spec_width() == old(surface).spec_width(),
        final(surface).spec_height() == old(surface).spec_height(),
        forall|cx: int, cy: int|
            0 <= cx < old(surface).spec_width() && 0 <= cy < old(surface).spec_height() ==> #[trigger] final(surface).cell_at(cx, cy) == if cx == x {
                painted_cell(old(surface).cell_at(cx, cy), glyph@, style)
            } else {
                old(surface).cell_at(cx, cy)
            },
{
    let ghost start = *surface;
    let height = surface.height();
    let mut y: u16 = 0;
    while y < height
        invariant
            y <= height,
            height == start.spec_height(),
            surface.spec_width() == start.spec_width(),
            surface.spec_height() == start.spec_height(),
            surface@.complete == start@.complete,
            x < start.spec_width(),
            forall|cx: int, cy: int|
                0 <= cx < start.spec_width() && 0 <= cy < start.spec_height() ==> #[trigger] surface.cell_at(cx, cy) == if cx == x && cy < y {
                    painted_cell(start.cell_at(cx, cy), glyph@, style)
                } else {
                    start.cell_at(cx, cy)
                },
        decreases height - y,
    {
        set_cell(surface, x, y, glyph.clone(), style);
        y = y + 1;
    }
}

/// Paints the label's graphemes one per cell along the top row, as far as
/// the surface reaches.
fn paint_label(surface: &mut Surface, labels: &Vec<String>, style: PhysicalStyle)
    requires
        0 < old(surface).spec_height(),
    ensures
        final(surface)@.complete == old(surface)@.complete,
        final(surface).spec_width() == old(surface).spec_width(),
        final(surface).spec_height() == old(surface).spec_height(),
        forall|cx: int, cy: int|
            0 <= cx < old(surface).spec_width() && 0 <= cy < old(surface).spec_height() ==> #[trigger] final(surface).cell_at(cx, cy) == if cy == 0 && cx < labels@.len() {
                painted_cell(old(surface).cell_at(cx, cy), labels@[cx]@, style)
            } else {
                old(surface).cell_at(cx, cy)
            },
{
    let ghost start = *surface;
    let width = surface.width();
    let mut i: usize = 0;
    while i < labels.len()
        invariant
            i <= labels@.len(),
            width == start.spec_width(),
            surface.spec_width() == start.spec_width(),
            surface.spec_height() == start.spec_height(),
            surface@.complete == start@.complete,
            0 < start.spec_height(),
            forall|cx: int, cy: int|
                0 <= cx < start.spec_width() && 0 <= cy < start.spec_height() ==> #[trigger] surface.cell_at(cx, cy) == if cy == 0 && cx < i {
                    painted_cell(start.cell_at(cx, cy), labels@[cx]@, style)
                } else {
                    start.cell_at(cx, cy)
                },
        ensures
            surface.spec_width() == start.spec_width(),
            surface.spec_height() == start.spec_height(),
            surface@.complete == start@.complete,
            forall|cx: int, cy: int|
                0 <= cx < start.spec_width() && 0 <= cy < start.spec_height() ==> #[trigger] surface.cell_at(cx, cy) == if cy == 0 && cx < labels@.len() {
                    painted_cell(start.cell_at(cx, cy), labels@[cx]@, style)
                } else {
                    start.cell_at(cx, cy)
                },
        decreases labels@.len() - i,
    {
        if i >= width as usize {
            break;
        }
        set_cell(surface, i as u16, 0, labels[i].clone(), style);
        i = i + 1;
    }
}

/// Paints `border` around the edge of `surface`: the edge glyphs along the
/// edges it has, the top label over the top row, then the corners where two
/// of its edges meet. Each painted cell keeps its own background and takes
/// the border style; cells the border does not reach stay as they were.
#[verifier::spinoff_prover]
#[verifier::rlimit(40)]
pub fn paint_border(
    surface: &mut Surface,
    border: &BorderSpec,
    theme: &ThemeResolver,
    inherited: PhysicalStyle,
)
    ensures
        final(surface)@.complete == old(surface)@.complete,
        final(surface).spec_width() == old(surface).spec_width(),
        final(surface).spec_height() == old(surface).spec_height(),
        forall|x: int, y: int|
            0 <= x < old(surface).spec_width() && 0 <= y < old(surface).spec_height() ==> #[trigger] final(surface).cell_at(x, y) == after_border(
                old(surface).cell_at(x, y),
                border_glyph_at(
                    *border,
                    old(surface).spec_width() as int,
                    old(surface).spec_height() as int,
                    x,
                    y,
                ),
                spec_border_style(*border, *theme, inherited),
            ),
{
    if surface.width() == 0 || surface.height() == 0 {
        return;
    }
    let style = border_style(border, theme, inherited);
    let edges = border.edges;
    let glyphs = &border.glyphs;
    let last_x = surface.width() - 1;
    let last_y = surface.height() - 1;
    let ghost s0 = *surface;

    if edges.top {
        paint_row(surface, 0, &glyphs.top, style);
    }
    let ghost s1 = *surface;
    if edges.bottom {
        paint_row(surface, last_y, &glyphs.bottom, style);
    }
    let ghost s2 = *surface;
    if edges.left {
        paint_column(surface, 0, &glyphs.left, style);
    }
    let ghost s3 = *surface;
    if edges.right {
        paint_column(surface, last_x, &glyphs.right, style);
    }
    let ghost s4 = *surface;
    if edges.top && edges.left {
        set_cell(surface, 0, 0, glyphs.top_left.clone(), style);
    }
    let ghost s5 = *surface;
    let ghost labels: Seq<Seq<char>> = Seq::empty();
    if edges.top {
        if let Some(label) = &border.top_label {
            let pieces = graphemes(label.as_str());
            proof {
                labels = string_views(pieces@);
            }
            paint_label(surface, &pieces, style);
        }
    }
    let ghost s6 = *surface;
    if edges.top && edges.right {
        set_cell(surface, last_x, 0, glyphs.top_right.clone(), style);
    }
    let ghost s7 = *surface;
    if edges.bottom && edges.left {
        set_cell(surface, 0, last_y, glyphs.bottom_left.clone(), style);
    }
    let ghost s8 = *surface;
    if edges.bottom && edges.right {
        set_cell(surface, last_x, last_y, glyphs.bottom_right.clone(), style);
    }
    proof {
        assert(edges.top ==> labels == label_graphemes(*border));
        assert forall|x: int, y: int|
            0 <= x < s0.spec_width() && 0 <= y < s0.spec_height() implies #[trigger] surface.cell_at(x, y)
            == after_border(
                s0.cell_at(x, y),
                border_glyph_at(*border, s0.spec_width() as int, s0.spec_height() as int, x, y),
                style,
            ) by {
            let _ = s1.cell_at(x, y);
            let _ = s2.cell_at(x, y);
            let _ = s3.cell_at(x, y);
            let _ = s4.cell_at(x, y);
            let _ = s5.cell_at(x, y);
            let _ = s6.cell_at(x, y);
            let _ = s7.cell_at(x, y);
            let _ = s8.cell_at(x, y);
        }
    }
}

} // verus!
