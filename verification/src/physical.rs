//! Physical terminal cell styles: what a painted cell finally carries after
//! the semantic style cascade has been resolved.

use vstd::prelude::*;

verus! {

/// The sixteen named terminal colors.
#[derive(Clone, Copy, Debug, PartialEq, Eq, Hash, Structural)]
pub enum PhysicalAnsiColor {
    Black,
    Red,
    Green,
    Yellow,
    Blue,
    Magenta,
    Cyan,
    Gray,
    DarkGray,
    LightRed,
    LightGreen,
    LightYellow,
    LightBlue,
    LightMagenta,
    LightCyan,
    White,
}

/// A concrete terminal color.
#[derive(Clone, Copy, Debug, PartialEq, Eq, Hash, Structural)]
pub enum PhysicalColor {
    /// The terminal's own default color.
    Default,
    Named(PhysicalAnsiColor),
    Indexed(u8),
    Rgb { r: u8, g: u8, b: u8 },
}

/// The resolved style of one terminal cell.
#[derive(Clone, Copy, Debug, PartialEq, Eq, Hash, Structural)]
pub struct PhysicalStyle {
    pub foreground: Option<PhysicalColor>,
    pub background: Option<PhysicalColor>,
    pub bold: bool,
    pub dim: bool,
    pub italic: bool,
    pub underline: bool,
    pub reversed: bool,
}

impl PhysicalStyle {
    /// No colors and no attributes.
    pub open spec fn spec_default() -> PhysicalStyle {
        PhysicalStyle {
            foreground: None,
            background: None,
            bold: false,
            dim: false,
            italic: false,
            underline: false,
            reversed: false,
        }
    }
}

impl Default for PhysicalStyle {
    fn default() -> (r: Self)
        ensures
            r == PhysicalStyle::spec_default(),
    {
        PhysicalStyle {
            foreground: None,
            background: None,
            bold: false,
            dim: false,
            italic: false,
            underline: false,
            reversed: false,
        }
    }
}

/// What a cell shows, as plain values: its grapheme's text, its style, whether
/// anything painted it, and whether it continues a wide grapheme to its left.
pub struct CellView {
    pub grapheme: Option<Seq<char>>,
    pub style: PhysicalStyle,
    pub painted: bool,
    pub continuation: bool,
}

/// One terminal cell of a surface.
pub struct PhysicalCell {
    pub grapheme: Option<String>,
    pub style: PhysicalStyle,
    pub painted: bool,
    pub continuation: bool,
}

impl View for PhysicalCell {
    type V = CellView;

    open spec fn view(&self) -> CellView {
        CellView {
            grapheme: match self.grapheme {
                Some(g) => Some(g@),
                None => None,
            },
            style: self.style,
            painted: self.painted,
            continuation: self.continuation,
        }
    }
}

/// The cell that nothing has painted yet.
pub open spec fn blank_cell() -> CellView {
    CellView { grapheme: None, style: PhysicalStyle::spec_default(), painted: false, continuation: false }
}

impl PhysicalCell {
    /// An unpainted cell with no grapheme and no style.
    pub fn blank() -> (r: Self)
        ensures
            r@ == blank_cell(),
    {
        PhysicalCell { grapheme: None, style: PhysicalStyle::default(), painted: false, continuation: false }
    }
}

/// `y * width + x` lies inside a `width` by `height` grid.
proof fn lemma_cell_index(width: int, height: int, x: int, y: int)
    requires
        0 <= x < width,
        0 <= y < height,
    ensures
        0 <= y * width + x < width * height,
{
    assert(y * width + x < width * height) by (nonlinear_arith)
        requires
            0 <= x < width,
            0 <= y < height,
    ;
    assert(0 <= y * width) by (nonlinear_arith)
        requires
            0 <= y,
            0 <= width,
    ;
}

/// Distinct positions of a grid row by row have distinct indices.
proof fn lemma_cell_index_distinct(width: int, x1: int, y1: int, x2: int, y2: int)
    requires
        0 <= x1 < width,
        0 <= x2 < width,
        0 <= y1,
        0 <= y2,
        x1 != x2 || y1 != y2,
    ensures
        y1 * width + x1 != y2 * width + x2,
{
    if y1 == y2 {
    } else if y1 < y2 {
        assert(y1 * width + x1 < y2 * width + x2) by (nonlinear_arith)
            requires
                0 <= x1 < width,
                0 <= x2,
                0 <= y1 < y2,
        ;
    } else {
        assert(y2 * width + x2 < y1 * width + x1) by (nonlinear_arith)
            requires
                0 <= x2 < width,
                0 <= x1,
                0 <= y2 < y1,
        ;
    }
}

/// What a surface shows, as plain values: its size, its cells row by row,
/// and whether everything meant for it could be shown at its width.
pub struct SurfaceView {
    pub width: nat,
    pub height: nat,
    pub rows: Seq<Seq<CellView>>,
    pub complete: bool,
}

impl SurfaceView {
    /// Every row holds `width` cells.
    pub open spec fn wf(self) -> bool {
        &&& self.rows.len() == self.height
        &&& forall|y: int| 0 <= y < self.height ==> (#[trigger] self.rows[y]).len() == self.width
    }
}

/// A fresh surface: blank cells, nothing left out.
pub open spec fn blank_surface(width: nat, height: nat) -> SurfaceView {
    SurfaceView {
        width,
        height,
        rows: Seq::new(height, |y: int| Seq::new(width, |x: int| blank_cell())),
        complete: true,
    }
}

/// `parent` with `child` laid over it at column `x`, row `y`: the child's
/// painted cells that land inside the parent replace what was there, its
/// unpainted cells let the parent show through. The result is complete
/// only when both were.
pub open spec fn composited(parent: SurfaceView, child: SurfaceView, x: int, y: int) -> SurfaceView {
    SurfaceView {
        width: parent.width,
        height: parent.height,
        rows: Seq::new(
            parent.height,
            |ty: int|
                Seq::new(
                    parent.width,
                    |tx: int|
                        if x <= tx < x + child.width && y <= ty < y + child.height && child.rows[ty
                            - y][tx - x].painted {
                            child.rows[ty - y][tx - x]
                        } else {
                            parent.rows[ty][tx]
                        },
                ),
        ),
        complete: parent.complete && child.complete,
    }
}

/// `cell` under a surface background `color`: an unpainted cell becomes a
/// painted blank of that background; a painted cell without a background
/// takes it; a cell with its own background keeps it.
pub open spec fn backed_cell(cell: CellView, color: PhysicalColor) -> CellView {
    if !cell.painted {
        CellView {
            grapheme: None,
            style: PhysicalStyle { background: Some(color), ..PhysicalStyle::spec_default() },
            painted: true,
            continuation: false,
        }
    } else if cell.style.background is None {
        CellView { style: PhysicalStyle { background: Some(color), ..cell.style }, ..cell }
    } else {
        cell
    }
}

/// `surface` with every cell backed by `color`.
pub open spec fn backed(surface: SurfaceView, color: PhysicalColor) -> SurfaceView {
    SurfaceView {
        rows: Seq::new(
            surface.height,
            |y: int| Seq::new(surface.width, |x: int| backed_cell(surface.rows[y][x], color)),
        ),
        ..surface
    }
}

impl Clone for PhysicalCell {
    fn clone(&self) -> (r: Self)
        ensures
            r@ == self@,
    {
        let grapheme = match &self.grapheme {
            Some(g) => Some(g.clone()),
            None => None,
        };
        PhysicalCell {
            grapheme,
            style: self.style,
            painted: self.painted,
            continuation: self.continuation,
        }
    }
}

/// A rectangle of terminal cells, stored row by row.
pub struct Surface {
    width: u16,
    height: u16,
    cells: Vec<PhysicalCell>,
    complete: bool,
}

impl View for Surface {
    type V = SurfaceView;

    closed spec fn view(&self) -> SurfaceView {
        SurfaceView {
            width: self.width as nat,
            height: self.height as nat,
            rows: Seq::new(
                self.height as nat,
                |y: int| Seq::new(self.width as nat, |x: int| self.cells@[y * self.width + x]@),
            ),
            complete: self.complete,
        }
    }
}

impl Surface {
    #[verifier::type_invariant]
    spec fn cells_fill_grid(self) -> bool {
        self.cells@.len() == self.width * self.height
    }

    /// The number of columns.
    pub open spec fn spec_width(&self) -> nat {
        self@.width
    }

    /// The number of rows.
    pub open spec fn spec_height(&self) -> nat {
        self@.height
    }

    /// The cell in column `x` of row `y`; meaningful inside the surface.
    pub open spec fn cell_at(&self, x: int, y: int) -> CellView {
        self@.rows[y][x]
    }

    /// The view of a surface is a grid of its size, with at most `u16::MAX`
    /// columns and rows.
    pub proof fn lemma_view_wf(&self)
        ensures
            self@.wf(),
            self@.width <= u16::MAX,
            self@.height <= u16::MAX,
    {
    }

    /// A surface whose size, completeness and cells match `view` shows it.
    proof fn lemma_view_from_cells(&self, view: SurfaceView)
        requires
            view.wf(),
            view.width == self@.width,
            view.height == self@.height,
            view.complete == self@.complete,
            forall|x: int, y: int|
                0 <= x < view.width && 0 <= y < view.height ==> #[trigger] self.cell_at(x, y) == view.rows[y][x],
        ensures
            self@ == view,
    {
        assert(self@.rows =~~= view.rows) by {
            assert forall|y: int| 0 <= y < view.height implies #[trigger] self@.rows[y] =~~= view.rows[y] by {
                assert forall|x: int| 0 <= x < view.width implies #[trigger] self@.rows[y][x] == view.rows[y][x] by {
                    assert(self.cell_at(x, y) == view.rows[y][x]);
                }
            }
        }
    }

    /// A surface of the given size whose cells are all blank.
    pub fn new(width: u16, height: u16) -> (r: Self)
        ensures
            r@ == blank_surface(width as nat, height as nat),
    {
        assert((width as int) * (height as int) <= 65535 * 65535) by (nonlinear_arith)
            requires
                width <= 65535,
                height <= 65535,
        ;
        let total: usize = (width as usize) * (height as usize);
        let mut cells: Vec<PhysicalCell> = Vec::new();
        let mut i: usize = 0;
        while i < total
            invariant
                i <= total,
                total == width * height,
                cells@.len() == i,
                forall|j: int| 0 <= j < i ==> #[trigger] cells@[j]@ == blank_cell(),
            decreases total - i,
        {
            cells.push(PhysicalCell::blank());
            i = i + 1;
        }
        let r = Surface { width, height, cells, complete: true };
        proof {
            assert forall|x: int, y: int| 0 <= x < width && 0 <= y < height implies #[trigger] r.cell_at(x, y)
                == blank_surface(width as nat, height as nat).rows[y][x] by {
                lemma_cell_index(width as int, height as int, x, y);
            }
            r.lemma_view_from_cells(blank_surface(width as nat, height as nat));
        }
        r
    }

    pub fn width(&self) -> (r: u16)
        ensures
            r == self@.width,
    {
        self.width
    }

    pub fn height(&self) -> (r: u16)
        ensures
            r == self@.height,
    {
        self.height
    }

    /// Whether everything meant for the surface could be shown at its width.
    pub fn physically_complete(&self) -> (r: bool)
        ensures
            r == self@.complete,
    {
        self.complete
    }

    /// Records whether everything meant for the surface could be shown.
    pub fn set_physically_complete(&mut self, complete: bool)
        ensures
            final(self)@ == (SurfaceView { complete, ..old(self)@ }),
    {
        proof {
            use_type_invariant(&*self);
        }
        self.complete = complete;
        proof {
            self.lemma_view_from_cells(SurfaceView { complete, ..old(self)@ });
        }
    }

    /// The cell in column `x` of row `y`.
    pub fn get(&self, x: u16, y: u16) -> (r: &PhysicalCell)
        requires
            x < self@.width,
            y < self@.height,
        ensures
            r@ == self.cell_at(x as int, y as int),
    {
        proof {
            use_type_invariant(self);
            lemma_cell_index(self.width as int, self.height as int, x as int, y as int);
        }
        assert((y as int) * (self.width as int) + (x as int) <= 65535 * 65535 + 65535) by (nonlinear_arith)
            requires
                y <= 65535,
                self.width <= 65535,
                x <= 65535,
        ;
        let index: usize = (y as usize) * (self.width as usize) + (x as usize);
        &self.cells[index]
    }

    /// Replaces the cell in column `x` of row `y`; every other cell stays.
    pub fn set(&mut self, x: u16, y: u16, cell: PhysicalCell)
        requires
            x < old(self)@.width,
            y < old(self)@.height,
        ensures
            final(self)@ == (SurfaceView {
                rows: old(self)@.rows.update(y as int, old(self)@.rows[y as int].update(x as int, cell@)),
                ..old(self)@
            }),
            final(self).cell_at(x as int, y as int) == cell@,
            forall|cx: int, cy: int|
                0 <= cx < old(self)@.width && 0 <= cy < old(self)@.height && (cx != x || cy != y)
                    ==> #[trigger] final(self).cell_at(cx, cy) == old(self).cell_at(cx, cy),
    {
        proof {
            use_type_invariant(&*self);
            lemma_cell_index(self.width as int, self.height as int, x as int, y as int);
        }
        assert((y as int) * (self.width as int) + (x as int) <= 65535 * 65535 + 65535) by (nonlinear_arith)
            requires
                y <= 65535,
                self.width <= 65535,
                x <= 65535,
        ;
        let index: usize = (y as usize) * (self.width as usize) + (x as usize);
        let ghost width = self.width as int;
        let ghost cell_view = cell@;
        let mut taken = Surface { width: 0, height: 0, cells: Vec::new(), complete: true };
        std::mem::swap(&mut taken, self);
        let Surface { width: w, height: h, cells: mut cells, complete } = taken;
        cells.set(index, cell);
        *self = Surface { width: w, height: h, cells, complete };
        proof {
            let expected = SurfaceView {
                rows: old(self)@.rows.update(y as int, old(self)@.rows[y as int].update(x as int, cell_view)),
                ..old(self)@
            };
            assert forall|cx: int, cy: int|
                0 <= cx < old(self)@.width && 0 <= cy < old(self)@.height && (cx != x || cy != y) implies #[trigger] self.cell_at(cx, cy)
                == old(self).cell_at(cx, cy) by {
                lemma_cell_index_distinct(width, cx, cy, x as int, y as int);
                lemma_cell_index(width, self.height as int, cx, cy);
            }
            assert forall|cx: int, cy: int|
                0 <= cx < expected.width && 0 <= cy < expected.height implies #[trigger] self.cell_at(cx, cy)
                == expected.rows[cy][cx] by {
                if cx != x || cy != y {
                    assert(self.cell_at(cx, cy) == old(self).cell_at(cx, cy));
                }
            }
            self.lemma_view_from_cells(expected);
        }
    }

    /// Lays `child` over this surface at column `x`, row `y`; see
    /// [`composited`].
    pub fn composite(&mut self, child: &Surface, x: u16, y: u16)
        ensures
            final(self)@ == composited(old(self)@, child@, x as int, y as int),
    {
        if !child.complete {
            self.set_physically_complete(false);
        }
        let ghost start = *old(self);
        let ghost target = composited(start@, child@, x as int, y as int);
        let child_width = child.width();
        let child_height = child.height();
        let mut cy: u16 = 0;
        while cy < child_height
            invariant
                cy <= child_height,
                child_width == child@.width,
                child_height == child@.height,
                target == composited(start@, child@, x as int, y as int),
                self@.width == start@.width,
                self@.height == start@.height,
                self@.complete == target.complete,
                forall|tx: int, ty: int|
                    0 <= tx < start@.width && 0 <= ty < start@.height ==> #[trigger] self.cell_at(tx, ty) == if y
                        <= ty < y + cy {
                        target.rows[ty][tx]
                    } else {
                        start.cell_at(tx, ty)
                    },
            decreases child_height - cy,
        {
            let ty = y.saturating_add(cy);
            if ty < self.height() {
                let ghost row_start = *self;
                let mut cx: u16 = 0;
                while cx < child_width
                    invariant
                        cx <= child_width,
                        cy < child_height,
                        child_width == child@.width,
                        child_height == child@.height,
                        ty == y + cy,
                        ty < start@.height,
                        self@.width == start@.width,
                        self@.height == start@.height,
                        self@.complete == row_start@.complete,
                        forall|tx: int, ry: int|
                            0 <= tx < start@.width && 0 <= ry < start@.height ==> #[trigger] self.cell_at(tx, ry)
                                == if ry == ty && x <= tx < x + cx && child.cell_at(tx - x, cy as int).painted {
                                child.cell_at(tx - x, cy as int)
                            } else {
                                row_start.cell_at(tx, ry)
                            },
                    decreases child_width - cx,
                {
                    let tx = x.saturating_add(cx);
                    if tx < self.width() {
                        let source = child.get(cx, cy);
                        if source.painted {
                            let copy = source.clone();
                            self.set(tx, ty, copy);
                        }
                    }
                    cx = cx + 1;
                }
            }
            cy = cy + 1;
        }
        proof {
            child.lemma_view_wf();
            start.lemma_view_wf();
            self.lemma_view_from_cells(target);
        }
    }

    /// Backs every cell with `color`; see [`backed`].
    pub fn apply_surface_background(&mut self, color: PhysicalColor)
        ensures
            final(self)@ == backed(old(self)@, color),
    {
        let ghost start = *old(self);
        let width = self.width();
        let height = self.height();
        let mut y: u16 = 0;
        while y < height
            invariant
                y <= height,
                width == start@.width,
                height == start@.height,
                self@.width == start@.width,
                self@.height == start@.height,
                self@.complete == start@.complete,
                forall|cx: int, cy: int|
                    0 <= cx < start@.width && 0 <= cy < start@.height ==> #[trigger] self.cell_at(cx, cy) == if cy
                        < y {
                        backed_cell(start.cell_at(cx, cy), color)
                    } else {
                        start.cell_at(cx, cy)
                    },
            decreases height - y,
        {
            let mut x: u16 = 0;
            while x < width
                invariant
                    x <= width,
                    y < height,
                    width == start@.width,
                    height == start@.height,
                    self@.width == start@.width,
                    self@.height == start@.height,
                    self@.complete == start@.complete,
                    forall|cx: int, cy: int|
                        0 <= cx < start@.width && 0 <= cy < start@.height ==> #[trigger] self.cell_at(cx, cy)
                            == if cy < y || (cy == y && cx < x) {
                            backed_cell(start.cell_at(cx, cy), color)
                        } else {
                            start.cell_at(cx, cy)
                        },
                decreases width - x,
            {
                let cell = self.get(x, y);
                if !cell.painted {
                    let fresh = PhysicalCell {
                        grapheme: None,
                        style: PhysicalStyle { background: Some(color), ..PhysicalStyle::default() },
                        painted: true,
                        continuation: false,
                    };
                    self.set(x, y, fresh);
                } else if cell.style.background.is_none() {
                    let mut backed = cell.clone();
                    backed.style.background = Some(color);
                    self.set(x, y, backed);
                }
                x = x + 1;
            }
            y = y + 1;
        }
        proof {
            start.lemma_view_wf();
            self.lemma_view_from_cells(backed(start@, color));
        }
    }
}

/// A run of text in one style on a physical row.
#[derive(Debug, PartialEq)]
pub struct PhysicalSpan {
    pub text: String,
    pub style: PhysicalStyle,
}

/// One physical row as styled runs of text, left to right.
#[derive(Debug, PartialEq)]
pub struct PhysicalLine {
    pub spans: Vec<PhysicalSpan>,
}

impl Clone for PhysicalSpan {
    fn clone(&self) -> (r: Self)
        ensures
            r == *self,
    {
        PhysicalSpan { text: self.text.clone(), style: self.style }
    }
}

impl Clone for PhysicalLine {
    fn clone(&self) -> (r: Self)
        ensures
            r.spans@ == self.spans@,
    {
        let spans = self.spans.clone();
        proof {
            assert forall|i: int| 0 <= i < self.spans@.len() implies spans@[i] == self.spans@[i] by {
                assert(cloned(self.spans[i], spans[i]));
            }
            assert(spans@ =~= self.spans@);
        }
        PhysicalLine { spans }
    }
}

/// The text and style of each span.
pub open spec fn span_views(spans: Seq<PhysicalSpan>) -> Seq<(Seq<char>, PhysicalStyle)> {
    spans.map_values(|s: PhysicalSpan| (s.text@, s.style))
}

/// `spans` with `piece` added at the end: joined to the last span when the
/// styles are equal, else as a span of its own.
pub open spec fn merge_step(spans: Seq<(Seq<char>, PhysicalStyle)>, piece: (Seq<char>, PhysicalStyle)) -> Seq<
    (Seq<char>, PhysicalStyle),
> {
    if spans.len() > 0 && spans.last().1 == piece.1 {
        spans.update(spans.len() - 1, (spans.last().0 + piece.0, piece.1))
    } else {
        spans.push(piece)
    }
}

/// The first `n` pieces joined into spans, neighbours of one style joined.
pub open spec fn merged(pieces: Seq<(Seq<char>, PhysicalStyle)>, n: int) -> Seq<(Seq<char>, PhysicalStyle)>
    decreases n,
{
    if n <= 0 {
        Seq::empty()
    } else {
        merge_step(merged(pieces, n - 1), pieces[n - 1])
    }
}

/// Adds `text` in `style` at the end of `spans`; see [`merge_step`].
pub fn push_merged(spans: &mut Vec<PhysicalSpan>, text: &str, style: PhysicalStyle)
    ensures
        span_views(final(spans)@) == merge_step(span_views(old(spans)@), (text@, style)),
{
    let n = spans.len();
    if n > 0 && spans[n - 1].style == style {
        let mut last = spans.pop().unwrap();
        last.text.append(text);
        spans.push(last);
        proof {
            assert(span_views(spans@) =~= merge_step(span_views(old(spans)@), (text@, style)));
        }
    } else {
        spans.push(PhysicalSpan { text: text.to_string(), style });
        proof {
            assert(span_views(spans@) =~= merge_step(span_views(old(spans)@), (text@, style)));
        }
    }
}

/// The column after the last cell among the first `n` of `row` that is
/// painted and starts a grapheme; 0 when there is none.
pub open spec fn shown_end(row: Seq<CellView>, n: int) -> int
    decreases n,
{
    if n <= 0 {
        0
    } else if row[n - 1].painted && !row[n - 1].continuation {
        n
    } else {
        shown_end(row, n - 1)
    }
}

/// The pieces the first `n` cells of `row` show: each cell that starts a
/// grapheme, as its grapheme (a space where it has none) in its style.
pub open spec fn cell_pieces(row: Seq<CellView>, n: int) -> Seq<(Seq<char>, PhysicalStyle)>
    decreases n,
{
    if n <= 0 {
        Seq::empty()
    } else {
        let cell = row[n - 1];
        if cell.continuation {
            cell_pieces(row, n - 1)
        } else {
            cell_pieces(row, n - 1).push(
                (
                    match cell.grapheme {
                        Some(g) => g,
                        None => seq![' '],
                    },
                    cell.style,
                ),
            )
        }
    }
}

/// A row of cells lowered to styled text: everything up to its last shown
/// cell, runs of one style joined; nothing for a row with no shown cell.
pub open spec fn lowered_row(row: Seq<CellView>) -> Seq<(Seq<char>, PhysicalStyle)> {
    let end = shown_end(row, row.len() as int);
    merged(cell_pieces(row, end), cell_pieces(row, end).len() as int)
}

proof fn lemma_shown_end_bounds(row: Seq<CellView>, n: int)
    requires
        0 <= n,
    ensures
        0 <= shown_end(row, n) <= n,
        shown_end(row, n) > 0 ==> row[shown_end(row, n) - 1].painted && !row[shown_end(row, n) - 1].continuation,
        forall|k: int| shown_end(row, n) <= k < n ==> !(#[trigger] row[k].painted && !row[k].continuation),
    decreases n,
{
    if n > 0 {
        lemma_shown_end_bounds(row, n - 1);
    }
}

/// The rows of `surface` as styled text; see [`lowered_row`].
pub fn lower_surface(surface: &Surface) -> (r: Vec<PhysicalLine>)
    ensures
        r@.len() == surface@.height,
        forall|y: int| 0 <= y < surface@.height ==> span_views((#[trigger] r@[y]).spans@) == lowered_row(surface@.rows[y]),
{
    let width = surface.width();
    let height = surface.height();
    proof {
        surface.lemma_view_wf();
    }
    let mut rows: Vec<PhysicalLine> = Vec::new();
    let mut y: u16 = 0;
    while y < height
        invariant
            y <= height,
            width == surface@.width,
            height == surface@.height,
            surface@.wf(),
            rows@.len() == y,
            forall|k: int| 0 <= k < y ==> span_views((#[trigger] rows@[k]).spans@) == lowered_row(surface@.rows[k]),
        decreases height - y,
    {
        let ghost row = surface@.rows[y as int];
        let mut end: u16 = width;
        while end > 0 && !(surface.get(end - 1, y).painted && !surface.get(end - 1, y).continuation)
            invariant
                end <= width,
                y < height,
                width == surface@.width,
                height == surface@.height,
                surface@.wf(),
                row == surface@.rows[y as int],
                shown_end(row, end as int) == shown_end(row, width as int),
            decreases end,
        {
            end = end - 1;
        }
        let ghost pieces = cell_pieces(row, end as int);
        let mut spans: Vec<PhysicalSpan> = Vec::new();
        let ghost mut count: int = 0;
        let mut x: u16 = 0;
        while x < end
            invariant
                x <= end <= width,
                y < height,
                width == surface@.width,
                height == surface@.height,
                surface@.wf(),
                row == surface@.rows[y as int],
                count == cell_pieces(row, x as int).len(),
                span_views(spans@) == merged(cell_pieces(row, x as int), count),
            decreases end - x,
        {
            let cell = surface.get(x, y);
            proof {
                assert(cell@ == row[x as int]);
            }
            if !cell.continuation {
                let ghost before = cell_pieces(row, x as int);
                match &cell.grapheme {
                    Some(g) => {
                        push_merged(&mut spans, g.as_str(), cell.style);
                    },
                    None => {
                        proof {
                            assert(" "@ =~= seq![' ']) by {
                                reveal_strlit(" ");
                            }
                        }
                        push_merged(&mut spans, " ", cell.style);
                    },
                }
                proof {
                    let after = cell_pieces(row, x + 1);
                    assert(after == before.push(after.last()));
                    assert(after.drop_last() =~= before);
                    assert(merged(after, count + 1) == merge_step(merged(after, count), after[count]));
                    assert forall|m: int| m <= count implies merged(after, m) == merged(before, m) by {
                        lemma_merged_prefix(after, before, m);
                    }
                    count = count + 1;
                }
            }
            x = x + 1;
        }
        proof {
            assert(end as int == shown_end(row, end as int)) by {
                if end > 0 {
                    assert(row[end - 1] == surface@.rows[y as int][end - 1]);
                }
            }
        }
        let ghost before = rows@;
        rows.push(PhysicalLine { spans });
        proof {
            assert forall|k: int| 0 <= k < y + 1 implies span_views((#[trigger] rows@[k]).spans@) == lowered_row(
                surface@.rows[k],
            ) by {
                if k < y {
                    assert(rows@[k] == before[k]);
                }
            }
        }
        y = y + 1;
    }
    rows
}

/// Merging depends only on the pieces merged.
proof fn lemma_merged_prefix(
    a: Seq<(Seq<char>, PhysicalStyle)>,
    b: Seq<(Seq<char>, PhysicalStyle)>,
    m: int,
)
    requires
        m <= b.len(),
        m <= a.len(),
        forall|i: int| 0 <= i < m ==> a[i] == b[i],
    ensures
        merged(a, m) == merged(b, m),
    decreases m,
{
    if m > 0 {
        lemma_merged_prefix(a, b, m - 1);
    }
}

/// Backing a surface twice with one color is backing it once.
pub proof fn lemma_background_idempotent(surface: SurfaceView, color: PhysicalColor)
    requires
        surface.wf(),
    ensures
        backed(backed(surface, color), color) == backed(surface, color),
{
    assert(backed(backed(surface, color), color).rows =~~= backed(surface, color).rows);
}

/// A child with no painted cell, nothing left out, laid over a surface
/// leaves it as it was.
pub proof fn lemma_transparent_child_changes_nothing(parent: SurfaceView, child: SurfaceView, x: int, y: int)
    requires
        parent.wf(),
        child.wf(),
        child.complete,
        forall|cx: int, cy: int|
            0 <= cx < child.width && 0 <= cy < child.height ==> !(#[trigger] child.rows[cy][cx]).painted,
    ensures
        composited(parent, child, x, y) == parent,
{
    assert(composited(parent, child, x, y).rows =~~= parent.rows);
}

} // verus!
