//! Painting of a laid-out view tree onto a surface.
//!
//! Every node of the tree carries its outer rectangle and its content
//! rectangle in root coordinates, its decoration and what it holds. A node
//! is painted on a surface of its outer size: its content (a painted text
//! leaf, a spacer, its children in order, a clamped child with its overflow
//! indicator, or a vertical window onto its one child), then its surface
//! background, then its border. Text leaves and overflow indicators arrive
//! already painted, one surface per node.

use crate::decoration::{after_border, border_glyph_at, paint_border, spec_border_style};
use crate::physical::{backed, blank_cell, blank_surface, composited, PhysicalCell, PhysicalStyle, Surface, SurfaceView};
use crate::text_compile::ViewCompiler;
use crate::theme::ThemeResolver;
use crate::view::Decoration;
use vstd::prelude::*;

verus! {

/// A rectangle of terminal cells in root coordinates.
#[derive(Debug, Clone, Copy, PartialEq, Eq, Structural)]
pub struct Rect {
    pub x: u16,
    pub y: u16,
    pub width: u16,
    pub height: u16,
}

/// The index of a node in its layout tree.
#[derive(Debug, Clone, Copy, PartialEq, Eq, Structural)]
pub struct LayoutNodeId(pub usize);

/// What a laid-out node holds.
#[derive(Debug, Clone, Copy, PartialEq, Eq, Structural)]
pub enum LayoutContent {
    /// A text leaf; its painted text comes with the tree.
    Text,
    /// Vertical space of `rows` rows.
    Spacer { rows: u16 },
    /// Child nodes, painted in order.
    Children,
    /// A clamped child; when it overflows, the last row shows the node's
    /// overflow indicator, which comes painted with the tree.
    Clamp,
    /// A window onto its one child, starting `skip_rows` rows down.
    RowViewport { skip_rows: u16 },
}

/// One laid-out node.
#[derive(Debug)]
pub struct LayoutNode {
    pub rect: Rect,
    pub content_rect: Rect,
    pub children: Vec<LayoutNodeId>,
    pub decoration: Decoration,
    pub content: LayoutContent,
}

/// A laid-out view tree.
#[derive(Debug)]
pub struct LayoutTree {
    pub root: LayoutNodeId,
    pub nodes: Vec<LayoutNode>,
    pub physically_complete: bool,
}

/// `rank` orders the tree: every child lies in the tree and ranks below its
/// parent.
pub open spec fn ranked(tree: LayoutTree, rank: Seq<nat>) -> bool {
    &&& rank.len() == tree.nodes@.len()
    &&& forall|i: int, k: int|
        0 <= i < tree.nodes@.len() && 0 <= k < tree.nodes@[i].children@.len() ==> {
            let c = (#[trigger] tree.nodes@[i].children@[k]).0 as int;
            0 <= c < tree.nodes@.len() && rank[c] < rank[i]
        }
}

/// An order of the tree, where it has one.
pub open spec fn tree_rank(tree: LayoutTree) -> Seq<nat> {
    choose|rank: Seq<nat>| ranked(tree, rank)
}

/// The painted leaves as surfaces.
pub open spec fn leaf_views(leaves: Seq<Option<Surface>>) -> Seq<Option<SurfaceView>> {
    leaves.map_values(
        |leaf: Option<Surface>|
            match leaf {
                Some(s) => Some(s@),
                None => None,
            },
    )
}

/// A tree that can be painted with `leaves`: its root is a node, it has no
/// cycle, every text node has its painted text, every overflow indicator
/// has a row, and every viewport has its child.
pub open spec fn valid_tree(tree: LayoutTree, leaves: Seq<Option<SurfaceView>>) -> bool {
    &&& tree.root.0 < tree.nodes@.len()
    &&& leaves.len() == tree.nodes@.len()
    &&& exists|rank: Seq<nat>| ranked(tree, rank)
    &&& forall|i: int|
        0 <= i < tree.nodes@.len() ==> {
            &&& (#[trigger] tree.nodes@[i]).content is Text ==> leaves[i] is Some
            &&& tree.nodes@[i].content is Clamp && leaves[i] is Some ==> leaves[i]->0.height > 0
            &&& tree.nodes@[i].content is RowViewport ==> tree.nodes@[i].children@.len() > 0
        }
}

/// `a - b`, or zero where `b` is larger.
pub open spec fn sat_sub(a: u16, b: u16) -> int {
    if a >= b {
        a - b
    } else {
        0
    }
}

/// The smaller of `a` and `b`.
pub open spec fn min_u16(a: u16, b: u16) -> u16 {
    if a <= b {
        a
    } else {
        b
    }
}

/// `s` with `border` painted around its edge.
pub open spec fn bordered(
    s: SurfaceView,
    border: crate::style::BorderSpec,
    theme: ThemeResolver,
    inherited: PhysicalStyle,
) -> SurfaceView {
    SurfaceView {
        rows: Seq::new(
            s.height,
            |y: int|
                Seq::new(
                    s.width,
                    |x: int|
                        after_border(
                            s.rows[y][x],
                            border_glyph_at(border, s.width as int, s.height as int, x, y),
                            spec_border_style(border, theme, inherited),
                        ),
                ),
        ),
        ..s
    }
}

/// `s` with its last row replaced by the first row of `indicator`, padded
/// with blank cells.
pub open spec fn with_indicator(s: SurfaceView, indicator: SurfaceView) -> SurfaceView {
    SurfaceView {
        rows: s.rows.update(
            s.height - 1,
            Seq::new(s.width, |x: int| if x < indicator.width { indicator.rows[0][x] } else { blank_cell() }),
        ),
        ..s
    }
}

/// `base` showing `child` from row `skip` down, as far as both reach; the
/// result is complete as the child is.
pub open spec fn viewport(base: SurfaceView, child: SurfaceView, skip: u16) -> SurfaceView {
    SurfaceView {
        rows: Seq::new(
            base.height,
            |y: int|
                Seq::new(
                    base.width,
                    |x: int|
                        if skip + y < child.height && x < child.width {
                            child.rows[skip + y][x]
                        } else {
                            base.rows[y][x]
                        },
                ),
        ),
        complete: child.complete,
        ..base
    }
}

/// The style a node's content inherits.
pub open spec fn node_style(theme: ThemeResolver, inherited: PhysicalStyle, node: LayoutNode) -> PhysicalStyle {
    theme.spec_apply_style(inherited, node.decoration.text_style)
}

/// `s` under the node's surface background and border.
pub open spec fn decorated(
    s: SurfaceView,
    theme: ThemeResolver,
    decoration: Decoration,
    resolved: PhysicalStyle,
) -> SurfaceView {
    let backed_surface = match decoration.surface_background {
        Some(color) => backed(s, theme.spec_resolve_color(color)),
        None => s,
    };
    match decoration.border {
        Some(border) => bordered(backed_surface, border, theme, resolved),
        None => backed_surface,
    }
}

/// Whether the first child of clamp node `id` is taller than the node.
pub open spec fn overflows(tree: LayoutTree, id: int) -> bool {
    let node = tree.nodes@[id];
    node.children@.len() > 0 && tree.nodes@[node.children@[0].0 as int].rect.height > node.rect.height
}

/// The first `k` children of node `id` painted in order on a blank surface
/// of the node's size, each at its place relative to the node.
pub open spec fn painted_children(
    tree: LayoutTree,
    leaves: Seq<Option<SurfaceView>>,
    theme: ThemeResolver,
    id: int,
    resolved: PhysicalStyle,
    k: int,
) -> SurfaceView
    decreases tree_rank(tree)[id], 0int, k,
    when ranked(tree, tree_rank(tree)) && 0 <= id < tree.nodes@.len() && k <= tree.nodes@[id].children@.len()
{
    let node = tree.nodes@[id];
    if k <= 0 {
        blank_surface(node.rect.width as nat, node.rect.height as nat)
    } else {
        let c = node.children@[k - 1].0 as int;
        let child = tree.nodes@[c];
        composited(
            painted_children(tree, leaves, theme, id, resolved, k - 1),
            painted_node(tree, leaves, theme, c, resolved),
            sat_sub(child.rect.x, node.rect.x),
            sat_sub(child.rect.y, node.rect.y),
        )
    }
}

/// Node `id` painted over `inherited`.
pub open spec fn painted_node(
    tree: LayoutTree,
    leaves: Seq<Option<SurfaceView>>,
    theme: ThemeResolver,
    id: int,
    inherited: PhysicalStyle,
) -> SurfaceView
    decreases tree_rank(tree)[id], 1int, 0int,
    when ranked(tree, tree_rank(tree)) && 0 <= id < tree.nodes@.len()
{
    let node = tree.nodes@[id];
    let resolved = node_style(theme, inherited, node);
    let base = blank_surface(node.rect.width as nat, node.rect.height as nat);
    let cx = sat_sub(node.content_rect.x, node.rect.x);
    let cy = sat_sub(node.content_rect.y, node.rect.y);
    let content = match node.content {
        LayoutContent::Text => match leaves[id] {
            Some(text) => composited(base, text, cx, cy),
            None => base,
        },
        LayoutContent::Spacer { rows } => composited(
            base,
            blank_surface(
                node.content_rect.width as nat,
                min_u16(rows, node.content_rect.height) as nat,
            ),
            cx,
            cy,
        ),
        LayoutContent::Children => painted_children(
            tree,
            leaves,
            theme,
            id,
            resolved,
            node.children@.len() as int,
        ),
        LayoutContent::Clamp => {
            let children = painted_children(tree, leaves, theme, id, resolved, node.children@.len() as int);
            if overflows(tree, id) && children.height > 0 && leaves[id] is Some {
                with_indicator(children, leaves[id]->0)
            } else {
                children
            }
        },
        LayoutContent::RowViewport { skip_rows } => if node.rect.width != 0 && node.rect.height != 0
            && node.children@.len() > 0 {
            viewport(base, painted_node(tree, leaves, theme, node.children@[0].0 as int, resolved), skip_rows)
        } else {
            base
        },
    };
    decorated(content, theme, node.decoration, resolved)
}

/// Two surfaces of one size that agree cell by cell and on completeness
/// are equal.
proof fn lemma_surface_ext(a: SurfaceView, b: SurfaceView)
    requires
        a.wf(),
        b.wf(),
        a.width == b.width,
        a.height == b.height,
        a.complete == b.complete,
        forall|x: int, y: int| 0 <= x < a.width && 0 <= y < a.height ==> #[trigger] a.rows[y][x] == b.rows[y][x],
    ensures
        a == b,
{
    assert forall|y: int| 0 <= y < a.height implies #[trigger] a.rows[y] == b.rows[y] by {
        assert(a.rows[y] =~= b.rows[y]);
    }
    assert(a.rows =~= b.rows);
}

impl ViewCompiler {
    /// Paints `tree` over the style `inherited`: the root node as
    /// [`painted_node`] states, complete as the tree is.
    pub fn paint_tree_with_style(
        &self,
        tree: &LayoutTree,
        leaves: &Vec<Option<Surface>>,
        inherited: PhysicalStyle,
    ) -> (r: Surface)
        requires
            valid_tree(*tree, leaf_views(leaves@)),
        ensures
            r@ == (SurfaceView {
                complete: tree.physically_complete,
                ..painted_node(*tree, leaf_views(leaves@), self.theme, tree.root.0 as int, inherited)
            }),
    {
        let mut surface = self.paint_node(tree, leaves, tree.root.0, inherited);
        surface.set_physically_complete(tree.physically_complete);
        surface
    }

    /// Paints `tree` over the terminal's default style.
    pub fn paint_tree(&self, tree: &LayoutTree, leaves: &Vec<Option<Surface>>) -> (r: Surface)
        requires
            valid_tree(*tree, leaf_views(leaves@)),
        ensures
            r@ == (SurfaceView {
                complete: tree.physically_complete,
                ..painted_node(
                    *tree,
                    leaf_views(leaves@),
                    self.theme,
                    tree.root.0 as int,
                    PhysicalStyle::spec_default(),
                )
            }),
    {
        self.paint_tree_with_style(tree, leaves, PhysicalStyle::default())
    }

    fn paint_node(&self, tree: &LayoutTree, leaves: &Vec<Option<Surface>>, id: usize, inherited: PhysicalStyle) -> (r:
        Surface)
        requires
            valid_tree(*tree, leaf_views(leaves@)),
            id < tree.nodes@.len(),
        ensures
            r@ == painted_node(*tree, leaf_views(leaves@), self.theme, id as int, inherited),
        decreases tree_rank(*tree)[id as int], 1int, 0int,
    {
        proof {
            assert(ranked(*tree, tree_rank(*tree)));
        }
        let node = &tree.nodes[id];
        let resolved = self.theme.apply_style(inherited, &node.decoration.text_style);
        let mut output = Surface::new(node.rect.width, node.rect.height);
        let cx = if node.content_rect.x >= node.rect.x { node.content_rect.x - node.rect.x } else { 0 };
        let cy = if node.content_rect.y >= node.rect.y { node.content_rect.y - node.rect.y } else { 0 };
        match node.content {
            LayoutContent::Text => {
                match &leaves[id] {
                    Some(text) => {
                        proof {
                            assert(leaf_views(leaves@)[id as int] == Some(text@));
                        }
                        output.composite(text, cx, cy);
                    },
                    None => {},
                }
            },
            LayoutContent::Spacer { rows } => {
                let height = if rows <= node.content_rect.height { rows } else { node.content_rect.height };
                let painted = Surface::new(node.content_rect.width, height);
                output.composite(&painted, cx, cy);
            },
            LayoutContent::Children => {
                self.paint_children(tree, leaves, id, resolved, &mut output);
            },
            LayoutContent::Clamp => {
                self.paint_children(tree, leaves, id, resolved, &mut output);
                let overflowing = node.children.len() > 0 && tree.nodes[node.children[0].0].rect.height
                    > node.rect.height;
                if overflowing && output.height() > 0 {
                    match &leaves[id] {
                        Some(indicator) => {
                            proof {
                                assert(leaf_views(leaves@)[id as int] == Some(indicator@));
                            }
                            paint_indicator(&mut output, indicator);
                        },
                        None => {},
                    }
                }
            },
            LayoutContent::RowViewport { skip_rows } => {
                if output.width() != 0 && output.height() != 0 {
                    let child = node.children[0].0;
                    let painted = self.paint_node(tree, leaves, child, resolved);
                    paint_viewport(&mut output, &painted, skip_rows);
                }
            },
        }
        match &node.decoration.surface_background {
            Some(color) => {
                let resolved_color = self.theme.resolve_color(color);
                output.apply_surface_background(resolved_color);
            },
            None => {},
        }
        match &node.decoration.border {
            Some(border) => {
                let ghost before = output@;
                let ghost before_surface = output;
                paint_border(&mut output, border, &self.theme, resolved);
                proof {
                    output.lemma_view_wf();
                    before_surface.lemma_view_wf();
                    assert forall|x: int, y: int| 0 <= x < output@.width && 0 <= y < output@.height implies #[trigger] output@.rows[y][x]
                        == bordered(before, *border, self.theme, resolved).rows[y][x] by {
                        assert(output.cell_at(x, y) == output@.rows[y][x]);
                        assert(before_surface.cell_at(x, y) == before.rows[y][x]);
                    }
                    lemma_surface_ext(output@, bordered(before, *border, self.theme, resolved));
                }
            },
            None => {},
        }
        output
    }

    fn paint_children(
        &self,
        tree: &LayoutTree,
        leaves: &Vec<Option<Surface>>,
        id: usize,
        resolved: PhysicalStyle,
        output: &mut Surface,
    )
        requires
            valid_tree(*tree, leaf_views(leaves@)),
            id < tree.nodes@.len(),
            old(output)@ == blank_surface(
                tree.nodes@[id as int].rect.width as nat,
                tree.nodes@[id as int].rect.height as nat,
            ),
        ensures
            final(output)@ == painted_children(
                *tree,
                leaf_views(leaves@),
                self.theme,
                id as int,
                resolved,
                tree.nodes@[id as int].children@.len() as int,
            ),
        decreases tree_rank(*tree)[id as int], 0int, 0int,
    {
        proof {
            assert(ranked(*tree, tree_rank(*tree)));
        }
        let node = &tree.nodes[id];
        let mut k: usize = 0;
        while k < node.children.len()
            invariant
                valid_tree(*tree, leaf_views(leaves@)),
                ranked(*tree, tree_rank(*tree)),
                id < tree.nodes@.len(),
                *node == tree.nodes@[id as int],
                k <= node.children@.len(),
                output@ == painted_children(*tree, leaf_views(leaves@), self.theme, id as int, resolved, k as int),
            decreases node.children@.len() - k,
        {
            let c = node.children[k].0;
            proof {
                assert(0 <= c < tree.nodes@.len() && tree_rank(*tree)[c as int] < tree_rank(*tree)[id as int]);
            }
            let child = &tree.nodes[c];
            let painted = self.paint_node(tree, leaves, c, resolved);
            let x = if child.rect.x >= node.rect.x { child.rect.x - node.rect.x } else { 0 };
            let y = if child.rect.y >= node.rect.y { child.rect.y - node.rect.y } else { 0 };
            output.composite(&painted, x, y);
            k = k + 1;
        }
    }
}

/// Replaces the last row of `output` with the first row of `indicator`,
/// padded with blank cells.
fn paint_indicator(output: &mut Surface, indicator: &Surface)
    requires
        old(output)@.height > 0,
        indicator@.height > 0,
    ensures
        final(output)@ == with_indicator(old(output)@, indicator@),
{
    let ghost start = output@;
    proof {
        old(output).lemma_view_wf();
        indicator.lemma_view_wf();
    }
    let width = output.width();
    let row = output.height() - 1;
    let mut x: u16 = 0;
    while x < width
        invariant
            x <= width,
            width == start.width,
            row == start.height - 1,
            indicator@.height > 0,
            start.wf(),
            indicator@.wf(),
            output@.width == start.width,
            output@.height == start.height,
            output@.complete == start.complete,
            forall|cx: int, cy: int|
                0 <= cx < start.width && 0 <= cy < start.height ==> #[trigger] output.cell_at(cx, cy) == if cy == row
                    && cx < x {
                    with_indicator(start, indicator@).rows[cy][cx]
                } else {
                    start.rows[cy][cx]
                },
        decreases width - x,
    {
        let cell = if x < indicator.width() {
            indicator.get(x, 0).clone()
        } else {
            PhysicalCell::blank()
        };
        proof {
            assert(cell@ == with_indicator(start, indicator@).rows[row as int][x as int]);
        }
        output.set(x, row, cell);
        x = x + 1;
    }
    proof {
        output.lemma_view_wf();
        assert forall|cx: int, cy: int| 0 <= cx < start.width && 0 <= cy < start.height implies #[trigger] output@.rows[cy][cx]
            == with_indicator(start, indicator@).rows[cy][cx] by {
            assert(output.cell_at(cx, cy) == output@.rows[cy][cx]);
        }
        lemma_surface_ext(output@, with_indicator(start, indicator@));
    }
}

/// Shows `child` in `output` from row `skip` down, as far as both reach.
fn paint_viewport(output: &mut Surface, child: &Surface, skip: u16)
    ensures
        final(output)@ == viewport(old(output)@, child@, skip),
{
    let ghost start = output@;
    proof {
        old(output).lemma_view_wf();
        child.lemma_view_wf();
    }
    let width = output.width();
    let height = output.height();
    let shown = if width <= child.width() { width } else { child.width() };
    let mut y: u16 = 0;
    while y < height
        invariant
            y <= height,
            width == start.width,
            height == start.height,
            shown as int == min_u16(width, child@.width as u16),
            child@.width <= u16::MAX,
            child@.height <= u16::MAX,
            start.wf(),
            child@.wf(),
            output@.width == start.width,
            output@.height == start.height,
            output@.complete == start.complete,
            forall|cx: int, cy: int|
                0 <= cx < start.width && 0 <= cy < start.height ==> #[trigger] output.cell_at(cx, cy) == if cy < y {
                    viewport(start, child@, skip).rows[cy][cx]
                } else {
                    start.rows[cy][cx]
                },
        decreases height - y,
    {
        let source_y: u32 = skip as u32 + y as u32;
        if source_y < child.height() as u32 {
            let ghost row_start = output@;
            let mut x: u16 = 0;
            while x < shown
                invariant
                    x <= shown,
                    y < height,
                    source_y == skip + y,
                    source_y < child@.height,
                    shown as int == min_u16(width, child@.width as u16),
                    child@.width <= u16::MAX,
                    child@.height <= u16::MAX,
                    start.wf(),
                    child@.wf(),
                    width == start.width,
                    height == start.height,
                    output@.width == start.width,
                    output@.height == start.height,
                    output@.complete == start.complete,
                    forall|cx: int, cy: int|
                        0 <= cx < start.width && 0 <= cy < start.height ==> #[trigger] output.cell_at(cx, cy) == if cy
                            < y || (cy == y && cx < x) {
                            viewport(start, child@, skip).rows[cy][cx]
                        } else {
                            start.rows[cy][cx]
                        },
                decreases shown - x,
            {
                let sy = source_y as u16;
                proof {
                    assert(sy as int == source_y as int);
                }
                let got = child.get(x, sy);
                let cell = got.clone();
                proof {
                    assert(x < child@.width && x < start.width);
                    assert((skip as int) + (y as int) < child@.height);
                    assert(y < start.height);
                    assert(got@ == child.cell_at(x as int, sy as int));
                    assert(cell@ == got@);
                    assert(child.cell_at(x as int, source_y as int) == child@.rows[skip + y][x as int]);
                    assert(cell@ == viewport(start, child@, skip).rows[y as int][x as int]);
                }
                output.set(x, y, cell);
                x = x + 1;
            }
            proof {
                assert forall|cx: int| 0 <= cx < start.width implies #[trigger] output.cell_at(cx, y as int)
                    == viewport(start, child@, skip).rows[y as int][cx] by {
                    if cx >= x {
                        assert(viewport(start, child@, skip).rows[y as int][cx] == start.rows[y as int][cx]);
                    }
                }
            }
        } else {
            proof {
                assert forall|cx: int| 0 <= cx < start.width implies #[trigger] output.cell_at(cx, y as int)
                    == viewport(start, child@, skip).rows[y as int][cx] by {
                    assert(viewport(start, child@, skip).rows[y as int][cx] == start.rows[y as int][cx]);
                }
            }
        }
        y = y + 1;
    }
    let ghost cells_done = *output;
    output.set_physically_complete(child.physically_complete());
    proof {
        assert forall|cx: int, cy: int| 0 <= cx < start.width && 0 <= cy < start.height implies #[trigger] output.cell_at(cx, cy)
            == viewport(start, child@, skip).rows[cy][cx] by {
            assert(output.cell_at(cx, cy) == cells_done.cell_at(cx, cy));
        }
        output.lemma_view_wf();
        old(output).lemma_view_wf();
        assert forall|cx: int, cy: int| 0 <= cx < start.width && 0 <= cy < start.height implies #[trigger] output@.rows[cy][cx]
            == viewport(start, child@, skip).rows[cy][cx] by {
            assert(output.cell_at(cx, cy) == output@.rows[cy][cx]);
        }
        lemma_surface_ext(output@, viewport(start, child@, skip));
    }
}

} // verus!
