use iyon_tui::paint_tree::{LayoutContent, LayoutNode, LayoutNodeId, LayoutTree, Rect};
use iyon_tui::physical::{PhysicalCell, PhysicalColor, PhysicalStyle, Surface};
use iyon_tui::style::{BorderSpec, ColorSpec};
use iyon_tui::text_compile::ViewCompiler;
use iyon_tui::view::Decoration;

fn rect(x: u16, y: u16, width: u16, height: u16) -> Rect {
    Rect { x, y, width, height }
}

fn leaf(text: &str) -> Surface {
    let width = text.chars().count() as u16;
    let mut surface = Surface::new(width, 1);
    for (x, c) in text.chars().enumerate() {
        surface.set(
            x as u16,
            0,
            PhysicalCell { grapheme: Some(c.to_string()), style: PhysicalStyle::default(), painted: true, continuation: false },
        );
    }
    surface
}

fn node(area: Rect, content: LayoutContent, children: Vec<usize>) -> LayoutNode {
    LayoutNode {
        rect: area,
        content_rect: area,
        children: children.into_iter().map(LayoutNodeId).collect(),
        decoration: Decoration::default(),
        content,
    }
}

fn row_text(surface: &Surface, y: u16) -> String {
    let mut text = String::new();
    for x in 0..surface.width() {
        match &surface.get(x, y).grapheme {
            Some(g) => text.push_str(g),
            None => text.push(' '),
        }
    }
    text
}

#[test]
fn children_are_painted_at_their_places() {
    let tree = LayoutTree {
        root: LayoutNodeId(0),
        nodes: vec![
            node(rect(0, 0, 5, 3), LayoutContent::Children, vec![1, 2, 3]),
            node(rect(0, 0, 2, 1), LayoutContent::Text, vec![]),
            node(rect(0, 1, 5, 1), LayoutContent::Spacer { rows: 1 }, vec![]),
            node(rect(2, 2, 3, 1), LayoutContent::Text, vec![]),
        ],
        physically_complete: true,
    };
    let leaves = vec![None, Some(leaf("ab")), None, Some(leaf("xyz"))];
    let surface = ViewCompiler::default().paint_tree(&tree, &leaves);
    assert_eq!(surface.width(), 5);
    assert_eq!(surface.height(), 3);
    assert_eq!(row_text(&surface, 0), "ab   ");
    assert_eq!(row_text(&surface, 1), "     ");
    assert_eq!(row_text(&surface, 2), "  xyz");
    assert!(surface.physically_complete());
}

#[test]
fn border_and_background_decorate_the_node() {
    let mut root = node(rect(0, 0, 4, 3), LayoutContent::Children, vec![1]);
    root.decoration.border = Some(BorderSpec::plain());
    root.decoration.surface_background = Some(ColorSpec::Ansi(4));
    root.content_rect = rect(1, 1, 2, 1);
    let tree = LayoutTree {
        root: LayoutNodeId(0),
        nodes: vec![root, node(rect(1, 1, 2, 1), LayoutContent::Text, vec![])],
        physically_complete: false,
    };
    let leaves = vec![None, Some(leaf("hi"))];
    let surface = ViewCompiler::default().paint_tree(&tree, &leaves);
    assert_eq!(row_text(&surface, 0), "┌──┐");
    assert_eq!(row_text(&surface, 1), "│hi│");
    assert_eq!(row_text(&surface, 2), "└──┘");
    assert_eq!(surface.get(1, 1).style.background, Some(PhysicalColor::Indexed(4)));
    assert!(!surface.physically_complete());
}

#[test]
fn clamp_shows_its_indicator_when_the_child_overflows() {
    let tree = LayoutTree {
        root: LayoutNodeId(0),
        nodes: vec![
            node(rect(0, 0, 3, 2), LayoutContent::Clamp, vec![1]),
            node(rect(0, 0, 3, 3), LayoutContent::Children, vec![2, 3]),
            node(rect(0, 0, 3, 1), LayoutContent::Text, vec![]),
            node(rect(0, 1, 3, 1), LayoutContent::Text, vec![]),
        ],
        physically_complete: true,
    };
    let leaves = vec![Some(leaf("…")), None, Some(leaf("one")), Some(leaf("two"))];
    let surface = ViewCompiler::default().paint_tree(&tree, &leaves);
    assert_eq!(row_text(&surface, 0), "one");
    assert_eq!(row_text(&surface, 1), "…  ");
    assert!(!surface.get(1, 1).painted);
}

#[test]
fn viewport_shows_its_child_from_the_skipped_rows() {
    let tree = LayoutTree {
        root: LayoutNodeId(0),
        nodes: vec![
            node(rect(0, 0, 3, 1), LayoutContent::RowViewport { skip_rows: 1 }, vec![1]),
            node(rect(0, 0, 3, 2), LayoutContent::Children, vec![2, 3]),
            node(rect(0, 0, 3, 1), LayoutContent::Text, vec![]),
            node(rect(0, 1, 3, 1), LayoutContent::Text, vec![]),
        ],
        physically_complete: true,
    };
    let leaves = vec![None, None, Some(leaf("one")), Some(leaf("two"))];
    let surface = ViewCompiler::default().paint_tree(&tree, &leaves);
    assert_eq!(surface.height(), 1);
    assert_eq!(row_text(&surface, 0), "two");
}
