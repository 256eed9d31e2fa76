use iyon_tui::physical::{lower_surface, PhysicalCell, PhysicalColor, PhysicalStyle, Surface};

fn painted(text: &str, style: PhysicalStyle) -> PhysicalCell {
    PhysicalCell { grapheme: Some(text.to_string()), style, painted: true, continuation: false }
}

fn bold() -> PhysicalStyle {
    PhysicalStyle { bold: true, ..PhysicalStyle::default() }
}

fn row_text(surface: &Surface, y: usize) -> String {
    lower_surface(surface)[y].spans.iter().map(|s| s.text.as_str()).collect()
}

#[test]
fn lowering_stops_at_the_last_painted_cell_and_joins_equal_styles() {
    let mut surface = Surface::new(5, 3);
    surface.set(0, 0, painted("a", bold()));
    surface.set(1, 0, painted("b", bold()));
    surface.set(0, 1, painted("a", bold()));
    surface.set(2, 1, painted("c", bold()));
    let rows = lower_surface(&surface);
    assert_eq!(rows.len(), 3);
    assert_eq!(rows[0].spans.len(), 1);
    assert_eq!(rows[0].spans[0].text, "ab");
    assert!(rows[0].spans[0].style.bold);
    assert_eq!(row_text(&surface, 1), "a c");
    assert_eq!(rows[1].spans.len(), 3);
    assert!(rows[2].spans.is_empty());
}

#[test]
fn lowering_skips_continuation_cells_of_wide_graphemes() {
    let mut surface = Surface::new(3, 1);
    surface.set(0, 0, painted("中", PhysicalStyle::default()));
    surface.set(
        1,
        0,
        PhysicalCell { grapheme: None, style: PhysicalStyle::default(), painted: true, continuation: true },
    );
    surface.set(2, 0, painted("x", PhysicalStyle::default()));
    assert_eq!(row_text(&surface, 0), "中x");
}

#[test]
fn composite_shows_painted_child_cells_and_lets_the_rest_through() {
    let mut parent = Surface::new(4, 2);
    parent.set(3, 1, painted("p", PhysicalStyle::default()));
    let mut child = Surface::new(2, 2);
    child.set(0, 0, painted("c", bold()));
    parent.composite(&child, 2, 1);
    assert_eq!(parent.get(2, 1).grapheme.as_deref(), Some("c"));
    assert_eq!(parent.get(3, 1).grapheme.as_deref(), Some("p"));
    assert!(parent.physically_complete());
    let mut incomplete = Surface::new(1, 1);
    incomplete.set_physically_complete(false);
    parent.composite(&incomplete, 0, 0);
    assert!(!parent.physically_complete());
}

#[test]
fn child_cells_past_the_parent_edge_are_dropped() {
    let mut parent = Surface::new(2, 1);
    let mut child = Surface::new(3, 1);
    child.set(0, 0, painted("a", PhysicalStyle::default()));
    child.set(2, 0, painted("z", PhysicalStyle::default()));
    parent.composite(&child, 1, 0);
    assert_eq!(row_text(&parent, 0), " a");
    assert_eq!(parent.width(), 2);
}

#[test]
fn background_fills_unpainted_cells_and_backs_painted_ones_without_their_own() {
    let color = PhysicalColor::Indexed(4);
    let own = PhysicalColor::Indexed(9);
    let mut surface = Surface::new(3, 1);
    surface.set(0, 0, painted("a", PhysicalStyle::default()));
    surface.set(1, 0, painted("b", PhysicalStyle { background: Some(own), ..PhysicalStyle::default() }));
    surface.apply_surface_background(color);
    assert_eq!(surface.get(0, 0).style.background, Some(color));
    assert_eq!(surface.get(1, 0).style.background, Some(own));
    let blank = surface.get(2, 0);
    assert!(blank.painted);
    assert_eq!(blank.grapheme, None);
    assert_eq!(blank.style.background, Some(color));
    assert_eq!(row_text(&surface, 0), "ab ");
}

#[test]
fn backing_twice_with_one_color_is_backing_once() {
    let color = PhysicalColor::Rgb { r: 9, g: 8, b: 7 };
    let mut once = Surface::new(2, 2);
    once.set(1, 1, painted("q", bold()));
    let mut twice = Surface::new(2, 2);
    twice.set(1, 1, painted("q", bold()));
    once.apply_surface_background(color);
    twice.apply_surface_background(color);
    twice.apply_surface_background(color);
    for y in 0..2 {
        for x in 0..2 {
            assert_eq!(once.get(x, y).style, twice.get(x, y).style);
            assert_eq!(once.get(x, y).grapheme, twice.get(x, y).grapheme);
            assert_eq!(once.get(x, y).painted, twice.get(x, y).painted);
        }
    }
}

#[test]
fn transparent_child_changes_nothing() {
    let mut parent = Surface::new(2, 2);
    parent.set(0, 0, painted("k", bold()));
    let child = Surface::new(2, 2);
    parent.composite(&child, 0, 0);
    assert_eq!(parent.get(0, 0).grapheme.as_deref(), Some("k"));
    assert!(!parent.get(1, 1).painted);
    assert!(parent.physically_complete());
}
