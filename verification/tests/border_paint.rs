use iyon_tui::decoration::paint_border;
use iyon_tui::physical::{PhysicalCell, PhysicalColor, PhysicalStyle, Surface};
use iyon_tui::style::{BorderEdges, BorderGlyphs, BorderSpec, ColorSpec};
use iyon_tui::theme::{Theme, ThemeResolver};

fn resolver() -> ThemeResolver {
    ThemeResolver::new(&Theme::new())
}

fn glyph(surface: &Surface, x: u16, y: u16) -> Option<String> {
    surface.get(x, y).grapheme.clone()
}

fn row_text(surface: &Surface, y: u16) -> String {
    let mut text = String::new();
    for x in 0..surface.width() {
        match &surface.get(x, y).grapheme {
            Some(g) => text.push_str(g),
            None => text.push(' '),
        }
    }
    text
}

#[test]
fn plain_border_draws_edges_and_corners_and_leaves_the_inside() {
    let mut surface = Surface::new(4, 3);
    paint_border(&mut surface, &BorderSpec::plain(), &resolver(), PhysicalStyle::default());
    assert_eq!(row_text(&surface, 0), "┌──┐");
    assert_eq!(row_text(&surface, 1), "│  │");
    assert_eq!(row_text(&surface, 2), "└──┘");
    assert!(surface.get(0, 0).painted);
    assert!(!surface.get(1, 1).painted);
    assert_eq!(surface.get(1, 1).grapheme, None);
    assert_eq!(surface.width(), 4);
    assert_eq!(surface.height(), 3);
}

#[test]
fn top_label_overwrites_the_top_edge_but_not_the_far_corner() {
    let mut surface = Surface::new(4, 2);
    let border = BorderSpec::rounded().top_label("ab");
    paint_border(&mut surface, &border, &resolver(), PhysicalStyle::default());
    assert_eq!(row_text(&surface, 0), "ab─╮");
    assert_eq!(row_text(&surface, 1), "╰──╯");
}

#[test]
fn label_longer_than_the_surface_is_cut_at_the_right_corner() {
    let mut surface = Surface::new(3, 2);
    let border = BorderSpec::plain().top_label("abcdef");
    paint_border(&mut surface, &border, &resolver(), PhysicalStyle::default());
    assert_eq!(row_text(&surface, 0), "ab┐");
}

#[test]
fn border_cells_keep_the_background_beneath_and_take_the_border_color() {
    let mut surface = Surface::new(3, 3);
    let backing = PhysicalColor::Rgb { r: 1, g: 2, b: 3 };
    let mut cell = PhysicalCell::blank();
    cell.style.background = Some(backing);
    surface.set(0, 1, cell);
    let inherited = PhysicalStyle {
        background: Some(PhysicalColor::Indexed(9)),
        bold: true,
        ..PhysicalStyle::default()
    };
    let border = BorderSpec::plain().color(ColorSpec::rgb(200, 100, 50));
    paint_border(&mut surface, &border, &resolver(), inherited);
    let left = surface.get(0, 1);
    assert_eq!(left.grapheme.as_deref(), Some("│"));
    assert_eq!(left.style.background, Some(backing));
    assert_eq!(left.style.foreground, Some(PhysicalColor::Rgb { r: 200, g: 100, b: 50 }));
    assert!(!left.style.bold);
    let top = surface.get(1, 0);
    assert_eq!(top.style.background, None);
}

#[test]
fn without_a_color_the_border_inherits_all_but_the_background() {
    let mut surface = Surface::new(2, 2);
    let inherited = PhysicalStyle {
        foreground: Some(PhysicalColor::Indexed(3)),
        background: Some(PhysicalColor::Indexed(9)),
        italic: true,
        ..PhysicalStyle::default()
    };
    paint_border(&mut surface, &BorderSpec::plain(), &resolver(), inherited);
    let corner = surface.get(1, 1);
    assert_eq!(corner.style.foreground, Some(PhysicalColor::Indexed(3)));
    assert!(corner.style.italic);
    assert_eq!(corner.style.background, None);
}

#[test]
fn one_cell_surface_shows_the_bottom_right_corner() {
    let mut surface = Surface::new(1, 1);
    paint_border(&mut surface, &BorderSpec::plain(), &resolver(), PhysicalStyle::default());
    assert_eq!(glyph(&surface, 0, 0).as_deref(), Some("┘"));
}

#[test]
fn empty_surface_is_left_alone() {
    let mut surface = Surface::new(0, 3);
    paint_border(&mut surface, &BorderSpec::plain(), &resolver(), PhysicalStyle::default());
    assert_eq!(surface.width(), 0);
    assert_eq!(surface.height(), 3);
}

#[test]
fn only_the_chosen_edges_are_painted() {
    let mut surface = Surface::new(3, 3);
    let border = BorderSpec::plain().edges(BorderEdges::new(true, false, true, false));
    paint_border(&mut surface, &border, &resolver(), PhysicalStyle::default());
    assert_eq!(row_text(&surface, 0), "───");
    assert_eq!(row_text(&surface, 1), "   ");
    assert_eq!(row_text(&surface, 2), "───");
}

#[test]
fn right_edge_wins_over_left_and_corners_over_edges_on_a_single_column() {
    let glyphs = BorderGlyphs::new("t", "r", "b", "l", "1", "2", "3", "4").unwrap();
    let mut surface = Surface::new(1, 3);
    let border = BorderSpec::custom(glyphs);
    paint_border(&mut surface, &border, &resolver(), PhysicalStyle::default());
    assert_eq!(glyph(&surface, 0, 0).as_deref(), Some("2"));
    assert_eq!(glyph(&surface, 0, 1).as_deref(), Some("r"));
    assert_eq!(glyph(&surface, 0, 2).as_deref(), Some("4"));
}
