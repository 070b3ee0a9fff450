use raytracer::color::Color;
use raytracer::scalar::Scalar;
use raytracer::screen::{Screen, ScreenPixelPositions};

fn gray(level: i64) -> Color {
    let c = Scalar { raw: level * 1_000_000 };
    Color::from(c, c, c, Scalar::one())
}

#[test]
fn new_screen_has_one_color() {
    let screen = Screen::from(3, 2, gray(500));
    assert_eq!(screen.resolution(), (3, 2));
    for y in 0..2 {
        for x in 0..3 {
            assert_eq!(screen.get_color_at(x, y), Some(gray(500)));
        }
    }
}

#[test]
fn positions_outside_the_screen() {
    let mut screen = Screen::from(3, 2, Color::black());
    assert!(screen.is_valid_point(2, 1));
    assert!(!screen.is_valid_point(3, 1));
    assert!(!screen.is_valid_point(2, 2));
    assert_eq!(screen.get_color_at(3, 0), None);
    assert_eq!(screen.get_color_at(0, 2), None);
    assert_eq!(screen.paint_at(3, 0, Color::white()), Err(()));
    assert_eq!(screen.paint_at(0, 2, Color::white()), Err(()));
    assert_eq!(screen.paint_at(usize::MAX, usize::MAX, Color::white()), Err(()));
    for y in 0..2 {
        for x in 0..3 {
            assert_eq!(screen.get_color_at(x, y), Some(Color::black()));
        }
    }
}

#[test]
fn painting_changes_one_pixel() {
    let mut screen = Screen::from(3, 2, Color::black());
    assert_eq!(screen.paint_at(1, 1, gray(250)), Ok(()));
    assert_eq!(screen.paint_at(2, 0, gray(750)), Ok(()));
    for y in 0..2 {
        for x in 0..3 {
            let expected = match (x, y) {
                (1, 1) => gray(250),
                (2, 0) => gray(750),
                _ => Color::black(),
            };
            assert_eq!(screen.get_color_at(x, y), Some(expected));
        }
    }
    assert_eq!(screen.resolution(), (3, 2));
}

#[test]
fn positions_come_row_by_row() {
    let screen = Screen::from(3, 2, Color::black());
    let mut positions = screen.pixel_positions();
    let mut seen = vec![];
    while let Some(position) = positions.next() {
        seen.push(position);
    }
    assert_eq!(seen, vec![(0, 0), (1, 0), (2, 0), (0, 1), (1, 1), (2, 1)]);
    assert_eq!(positions.next(), None);
    assert_eq!(positions.next(), None);
}

#[test]
fn empty_screens_have_no_positions() {
    assert_eq!(Screen::from(0, 5, Color::black()).pixel_positions().next(), None);
    assert_eq!(Screen::from(5, 0, Color::black()).pixel_positions().next(), None);
    assert_eq!(Screen::from(0, 0, Color::black()).pixel_positions().next(), None);
    let mut stuck = ScreenPixelPositions { x: 9, y: usize::MAX, width: 3, height: usize::MAX };
    assert_eq!(stuck.next(), None);
    assert_eq!((stuck.x, stuck.y), (0, usize::MAX));
}

#[test]
fn walk_goes_on_from_where_it_stands() {
    let mut positions = ScreenPixelPositions { x: 2, y: 0, width: 3, height: 2 };
    assert_eq!(positions.next(), Some((2, 0)));
    assert_eq!((positions.x, positions.y), (3, 0));
    assert_eq!(positions.next(), Some((0, 1)));
    assert_eq!((positions.x, positions.y), (1, 1));
}

#[test]
fn pixmap_text() {
    let mut screen = Screen::from(2, 2, Color::black());
    assert_eq!(screen.paint_at(0, 0, Color::white()), Ok(()));
    assert_eq!(screen.paint_at(1, 0, gray(500)), Ok(()));
    assert_eq!(screen.paint_at(0, 1, gray(2000)), Ok(()));
    assert_eq!(screen.to_pbm(), "P3\n2 2\n255\n255 255 255\n127 127 127\n255 255 255\n0 0 0\n");
}

#[test]
fn pixmap_text_of_an_empty_screen() {
    assert_eq!(Screen::from(0, 12, Color::white()).to_pbm(), "P3\n0 12\n255\n");
}
