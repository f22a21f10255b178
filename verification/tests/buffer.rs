use voidtui::buffer::buffer::Buffer;
use voidtui::buffer::pixel::Pixel;
use voidtui::geometry::area::Area;
use voidtui::style::color::Color;
use voidtui::style::color::ColorSystem;
use voidtui::style::style::Style;
use voidtui::style::theme::Theme;

fn dump(buffer: &Buffer, width: u16, height: u16) {
    for y in 0..height {
        let mut row = String::new();
        for x in 0..width {
            let pixel = buffer.get(x, y);
            match pixel.character() {
                Some(c) => row.push(c),
                None => row.push('-'),
            }
        }
        println!("{}", row);
    }
}

#[test]
fn render_string() {
    let mut buffer = Buffer::new(20, 15);
    buffer.render_string(
        "你好，世界！\n你好",
        Style::new(),
        Area::new(0, 0, 20, 2),
        false,
    );
    buffer.render_string("你好，世界！", Style::new(), Area::new(1, 0, 19, 15), false);
    buffer.render_string("你好，世界！", Style::new(), Area::new(19, 0, 1, 15), false);
    dump(&buffer, 20, 15);
}

#[test]
fn cut() {
    let mut buffer = Buffer::new(20, 15);
    buffer.render_string(
        "你好，世界！你好，世界！\n你好，世界！",
        Style::new(),
        Area::new(0, 0, 20, 15),
        false,
    );
    let buffer = buffer.cut(Area::new(1, 0, 18, 2));
    dump(&buffer, 18, 2);
}

#[test]
fn view() {
    let mut buffer = Buffer::new(20, 15);
    buffer.render_string(
        "你好，世界！你好，世界！\n你好，世界！",
        Style::new().foreground(Color::Text),
        Area::new(0, 0, 20, 15),
        false,
    );
    buffer.render_background(Area::from_wh(20, 15), Some(Color::Background));
    let out = buffer.view(ColorSystem::TrueColor, &Theme::tokyo_night());
    println!("{}", out);
}

#[test]
fn clear_erases_whole_glyph() {
    // clearing the left cell of a double-width glyph
    let mut buffer = Buffer::new(4, 1);
    let wide = Pixel::try_from_char('你').unwrap();
    buffer.render_pixel(0, 0, &wide);
    assert_eq!(buffer.get(0, 0).width(), 2);
    assert!(buffer.get(1, 0).is_skip());
    buffer.clear_at(0, 0);
    assert_eq!(buffer.get(0, 0).character(), Some(' '));
    assert_eq!(buffer.get(0, 0).width(), 1);
    assert_eq!(buffer.get(1, 0).character(), Some(' '));
    assert_eq!(buffer.get(1, 0).width(), 1);

    // and vice versa: clearing the continuation marker
    let mut buffer = Buffer::new(4, 1);
    buffer.render_pixel(0, 0, &wide);
    buffer.clear_at(1, 0);
    assert_eq!(buffer.get(0, 0).character(), Some(' '));
    assert_eq!(buffer.get(0, 0).width(), 1);
    assert_eq!(buffer.get(1, 0).character(), Some(' '));
    assert_eq!(buffer.get(1, 0).width(), 1);
}

#[test]
fn cut_repairs_edges() {
    let mut buffer = Buffer::new(6, 2);
    // a wide glyph whose continuation lands on the cut's left edge, and
    // one whose left half lands on the cut's right edge
    buffer.render_string("你你好", Style::new(), Area::new(0, 0, 6, 1), false);
    let piece = buffer.cut(Area::new(1, 0, 3, 2));
    for y in 0..piece.height() {
        assert!(!piece.get(0, y).is_skip());
        assert!(piece.get(piece.width() - 1, y).width() != 2);
    }
}

#[test]
fn wide_glyph_abandons_narrow_area() {
    let mut buffer = Buffer::new(5, 2);
    buffer.render_string("你好", Style::new(), Area::new(0, 0, 3, 1), false);
    // the first glyph takes columns 0-1, column 2 is blank padding, and
    // the second glyph is dropped rather than corrupting the buffer
    assert_eq!(buffer.get(0, 0).character(), Some('你'));
    assert_eq!(buffer.get(0, 0).width(), 2);
    assert!(buffer.get(1, 0).is_skip());
    assert_eq!(buffer.get(2, 0).character(), Some(' '));
    for y in 0..2 {
        for x in 0..5 {
            assert!(buffer.get(x, y).character() != Some('好'));
        }
    }
}

#[test]
fn view_blank_cell() {
    let buffer = Buffer::new(1, 1);
    let out = buffer.view(ColorSystem::Disabled, &Theme::tokyo_night());
    assert_eq!(out, " \u{1b}[0m");
}

#[test]
fn render_string_wraps() {
    let mut buffer = Buffer::new(6, 3);
    buffer.render_string("abcdef", Style::new(), Area::new(0, 0, 4, 2), true);
    let row: Vec<Option<char>> = (0..6).map(|x| buffer.get(x, 0).character()).collect();
    assert_eq!(row[0], Some('a'));
    assert_eq!(row[1], Some('b'));
    assert_eq!(row[2], Some('c'));
    assert_eq!(row[3], Some('d'));
    assert_eq!(row[4], None);
    assert_eq!(buffer.get(0, 1).character(), Some('e'));
    assert_eq!(buffer.get(1, 1).character(), Some('f'));
    assert_eq!(buffer.get(2, 1).character(), None);
}

#[test]
fn fill_tiles_to_the_edge() {
    let mut buffer = Buffer::new(5, 1);
    let tile = Pixel::try_from_char('-').unwrap();
    buffer.fill(Area::new(0, 0, 4, 1), tile);
    // a tile that ends exactly at the area's right edge is still placed
    assert_eq!(buffer.get(0, 0).character(), Some('-'));
    assert_eq!(buffer.get(1, 0).character(), Some('-'));
    assert_eq!(buffer.get(2, 0).character(), Some('-'));
    assert_eq!(buffer.get(3, 0).character(), Some('-'));
    assert_eq!(buffer.get(4, 0).character(), None);

    // a two-column tile fits twice in a four-column row, exactly
    let mut wide = Buffer::new(5, 1);
    let glyph = Pixel::try_from_char('你').unwrap();
    wide.fill(Area::new(0, 0, 4, 1), glyph);
    assert_eq!(wide.get(0, 0).character(), Some('你'));
    assert!(wide.get(1, 0).is_skip());
    assert_eq!(wide.get(2, 0).character(), Some('你'));
    assert!(wide.get(3, 0).is_skip());
    assert_eq!(wide.get(4, 0).character(), None);
}

#[test]
fn compose_keeps_backdrop() {
    let mut dest = Buffer::new(3, 1);
    dest.render_background(Area::from_wh(3, 1), Some(Color::Danger));
    let mut src = Buffer::new(3, 1);
    src.render_string("x", Style::new(), Area::new(0, 0, 3, 1), false);
    dest.render(0, 0, &src);
    // a bare character keeps the destination's background visible
    assert_eq!(dest.get(0, 0).character(), Some('x'));
    assert_eq!(dest.get(0, 0).style().background, Some(Color::Danger));
}

#[test]
fn compose_copies_to_the_boundary() {
    let mut dest = Buffer::new(3, 1);
    let mut src = Buffer::new(3, 1);
    src.render_string("abc", Style::new(), Area::new(0, 0, 3, 1), false);
    dest.render(0, 0, &src);
    // a cell that ends exactly at the clip boundary does not cross it
    assert_eq!(dest.get(0, 0).character(), Some('a'));
    assert_eq!(dest.get(1, 0).character(), Some('b'));
    assert_eq!(dest.get(2, 0).character(), Some('c'));
}
