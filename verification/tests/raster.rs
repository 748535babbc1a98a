use playlist_covers::canvas::{Canvas, Rgba};
use playlist_covers::raster::{compare, draw_symbol, fill, rasterize, side_by_side};
use ratatui::buffer::Buffer;
use ratatui::layout::Rect;
use ratatui::style::{Color, Modifier, Style};

const FG: Rgba = Rgba { r: 0xf8, g: 0xf8, b: 0xf2, a: 255 };
const BG: Rgba = Rgba { r: 0x28, g: 0x2a, b: 0x36, a: 255 };

fn solid(width: u32, height: u32, p: Rgba) -> Canvas {
    let mut bytes = Vec::new();
    for _ in 0..width * height {
        bytes.extend([p.r, p.g, p.b, p.a]);
    }
    Canvas::from_bytes(width, height, bytes).unwrap()
}

fn rgb(r: u8, g: u8, b: u8) -> Rgba {
    Rgba { r, g, b, a: 255 }
}

/// The cells of a picture that have ink, as rows of text.
fn ink(c: &Canvas, fg: Rgba) -> Vec<String> {
    (0..c.height())
        .map(|y| (0..c.width()).map(|x| if c.pixel_at(x, y) == Some(fg) { '#' } else { '.' }).collect())
        .collect()
}

fn symbol(s: &str) -> Vec<String> {
    let mut c = solid(8, 16, rgb(0, 0, 0));
    draw_symbol(&mut c, 0, 0, s, [255, 255, 255]);
    ink(&c, rgb(255, 255, 255))
}

#[test]
fn bytes_of_a_picture() {
    let bytes: Vec<u8> = (0..24).collect();
    let c = Canvas::from_bytes(3, 2, bytes.clone()).unwrap();
    assert_eq!((c.width(), c.height()), (3, 2));
    assert_eq!(c.pixel_at(1, 1), Some(Rgba { r: 16, g: 17, b: 18, a: 19 }));
    assert_eq!(c.pixel_at(3, 0), None);
    assert_eq!(c.pixel_at(0, 2), None);
    assert_eq!(c.into_bytes(), bytes);
    assert!(Canvas::from_bytes(3, 3, bytes).is_none());
}

#[test]
fn rectangles_are_cut_off() {
    let mut c = solid(4, 3, rgb(0, 0, 0));
    fill(&mut c, 2, 1, 9, 9, [1, 2, 3]);
    assert_eq!(ink(&c, rgb(1, 2, 3)), ["....", "..##", "..##"]);
    fill(&mut c, 9, 9, 1, 1, [4, 5, 6]);
    assert_eq!(ink(&c, rgb(4, 5, 6)), ["....", "....", "...."]);
}

#[test]
fn block_symbols() {
    let full = "########".to_string();
    let none = "........".to_string();
    assert_eq!(symbol(" "), vec![none.clone(); 16]);
    assert_eq!(symbol(""), vec![none.clone(); 16]);
    assert_eq!(symbol("█"), vec![full.clone(); 16]);
    for (s, rows) in [("▀", 0..8), ("▄", 8..16), ("▂", 12..16), ("🮂", 0..4)] {
        for (y, line) in symbol(s).iter().enumerate() {
            assert_eq!(*line, if rows.contains(&y) { full.clone() } else { none.clone() });
        }
    }
    assert_eq!(symbol("▎"), vec!["##......".to_string(); 16]);
    assert_eq!(symbol("🮇"), vec!["......##".to_string(); 16]);
}

#[test]
fn line_symbols() {
    let h = symbol("─");
    assert_eq!((h[6].as_str(), h[7].as_str(), h[8].as_str(), h[9].as_str()), ("........", "########", "########", "........"));
    assert_eq!(symbol("│"), vec!["...##...".to_string(); 16]);
    let corner = symbol("╭");
    assert_eq!((corner[6].as_str(), corner[7].as_str(), corner[9].as_str()), ("........", "...#####", "...##..."));
    let corner = symbol("┐");
    assert_eq!((corner[6].as_str(), corner[7].as_str(), corner[15].as_str()), ("........", "#####...", "...##..."));
    let corner = symbol("╚");
    assert_eq!((corner[0].as_str(), corner[8].as_str(), corner[9].as_str()), ("...##...", "...#####", "........"));
    let corner = symbol("┛");
    assert_eq!((corner[0].as_str(), corner[7].as_str(), corner[9].as_str()), ("...##...", "#####...", "........"));
}

#[test]
fn letters_and_unknown_symbols() {
    let l = symbol("L");
    // every row of the bitmap is drawn twice
    assert_eq!(l[0], l[1]);
    assert_eq!(l[0], "####....");
    assert_eq!(symbol("Lx"), l);
    let unknown = symbol("é");
    assert_eq!(unknown[0], "........");
    assert_eq!(unknown[1], ".######.");
    assert_eq!(unknown[2], ".#....#.");
    assert_eq!(unknown[14], ".######.");
    assert_eq!(unknown[15], "........");
}

#[test]
fn pictures_of_screens() {
    let mut buf = Buffer::empty(Rect::new(3, 2, 4, 2));
    buf.set_string(4, 2, "▀", Style::default().fg(Color::Rgb(1, 2, 3)).bg(Color::Red));
    buf.set_string(5, 2, "█", Style::default().add_modifier(Modifier::REVERSED));
    buf.set_string(6, 3, "▄", Style::default().fg(Color::Indexed(21)));
    let c = rasterize(&buf);
    assert_eq!((c.width(), c.height()), (32, 32));
    assert_eq!(c.pixel_at(0, 0), Some(BG));
    assert_eq!(c.pixel_at(8, 7), Some(rgb(1, 2, 3)));
    assert_eq!(c.pixel_at(8, 8), Some(rgb(205, 0, 0)));
    assert_eq!(c.pixel_at(16, 0), Some(BG));
    assert_eq!(c.pixel_at(24, 0), Some(BG));
    assert_eq!(c.pixel_at(24, 16), Some(BG));
    assert_eq!(c.pixel_at(24, 24), Some(rgb(0, 0, 255)));
    buf.set_string(3, 2, " ", Style::default().add_modifier(Modifier::REVERSED));
    assert_eq!(rasterize(&buf).pixel_at(0, 0), Some(FG));
}

#[test]
fn empty_screen() {
    let c = rasterize(&Buffer::empty(Rect::new(0, 0, 0, 5)));
    assert_eq!((c.width(), c.height()), (0, 80));
}

#[test]
fn equal_pictures() {
    let a = solid(10, 10, rgb(90, 60, 30));
    let (fraction, diff) = compare(&a, &solid(10, 10, rgb(90, 60, 30)));
    assert_eq!((fraction.changed, fraction.total), (0, 100));
    assert!(!fraction.exceeds_tolerance());
    assert_eq!(diff.pixel_at(3, 3), Some(rgb(20, 20, 20)));
}

#[test]
fn small_changes_do_not_count() {
    let a = solid(10, 10, rgb(100, 100, 100));
    let (fraction, _) = compare(&a, &solid(10, 10, rgb(124, 76, 100)));
    assert_eq!(fraction.changed, 0);
    let (fraction, diff) = compare(&a, &solid(10, 10, rgb(100, 125, 100)));
    assert_eq!(fraction.changed, 100);
    assert_eq!(diff.pixel_at(0, 0), Some(rgb(255, 0, 0)));
    let (back, _) = compare(&solid(10, 10, rgb(100, 125, 100)), &a);
    assert_eq!(back.changed, 100);
    // opacity is a channel like the others
    let (fraction, _) = compare(&a, &solid(10, 10, Rgba { r: 100, g: 100, b: 100, a: 231 }));
    assert_eq!(fraction.changed, 0);
    let clear = solid(1, 1, Rgba { r: 0, g: 0, b: 0, a: 0 });
    let (fraction, diff) = compare(&clear, &solid(1, 1, rgb(0, 0, 0)));
    assert_eq!((fraction.changed, fraction.total), (1, 1));
    assert_eq!(diff.pixel_at(0, 0), Some(rgb(255, 0, 0)));
}

#[test]
fn tolerance_of_comparisons() {
    // one pixel in five thousand is tolerated, one in fewer is not
    let a = solid(100, 50, rgb(0, 0, 0));
    let mut b = solid(100, 50, rgb(0, 0, 0));
    fill(&mut b, 7, 7, 1, 1, [255, 0, 0]);
    let (fraction, _) = compare(&a, &b);
    assert_eq!((fraction.changed, fraction.total), (1, 5000));
    assert!(!fraction.exceeds_tolerance());
    let a = solid(100, 49, rgb(0, 0, 0));
    let mut b = solid(100, 49, rgb(0, 0, 0));
    fill(&mut b, 7, 7, 1, 1, [255, 0, 0]);
    assert!(compare(&a, &b).0.exceeds_tolerance());
}

#[test]
fn pictures_of_different_sizes() {
    let a = solid(3, 2, rgb(1, 1, 1));
    let b = solid(2, 3, rgb(2, 2, 2));
    let (fraction, diff) = compare(&a, &b);
    assert_eq!((fraction.changed, fraction.total), (1, 1));
    assert!(fraction.exceeds_tolerance());
    assert_eq!((diff.width(), diff.height()), (2, 3));
    assert_eq!(diff.pixel_at(1, 2), Some(rgb(2, 2, 2)));
}

#[test]
fn pictures_side_by_side() {
    let a = solid(2, 3, rgb(1, 1, 1));
    let b = solid(4, 1, rgb(2, 2, 2));
    let out = side_by_side(&[&a, &b]);
    assert_eq!((out.width(), out.height()), (22, 3));
    let gap = rgb(255, 0, 255);
    assert_eq!(out.pixel_at(1, 2), Some(rgb(1, 1, 1)));
    assert_eq!(out.pixel_at(2, 0), Some(gap));
    assert_eq!(out.pixel_at(17, 0), Some(gap));
    assert_eq!(out.pixel_at(18, 0), Some(rgb(2, 2, 2)));
    assert_eq!(out.pixel_at(21, 0), Some(rgb(2, 2, 2)));
    assert_eq!(out.pixel_at(18, 1), Some(gap));
    let single = side_by_side(&[&b]);
    assert_eq!((single.width(), single.height()), (4, 1));
}
