use playlist_covers::grid::{base_img_length, GridLayout};
use playlist_covers::screen::Rect;

fn inner(width: u16) -> Rect {
    Rect { x: 0, y: 0, width, height: 54 }
}

/// The layout for a font ratio, as a caller computes it.
fn layout(width: u16, base: u16, font_ratio: f32) -> GridLayout {
    let cols = GridLayout::columns(inner(width), base);
    let rows = (f32::from(cols) * font_ratio).round() as u16;
    GridLayout::new(inner(width), base, rows)
}

#[test]
fn wide_screen() {
    let expected = GridLayout {
        items_per_row: 10,
        item_width: 25,
        img_cols: 23,
        img_rows: 12,
        item_height: 14,
        left_margin: 2,
    };
    assert_eq!(layout(253, 33, 0.5), expected);
}

#[test]
fn narrow_screen() {
    let expected = GridLayout {
        items_per_row: 4,
        item_width: 30,
        img_cols: 28,
        img_rows: 14,
        item_height: 16,
        left_margin: 1,
    };
    assert_eq!(layout(120, 33, 0.5), expected);
}

#[test]
fn screens_without_room() {
    let one = layout(1, 33, 0.5);
    assert_eq!((one.items_per_row, one.item_width, one.img_cols), (1, 1, 0));
    assert_eq!((one.item_height, one.left_margin), (2, 0));
    let none = layout(0, 33, 0.5);
    assert_eq!((none.items_per_row, none.item_width, none.img_cols), (1, 0, 0));
    let two = layout(4, 0, 1.0);
    assert_eq!((two.items_per_row, two.item_width, two.img_cols), (3, 1, 0));
}

#[test]
fn wished_length() {
    assert_eq!(base_img_length(33, 7), 33);
    assert_eq!(base_img_length(0, 7), 7);
    assert_eq!(base_img_length(0x1_0005, 7), 5);
    assert_eq!(base_img_length(0x1_0000, 7), 0);
}

#[test]
fn items_follow_single_precision() {
    for width in 0..=u16::MAX {
        let got = GridLayout::new(inner(width), 0, 0);
        let roomy = (width / 2).max(1);
        let items = (f32::from(roomy) * 1.414).round().max(1.0) as usize;
        assert_eq!(got.items_per_row, items, "width {width}");
        let item_width = width / items as u16;
        assert_eq!(got.item_width, item_width);
        let content = (items as u16).saturating_sub(1) * item_width + item_width.saturating_sub(2);
        assert_eq!(got.left_margin, width.saturating_sub(content) / 2);
    }
}

#[test]
fn rows_are_centred_and_denser() {
    for base in [0u16, 1, 2, 5, 33, 200, 65533] {
        for width in [0u16, 1, 2, 3, 50, 120, 253, 4096, 65535] {
            let g = GridLayout::new(inner(width), base, 3);
            let content = (g.items_per_row - 1) * g.item_width as usize + g.img_cols as usize;
            let left = g.left_margin as usize;
            let right = width as usize - content - left;
            assert!(left == right || left + 1 == right);
            let roomy = (width / (base + 2)).max(1) as usize;
            assert!(roomy <= g.items_per_row && 2 * g.items_per_row <= 3 * roomy);
            assert_eq!(g.item_height, 5);
        }
    }
}
