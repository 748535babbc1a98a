use playlist_covers::palette::{resolve, xterm_256};
use playlist_covers::screen::Color;

#[test]
fn named_colors() {
    assert_eq!(xterm_256(0), [0, 0, 0]);
    assert_eq!(xterm_256(1), [205, 0, 0]);
    assert_eq!(xterm_256(4), [0, 0, 238]);
    assert_eq!(xterm_256(7), [229, 229, 229]);
    assert_eq!(xterm_256(8), [127, 127, 127]);
    assert_eq!(xterm_256(12), [92, 92, 255]);
    assert_eq!(xterm_256(15), [255, 255, 255]);
}

#[test]
fn cube_and_greys() {
    let levels = [0, 95, 135, 175, 215, 255];
    for r in 0..6u8 {
        for g in 0..6u8 {
            for b in 0..6u8 {
                let expected = [levels[r as usize], levels[g as usize], levels[b as usize]];
                assert_eq!(xterm_256(16 + 36 * r + 6 * g + b), expected);
            }
        }
    }
    for i in 232..=255u8 {
        let v = 8 + (i - 232) * 10;
        assert_eq!(xterm_256(i), [v, v, v]);
    }
}

#[test]
fn colors_of_cells() {
    let default = [9, 8, 7];
    assert_eq!(resolve(Color::Reset, default), default);
    assert_eq!(resolve(Color::Rgb(1, 2, 3), default), [1, 2, 3]);
    assert_eq!(resolve(Color::Indexed(200), default), xterm_256(200));
    let named = [
        Color::Black,
        Color::Red,
        Color::Green,
        Color::Yellow,
        Color::Blue,
        Color::Magenta,
        Color::Cyan,
        Color::Gray,
        Color::DarkGray,
        Color::LightRed,
        Color::LightGreen,
        Color::LightYellow,
        Color::LightBlue,
        Color::LightMagenta,
        Color::LightCyan,
        Color::White,
    ];
    for (i, color) in named.iter().enumerate() {
        assert_eq!(resolve(*color, default), xterm_256(i as u8));
    }
}
