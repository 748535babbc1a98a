//! The colors that a terminal shows.

use crate::screen::Color;
use vstd::prelude::*;

verus! {

/// The red, green and blue of one of the sixteen named colors.
pub open spec fn named_rgb(i: int) -> Seq<u8> {
    if i == 0 {
        seq![0u8, 0, 0]
    } else if i == 1 {
        seq![205u8, 0, 0]
    } else if i == 2 {
        seq![0u8, 205, 0]
    } else if i == 3 {
        seq![205u8, 205, 0]
    } else if i == 4 {
        seq![0u8, 0, 238]
    } else if i == 5 {
        seq![205u8, 0, 205]
    } else if i == 6 {
        seq![0u8, 205, 205]
    } else if i == 7 {
        seq![229u8, 229, 229]
    } else if i == 8 {
        seq![127u8, 127, 127]
    } else if i == 9 {
        seq![255u8, 0, 0]
    } else if i == 10 {
        seq![0u8, 255, 0]
    } else if i == 11 {
        seq![255u8, 255, 0]
    } else if i == 12 {
        seq![92u8, 92, 255]
    } else if i == 13 {
        seq![255u8, 0, 255]
    } else if i == 14 {
        seq![0u8, 255, 255]
    } else {
        seq![255u8, 255, 255]
    }
}

/// The channel value of step `v` of the color cube: zero, then from 95 up in steps of forty.
pub open spec fn cube_level(v: int) -> u8 {
    if v <= 0 {
        0
    } else {
        (55 + 40 * v) as u8
    }
}

/// The red, green and blue of entry `i` of the 256-color palette: sixteen named colors, a cube of
/// six steps in each channel, and a ramp of grays.
pub open spec fn palette_rgb(i: int) -> Seq<u8> {
    if i < 16 {
        named_rgb(i)
    } else if i < 232 {
        let n = i - 16;
        seq![cube_level(n / 36), cube_level(n / 6 % 6), cube_level(n % 6)]
    } else {
        let v = (8 + 10 * (i - 232)) as u8;
        seq![v, v, v]
    }
}

/// The entry of the 256-color palette that stands for a named color.
pub open spec fn named_index(color: Color) -> int {
    match color {
        Color::Black => 0,
        Color::Red => 1,
        Color::Green => 2,
        Color::Yellow => 3,
        Color::Blue => 4,
        Color::Magenta => 5,
        Color::Cyan => 6,
        Color::Gray => 7,
        Color::DarkGray => 8,
        Color::LightRed => 9,
        Color::LightGreen => 10,
        Color::LightYellow => 11,
        Color::LightBlue => 12,
        Color::LightMagenta => 13,
        Color::LightCyan => 14,
        _ => 15,
    }
}

/// The red, green and blue of `color`, where `default` stands for the terminal's own color.
pub open spec fn resolved_rgb(color: Color, default: Seq<u8>) -> Seq<u8> {
    match color {
        Color::Reset => default,
        Color::Rgb(r, g, b) => seq![r, g, b],
        Color::Indexed(i) => palette_rgb(i as int),
        _ => palette_rgb(named_index(color)),
    }
}

/// The channel value of step `v` of the color cube.
fn level(v: u8) -> (r: u8)
    requires
        v < 6,
    ensures
        r == cube_level(v as int),
{
    if v == 0 {
        0
    } else {
        55 + 40 * v
    }
}

/// The red, green and blue of entry `i` of the 256-color palette.
pub fn xterm_256(i: u8) -> (r: [u8; 3])
    ensures
        r@ == palette_rgb(i as int),
{
    let r: [u8; 3] = match i {
        0 => [0, 0, 0],
        1 => [205, 0, 0],
        2 => [0, 205, 0],
        3 => [205, 205, 0],
        4 => [0, 0, 238],
        5 => [205, 0, 205],
        6 => [0, 205, 205],
        7 => [229, 229, 229],
        8 => [127, 127, 127],
        9 => [255, 0, 0],
        10 => [0, 255, 0],
        11 => [255, 255, 0],
        12 => [92, 92, 255],
        13 => [255, 0, 255],
        14 => [0, 255, 255],
        15 => [255, 255, 255],
        _ => {
            if i < 232 {
                let n: u8 = i - 16;
                [level(n / 36), level(n / 6 % 6), level(n % 6)]
            } else {
                let v: u8 = 8 + (i - 232) * 10;
                [v, v, v]
            }
        },
    };
    assert(r@ =~= palette_rgb(i as int));
    r
}

/// The red, green and blue of `color`, where `default` stands for the terminal's own color.
pub fn resolve(color: Color, default: [u8; 3]) -> (r: [u8; 3])
    ensures
        r@ == resolved_rgb(color, default@),
{
    let r: [u8; 3] = match color {
        Color::Reset => default,
        Color::Rgb(r, g, b) => [r, g, b],
        Color::Indexed(i) => xterm_256(i),
        Color::Black => xterm_256(0),
        Color::Red => xterm_256(1),
        Color::Green => xterm_256(2),
        Color::Yellow => xterm_256(3),
        Color::Blue => xterm_256(4),
        Color::Magenta => xterm_256(5),
        Color::Cyan => xterm_256(6),
        Color::Gray => xterm_256(7),
        Color::DarkGray => xterm_256(8),
        Color::LightRed => xterm_256(9),
        Color::LightGreen => xterm_256(10),
        Color::LightYellow => xterm_256(11),
        Color::LightBlue => xterm_256(12),
        Color::LightMagenta => xterm_256(13),
        Color::LightCyan => xterm_256(14),
        Color::White => xterm_256(15),
    };
    assert(r@ =~= resolved_rgb(color, default@));
    r
}

/// The red, green and blue of the sixteen named colors: black, the six dim colors and gray, then dark
/// gray, the six bright colors and white.
pub open spec fn named_colors() -> Seq<(u8, u8, u8)> {
    seq![
        (0, 0, 0),
        (205, 0, 0),
        (0, 205, 0),
        (205, 205, 0),
        (0, 0, 238),
        (205, 0, 205),
        (0, 205, 205),
        (229, 229, 229),
        (127, 127, 127),
        (255, 0, 0),
        (0, 255, 0),
        (255, 255, 0),
        (92, 92, 255),
        (255, 0, 255),
        (0, 255, 255),
        (255, 255, 255),
    ]
}

/// The palette starts with the named colors.
pub proof fn the_palette_starts_with_the_named_colors(i: int)
    requires
        0 <= i < 16,
    ensures
        palette_rgb(i) == seq![named_colors()[i].0, named_colors()[i].1, named_colors()[i].2],
{
}

/// Behind the named colors, the palette holds every mix of six steps of red, green and blue, with
/// blue going fastest; then twenty-four grays, ten apart, from eight on.
pub proof fn the_palette_goes_on_with_a_cube_and_grays(r: int, g: int, b: int, k: int)
    requires
        0 <= r < 6 && 0 <= g < 6 && 0 <= b < 6,
        0 <= k < 24,
    ensures
        ({
            let steps = seq![0u8, 95, 135, 175, 215, 255];
            palette_rgb(16 + 36 * r + 6 * g + b) == seq![steps[r], steps[g], steps[b]]
        }),
        palette_rgb(232 + k).len() == 3,
        palette_rgb(232 + k)[0] == 8 + 10 * k,
        palette_rgb(232 + k)[1] == 8 + 10 * k,
        palette_rgb(232 + k)[2] == 8 + 10 * k,
{
    let n = 36 * r + 6 * g + b;
    assert(n / 36 == r && n / 6 % 6 == g && n % 6 == b);
    let steps = seq![0u8, 95, 135, 175, 215, 255];
    assert(forall|v: int| 0 <= v < 6 ==> cube_level(v) == #[trigger] steps[v]);
    assert(palette_rgb(16 + n) =~= seq![steps[r], steps[g], steps[b]]);
}

/// A named color is the one of its name in the palette, a color by number that of the number, and a
/// color by its parts has these parts. Only the terminal's own color depends on the default.
pub proof fn colors_mean_what_they_say(color: Color, default: Seq<u8>, i: u8, r: u8, g: u8, b: u8)
    ensures
        resolved_rgb(Color::Reset, default) == default,
        resolved_rgb(Color::Rgb(r, g, b), default) == seq![r, g, b],
        resolved_rgb(Color::Indexed(i), default) == palette_rgb(i as int),
        resolved_rgb(Color::Black, default) == seq![0u8, 0, 0],
        resolved_rgb(Color::Red, default) == seq![205u8, 0, 0],
        resolved_rgb(Color::Green, default) == seq![0u8, 205, 0],
        resolved_rgb(Color::Yellow, default) == seq![205u8, 205, 0],
        resolved_rgb(Color::Blue, default) == seq![0u8, 0, 238],
        resolved_rgb(Color::Magenta, default) == seq![205u8, 0, 205],
        resolved_rgb(Color::Cyan, default) == seq![0u8, 205, 205],
        resolved_rgb(Color::Gray, default) == seq![229u8, 229, 229],
        resolved_rgb(Color::DarkGray, default) == seq![127u8, 127, 127],
        resolved_rgb(Color::LightRed, default) == seq![255u8, 0, 0],
        resolved_rgb(Color::LightGreen, default) == seq![0u8, 255, 0],
        resolved_rgb(Color::LightYellow, default) == seq![255u8, 255, 0],
        resolved_rgb(Color::LightBlue, default) == seq![92u8, 92, 255],
        resolved_rgb(Color::LightMagenta, default) == seq![255u8, 0, 255],
        resolved_rgb(Color::LightCyan, default) == seq![0u8, 255, 255],
        resolved_rgb(Color::White, default) == seq![255u8, 255, 255],
        color != Color::Reset ==> forall|other: Seq<u8>| #[trigger]
            resolved_rgb(color, other) == resolved_rgb(color, default),
{
}

} // verus!
