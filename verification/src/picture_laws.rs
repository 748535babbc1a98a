//! What holds of the pictures of screens, and of comparing them.

use crate::canvas::{canvas_height, canvas_width, in_canvas, pixel, Canvas, Rgba};
use crate::palette::resolved_rgb;
use crate::raster::{
    basic_glyph, beyond_tolerance, changed_above, changed_in_row, compares, differs, inked, is_picture_of,
    laid_out, offset, painted, symbol_drawn, tallest, Fraction,
};
use crate::screen::{buffer_area, cell_at, CellView, Color};
use vstd::prelude::*;

verus! {

/// Painting a rectangle gives each of its pixels the color, and leaves every other pixel as it was.
pub proof fn a_rectangle_is_painted_exactly(
    before: Canvas,
    after: Canvas,
    x: int,
    y: int,
    w: int,
    h: int,
    c: Seq<u8>,
    px: int,
    py: int,
)
    requires
        painted(before, after, x, y, w, h, c),
        0 <= px < canvas_width(before) && 0 <= py < canvas_height(before),
    ensures
        canvas_width(after) == canvas_width(before) && canvas_height(after) == canvas_height(before),
        0 <= px - x < w && 0 <= py - y < h ==> pixel(after, px, py) == (Rgba {
            r: c[0],
            g: c[1],
            b: c[2],
            a: 255,
        }),
        px < x || py < y || px >= x + w || py >= y + h ==> pixel(after, px, py) == pixel(
            before,
            px,
            py,
        ),
{
    assert(in_canvas(after, px, py));
}

/// Whether drawing into the cell at `(ox, oy)` puts ink of color `fg` where `shape` says, and changes
/// nothing else.
pub open spec fn draws_shape(
    before: Canvas,
    after: Canvas,
    ox: int,
    oy: int,
    fg: Seq<u8>,
    shape: spec_fn(int, int) -> bool,
) -> bool {
    &&& canvas_width(after) == canvas_width(before) && canvas_height(after) == canvas_height(before)
    &&& forall|px: int, py: int|
        0 <= px < canvas_width(before) && 0 <= py < canvas_height(before) ==> #[trigger] pixel(
            after,
            px,
            py,
        ) == (if 0 <= px - ox < 8 && 0 <= py - oy < 16 && shape(px - ox, py - oy) {
            Rgba { r: fg[0], g: fg[1], b: fg[2], a: 255 }
        } else {
            pixel(before, px, py)
        })
}

/// A block symbol fills its part of the cell: all of it, a half, or a quarter.
pub proof fn blocks_fill_their_part(
    before: Canvas,
    after: Canvas,
    ox: int,
    oy: int,
    symbol: Seq<char>,
    fg: Seq<u8>,
)
    requires
        symbol_drawn(before, after, ox, oy, symbol, fg),
        symbol.len() > 0,
    ensures
        symbol[0] == ' ' ==> draws_shape(before, after, ox, oy, fg, |x: int, y: int| false),
        symbol[0] == '█' ==> draws_shape(before, after, ox, oy, fg, |x: int, y: int| true),
        symbol[0] == '▀' ==> draws_shape(before, after, ox, oy, fg, |x: int, y: int| y < 8),
        symbol[0] == '▄' ==> draws_shape(before, after, ox, oy, fg, |x: int, y: int| y >= 8),
        symbol[0] == '▂' ==> draws_shape(before, after, ox, oy, fg, |x: int, y: int| y >= 12),
        symbol[0] == '🮂' ==> draws_shape(before, after, ox, oy, fg, |x: int, y: int| y < 4),
        symbol[0] == '▎' ==> draws_shape(before, after, ox, oy, fg, |x: int, y: int| x < 2),
        symbol[0] == '🮇' ==> draws_shape(before, after, ox, oy, fg, |x: int, y: int| x >= 6),
{
}

/// The ends of a line symbol, as sides of the cell at which its strokes leave it.
pub struct Sides {
    pub left: bool,
    pub right: bool,
    pub top: bool,
    pub bottom: bool,
}

/// Whether strokes two pixels wide, from the middle of a cell to the given sides, cover `(x, y)`. The
/// middle is the square of two by two pixels at `(3, 7)`.
pub open spec fn in_strokes(sides: Sides, x: int, y: int) -> bool {
    ||| (y == 7 || y == 8) && (x == 3 || x == 4 || sides.left && x < 3 || sides.right && x > 4)
    ||| (x == 3 || x == 4) && (sides.top && y < 7 || sides.bottom && y > 8)
}

/// The sides to which a line symbol reaches.
pub open spec fn sides_of(ch: char) -> Option<Sides> {
    if ch == '─' || ch == '━' || ch == '═' {
        Some(Sides { left: true, right: true, top: false, bottom: false })
    } else if ch == '│' || ch == '┃' || ch == '║' {
        Some(Sides { left: false, right: false, top: true, bottom: true })
    } else if ch == '┌' || ch == '╭' || ch == '╔' || ch == '┏' {
        Some(Sides { left: false, right: true, top: false, bottom: true })
    } else if ch == '┐' || ch == '╮' || ch == '╗' || ch == '┓' {
        Some(Sides { left: true, right: false, top: false, bottom: true })
    } else if ch == '└' || ch == '╰' || ch == '╚' || ch == '┗' {
        Some(Sides { left: false, right: true, top: true, bottom: false })
    } else if ch == '┘' || ch == '╯' || ch == '╝' || ch == '┛' {
        Some(Sides { left: true, right: false, top: true, bottom: false })
    } else {
        None
    }
}

/// A line symbol is drawn by strokes from the middle of the cell to the sides at which it goes on.
pub proof fn lines_reach_their_sides(
    before: Canvas,
    after: Canvas,
    ox: int,
    oy: int,
    symbol: Seq<char>,
    fg: Seq<u8>,
)
    requires
        symbol_drawn(before, after, ox, oy, symbol, fg),
        symbol.len() > 0,
        sides_of(symbol[0]) is Some,
    ensures
        draws_shape(
            before,
            after,
            ox,
            oy,
            fg,
            |x: int, y: int| in_strokes(sides_of(symbol[0])->0, x, y),
        ),
{
}

/// Turning a corner over gives the corner on the other side: from left to right, from top to bottom,
/// and both.
pub proof fn corners_mirror_each_other(x: int, y: int)
    requires
        0 <= x < 8 && 0 <= y < 16,
    ensures
        inked('┐', x, y) == inked('┌', 7 - x, y),
        inked('└', x, y) == inked('┌', x, 15 - y),
        inked('┘', x, y) == inked('┌', 7 - x, 15 - y),
        inked('▄', x, y) == inked('▀', x, 15 - y),
        inked('▄', x, y) != inked('▀', x, y),
{
}

/// Whether `ch` is drawn as a block or a line.
pub open spec fn is_block_or_line(ch: char) -> bool {
    ||| ch == ' ' || ch == '█' || ch == '▀' || ch == '▄' || ch == '▂' || ch == '🮂' || ch == '▎'
        || ch == '🮇'
    ||| sides_of(ch) is Some
}

/// Every row of the bitmap of a letter is drawn, in order, two pixels high, and every dot of a row is
/// as wide as a pixel.
pub proof fn letters_are_drawn_dot_by_dot(
    before: Canvas,
    after: Canvas,
    ox: int,
    oy: int,
    symbol: Seq<char>,
    fg: Seq<u8>,
    row: int,
    col: int,
    half: int,
)
    requires
        symbol_drawn(before, after, ox, oy, symbol, fg),
        symbol.len() > 0 && !is_block_or_line(symbol[0]) && basic_glyph(symbol[0]) is Some,
        0 <= row < 8 && 0 <= col < 8 && 0 <= half < 2,
        0 <= ox + col < canvas_width(before) && 0 <= oy + 2 * row + half < canvas_height(before),
    ensures
        pixel(after, ox + col, oy + 2 * row + half) == (if basic_glyph(symbol[0])->0[row] & (1u8 << (
        col as u8)) != 0 {
            Rgba { r: fg[0], g: fg[1], b: fg[2], a: 255 }
        } else {
            pixel(before, ox + col, oy + 2 * row + half)
        }),
{
    assert(in_canvas(after, ox + col, oy + 2 * row + half));
    assert((2 * row + half) / 2 == row);
}

/// A character without a bitmap is drawn as the outline of a box, one pixel in from the sides of the
/// cell, and a symbol without characters is not drawn.
pub proof fn unknown_characters_are_outlined(
    before: Canvas,
    after: Canvas,
    ox: int,
    oy: int,
    symbol: Seq<char>,
    fg: Seq<u8>,
)
    requires
        symbol_drawn(before, after, ox, oy, symbol, fg),
    ensures
        symbol.len() == 0 ==> draws_shape(before, after, ox, oy, fg, |x: int, y: int| false),
        symbol.len() > 0 && !is_block_or_line(symbol[0]) && basic_glyph(symbol[0]) is None
            ==> draws_shape(
            before,
            after,
            ox,
            oy,
            fg,
            |x: int, y: int|
                1 <= x <= 6 && 1 <= y <= 14 && !(2 <= x <= 5 && 2 <= y <= 13),
        ),
{
}

/// Only the first character of a symbol is drawn.
pub proof fn only_the_first_character_is_drawn(
    before: Canvas,
    after: Canvas,
    other: Canvas,
    ox: int,
    oy: int,
    symbol: Seq<char>,
    fg: Seq<u8>,
    px: int,
    py: int,
)
    requires
        symbol.len() > 0,
        symbol_drawn(before, after, ox, oy, symbol, fg),
        symbol_drawn(before, other, ox, oy, seq![symbol[0]], fg),
        0 <= px < canvas_width(before) && 0 <= py < canvas_height(before),
    ensures
        pixel(after, px, py) == pixel(other, px, py),
{
    assert(in_canvas(after, px, py) && in_canvas(other, px, py));
}

/// The color of the text of a cell: that of its background where it is reversed.
pub open spec fn ink_color(cell: CellView) -> Rgba {
    let rgb = if cell.reversed {
        resolved_rgb(cell.bg, seq![0x28u8, 0x2a, 0x36])
    } else {
        resolved_rgb(cell.fg, seq![0xf8u8, 0xf8, 0xf2])
    };
    Rgba { r: rgb[0], g: rgb[1], b: rgb[2], a: 255 }
}

/// The color of the background of a cell: that of its text where it is reversed.
pub open spec fn paper_color(cell: CellView) -> Rgba {
    let rgb = if cell.reversed {
        resolved_rgb(cell.fg, seq![0xf8u8, 0xf8, 0xf2])
    } else {
        resolved_rgb(cell.bg, seq![0x28u8, 0x2a, 0x36])
    };
    Rgba { r: rgb[0], g: rgb[1], b: rgb[2], a: 255 }
}

/// The picture of a screen is eight pixels wide and sixteen high for each cell, and shows each cell
/// in its place: its symbol in the color of the text, on the color of the background.
pub proof fn a_screen_is_shown_cell_by_cell(
    c: Canvas,
    b: ratatui::buffer::Buffer,
    i: int,
    j: int,
    blank: Canvas,
    symbol: Canvas,
    x: int,
    y: int,
)
    requires
        is_picture_of(c, b),
        0 <= i < buffer_area(b).width && 0 <= j < buffer_area(b).height,
        0 <= x < 8 && 0 <= y < 16,
        ({
            let cell = cell_at(b, buffer_area(b).x + i, buffer_area(b).y + j);
            let (ink, paper) = (ink_color(cell), paper_color(cell));
            &&& canvas_width(blank) == 8 && canvas_height(blank) == 16
            &&& forall|px: int, py: int|
                0 <= px < 8 && 0 <= py < 16 ==> #[trigger] pixel(blank, px, py) == paper
            &&& symbol_drawn(blank, symbol, 0, 0, cell.symbol, seq![ink.r, ink.g, ink.b])
        }),
    ensures
        canvas_width(c) == 8 * buffer_area(b).width,
        canvas_height(c) == 16 * buffer_area(b).height,
        pixel(c, 8 * i + x, 16 * j + y) == pixel(symbol, x, y),
{
    assert((8 * i + x) / 8 == i && (8 * i + x) % 8 == x);
    assert((16 * j + y) / 16 == j && (16 * j + y) % 16 == y);
    assert(in_canvas(c, 8 * i + x, 16 * j + y));
    assert(in_canvas(symbol, x, y));
    assert(in_canvas(blank, x, y));
    assert(pixel(blank, x, y) == pixel(blank, x, y));
}

/// In the picture of a screen, every row of the bitmap of a letter shows in its cell: the two pixels
/// of a dot have the color of the text where its bit is set, else that of the background.
pub proof fn letters_show_whole(
    c: Canvas,
    b: ratatui::buffer::Buffer,
    i: int,
    j: int,
    row: int,
    col: int,
    half: int,
)
    requires
        is_picture_of(c, b),
        0 <= i < buffer_area(b).width && 0 <= j < buffer_area(b).height,
        0 <= row < 8 && 0 <= col < 8 && 0 <= half < 2,
        ({
            let symbol = cell_at(b, buffer_area(b).x + i, buffer_area(b).y + j).symbol;
            symbol.len() > 0 && !is_block_or_line(symbol[0]) && basic_glyph(symbol[0]) is Some
        }),
    ensures
        ({
            let cell = cell_at(b, buffer_area(b).x + i, buffer_area(b).y + j);
            pixel(c, 8 * i + col, 16 * j + 2 * row + half) == (if basic_glyph(
                cell.symbol[0],
            )->0[row] & (1u8 << (col as u8)) != 0 {
                ink_color(cell)
            } else {
                paper_color(cell)
            })
        }),
{
    let y = 2 * row + half;
    assert((8 * i + col) / 8 == i && (8 * i + col) % 8 == col);
    assert((16 * j + y) / 16 == j && (16 * j + y) % 16 == y);
    assert(y / 2 == row);
    assert(in_canvas(c, 8 * i + col, 16 * j + y));
}

/// Where a channel of a pixel moves by more than 24, the pixel is counted as changed and is red in the
/// difference picture.
pub proof fn a_moved_channel_is_seen(
    golden: Canvas,
    actual: Canvas,
    fraction: Fraction,
    diff: Canvas,
    x: int,
    y: int,
)
    requires
        compares(golden, actual, fraction, diff),
        canvas_width(golden) == canvas_width(actual) && canvas_height(golden) == canvas_height(actual),
        0 <= x < canvas_width(actual) && 0 <= y < canvas_height(actual),
        far_apart(pixel(golden, x, y), pixel(actual, x, y)),
    ensures
        fraction.changed > 0,
        pixel(diff, x, y) == (Rgba { r: 255, g: 0, b: 0, a: 255 }),
{
    assert(in_canvas(actual, x, y));
    lemma_changed(golden, actual, canvas_height(actual) as nat, x, y);
}

/// Whether red, green, blue or the opacity of two colors are more than 24 apart.
pub open spec fn far_apart(a: Rgba, b: Rgba) -> bool {
    ||| a.r > b.r + 24 || b.r > a.r + 24
    ||| a.g > b.g + 24 || b.g > a.g + 24
    ||| a.b > b.b + 24 || b.b > a.b + 24
    ||| a.a > b.a + 24 || b.a > a.a + 24
}

/// Where no channel of a pixel moves by more than 24, the pixel of the difference picture is gray, of
/// a third of the brightness of the actual pixel.
pub proof fn an_unmoved_pixel_is_dimmed(
    golden: Canvas,
    actual: Canvas,
    fraction: Fraction,
    diff: Canvas,
    x: int,
    y: int,
)
    requires
        compares(golden, actual, fraction, diff),
        canvas_width(golden) == canvas_width(actual) && canvas_height(golden) == canvas_height(actual),
        0 <= x < canvas_width(actual) && 0 <= y < canvas_height(actual),
        !far_apart(pixel(golden, x, y), pixel(actual, x, y)),
    ensures
        ({
            let (p, a) = (pixel(diff, x, y), pixel(actual, x, y));
            let sum = a.r + a.g + a.b;
            &&& p.r == p.g && p.g == p.b && p.a == 255
            &&& 9 * p.r <= sum < 9 * p.r + 9
        }),
{
    assert(in_canvas(actual, x, y));
}

proof fn lemma_changed_row(golden: Canvas, actual: Canvas, y: int, n: nat, x: int)
    requires
        0 <= x < n,
        differs(pixel(golden, x, y), pixel(actual, x, y)),
    ensures
        changed_in_row(golden, actual, y, n) > 0,
    decreases n,
{
    if x < n - 1 {
        lemma_changed_row(golden, actual, y, (n - 1) as nat, x);
    }
}

proof fn lemma_changed(golden: Canvas, actual: Canvas, rows: nat, x: int, y: int)
    requires
        0 <= x < canvas_width(actual),
        0 <= y < rows,
        differs(pixel(golden, x, y), pixel(actual, x, y)),
    ensures
        changed_above(golden, actual, rows) > 0,
    decreases rows,
{
    if y < rows - 1 {
        lemma_changed(golden, actual, (rows - 1) as nat, x, y);
    } else {
        lemma_changed_row(golden, actual, y, canvas_width(actual) as nat, x);
    }
}

/// The pixels in the first `rows` rows, and the first `n` of the next, that are far apart in two
/// pictures.
pub open spec fn pixels_apart(golden: Canvas, actual: Canvas, rows: int, n: int) -> Set<(int, int)> {
    Set::new(
        |p: (int, int)|
            0 <= p.0 < canvas_width(actual) && 0 <= p.1 && (p.1 < rows || p.1 == rows && p.0 < n)
                && far_apart(pixel(golden, p.0, p.1), pixel(actual, p.0, p.1)),
    )
}

proof fn lemma_pixels_apart_row(golden: Canvas, actual: Canvas, rows: nat, n: nat)
    requires
        n <= canvas_width(actual),
        pixels_apart(golden, actual, rows as int, 0).finite(),
    ensures
        pixels_apart(golden, actual, rows as int, n as int).finite(),
        pixels_apart(golden, actual, rows as int, n as int).len() == pixels_apart(
            golden,
            actual,
            rows as int,
            0,
        ).len() + changed_in_row(golden, actual, rows as int, n),
    decreases n,
{
    if n > 0 {
        lemma_pixels_apart_row(golden, actual, rows, (n - 1) as nat);
        let before = pixels_apart(golden, actual, rows as int, n - 1);
        let after = pixels_apart(golden, actual, rows as int, n as int);
        let p = (n - 1, rows as int);
        assert(!before.contains(p));
        if far_apart(pixel(golden, n - 1, rows as int), pixel(actual, n - 1, rows as int)) {
            assert(after =~= before.insert(p));
        } else {
            assert(after =~= before);
        }
    }
}

proof fn lemma_pixels_apart(golden: Canvas, actual: Canvas, rows: nat)
    ensures
        pixels_apart(golden, actual, rows as int, 0).finite(),
        pixels_apart(golden, actual, rows as int, 0).len() == changed_above(golden, actual, rows),
    decreases rows,
{
    if rows == 0 {
        assert(pixels_apart(golden, actual, 0, 0) =~= Set::empty());
    } else {
        let (w, y) = (canvas_width(actual) as nat, (rows - 1) as nat);
        lemma_pixels_apart(golden, actual, y);
        lemma_pixels_apart_row(golden, actual, y, w);
        assert(pixels_apart(golden, actual, rows as int, 0) =~= pixels_apart(
            golden,
            actual,
            y as int,
            w as int,
        ));
    }
}

/// The number of changed pixels is that of the pixels in which a channel moves by more than 24, out of
/// all pixels of the picture.
pub proof fn exactly_the_moved_pixels_count(
    golden: Canvas,
    actual: Canvas,
    fraction: Fraction,
    diff: Canvas,
)
    requires
        compares(golden, actual, fraction, diff),
        canvas_width(golden) == canvas_width(actual) && canvas_height(golden) == canvas_height(actual),
    ensures
        pixels_apart(golden, actual, canvas_height(actual) as int, 0).finite(),
        fraction.changed == pixels_apart(golden, actual, canvas_height(actual) as int, 0).len(),
        fraction.total == canvas_width(actual) * canvas_height(actual),
        canvas_width(diff) == canvas_width(actual) && canvas_height(diff) == canvas_height(actual),
{
    lemma_pixels_apart(golden, actual, canvas_height(actual) as nat);
}

/// Where no channel of any pixel moves by more than 24, nothing counts as changed.
pub proof fn nothing_is_seen_within_the_tolerance(
    golden: Canvas,
    actual: Canvas,
    fraction: Fraction,
    diff: Canvas,
)
    requires
        compares(golden, actual, fraction, diff),
        canvas_width(golden) == canvas_width(actual) && canvas_height(golden) == canvas_height(actual),
        forall|x: int, y: int|
            0 <= x < canvas_width(actual) && 0 <= y < canvas_height(actual) ==> !far_apart(
                #[trigger] pixel(golden, x, y),
                pixel(actual, x, y),
            ),
    ensures
        fraction.changed == 0,
{
    lemma_pixels_apart(golden, actual, canvas_height(actual) as nat);
    let all = pixels_apart(golden, actual, canvas_height(actual) as int, 0);
    assert forall|p: (int, int)| !all.contains(p) by {
        assert(pixel(golden, p.0, p.1) == pixel(golden, p.0, p.1));
    }
    assert(all =~= Set::empty());
}

/// Pictures of different dimensions differ as a whole, and the difference picture is the actual one.
pub proof fn pictures_of_other_dimensions_differ(
    golden: Canvas,
    actual: Canvas,
    fraction: Fraction,
    diff: Canvas,
    x: int,
    y: int,
)
    requires
        compares(golden, actual, fraction, diff),
        canvas_width(golden) != canvas_width(actual) || canvas_height(golden) != canvas_height(actual),
        0 <= x < canvas_width(actual) && 0 <= y < canvas_height(actual),
    ensures
        fraction.changed == fraction.total && fraction.total == 1,
        canvas_width(diff) == canvas_width(actual) && canvas_height(diff) == canvas_height(actual),
        pixel(diff, x, y) == pixel(actual, x, y),
{
    assert(in_canvas(diff, x, y));
}

/// A fraction is beyond the tolerance when it is more than two in ten thousand, whatever it is
/// written in.
pub proof fn the_tolerance_is_two_in_ten_thousand(f: Fraction, g: Fraction, k: int)
    requires
        k > 0,
        g.changed == k * f.changed && g.total == k * f.total,
    ensures
        beyond_tolerance(f) == beyond_tolerance(g),
        f.total == 10_000 ==> (beyond_tolerance(f) <==> f.changed > 2),
        f.changed == 1 ==> (beyond_tolerance(f) <==> f.total < 5_000),
        f.changed == 0 ==> !beyond_tolerance(f),
{
    let (c, t) = (f.changed as int, f.total as int);
    assert(10_000 * (k * c) > 2 * (k * t) <==> 10_000 * c > 2 * t) by (nonlinear_arith)
        requires
            k > 0,
    ;
}

/// The widths of the first `n` pictures together.
pub open spec fn widths_of(images: Seq<&Canvas>, n: int) -> int
    decreases n,
{
    if n <= 0 {
        0
    } else {
        widths_of(images, n - 1) + canvas_width(*images[n - 1])
    }
}

proof fn lemma_offset(images: Seq<&Canvas>, i: int)
    requires
        0 <= i,
    ensures
        offset(images, i) == widths_of(images, i) + 16 * i,
    decreases i,
{
    if i > 0 {
        lemma_offset(images, i - 1);
    }
}

proof fn lemma_tallest_bounds(images: Seq<&Canvas>, n: int, i: int)
    requires
        0 <= i < n,
    ensures
        canvas_height(*images[i]) <= tallest(images, n),
        exists|k: int| 0 <= k < n && #[trigger] canvas_height(*images[k]) == tallest(images, n),
    decreases n,
{
    if n > 1 {
        if i < n - 1 {
            lemma_tallest_bounds(images, n - 1, i);
        } else {
            lemma_tallest_bounds(images, n - 1, 0);
        }
        if canvas_height(*images[n - 1]) <= tallest(images, n - 1) {
            let k = choose|k: int|
                0 <= k < n - 1 && #[trigger] canvas_height(*images[k]) == tallest(images, n - 1);
            assert(canvas_height(*images[k]) == tallest(images, n));
        } else {
            assert(canvas_height(*images[n - 1]) == tallest(images, n));
        }
    } else {
        assert(tallest(images, 0) == 0);
        assert(canvas_height(*images[0]) == tallest(images, n));
    }
}

proof fn lemma_widths_grow(images: Seq<&Canvas>, i: int, j: int)
    requires
        0 <= i <= j,
    ensures
        widths_of(images, i) <= widths_of(images, j),
    decreases j,
{
    if i < j {
        lemma_widths_grow(images, i, j - 1);
    }
}

/// Pictures side by side stand sixteen pixels apart, in order, and the picture of them is as high as
/// the highest.
pub proof fn pictures_stand_side_by_side(images: Seq<&Canvas>, r: Canvas, i: int, x: int, y: int)
    requires
        laid_out(images, r),
        0 <= i < images.len(),
        0 <= x < canvas_width(*images[i]) && 0 <= y < canvas_height(*images[i]),
    ensures
        canvas_width(r) == widths_of(images, images.len() as int) + 16 * (images.len() - 1),
        canvas_height(*images[i]) <= canvas_height(r),
        exists|k: int| 0 <= k < images.len() && #[trigger] canvas_height(*images[k]) == canvas_height(r),
        pixel(r, widths_of(images, i) + 16 * i + x, y) == pixel(*images[i], x, y),
{
    lemma_offset(images, i);
    lemma_offset(images, images.len() as int);
    lemma_tallest_bounds(images, images.len() as int, i);
    assert(in_canvas(*images[i], x, y));
}

/// Between pictures that stand side by side, and below those that are not as high as others, there is
/// magenta.
pub proof fn gaps_between_pictures_are_magenta(images: Seq<&Canvas>, r: Canvas, i: int, x: int, y: int)
    requires
        laid_out(images, r),
        0 <= i < images.len(),
        0 <= x < canvas_width(*images[i]) + 16,
        0 <= widths_of(images, i) + 16 * i + x < canvas_width(r),
        0 <= y < canvas_height(r),
        x >= canvas_width(*images[i]) || y >= canvas_height(*images[i]),
    ensures
        pixel(r, widths_of(images, i) + 16 * i + x, y) == (Rgba { r: 255, g: 0, b: 255, a: 255 }),
{
    let px = widths_of(images, i) + 16 * i + x;
    lemma_offset(images, i);
    assert forall|k: int| 0 <= k < images.len() implies !#[trigger] in_canvas(
        *images[k],
        px - offset(images, k),
        y,
    ) by {
        lemma_offset(images, k);
        if k < i {
            lemma_widths_grow(images, k + 1, i);
        } else if k > i {
            lemma_widths_grow(images, i + 1, k);
        }
    }
    assert(in_canvas(r, px, y));
}

/// Colors given as red, green and blue are shown as they are, and the terminal's own colors are those
/// of its theme.
pub proof fn plain_colors_are_shown_as_they_are(cell: CellView, r: u8, g: u8, b: u8)
    ensures
        !cell.reversed && cell.fg == Color::Rgb(r, g, b) ==> ink_color(cell) == (Rgba {
            r,
            g,
            b,
            a: 255,
        }),
        !cell.reversed && cell.bg == Color::Rgb(r, g, b) ==> paper_color(cell) == (Rgba {
            r,
            g,
            b,
            a: 255,
        }),
        !cell.reversed && cell.fg == Color::Reset ==> ink_color(cell) == (Rgba {
            r: 0xf8,
            g: 0xf8,
            b: 0xf2,
            a: 255,
        }),
        !cell.reversed && cell.bg == Color::Reset ==> paper_color(cell) == (Rgba {
            r: 0x28,
            g: 0x2a,
            b: 0x36,
            a: 255,
        }),
        ink_color(CellView { reversed: !cell.reversed, ..cell }) == paper_color(cell),
        paper_color(CellView { reversed: !cell.reversed, ..cell }) == ink_color(cell),
{
}

} // verus!
