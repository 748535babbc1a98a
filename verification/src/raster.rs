//! Pictures of a screen, and comparing them.

use crate::canvas::{
    canvas_height, canvas_width, fits_in_memory, in_canvas, pixel, same_picture, Canvas, Rgba,
};
use crate::palette::{resolve, resolved_rgb};
use crate::screen::{
    area_of, bg_at, buffer_area, cell_at, complete, fg_at, has_cell, reversed_at, symbol_at, CellView,
};
use vstd::prelude::*;

verus! {

/// The width of a cell in pixels.
pub const CELL_W: u32 = 8;

/// The height of a cell in pixels.
pub const CELL_H: u32 = 16;

/// The opaque color of the given red, green and blue.
pub open spec fn opaque(rgb: Seq<u8>) -> Rgba {
    Rgba { r: rgb[0], g: rgb[1], b: rgb[2], a: 255 }
}

/// Whether `(px, py)` lies in the rectangle of `w` by `h` pixels at `(x, y)`.
pub open spec fn in_rect(px: int, py: int, x: int, y: int, w: int, h: int) -> bool {
    x <= px < x + w && y <= py < y + h
}

/// The bitmap of a character in the basic font: eight rows, whose lowest bit is the leftmost
/// pixel.
pub uninterp spec fn basic_glyph(ch: char) -> Option<Seq<u8>>;

/// `UnicodeFonts::get` of `font8x8::BASIC_FONTS`, which has a bitmap for each of the first 128
/// characters of Unicode and for no other.
#[verifier::external_body]
pub(crate) fn glyph_of(ch: char) -> (r: Option<[u8; 8]>)
    ensures
        r is Some <==> ch < '\u{80}',
        r is Some <==> basic_glyph(ch) is Some,
        r matches Some(g) ==> basic_glyph(ch) == Some(g@),
{
    font8x8::UnicodeFonts::get(&font8x8::BASIC_FONTS, ch)
}

/// Whether bit `col` of `bits` is set, counted from the lowest.
pub open spec fn bit_set(bits: u8, col: int) -> bool {
    bits & (1u8 << (col as u8)) != 0
}

/// Whether the horizontal stroke through the middle of a cell covers `(x, y)`, when it is drawn
/// from column `from` up to column `to`.
pub open spec fn in_hline(x: int, y: int, from: int, to: int) -> bool {
    from <= x < to && 7 <= y < 9
}

/// Whether the vertical stroke through the middle of a cell covers `(x, y)`, when it is drawn
/// from row `from` up to row `to`.
pub open spec fn in_vline(x: int, y: int, from: int, to: int) -> bool {
    3 <= x < 5 && from <= y < to
}

/// Whether the picture of the character `ch` has ink at column `x` and row `y` of its cell.
pub open spec fn inked(ch: char, x: int, y: int) -> bool {
    if ch == ' ' {
        false
    } else if ch == '█' {
        true
    } else if ch == '▀' {
        y < 8
    } else if ch == '▄' {
        y >= 8
    } else if ch == '▂' {
        y >= 12
    } else if ch == '🮂' {
        y < 4
    } else if ch == '▎' {
        x < 2
    } else if ch == '🮇' {
        x >= 6
    } else if ch == '─' || ch == '━' || ch == '═' {
        in_hline(x, y, 0, 8)
    } else if ch == '│' || ch == '┃' || ch == '║' {
        in_vline(x, y, 0, 16)
    } else if ch == '┌' || ch == '╭' || ch == '╔' || ch == '┏' {
        in_hline(x, y, 3, 8) || in_vline(x, y, 7, 16)
    } else if ch == '┐' || ch == '╮' || ch == '╗' || ch == '┓' {
        in_hline(x, y, 0, 5) || in_vline(x, y, 7, 16)
    } else if ch == '└' || ch == '╰' || ch == '╚' || ch == '┗' {
        in_hline(x, y, 3, 8) || in_vline(x, y, 0, 9)
    } else if ch == '┘' || ch == '╯' || ch == '╝' || ch == '┛' {
        in_hline(x, y, 0, 5) || in_vline(x, y, 0, 9)
    } else {
        match basic_glyph(ch) {
            Some(glyph) => bit_set(glyph[y / 2], x),
            None => {
                // the outline of the cell, one pixel in from its edges
                1 <= x < 7 && 1 <= y < 15 && (x == 1 || x == 6 || y == 1 || y == 14)
            },
        }
    }
}

/// Whether the picture of `symbol`, of which only the first character is drawn, has ink at
/// column `x` and row `y` of its cell.
pub open spec fn symbol_inked(symbol: Seq<char>, x: int, y: int) -> bool {
    symbol.len() > 0 && inked(symbol[0], x, y)
}

/// The red, green and blue of text in the terminal's own color.
pub open spec fn default_fg() -> Seq<u8> {
    seq![0xf8u8, 0xf8, 0xf2]
}

/// The red, green and blue of a background in the terminal's own color.
pub open spec fn default_bg() -> Seq<u8> {
    seq![0x28u8, 0x2a, 0x36]
}

/// The pixel at column `x` and row `y` of the picture of a cell.
pub open spec fn cell_pixel(cell: CellView, x: int, y: int) -> Rgba {
    let fg = resolved_rgb(cell.fg, default_fg());
    let bg = resolved_rgb(cell.bg, default_bg());
    if symbol_inked(cell.symbol, x, y) != cell.reversed {
        opaque(fg)
    } else {
        opaque(bg)
    }
}

/// Whether `after` is `before` with the rectangle of `w` by `h` pixels at `(x, y)` painted, as far as
/// it lies in the picture.
pub open spec fn painted(
    before: Canvas,
    after: Canvas,
    x: int,
    y: int,
    w: int,
    h: int,
    c: Seq<u8>,
) -> bool {
    &&& canvas_width(after) == canvas_width(before)
    &&& canvas_height(after) == canvas_height(before)
    &&& forall|px: int, py: int|
        in_canvas(after, px, py) ==> #[trigger] pixel(after, px, py) == (if in_rect(
            px,
            py,
            x,
            y,
            w,
            h,
        ) {
            opaque(c)
        } else {
            pixel(before, px, py)
        })
}

/// Paints the rectangle of `w` by `h` pixels at `(x, y)`, as far as it lies in the picture.
pub fn fill(img: &mut Canvas, x: u32, y: u32, w: u32, h: u32, c: [u8; 3])
    requires
        x + w <= u32::MAX,
        y + h <= u32::MAX,
    ensures
        painted(*old(img), *final(img), x as int, y as int, w as int, h as int, c@),
{
    let color = Rgba { r: c[0], g: c[1], b: c[2], a: 255 };
    let right: u32 = if x + w < img.image_width() {
        x + w
    } else {
        img.image_width()
    };
    let bottom: u32 = if y + h < img.image_height() {
        y + h
    } else {
        img.image_height()
    };
    let ghost start = *img;
    let mut py: u32 = y;
    while py < bottom
        invariant
            color == opaque(c@),
            y <= py,
            py <= bottom || py == y,
            right <= canvas_width(start),
            bottom <= canvas_height(start),
            canvas_width(*img) == canvas_width(start),
            canvas_height(*img) == canvas_height(start),
            forall|i: int, j: int|
                in_canvas(start, i, j) ==> #[trigger] pixel(*img, i, j) == (if x <= i < right && y <= j
                    < py {
                    color
                } else {
                    pixel(start, i, j)
                }),
        decreases bottom - py,
    {
        let mut px: u32 = x;
        while px < right
            invariant
                x <= px,
                px <= right || px == x,
                y <= py < bottom,
                right <= canvas_width(start),
                bottom <= canvas_height(start),
                canvas_width(*img) == canvas_width(start),
                canvas_height(*img) == canvas_height(start),
                forall|i: int, j: int|
                    in_canvas(start, i, j) ==> #[trigger] pixel(*img, i, j) == (if x <= i < right && y
                        <= j < py || x <= i < px && j == py {
                        color
                    } else {
                        pixel(start, i, j)
                    }),
            decreases right - px,
        {
            let ghost before = *img;
            img.put_pixel(px, py, color);
            assert forall|i: int, j: int| in_canvas(start, i, j) implies #[trigger] pixel(*img, i, j)
                == (if i == px && j == py {
                color
            } else {
                pixel(before, i, j)
            }) by {}
            px += 1;
        }
        py += 1;
    }
}

/// Draws the horizontal stroke through the middle of the cell at `(ox, oy)`.
fn hline(img: &mut Canvas, ox: u32, oy: u32, from: u32, to: u32, fg: [u8; 3])
    requires
        from <= to <= CELL_W,
        ox + CELL_W <= u32::MAX,
        oy + CELL_H <= u32::MAX,
    ensures
        canvas_width(*final(img)) == canvas_width(*old(img)),
        canvas_height(*final(img)) == canvas_height(*old(img)),
        forall|px: int, py: int|
            in_canvas(*final(img), px, py) ==> #[trigger] pixel(*final(img), px, py) == (if in_hline(
                px - ox,
                py - oy,
                from as int,
                to as int,
            ) {
                opaque(fg@)
            } else {
                pixel(*old(img), px, py)
            }),
{
    fill(img, ox + from, oy + CELL_H / 2 - 1, to - from, 2, fg);
}

/// Draws the vertical stroke through the middle of the cell at `(ox, oy)`.
fn vline(img: &mut Canvas, ox: u32, oy: u32, from: u32, to: u32, fg: [u8; 3])
    requires
        from <= to <= CELL_H,
        ox + CELL_W <= u32::MAX,
        oy + CELL_H <= u32::MAX,
    ensures
        canvas_width(*final(img)) == canvas_width(*old(img)),
        canvas_height(*final(img)) == canvas_height(*old(img)),
        forall|px: int, py: int|
            in_canvas(*final(img), px, py) ==> #[trigger] pixel(*final(img), px, py) == (if in_vline(
                px - ox,
                py - oy,
                from as int,
                to as int,
            ) {
                opaque(fg@)
            } else {
                pixel(*old(img), px, py)
            }),
{
    fill(img, ox + CELL_W / 2 - 1, oy + from, 2, to - from, fg);
}

/// Draws a bitmap of the basic font into the cell at `(ox, oy)`, each row two pixels high.
fn draw_glyph(img: &mut Canvas, ox: u32, oy: u32, glyph: [u8; 8], fg: [u8; 3])
    requires
        ox + CELL_W <= u32::MAX,
        oy + CELL_H <= u32::MAX,
    ensures
        canvas_width(*final(img)) == canvas_width(*old(img)),
        canvas_height(*final(img)) == canvas_height(*old(img)),
        forall|px: int, py: int|
            in_canvas(*final(img), px, py) ==> #[trigger] pixel(*final(img), px, py) == (if in_rect(
                px,
                py,
                ox as int,
                oy as int,
                CELL_W as int,
                CELL_H as int,
            ) && bit_set(glyph@[(py - oy) / 2], px - ox) {
                opaque(fg@)
            } else {
                pixel(*old(img), px, py)
            }),
{
    let ghost start = *img;
    let mut row: u32 = 0;
    while row < 8
        invariant
            row <= 8,
            ox + CELL_W <= u32::MAX,
            oy + CELL_H <= u32::MAX,
            canvas_width(*img) == canvas_width(start),
            canvas_height(*img) == canvas_height(start),
            forall|px: int, py: int|
                in_canvas(start, px, py) ==> #[trigger] pixel(*img, px, py) == (if in_rect(
                    px,
                    py,
                    ox as int,
                    oy as int,
                    8,
                    2 * row as int,
                ) && bit_set(glyph@[(py - oy) / 2], px - ox) {
                    opaque(fg@)
                } else {
                    pixel(start, px, py)
                }),
        decreases 8 - row,
    {
        let bits: u8 = glyph[row as usize];
        let mut col: u32 = 0;
        while col < 8
            invariant
                row < 8,
                col <= 8,
                bits == glyph@[row as int],
                ox + CELL_W <= u32::MAX,
                oy + CELL_H <= u32::MAX,
                canvas_width(*img) == canvas_width(start),
                canvas_height(*img) == canvas_height(start),
                forall|px: int, py: int|
                    in_canvas(start, px, py) ==> #[trigger] pixel(*img, px, py) == (if (in_rect(
                        px,
                        py,
                        ox as int,
                        oy as int,
                        8,
                        2 * row as int,
                    ) || in_rect(px, py, ox as int, oy + 2 * row, col as int, 2)) && bit_set(
                        glyph@[(py - oy) / 2],
                        px - ox,
                    ) {
                        opaque(fg@)
                    } else {
                        pixel(start, px, py)
                    }),
            decreases 8 - col,
        {
            if bits & (1u8 << (col as u8)) != 0 {
                fill(img, ox + col, oy + row * 2, 1, 2, fg);
            }
            col += 1;
        }
        row += 1;
    }
}

/// Whether `after` is `before` with the first character of `symbol` drawn into the cell at
/// `(ox, oy)`.
pub open spec fn symbol_drawn(
    before: Canvas,
    after: Canvas,
    ox: int,
    oy: int,
    symbol: Seq<char>,
    fg: Seq<u8>,
) -> bool {
    &&& canvas_width(after) == canvas_width(before)
    &&& canvas_height(after) == canvas_height(before)
    &&& forall|px: int, py: int|
        in_canvas(after, px, py) ==> #[trigger] pixel(after, px, py) == (if in_rect(
            px,
            py,
            ox,
            oy,
            CELL_W as int,
            CELL_H as int,
        ) && symbol_inked(symbol, px - ox, py - oy) {
            opaque(fg)
        } else {
            pixel(before, px, py)
        })
}

/// Draws the first character of `symbol` into the cell at `(ox, oy)`.
pub fn draw_symbol(img: &mut Canvas, ox: u32, oy: u32, symbol: &str, fg: [u8; 3])
    requires
        ox + CELL_W <= u32::MAX,
        oy + CELL_H <= u32::MAX,
    ensures
        symbol_drawn(*old(img), *final(img), ox as int, oy as int, symbol@, fg@),
{
    let mut chars = symbol.chars();
    let ch = match chars.next() {
        Some(ch) => ch,
        None => {
            return;
        },
    };
    assert(ch == symbol@[0]);
    let (w, h): (u32, u32) = (CELL_W, CELL_H);
    let (mx, my): (u32, u32) = (w / 2 - 1, h / 2 - 1);
    match ch {
        ' ' => {},
        '█' => fill(img, ox, oy, w, h, fg),
        '▀' => fill(img, ox, oy, w, h / 2, fg),
        '▄' => fill(img, ox, oy + h / 2, w, h / 2, fg),
        '▂' => fill(img, ox, oy + h - h / 4, w, h / 4, fg),
        '🮂' => fill(img, ox, oy, w, h / 4, fg),
        '▎' => fill(img, ox, oy, w / 4, h, fg),
        '🮇' => fill(img, ox + w - w / 4, oy, w / 4, h, fg),
        '─' | '━' | '═' => hline(img, ox, oy, 0, w, fg),
        '│' | '┃' | '║' => vline(img, ox, oy, 0, h, fg),
        '┌' | '╭' | '╔' | '┏' => {
            hline(img, ox, oy, mx, w, fg);
            vline(img, ox, oy, my, h, fg);
        },
        '┐' | '╮' | '╗' | '┓' => {
            hline(img, ox, oy, 0, mx + 2, fg);
            vline(img, ox, oy, my, h, fg);
        },
        '└' | '╰' | '╚' | '┗' => {
            hline(img, ox, oy, mx, w, fg);
            vline(img, ox, oy, 0, my + 2, fg);
        },
        '┘' | '╯' | '╝' | '┛' => {
            hline(img, ox, oy, 0, mx + 2, fg);
            vline(img, ox, oy, 0, my + 2, fg);
        },
        _ => {
            match glyph_of(ch) {
                Some(glyph) => draw_glyph(img, ox, oy, glyph, fg),
                None => {
                    // outline the cell so that the character is still visible in the picture
                    fill(img, ox + 1, oy + 1, w - 2, 1, fg);
                    fill(img, ox + 1, oy + h - 2, w - 2, 1, fg);
                    fill(img, ox + 1, oy + 1, 1, h - 2, fg);
                    fill(img, ox + w - 2, oy + 1, 1, h - 2, fg);
                },
            }
        },
    }
}

/// Whether `c` is the picture of the screen `b`.
pub open spec fn is_picture_of(c: Canvas, b: ratatui::buffer::Buffer) -> bool {
    &&& canvas_width(c) == buffer_area(b).width * CELL_W
    &&& canvas_height(c) == buffer_area(b).height * CELL_H
    &&& forall|px: int, py: int|
        in_canvas(c, px, py) ==> #[trigger] pixel(c, px, py) == cell_pixel(
            cell_at(b, buffer_area(b).x + px / 8, buffer_area(b).y + py / 16),
            px % 8,
            py % 16,
        )
}

/// The picture of a screen.
pub fn rasterize(buf: &ratatui::buffer::Buffer) -> (r: Canvas)
    requires
        complete(*buf),
        fits_in_memory(buffer_area(*buf).width * CELL_W, buffer_area(*buf).height * CELL_H),
    ensures
        is_picture_of(r, *buf),
{
    let area = area_of(buf);
    let mut img = Canvas::blank(area.width as u32 * CELL_W, area.height as u32 * CELL_H);
    let mut y: u16 = 0;
    while y < area.height
        invariant
            y <= area.height,
            area == buffer_area(*buf),
            complete(*buf),
            canvas_width(img) == area.width * CELL_W,
            canvas_height(img) == area.height * CELL_H,
            forall|px: int, py: int|
                in_canvas(img, px, py) && py / 16 < y ==> #[trigger] pixel(img, px, py) == cell_pixel(
                    cell_at(*buf, area.x + px / 8, area.y + py / 16),
                    px % 8,
                    py % 16,
                ),
        decreases area.height - y,
    {
        let mut x: u16 = 0;
        while x < area.width
            invariant
                x <= area.width,
                y < area.height,
                area == buffer_area(*buf),
                complete(*buf),
                canvas_width(img) == area.width * CELL_W,
                canvas_height(img) == area.height * CELL_H,
                forall|px: int, py: int|
                    in_canvas(img, px, py) && (py / 16 < y || py / 16 == y && px / 8 < x)
                        ==> #[trigger] pixel(img, px, py) == cell_pixel(
                        cell_at(*buf, area.x + px / 8, area.y + py / 16),
                        px % 8,
                        py % 16,
                    ),
            decreases area.width - x,
        {
            assert(has_cell(*buf, area.x + x, area.y + y));
            let (cx, cy): (u16, u16) = (area.x + x, area.y + y);
            let ghost cell = cell_at(*buf, cx as int, cy as int);
            let mut fg = resolve(fg_at(buf, cx, cy).unwrap(), [0xf8, 0xf8, 0xf2]);
            let mut bg = resolve(bg_at(buf, cx, cy).unwrap(), [0x28, 0x2a, 0x36]);
            assert([0xf8u8, 0xf8, 0xf2]@ =~= default_fg());
            assert([0x28u8, 0x2a, 0x36]@ =~= default_bg());
            if reversed_at(buf, cx, cy).unwrap() {
                let swapped = fg;
                fg = bg;
                bg = swapped;
            }
            let symbol = symbol_at(buf, cx, cy).unwrap();
            let (ox, oy): (u32, u32) = (x as u32 * CELL_W, y as u32 * CELL_H);
            let ghost before = img;
            fill(&mut img, ox, oy, CELL_W, CELL_H, bg);
            draw_symbol(&mut img, ox, oy, symbol.as_str(), fg);
            assert forall|px: int, py: int|
                in_canvas(img, px, py) && (py / 16 < y || py / 16 == y && px / 8 < x + 1) implies #[trigger] pixel(
                img,
                px,
                py,
            ) == cell_pixel(
                cell_at(*buf, area.x + px / 8, area.y + py / 16),
                px % 8,
                py % 16,
            ) by {
                if py / 16 == y && px / 8 == x {
                    assert(px - ox == px % 8 && py - oy == py % 16);
                    assert(in_rect(px, py, ox as int, oy as int, 8, 16));
                } else {
                    assert(!in_rect(px, py, ox as int, oy as int, 8, 16));
                    assert(pixel(img, px, py) == pixel(before, px, py));
                }
            }
            x += 1;
        }
        y += 1;
    }
    img
}

/// The largest amount by which a channel may move in a pixel that counts as unchanged.
pub const CHANNEL_TOLERANCE: u8 = 24;

/// Whether a channel moves by more than the tolerance.
pub open spec fn moved(a: u8, b: u8) -> bool {
    a - b > CHANNEL_TOLERANCE || b - a > CHANNEL_TOLERANCE
}

/// Whether a pixel counts as changed: any of its channels moves.
pub open spec fn differs(a: Rgba, b: Rgba) -> bool {
    moved(a.r, b.r) || moved(a.g, b.g) || moved(a.b, b.b) || moved(a.a, b.a)
}

/// The number of changed pixels among the first `n` of row `y`.
pub open spec fn changed_in_row(golden: Canvas, actual: Canvas, y: int, n: nat) -> nat
    decreases n,
{
    if n == 0 {
        0
    } else {
        changed_in_row(golden, actual, y, (n - 1) as nat) + (if differs(
            pixel(golden, n - 1, y),
            pixel(actual, n - 1, y),
        ) {
            1nat
        } else {
            0nat
        })
    }
}

/// The number of changed pixels in the first `rows` rows.
pub open spec fn changed_above(golden: Canvas, actual: Canvas, rows: nat) -> nat
    decreases rows,
{
    if rows == 0 {
        0
    } else {
        changed_above(golden, actual, (rows - 1) as nat) + changed_in_row(
            golden,
            actual,
            rows - 1,
            canvas_width(actual) as nat,
        )
    }
}

/// Whether two pictures have the same dimensions.
pub open spec fn same_dimensions(a: Canvas, b: Canvas) -> bool {
    canvas_width(a) == canvas_width(b) && canvas_height(a) == canvas_height(b)
}

/// The pixel of the difference picture: red where the pixel changed, else the actual pixel as a
/// dim gray.
pub open spec fn diff_pixel(golden: Rgba, actual: Rgba) -> Rgba {
    if differs(golden, actual) {
        Rgba { r: 255, g: 0, b: 0, a: 255 }
    } else {
        let l = ((actual.r + actual.g + actual.b) / 9) as u8;
        Rgba { r: l, g: l, b: l, a: 255 }
    }
}

/// A number of changed pixels out of a number of pixels.
#[derive(Clone, Copy, Debug, PartialEq, Eq, Structural)]
pub struct Fraction {
    pub changed: u64,
    pub total: u64,
}

/// Whether more than two pixels in ten thousand changed.
pub open spec fn beyond_tolerance(f: Fraction) -> bool {
    10000 * f.changed > 2 * f.total
}

impl Fraction {
    /// Whether more than two pixels in ten thousand changed: enough for a single missing title.
    pub fn exceeds_tolerance(&self) -> (r: bool)
        ensures
            r == beyond_tolerance(*self),
    {
        10000 * (self.changed as u128) > 2 * (self.total as u128)
    }
}

proof fn lemma_changed_bound(golden: Canvas, actual: Canvas, rows: nat, y: int, n: nat)
    ensures
        changed_in_row(golden, actual, y, n) <= n,
        changed_above(golden, actual, rows) <= rows * canvas_width(actual),
    decreases rows, n,
{
    if n > 0 {
        lemma_changed_bound(golden, actual, rows, y, (n - 1) as nat);
    }
    if rows > 0 {
        let w = canvas_width(actual) as nat;
        lemma_changed_bound(golden, actual, (rows - 1) as nat, rows - 1, w);
        assert((rows - 1) * w + w == rows * w) by (nonlinear_arith);
    }
}

/// Whether a pixel counts as changed.
fn pixel_differs(a: Rgba, b: Rgba) -> (r: bool)
    ensures
        r == differs(a, b),
{
    channel_moved(a.r, b.r) || channel_moved(a.g, b.g) || channel_moved(a.b, b.b) || channel_moved(
        a.a,
        b.a,
    )
}

/// Whether a channel moves by more than the tolerance.
fn channel_moved(a: u8, b: u8) -> (r: bool)
    ensures
        r == moved(a, b),
{
    if a > b {
        a - b > CHANNEL_TOLERANCE
    } else {
        b - a > CHANNEL_TOLERANCE
    }
}

/// Whether comparing two pictures gives `fraction` and the difference picture `diff`.
pub open spec fn compares(golden: Canvas, actual: Canvas, fraction: Fraction, diff: Canvas) -> bool {
    if same_dimensions(golden, actual) {
        &&& fraction.changed == changed_above(golden, actual, canvas_height(actual) as nat)
        &&& fraction.total == canvas_width(actual) * canvas_height(actual)
        &&& same_dimensions(diff, actual)
        &&& forall|x: int, y: int|
            in_canvas(actual, x, y) ==> #[trigger] pixel(diff, x, y) == diff_pixel(
                pixel(golden, x, y),
                pixel(actual, x, y),
            )
    } else {
        fraction == (Fraction { changed: 1, total: 1 }) && same_picture(diff, actual)
    }
}

/// The fraction of changed pixels, and a picture that shows the actual one dimmed, with the
/// changed pixels in red. Pictures of different dimensions differ as a whole.
pub fn compare(golden: &Canvas, actual: &Canvas) -> (r: (Fraction, Canvas))
    requires
        same_dimensions(*golden, *actual) ==> canvas_width(*actual) * canvas_height(*actual)
            <= u32::MAX && fits_in_memory(
            canvas_width(*actual) as int,
            canvas_height(*actual) as int,
        ),
    ensures
        compares(*golden, *actual, r.0, r.1),
{
    let (width, height): (u32, u32) = (actual.image_width(), actual.image_height());
    if golden.image_width() != width || golden.image_height() != height {
        return (Fraction { changed: 1, total: 1 }, actual.duplicate());
    }
    let mut diff = Canvas::blank(width, height);
    let mut changed: u64 = 0;
    let mut y: u32 = 0;
    while y < height
        invariant
            y <= height,
            same_dimensions(*golden, *actual),
            same_dimensions(diff, *actual),
            width == canvas_width(*actual),
            height == canvas_height(*actual),
            width * height <= u32::MAX,
            changed == changed_above(*golden, *actual, y as nat),
            forall|i: int, j: int|
                in_canvas(*actual, i, j) && j < y ==> #[trigger] pixel(diff, i, j) == diff_pixel(
                    pixel(*golden, i, j),
                    pixel(*actual, i, j),
                ),
        decreases height - y,
    {
        let mut x: u32 = 0;
        while x < width
            invariant
                x <= width,
                y < height,
                same_dimensions(*golden, *actual),
                same_dimensions(diff, *actual),
                width == canvas_width(*actual),
                height == canvas_height(*actual),
                width * height <= u32::MAX,
                changed == changed_above(*golden, *actual, y as nat) + changed_in_row(
                    *golden,
                    *actual,
                    y as int,
                    x as nat,
                ),
                forall|i: int, j: int|
                    in_canvas(*actual, i, j) && (j < y || j == y && i < x) ==> #[trigger] pixel(
                        diff,
                        i,
                        j,
                    ) == diff_pixel(pixel(*golden, i, j), pixel(*actual, i, j)),
            decreases width - x,
        {
            let a = actual.get_pixel(x, y);
            let g = golden.get_pixel(x, y);
            proof {
                lemma_changed_bound(*golden, *actual, y as nat, y as int, x as nat);
                assert(y * width + x < width * height) by (nonlinear_arith)
                    requires
                        y < height,
                        x < width,
                ;
            }
            let p = if pixel_differs(g, a) {
                changed += 1;
                Rgba { r: 255, g: 0, b: 0, a: 255 }
            } else {
                let l: u8 = ((a.r as u32 + a.g as u32 + a.b as u32) / 9) as u8;
                Rgba { r: l, g: l, b: l, a: 255 }
            };
            let ghost before = diff;
            diff.put_pixel(x, y, p);
            assert forall|i: int, j: int| in_canvas(*actual, i, j) implies #[trigger] pixel(diff, i, j)
                == (if i == x && j == y {
                p
            } else {
                pixel(before, i, j)
            }) by {}
            x += 1;
        }
        y += 1;
    }
    (Fraction { changed, total: (width * height) as u64 }, diff)
}

/// The number of pixels between two pictures that stand side by side.
pub const GAP: u32 = 16;

/// The column at which picture `i` starts when the pictures stand side by side.
pub open spec fn offset(images: Seq<&Canvas>, i: int) -> int
    decreases i,
{
    if i <= 0 {
        0
    } else {
        offset(images, i - 1) + canvas_width(*images[i - 1]) + GAP
    }
}

/// The largest height among the first `n` pictures.
pub open spec fn tallest(images: Seq<&Canvas>, n: int) -> int
    decreases n,
{
    if n <= 0 {
        0
    } else if canvas_height(*images[n - 1]) > tallest(images, n - 1) {
        canvas_height(*images[n - 1]) as int
    } else {
        tallest(images, n - 1)
    }
}

/// Whether one of the first `n` pictures covers `(x, y)` when they stand side by side.
pub open spec fn covered(images: Seq<&Canvas>, n: int, x: int, y: int) -> bool {
    exists|i: int| 0 <= i < n && #[trigger] in_canvas(*images[i], x - offset(images, i), y)
}

proof fn lemma_offset_grows(images: Seq<&Canvas>, i: int, j: int)
    requires
        0 <= i < j,
    ensures
        offset(images, i) + canvas_width(*images[i]) + GAP <= offset(images, j),
    decreases j,
{
    if i < j - 1 {
        lemma_offset_grows(images, i, j - 1);
    }
}

proof fn lemma_tallest(images: Seq<&Canvas>, i: int, n: int)
    requires
        0 <= i < n,
    ensures
        canvas_height(*images[i]) <= tallest(images, n),
    decreases n,
{
    if i < n - 1 {
        lemma_tallest(images, i, n - 1);
    }
}

/// Whether `r` shows the pictures from left to right with a gap between them.
pub open spec fn laid_out(images: Seq<&Canvas>, r: Canvas) -> bool {
    &&& canvas_width(r) == offset(images, images.len() as int) - GAP
    &&& canvas_height(r) == tallest(images, images.len() as int)
    &&& forall|i: int, x: int, y: int|
        0 <= i < images.len() && in_canvas(*images[i], x, y) ==> pixel(r, offset(images, i) + x, y)
            == #[trigger] pixel(*images[i], x, y)
    &&& forall|x: int, y: int|
        in_canvas(r, x, y) && !covered(images, images.len() as int, x, y) ==> #[trigger] pixel(r, x, y)
            == (Rgba { r: 255, g: 0, b: 255, a: 255 })
}

/// The pictures laid out from left to right with a gap between them, for review side by side.
pub fn side_by_side(images: &[&Canvas]) -> (r: Canvas)
    requires
        images@.len() > 0,
        offset(images@, images@.len() as int) <= u32::MAX,
        fits_in_memory(
            offset(images@, images@.len() as int) - GAP,
            tallest(images@, images@.len() as int),
        ),
    ensures
        laid_out(images@, r),
{
    let ghost n = images@.len() as int;
    let mut end: u32 = 0;
    let mut height: u32 = 0;
    let mut i: usize = 0;
    while i < images.len()
        invariant
            i <= images.len(),
            n == images@.len(),
            offset(images@, n) <= u32::MAX,
            end == offset(images@, i as int),
            height == tallest(images@, i as int),
        decreases images.len() - i,
    {
        proof {
            lemma_offset_grows(images@, i as int, i + 1);
            if i + 1 < n {
                lemma_offset_grows(images@, i + 1, n);
            }
        }
        let w: u32 = images[i].image_width();
        let h: u32 = images[i].image_height();
        end = end + w + GAP;
        if h > height {
            height = h;
        }
        i += 1;
    }
    proof {
        lemma_offset_grows(images@, 0, n);
    }
    let back = Rgba { r: 255, g: 0, b: 255, a: 255 };
    let mut out = Canvas::filled(end - GAP, height, back);
    let mut x: u32 = 0;
    let mut k: usize = 0;
    while k < images.len()
        invariant
            k <= images.len(),
            n == images@.len(),
            offset(images@, n) <= u32::MAX,
            back == (Rgba { r: 255, g: 0, b: 255, a: 255 }),
            x == offset(images@, k as int),
            canvas_width(out) == offset(images@, n) - GAP,
            canvas_height(out) == tallest(images@, n),
            forall|i: int, x: int, y: int|
                0 <= i < k && in_canvas(*images@[i], x, y) ==> pixel(out, offset(images@, i) + x, y)
                    == #[trigger] pixel(*images@[i], x, y),
            forall|x: int, y: int|
                in_canvas(out, x, y) && !covered(images@, k as int, x, y) ==> #[trigger] pixel(out, x, y)
                    == back,
        decreases images.len() - k,
    {
        proof {
            lemma_offset_grows(images@, k as int, k + 1);
            lemma_offset_grows(images@, k as int, n);
            lemma_tallest(images@, k as int, n);
            if k + 1 < n {
                lemma_offset_grows(images@, k + 1, n);
            }
        }
        let ghost before = out;
        out.paste(images[k], x, 0);
        proof {
            assert forall|i: int, px: int, py: int|
                0 <= i < k + 1 && in_canvas(*images@[i], px, py) implies pixel(
                out,
                offset(images@, i) + px,
                py,
            ) == #[trigger] pixel(*images@[i], px, py) by {
                lemma_offset_grows(images@, i, n);
                lemma_tallest(images@, i, n);
                if i > 0 {
                    lemma_offset_grows(images@, 0, i);
                }
                assert(in_canvas(out, offset(images@, i) + px, py));
                if i < k {
                    lemma_offset_grows(images@, i, k as int);
                    assert(pixel(before, offset(images@, i) + px, py) == pixel(*images@[i], px, py));
                    assert(!in_canvas(*images@[k as int], offset(images@, i) + px - x, py - 0));
                } else {
                    assert(in_canvas(*images@[k as int], offset(images@, i) + px - x, py - 0));
                }
            }
            assert forall|px: int, py: int|
                in_canvas(out, px, py) && !covered(images@, k + 1, px, py) implies #[trigger] pixel(
                out,
                px,
                py,
            ) == back by {
                assert(!in_canvas(*images@[k as int], px - offset(images@, k as int), py));
                assert(!covered(images@, k as int, px, py));
                assert(pixel(before, px, py) == back);
            }
        }
        x = x + images[k].image_width() + GAP;
        k += 1;
    }
    out
}

/// A picture does not differ from itself.
pub proof fn compare_finds_nothing_in_equal_pictures(golden: Canvas, actual: Canvas, rows: nat)
    requires
        same_picture(golden, actual),
        rows <= canvas_height(actual),
    ensures
        changed_above(golden, actual, rows) == 0,
    decreases rows,
{
    if rows > 0 {
        compare_finds_nothing_in_equal_pictures(golden, actual, (rows - 1) as nat);
        lemma_equal_row(golden, actual, rows - 1, canvas_width(actual) as nat);
    }
}

proof fn lemma_equal_row(golden: Canvas, actual: Canvas, y: int, n: nat)
    requires
        same_picture(golden, actual),
        0 <= y < canvas_height(actual),
        n <= canvas_width(actual),
    ensures
        changed_in_row(golden, actual, y, n) == 0,
    decreases n,
{
    if n > 0 {
        lemma_equal_row(golden, actual, y, (n - 1) as nat);
        assert(in_canvas(golden, n - 1, y));
        assert(pixel(golden, n - 1, y) == pixel(actual, n - 1, y));
    }
}

/// Which of two pictures is the golden one does not matter to the number of changed pixels.
pub proof fn compare_counts_alike_both_ways(a: Canvas, b: Canvas, rows: nat)
    requires
        same_dimensions(a, b),
    ensures
        changed_above(a, b, rows) == changed_above(b, a, rows),
    decreases rows,
{
    if rows > 0 {
        compare_counts_alike_both_ways(a, b, (rows - 1) as nat);
        lemma_row_alike(a, b, rows - 1, canvas_width(a) as nat);
    }
}

proof fn lemma_row_alike(a: Canvas, b: Canvas, y: int, n: nat)
    ensures
        changed_in_row(a, b, y, n) == changed_in_row(b, a, y, n),
    decreases n,
{
    if n > 0 {
        lemma_row_alike(a, b, y, (n - 1) as nat);
    }
}

} // verus!
