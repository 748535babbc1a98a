//! The geometry of the grid of covers.

use crate::screen::Rect;
use vstd::prelude::*;

verus! {

/// Geometry of the grid, in cells.
#[derive(Clone, Copy, Debug, PartialEq, Eq, Structural)]
pub struct GridLayout {
    pub items_per_row: usize,
    pub item_width: u16,
    pub img_cols: u16,
    pub img_rows: u16,
    /// Cover, title and one blank row.
    pub item_height: u16,
    /// Offset that centres the grid horizontally.
    pub left_margin: u16,
}

/// The length of a cover that is wished for: the configured one, cut to sixteen bits, or where
/// that is zero the one that the configured width comes to.
pub open spec fn wished_length(cover_img_length: usize, scaled_width: u16) -> int {
    if cover_img_length > 0 {
        cover_img_length as int % 0x10000
    } else {
        scaled_width as int
    }
}

/// The length of a cover that is wished for: the configured one, cut to sixteen bits, or where
/// that is zero the one that the configured width comes to.
pub fn base_img_length(cover_img_length: usize, scaled_width: u16) -> (r: u16)
    ensures
        r == wished_length(cover_img_length, scaled_width),
{
    if cover_img_length > 0 {
        (cover_img_length % 0x10000) as u16
    } else {
        scaled_width
    }
}

/// The number of covers of length `base` that a row of `width` columns has room for, with two
/// columns between them. There is always one.
pub open spec fn roomy(width: int, base: int) -> int {
    if width < base + 2 {
        1
    } else {
        width / (base + 2)
    }
}

/// `n` times 1.414, rounded, in the arithmetic of single precision: from 2 to the power of 15 on,
/// what lies no more than 1/512 below a half is rounded to the half, and up from there.
pub open spec fn denser(n: int) -> int {
    if n * 1414 < 32768 * 1000 {
        (n * 1414 + 500) / 1000
    } else {
        (n * 1414 + 502) / 1000
    }
}

/// The number of covers to a row: more than have room at the length `base`, by about the square
/// root of two, so that about twice as many are on a page.
pub open spec fn row_items(width: int, base: int) -> int {
    denser(roomy(width, base))
}

/// The number of columns of an item, of which its cover leaves two free.
pub open spec fn item_columns(width: int, base: int) -> int {
    width / row_items(width, base)
}

/// The number of columns of a cover.
pub open spec fn cover_columns(width: int, base: int) -> int {
    if item_columns(width, base) < 2 {
        0
    } else {
        item_columns(width, base) - 2
    }
}

/// The number of columns from the first cover of a row to the end of the last.
pub open spec fn content_columns(width: int, base: int) -> int {
    (row_items(width, base) - 1) * item_columns(width, base) + cover_columns(width, base)
}

proof fn lemma_rows_fit(width: int, base: int)
    requires
        0 <= width <= u16::MAX,
        0 <= base,
    ensures
        1 <= roomy(width, base) <= 32767,
        1 <= row_items(width, base) <= 46334,
        row_items(width, base) == 1 || row_items(width, base) <= width,
        0 <= item_columns(width, base) <= width,
        row_items(width, base) * item_columns(width, base) <= width,
        0 <= cover_columns(width, base) <= item_columns(width, base),
        (row_items(width, base) - 1) * item_columns(width, base) == row_items(width, base)
            * item_columns(width, base) - item_columns(width, base),
        0 <= (row_items(width, base) - 1) * item_columns(width, base),
{
    let d = base + 2;
    let n = roomy(width, base);
    if width >= d {
        assert(1 <= width / d && width / d <= width / 2) by (nonlinear_arith)
            requires
                2 <= d <= width,
        ;
    }
    let k = row_items(width, base);
    let w = item_columns(width, base);
    assert(0 <= width / k && k * (width / k) <= width && width / k <= width) by (nonlinear_arith)
        requires
            k >= 1,
            width >= 0,
    ;
    assert((k - 1) * w == k * w - w) by (nonlinear_arith);
    assert(0 <= (k - 1) * w) by (nonlinear_arith)
        requires
            k >= 1,
            w >= 0,
    ;
}

/// Whether `r` is the layout of the grid in `width` columns, for covers of about `base` columns and of
/// `img_rows` rows.
pub open spec fn lays_out(r: GridLayout, width: int, base: int, img_rows: int) -> bool {
    &&& r.items_per_row == row_items(width, base)
    &&& r.item_width == item_columns(width, base)
    &&& r.img_cols == cover_columns(width, base)
    &&& r.img_rows == img_rows
    &&& r.item_height == img_rows + 2
    &&& r.left_margin == (width - content_columns(width, base)) / 2
}

impl GridLayout {
    /// The number of columns of a cover in a row of the width of `inner`.
    pub fn columns(inner: Rect, base_img_length: u16) -> (r: u16)
        requires
            base_img_length + 2 <= u16::MAX,
        ensures
            r == cover_columns(inner.width as int, base_img_length as int),
    {
        let item_width: u16 = GridLayout::row(inner, base_img_length).1;
        if item_width < 2 {
            0
        } else {
            item_width - 2
        }
    }

    /// The number of items to a row of the width of `inner`, and of the columns of each.
    fn row(inner: Rect, base_img_length: u16) -> (r: (u32, u16))
        requires
            base_img_length + 2 <= u16::MAX,
        ensures
            r.0 == row_items(inner.width as int, base_img_length as int),
            r.1 == item_columns(inner.width as int, base_img_length as int),
    {
        proof {
            lemma_rows_fit(inner.width as int, base_img_length as int);
        }
        let step: u16 = base_img_length + 2;
        let n: u32 = if inner.width < step {
            1
        } else {
            (inner.width / step) as u32
        };
        let scaled: u32 = n * 1414;
        let items: u32 = if scaled < 32_768_000 {
            (scaled + 500) / 1000
        } else {
            (scaled + 502) / 1000
        };
        (items, (inner.width as u32 / items) as u16)
    }

    /// The layout of the grid in `inner`, for covers of about `base_img_length` columns. `img_rows`
    /// is the number of rows of a cover, which depends on the shape of a cell.
    pub fn new(inner: Rect, base_img_length: u16, img_rows: u16) -> (r: GridLayout)
        requires
            base_img_length + 2 <= u16::MAX,
            img_rows + 2 <= u16::MAX,
        ensures
            lays_out(r, inner.width as int, base_img_length as int, img_rows as int),
    {
        let (items, item_width): (u32, u16) = GridLayout::row(inner, base_img_length);
        let img_cols: u16 = GridLayout::columns(inner, base_img_length);
        proof {
            lemma_rows_fit(inner.width as int, base_img_length as int);
        }
        let content: u32 = (items - 1) * item_width as u32 + img_cols as u32;
        GridLayout {
            items_per_row: items as usize,
            item_width,
            img_cols,
            img_rows,
            item_height: img_rows + 2,
            left_margin: ((inner.width as u32 - content) / 2) as u16,
        }
    }
}

/// The covers of a row lie side by side in the width that there is, and what is left over is the
/// same on both sides, but for one column.
pub proof fn a_row_of_covers_is_centred(width: int, base: int)
    requires
        0 <= width <= u16::MAX,
        0 <= base,
    ensures
        ({
            let margin = (width - content_columns(width, base)) / 2;
            let right = width - content_columns(width, base) - margin;
            &&& 0 <= margin <= right <= margin + 1
            &&& 1 <= row_items(width, base)
            &&& row_items(width, base) * item_columns(width, base) <= width
        }),
{
    lemma_rows_fit(width, base);
}

/// There are never fewer covers to a row than have room at the length that is wished for, and no
/// more than half as many again.
pub proof fn a_row_is_denser(width: int, base: int)
    requires
        0 <= width <= u16::MAX,
        0 <= base,
    ensures
        roomy(width, base) <= row_items(width, base),
        2 * row_items(width, base) <= 3 * roomy(width, base),
{
    lemma_rows_fit(width, base);
}

/// The length that is wished for is the configured one where there is one, and it fits.
pub proof fn the_configured_length_counts(cover_img_length: usize, scaled_width: u16)
    ensures
        cover_img_length == 0 ==> wished_length(cover_img_length, scaled_width) == scaled_width,
        1 <= cover_img_length <= 0xffff ==> wished_length(cover_img_length, scaled_width)
            == cover_img_length,
        cover_img_length > 0xffff ==> 0 <= wished_length(cover_img_length, scaled_width) <= 0xffff && (
        cover_img_length - wished_length(cover_img_length, scaled_width)) % 0x10000 == 0,
{
}

/// The items of a row share its width as evenly as whole columns allow: with a column more to each,
/// they would not fit. A cover leaves two columns of its item free, and a title and a blank row below
/// it.
pub proof fn items_share_the_width(r: GridLayout, width: int, base: int, img_rows: int)
    requires
        0 <= width <= u16::MAX,
        0 <= base,
        lays_out(r, width, base, img_rows),
    ensures
        r.items_per_row >= 1,
        r.items_per_row * r.item_width <= width < r.items_per_row * (r.item_width + 1),
        r.item_width >= 2 ==> r.img_cols + 2 == r.item_width,
        r.item_width < 2 ==> r.img_cols == 0,
        r.img_rows == img_rows && r.item_height == r.img_rows + 2,
{
    lemma_rows_fit(width, base);
    let k = row_items(width, base);
    assert(width < k * (width / k + 1)) by (nonlinear_arith)
        requires
            k >= 1,
            width >= 0,
    ;
}

/// What a row leaves free is left of it and right of it in equal parts, but for a column.
pub proof fn the_grid_is_centred(r: GridLayout, width: int, base: int, img_rows: int)
    requires
        0 <= width <= u16::MAX,
        0 <= base,
        lays_out(r, width, base, img_rows),
    ensures
        ({
            let covers = (r.items_per_row - 1) * r.item_width + r.img_cols;
            let right = width - r.left_margin - covers;
            &&& right == r.left_margin || right == r.left_margin + 1
        }),
{
    lemma_rows_fit(width, base);
}

/// The number of covers in a row is the largest that has room at the wished length, with two columns
/// between covers, times 1.414 and rounded. There is always room for one.
pub proof fn rows_hold_more_by_the_root_of_two(
    r: GridLayout,
    width: int,
    base: int,
    img_rows: int,
    room: int,
)
    requires
        0 <= width <= u16::MAX,
        0 <= base,
        lays_out(r, width, base, img_rows),
        room >= 1,
        room * (base + 2) <= width || room == 1,
        width < (room + 1) * (base + 2),
    ensures
        room <= 23_173 ==> 1414 * room - 500 < 1000 * r.items_per_row <= 1414 * room + 500,
        room > 23_173 ==> 1414 * room - 498 < 1000 * r.items_per_row <= 1414 * room + 502,
{
    let d = base + 2;
    assert(roomy(width, base) == room) by {
        if width >= d {
            assert(width / d == room) by (nonlinear_arith)
                requires
                    2 <= d <= width,
                    1 <= room,
                    room * d <= width || room == 1,
                    width < (room + 1) * d,
            ;
        } else {
            assert(room == 1) by (nonlinear_arith)
                requires
                    width < d,
                    2 <= d,
                    1 <= room,
                    room * d <= width || room == 1,
            ;
        }
    }
}

} // verus!
