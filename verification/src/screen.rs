//! The terminal screen: a rectangle of cells, held in a `ratatui` buffer.

use ratatui::style::Color as TermColor;
use vstd::prelude::*;

verus! {

/// `ratatui`'s buffer. What it holds is named by `buffer_area` and `buffer_content`.
#[verifier::external_type_specification]
#[verifier::external_body]
pub struct ExBuffer(ratatui::buffer::Buffer);

/// A rectangle of cells.
#[derive(Clone, Copy, Debug, PartialEq, Eq, Structural)]
pub struct Rect {
    pub x: u16,
    pub y: u16,
    pub width: u16,
    pub height: u16,
}

/// A width and a height, in cells.
#[derive(Clone, Copy, Debug, PartialEq, Eq, Structural)]
pub struct Size {
    pub width: u16,
    pub height: u16,
}

/// The place of a cell.
#[derive(Clone, Copy, Debug, PartialEq, Eq, Structural)]
pub struct Position {
    pub x: u16,
    pub y: u16,
}

/// The color of a cell's text or background.
#[derive(Clone, Copy, Debug, PartialEq, Eq, Structural)]
pub enum Color {
    Reset,
    Black,
    Red,
    Green,
    Yellow,
    Blue,
    Magenta,
    Cyan,
    Gray,
    DarkGray,
    LightRed,
    LightGreen,
    LightYellow,
    LightBlue,
    LightMagenta,
    LightCyan,
    White,
    Rgb(u8, u8, u8),
    Indexed(u8),
}

/// How a cell takes part when two screens are compared.
pub enum CellDiff {
    Plain,
    Skip,
    AlwaysUpdate,
    ForcedWidth(u16),
}

/// What a cell holds.
pub struct CellView {
    pub symbol: Seq<char>,
    pub fg: Color,
    pub bg: Color,
    /// The color of the line below the symbol.
    pub underline: Color,
    /// Whether the text and background colors change places.
    pub reversed: bool,
    /// The bits of all modifiers.
    pub modifiers: u16,
    pub diff: CellDiff,
    /// Whether the cell is left out when two screens are compared, whatever `diff` says.
    pub skip: bool,
}

/// The area that a buffer represents.
pub uninterp spec fn buffer_area(b: ratatui::buffer::Buffer) -> Rect;

/// The cells of a buffer, row by row.
pub uninterp spec fn buffer_content(b: ratatui::buffer::Buffer) -> Seq<CellView>;

/// The index in a buffer's content of the cell at `(x, y)`, where the buffer represents `area`.
pub open spec fn cell_index(area: Rect, x: int, y: int) -> int {
    (y - area.y) * area.width + (x - area.x)
}

/// Whether the position `(x, y)` lies in `area`, whose far edges are cut off at `u16::MAX`.
pub open spec fn area_contains(area: Rect, x: int, y: int) -> bool {
    &&& area.x <= x < area.x + area.width && x < u16::MAX
    &&& area.y <= y < area.y + area.height && y < u16::MAX
}

/// Whether the buffer has a cell at `(x, y)`.
pub open spec fn has_cell(b: ratatui::buffer::Buffer, x: int, y: int) -> bool {
    &&& area_contains(buffer_area(b), x, y)
    &&& cell_index(buffer_area(b), x, y) < buffer_content(b).len()
}

/// The cell at `(x, y)`.
pub open spec fn cell_at(b: ratatui::buffer::Buffer, x: int, y: int) -> CellView {
    buffer_content(b)[cell_index(buffer_area(b), x, y)]
}

/// Whether the buffer has a cell at every position of its area.
pub open spec fn complete(b: ratatui::buffer::Buffer) -> bool {
    let a = buffer_area(b);
    forall|x: int, y: int|
        a.x <= x < a.x + a.width && a.y <= y < a.y + a.height ==> #[trigger] has_cell(b, x, y)
}

/// Reads the field `area` of `ratatui::buffer::Buffer`.
#[verifier::external_body]
pub(crate) fn area_of(buf: &ratatui::buffer::Buffer) -> (r: Rect)
    ensures
        r == buffer_area(*buf),
{
    Rect { x: buf.area.x, y: buf.area.y, width: buf.area.width, height: buf.area.height }
}

/// The length of the field `content` of `ratatui::buffer::Buffer`.
#[verifier::external_body]
pub(crate) fn content_len(buf: &ratatui::buffer::Buffer) -> (r: usize)
    ensures
        r == buffer_content(*buf).len(),
{
    buf.content.len()
}

/// `Cell::symbol` of the cell at index `i` of the field `content` of `ratatui::buffer::Buffer`.
#[verifier::external_body]
pub(crate) fn content_symbol(buf: &ratatui::buffer::Buffer, i: usize) -> (r: String)
    requires
        i < buffer_content(*buf).len(),
    ensures
        r@ == buffer_content(*buf)[i as int].symbol,
{
    buf.content[i].symbol().to_string()
}

/// `Buffer::cell` and the symbol of the cell that it finds: there is one where the position lies
/// in the buffer's area and its index, counted row by row, lies in the content.
#[verifier::external_body]
pub(crate) fn symbol_at(buf: &ratatui::buffer::Buffer, x: u16, y: u16) -> (r: Option<String>)
    ensures
        r is Some <==> has_cell(*buf, x as int, y as int),
        r matches Some(s) ==> s@ == cell_at(*buf, x as int, y as int).symbol,
{
    buf.cell((x, y)).map(|cell| cell.symbol().to_string())
}

/// `Buffer::cell` and the field `fg` of the cell that it finds.
#[verifier::external_body]
pub(crate) fn fg_at(buf: &ratatui::buffer::Buffer, x: u16, y: u16) -> (r: Option<Color>)
    ensures
        r is Some <==> has_cell(*buf, x as int, y as int),
        r matches Some(c) ==> c == cell_at(*buf, x as int, y as int).fg,
{
    buf.cell((x, y)).map(|cell| match cell.fg {
        TermColor::Reset => Color::Reset, TermColor::Black => Color::Black,
        TermColor::Red => Color::Red, TermColor::Green => Color::Green,
        TermColor::Yellow => Color::Yellow, TermColor::Blue => Color::Blue,
        TermColor::Magenta => Color::Magenta, TermColor::Cyan => Color::Cyan,
        TermColor::Gray => Color::Gray, TermColor::DarkGray => Color::DarkGray,
        TermColor::LightRed => Color::LightRed, TermColor::LightGreen => Color::LightGreen,
        TermColor::LightYellow => Color::LightYellow, TermColor::LightBlue => Color::LightBlue,
        TermColor::LightMagenta => Color::LightMagenta, TermColor::LightCyan => Color::LightCyan,
        TermColor::White => Color::White, TermColor::Indexed(i) => Color::Indexed(i),
        TermColor::Rgb(r, g, b) => Color::Rgb(r, g, b),
    })
}

/// `Buffer::cell` and the field `bg` of the cell that it finds.
#[verifier::external_body]
pub(crate) fn bg_at(buf: &ratatui::buffer::Buffer, x: u16, y: u16) -> (r: Option<Color>)
    ensures
        r is Some <==> has_cell(*buf, x as int, y as int),
        r matches Some(c) ==> c == cell_at(*buf, x as int, y as int).bg,
{
    buf.cell((x, y)).map(|cell| match cell.bg {
        TermColor::Reset => Color::Reset, TermColor::Black => Color::Black,
        TermColor::Red => Color::Red, TermColor::Green => Color::Green,
        TermColor::Yellow => Color::Yellow, TermColor::Blue => Color::Blue,
        TermColor::Magenta => Color::Magenta, TermColor::Cyan => Color::Cyan,
        TermColor::Gray => Color::Gray, TermColor::DarkGray => Color::DarkGray,
        TermColor::LightRed => Color::LightRed, TermColor::LightGreen => Color::LightGreen,
        TermColor::LightYellow => Color::LightYellow, TermColor::LightBlue => Color::LightBlue,
        TermColor::LightMagenta => Color::LightMagenta, TermColor::LightCyan => Color::LightCyan,
        TermColor::White => Color::White, TermColor::Indexed(i) => Color::Indexed(i),
        TermColor::Rgb(r, g, b) => Color::Rgb(r, g, b),
    })
}

/// `Buffer::cell` and whether the modifier of the cell that it finds contains `REVERSED`.
#[verifier::external_body]
pub(crate) fn reversed_at(buf: &ratatui::buffer::Buffer, x: u16, y: u16) -> (r: Option<bool>)
    ensures
        r is Some <==> has_cell(*buf, x as int, y as int),
        r matches Some(v) ==> v == cell_at(*buf, x as int, y as int).reversed,
{
    buf.cell((x, y)).map(|cell| cell.modifier.contains(ratatui::style::Modifier::REVERSED))
}

/// `Buffer::cell_mut`, then `Cell::set_symbol` and `Cell::set_diff_option` with a forced width of
/// one on the cell that it finds. Nothing else in the buffer changes.
#[verifier::external_body]
pub(crate) fn set_symbol_at(buf: &mut ratatui::buffer::Buffer, x: u16, y: u16, symbol: &str)
    requires
        has_cell(*old(buf), x as int, y as int),
    ensures
        buffer_area(*final(buf)) == buffer_area(*old(buf)),
        buffer_content(*final(buf)) == buffer_content(*old(buf)).update(
            cell_index(buffer_area(*old(buf)), x as int, y as int),
            (CellView {
                symbol: symbol@,
                diff: CellDiff::ForcedWidth(1),
                ..cell_at(*old(buf), x as int, y as int)
            }),
        ),
{
    let width = ratatui::buffer::CellDiffOption::ForcedWidth(std::num::NonZeroU16::MIN);
    buf.cell_mut((x, y)).map(|cell| {
        cell.set_symbol(symbol).set_diff_option(width);
    });
}

/// Whether `buf` has a cell at every position of its area.
pub fn is_complete(buf: &ratatui::buffer::Buffer) -> (r: bool)
    ensures
        r == complete(*buf),
{
    let a = area_of(buf);
    if a.width == 0 || a.height == 0 {
        return true;
    }
    assert(a.width * a.height <= 0xffff * 0xffff) by (nonlinear_arith)
        requires
            a.width <= 0xffff,
            a.height <= 0xffff,
    ;
    let cells: u64 = a.width as u64 * a.height as u64;
    let fits = a.x as u32 + a.width as u32 <= u16::MAX as u32 && a.y as u32 + a.height as u32
        <= u16::MAX as u32 && content_len(buf) as u64 >= cells;
    proof {
        a_complete_screen_has_all_its_cells(*buf);
    }
    fits
}

/// A screen has a cell at every position exactly where it is empty, or lies within the positions that
/// can be named and holds as many cells as its width and height make.
pub proof fn a_complete_screen_has_all_its_cells(b: ratatui::buffer::Buffer)
    ensures
        complete(b) <==> {
            let a = buffer_area(b);
            ||| a.width == 0 || a.height == 0
            ||| a.x + a.width <= 65_535 && a.y + a.height <= 65_535 && buffer_content(b).len() >= a.width
                * a.height
        },
{
    let a = buffer_area(b);
    let (w, h) = (a.width as int, a.height as int);
    if w > 0 && h > 0 {
        if a.x + w <= 65_535 && a.y + h <= 65_535 && buffer_content(b).len() >= w * h {
            assert forall|x: int, y: int|
                a.x <= x < a.x + a.width && a.y <= y < a.y + a.height implies #[trigger] has_cell(
                b,
                x,
                y,
            ) by {
                assert((y - a.y) * w + (x - a.x) < w * h) by (nonlinear_arith)
                    requires
                        0 <= y - a.y < h,
                        0 <= x - a.x < w,
                ;
            }
        } else if complete(b) {
            let (x, y) = (a.x + w - 1, a.y + h - 1);
            assert((h - 1) * w + (w - 1) == w * h - 1) by (nonlinear_arith);
            assert(has_cell(b, x, y));
        }
    }
}

} // verus!
