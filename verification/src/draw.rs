//! Drawing an encoded image onto a screen.

use crate::encode::{
    is_kitty, kitty_name, shown_by, shown_image, shown_size, transmission, transmitted, EncodedImage,
    ProtocolType,
};
use crate::kitty::{apc_end, apc_start, KITTY_PLACEHOLDER};
use crate::screen::{buffer_area, buffer_content, cell_at, has_cell, CellDiff, CellView, Rect, Size};
use crate::snapshot::row_diacritics;
use crate::text::decimal;
use vstd::prelude::*;

verus! {

/// The place of an image relative to the area that it is drawn into.
#[derive(Clone, Copy, Debug, PartialEq, Eq, Structural)]
pub struct SignedPosition {
    pub x: i16,
    pub y: i16,
}

/// `v`, or zero where that is less.
pub open spec fn at_least_zero(v: i16) -> int {
    if v < 0 {
        0
    } else {
        v as int
    }
}

/// Whether a row of an image of height `height` lies in an area of height `area_height`, when its
/// first row is drawn at row `y` of the area.
pub open spec fn shows_rows(height: int, area_height: int, y: int) -> bool {
    y < area_height && y + height > 0
}

/// Whether rows of an image of height `height` show when it is drawn into `clip` at `pos`.
pub open spec fn on_screen(height: u16, clip: Rect, pos: SignedPosition) -> bool {
    clip.width > 0 && clip.height > 0 && shows_rows(
        height as int,
        clip.height as int,
        pos.y as int,
    )
}

/// Whether rows of an image of height `height` show when it is drawn into `clip` at `pos`.
pub(crate) fn is_on_screen(height: u16, clip: Rect, pos: SignedPosition) -> (r: bool)
    ensures
        r == on_screen(height, clip, pos),
{
    clip.width > 0 && clip.height > 0 && (pos.y as i32) < clip.height as i32 && pos.y as i32
        + height as i32 > 0
}

/// Whether an image of size `size` that is encoded for `protocol` can be drawn into `clip` at `pos`:
/// the rows and columns can be counted, and where rows of the image show, it has columns that show
/// as far as the protocol needs them.
pub open spec fn drawable(
    protocol: ProtocolType,
    size: Size,
    clip: Rect,
    pos: SignedPosition,
) -> bool {
    clip.width == 0 || clip.height == 0 || {
        &&& size.height <= i16::MAX && clip.height <= i16::MAX && pos.y > i16::MIN
        &&& pos.y + size.height <= i16::MAX
        &&& shows_rows(size.height as int, clip.height as int, pos.y as int) ==> {
            &&& pos.x <= clip.width && at_least_zero(pos.x) + size.width <= u16::MAX
            &&& clip.x + clip.width <= u16::MAX && clip.y + clip.height <= u16::MAX
            &&& protocol != ProtocolType::Halfblocks ==> size.width >= 1 && size.height >= 1
            &&& protocol == ProtocolType::Kitty ==> pos.x < clip.width
            &&& protocol == ProtocolType::Iterm2 ==> clip.y + at_least_zero(pos.y) + size.height
                <= u16::MAX
        }
    }
}

/// Whether an image of size `size` that is encoded for `protocol` can be drawn into `clip` at `pos`.
pub fn is_drawable(protocol: ProtocolType, size: Size, clip: Rect, pos: SignedPosition) -> (r: bool)
    ensures
        r == drawable(protocol, size, clip, pos),
{
    if clip.width == 0 || clip.height == 0 {
        return true;
    }
    if size.height > 0x7fff || clip.height > 0x7fff || pos.y == -0x8000 {
        return false;
    }
    let bottom: i32 = pos.y as i32 + size.height as i32;
    if bottom > 0x7fff {
        return false;
    }
    if pos.y as i32 >= clip.height as i32 || bottom <= 0 {
        return true;
    }
    let x: u32 = if pos.x < 0 {
        0
    } else {
        pos.x as u32
    };
    let y: u32 = if pos.y < 0 {
        0
    } else {
        pos.y as u32
    };
    let counted = pos.x as i32 <= clip.width as i32 && x + size.width as u32 <= 0xffff && clip.x as u32
        + clip.width as u32 <= 0xffff && clip.y as u32 + clip.height as u32 <= 0xffff;
    let shown = size.width >= 1 && size.height >= 1;
    counted && match protocol {
        ProtocolType::Halfblocks => true,
        ProtocolType::Sixel => shown,
        ProtocolType::Kitty => shown && (pos.x as i32) < clip.width as i32,
        ProtocolType::Iterm2 => shown && clip.y as u32 + y + size.height as u32 <= 0xffff,
    }
}

/// The column of the screen at which the image starts.
pub open spec fn drawn_left(clip: Rect, pos: SignedPosition) -> int {
    clip.x + at_least_zero(pos.x)
}

/// The number of columns of the image that are drawn.
pub open spec fn drawn_width(size: Size, clip: Rect, pos: SignedPosition) -> int {
    let x = at_least_zero(pos.x);
    if x + size.width < clip.width {
        size.width as int
    } else {
        clip.width - x
    }
}

/// The row of the screen at which the image starts.
pub open spec fn drawn_top(clip: Rect, pos: SignedPosition) -> int {
    clip.y + at_least_zero(pos.y)
}

/// The first row of the image that is drawn.
pub open spec fn first_drawn_row(pos: SignedPosition) -> int {
    if pos.y < 0 {
        -pos.y
    } else {
        0
    }
}

/// The number of rows of the image that lie in `clip`.
pub open spec fn drawn_rows(size: Size, clip: Rect, pos: SignedPosition) -> int {
    let bottom = if pos.y + size.height < clip.height {
        pos.y + size.height
    } else {
        clip.height as int
    };
    bottom - at_least_zero(pos.y)
}

/// The number of rows that the Kitty protocol can name, and so the largest number that it shows.
pub const MAX_KITTY_ROWS: u16 = 297;

/// The number of rows that drawing may change. Where an image is cut off at the top and at the
/// bottom, only the Kitty protocol is sure to stay in the rows that lie in the area.
pub open spec fn touched_rows(size: Size, clip: Rect, pos: SignedPosition, kitty: bool) -> int {
    if !kitty && pos.y < 0 && pos.y + size.height > clip.height {
        size.height as int
    } else if kitty && drawn_rows(size, clip, pos) > MAX_KITTY_ROWS {
        MAX_KITTY_ROWS as int
    } else {
        drawn_rows(size, clip, pos)
    }
}

/// Whether drawing an image of size `size` into `clip` at `pos` may change the cell at `(x, y)`.
pub open spec fn may_touch(
    size: Size,
    clip: Rect,
    pos: SignedPosition,
    kitty: bool,
    x: int,
    y: int,
) -> bool {
    &&& clip.width > 0 && clip.height > 0
    &&& shows_rows(size.height as int, clip.height as int, pos.y as int)
    &&& drawn_left(clip, pos) <= x < drawn_left(clip, pos) + drawn_width(size, clip, pos)
    &&& drawn_top(clip, pos) <= y < drawn_top(clip, pos) + touched_rows(size, clip, pos, kitty)
}

/// A sequence of graphics commands with the given bodies.
pub open spec fn commands(bodies: Seq<Seq<char>>) -> Seq<char>
    decreases bodies.len(),
{
    if bodies.len() == 0 {
        Seq::empty()
    } else {
        apc_start() + bodies[0] + apc_end() + commands(bodies.skip(1))
    }
}

/// Whether the bodies of graphics commands hold no escape character.
pub open spec fn plain_bodies(bodies: Seq<Seq<char>>) -> bool {
    forall|i: int, j: int|
        0 <= i < bodies.len() && 0 <= j < bodies[i].len() ==> #[trigger] bodies[i][j] != '\u{1b}'
}

/// The screen `before` with an image that is not encoded for the Kitty protocol drawn into `clip` at
/// `pos`.
pub uninterp spec fn drawn_screen(
    p: EncodedImage,
    clip: Rect,
    pos: SignedPosition,
    before: ratatui::buffer::Buffer,
) -> ratatui::buffer::Buffer;

/// The text that shows `width` columns of a row of image `id`: the cursor is saved, the color
/// that names the image is selected, the placeholders follow, and the cursor is brought to the
/// lower right of the image. The diacritics behind the first placeholder name the row, the first
/// column, and the high byte of `id`.
pub open spec fn placeholder_text(
    id: u32,
    row: char,
    column: char,
    high: char,
    width: int,
    right: int,
    down: int,
) -> Seq<char> {
    "\x1b[s\x1b[38;2;"@ + decimal(id as nat / 0x10000 % 0x100) + ";"@ + decimal(
        id as nat / 0x100 % 0x100,
    ) + ";"@ + decimal(id as nat % 0x100) + "m"@ + seq![KITTY_PLACEHOLDER, row, column, high]
        + Seq::new((width - 1) as nat, |i: int| KITTY_PLACEHOLDER) + "\x1b[u\x1b["@ + decimal(
        right as nat,
    ) + "C\x1b["@ + decimal(down as nat) + "B"@
}

/// Whether `c` is the diacritic of row `n`, as far as it is one of the first. No diacritic is a
/// placeholder.
pub open spec fn is_diacritic(c: char, n: int) -> bool {
    &&& n < row_diacritics().len() ==> c == row_diacritics()[n]
    &&& c != KITTY_PLACEHOLDER
}

/// The diacritics of the text that stands for a row, and the bodies of the graphics commands in front
/// of it.
pub struct RowParts {
    pub bodies: Seq<Seq<char>>,
    pub row: char,
    pub column: char,
    pub high: char,
}

/// Whether `symbol` shows row `row` of image `id` by these parts, with `prefix` in front. Outside
/// tmux, what is in front is made of plain graphics commands.
pub open spec fn shows_row_by(
    symbol: Seq<char>,
    prefix: Seq<char>,
    id: u32,
    tmux: bool,
    row: int,
    width: int,
    down: int,
    parts: RowParts,
) -> bool {
    &&& symbol == prefix + placeholder_text(
        id,
        parts.row,
        parts.column,
        parts.high,
        width,
        width - 1,
        down,
    )
    &&& !tmux ==> prefix == commands(parts.bodies) && plain_bodies(parts.bodies)
    &&& is_diacritic(parts.row, row) && is_diacritic(parts.column, 0)
    &&& is_diacritic(parts.high, id as int / 0x1000000)
}

/// Whether `symbol` shows row `row` of image `id`, with `prefix` in front.
pub open spec fn shows_row(
    symbol: Seq<char>,
    prefix: Seq<char>,
    id: u32,
    tmux: bool,
    row: int,
    width: int,
    down: int,
) -> bool {
    exists|parts: RowParts| shows_row_by(symbol, prefix, id, tmux, row, width, down, parts)
}

/// Whether `q` is `p` as far as it does not change by being drawn.
pub open spec fn same_cover(
    p: EncodedImage,
    q: EncodedImage,
) -> bool {
    &&& shown_by(q) == shown_by(p) && shown_size(q) == shown_size(p)
    &&& shown_image(q) == shown_image(p) && kitty_name(q) == kitty_name(p)
}

/// Whether drawing `p` into `clip` at `pos` hands out the commands that transmit it.
pub open spec fn hands_out(
    p: EncodedImage,
    handed_out: bool,
    clip: Rect,
    pos: SignedPosition,
) -> bool {
    is_kitty(p) && !handed_out && on_screen(shown_size(p).height, clip, pos)
}

/// What stands in front of the first row that is drawn, where `handed_out` is whether the commands
/// `transmission` were handed out before.
pub open spec fn first_prefix(handed_out: bool, transmission: Seq<char>) -> Seq<char> {
    if handed_out {
        Seq::empty()
    } else {
        transmission
    }
}

/// `SlicedImage::new` and its `Widget::render`. Only cells that lie in the columns of `clip` and
/// behind its first row may change. An image that is encoded for the Kitty protocol leaves in the
/// first cell of each row that it shows the text that stands for the row, and the other cells of
/// the row are skipped when screens are compared. In front of its first row are the commands that
/// transmit the image, the first time that rows of it show; a flag that the encoded image keeps
/// tells that time from later ones, and is the one thing in it that changes. For the other
/// protocols, the screen depends on the arguments alone, and the encoded image stays as it is.
#[verifier::external_body]
pub(crate) fn draw(
    p: &mut EncodedImage,
    clip: Rect,
    pos: SignedPosition,
    buf: &mut ratatui::buffer::Buffer,
)
    requires
        drawable(shown_by(*old(p)), shown_size(*old(p)), clip, pos),
    ensures
        same_cover(*old(p), *final(p)) && transmission(*final(p)) == transmission(*old(p)),
        if hands_out(*old(p), transmitted(*old(p)), clip, pos) {
            transmitted(*final(p))
        } else {
            *final(p) == *old(p)
        },
        drawn(
            *old(p),
            first_prefix(transmitted(*old(p)), transmission(*old(p))),
            clip,
            pos,
            *old(buf),
            *final(buf),
        ),
        !is_kitty(*old(p)) ==> *final(buf) == drawn_screen(*old(p), clip, pos, *old(buf)),
{
    let area = ratatui::layout::Rect::new(clip.x, clip.y, clip.width, clip.height);
    let position = ratatui_image::sliced::SignedPosition { x: pos.x, y: pos.y };
    let image = ratatui_image::sliced::SlicedImage::new(&p.proto, position);
    ratatui::widgets::Widget::render(image, area, buf);
}

/// Whether row `k` of those that an image shows is on the screen `after`, as far as there are cells
/// for it: the first cell holds the text that stands for it, with `prefix` in front where it is the
/// first row, and the others are skipped.
pub open spec fn kitty_row_shown(
    p: EncodedImage,
    prefix: Seq<char>,
    clip: Rect,
    pos: SignedPosition,
    before: ratatui::buffer::Buffer,
    after: ratatui::buffer::Buffer,
    k: int,
) -> bool {
    let (x, y) = (drawn_left(clip, pos), drawn_top(clip, pos) + k);
    let width = drawn_width(shown_size(p), clip, pos);
    &&& has_cell(before, x, y) ==> {
        let cell = cell_at(after, x, y);
        &&& shows_row(
            cell.symbol,
            if k == 0 {
                prefix
            } else {
                Seq::empty()
            },
            kitty_name(p).0,
            kitty_name(p).1,
            first_drawn_row(pos) + k,
            width,
            drawn_rows(shown_size(p), clip, pos) - 1,
        )
        &&& cell == (CellView {
            symbol: cell.symbol,
            diff: CellDiff::ForcedWidth(1),
            ..cell_at(before, x, y)
        })
    }
    &&& forall|j: int|
        x < j < x + width && #[trigger] has_cell(before, j, y) ==> cell_at(after, j, y) == (CellView {
            diff: CellDiff::Skip,
            ..cell_at(before, j, y)
        })
}

/// Whether the rows that an image shows are on the screen `after`, with `prefix` in front of the
/// first.
pub open spec fn kitty_rows_shown(
    p: EncodedImage,
    prefix: Seq<char>,
    clip: Rect,
    pos: SignedPosition,
    before: ratatui::buffer::Buffer,
    after: ratatui::buffer::Buffer,
) -> bool {
    forall|k: int|
        0 <= k < drawn_rows(shown_size(p), clip, pos) && k < MAX_KITTY_ROWS
            ==> #[trigger] kitty_row_shown(p, prefix, clip, pos, before, after, k)
}

/// Whether `after` is the screen `before` with an encoded image drawn into `clip` at `pos`, with
/// `prefix` in front of the first row where it is encoded for the Kitty protocol.
pub open spec fn drawn(
    p: EncodedImage,
    prefix: Seq<char>,
    clip: Rect,
    pos: SignedPosition,
    before: ratatui::buffer::Buffer,
    after: ratatui::buffer::Buffer,
) -> bool {
    &&& buffer_area(after) == buffer_area(before)
    &&& buffer_content(after).len() == buffer_content(before).len()
    &&& forall|x: int, y: int|
        has_cell(before, x, y) && !may_touch(shown_size(p), clip, pos, is_kitty(p), x, y)
            ==> #[trigger] cell_at(after, x, y) == cell_at(before, x, y)
    &&& is_kitty(p) && on_screen(shown_size(p).height, clip, pos) ==> kitty_rows_shown(
        p,
        prefix,
        clip,
        pos,
        before,
        after,
    )
}

} // verus!
