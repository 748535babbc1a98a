//! Text descriptions of a screen that shows images through the Kitty protocol.

use crate::kitty::{
    count_transmits, parse_placeholder_run, placeholder_run, strip, strip_apc, transmit_commands, ImageName,
};
use crate::screen::{
    area_of, buffer_area, buffer_content, cell_at, complete, content_len, content_symbol, fg_at, has_cell, symbol_at,
    CellView,
};
use crate::text::{
    byte_len, decimal, find, hexadecimal, lemma_utf8_len_add, push_decimal, push_hexadecimal, push_trimmed, trim_end, utf8_len,
};
use vstd::prelude::*;

verus! {

/// The number of graphics commands that transmit an image in the first `n` cells.
pub open spec fn transmits_in(content: Seq<CellView>, n: int) -> nat
    decreases n,
{
    if n <= 0 {
        0
    } else {
        transmits_in(content, n - 1) + transmit_commands(content[n - 1].symbol)
    }
}

/// The number of bytes that the graphics commands in the first `n` cells take.
pub open spec fn graphics_bytes_in(content: Seq<CellView>, n: int) -> int
    decreases n,
{
    if n <= 0 {
        0
    } else {
        graphics_bytes_in(content, n - 1) + utf8_len(content[n - 1].symbol) - utf8_len(
            strip(content[n - 1].symbol),
        )
    }
}

proof fn lemma_strip_shortens(s: Seq<char>)
    ensures
        utf8_len(strip(s)) <= utf8_len(s),
    decreases s.len(),
{
    match find(s, crate::kitty::apc_start()) {
        None => {},
        Some(i) => {
            assert(s =~= s.take(i) + s.skip(i));
            lemma_utf8_len_add(s.take(i), s.skip(i));
            match find(s.skip(i), crate::kitty::apc_end()) {
                None => {},
                Some(j) => {
                    let rest = s.skip(i + j + 2);
                    lemma_strip_shortens(rest);
                    lemma_utf8_len_add(s.take(i), strip(rest));
                    assert(s.skip(i) =~= s.subrange(i, i + j + 2) + rest);
                    lemma_utf8_len_add(s.subrange(i, i + j + 2), rest);
                },
            }
        },
    }
}

proof fn lemma_sums_grow(content: Seq<CellView>, m: int, n: int)
    requires
        0 <= m <= n,
    ensures
        0 <= transmits_in(content, m) <= transmits_in(content, n),
        0 <= graphics_bytes_in(content, m) <= graphics_bytes_in(content, n),
    decreases n,
{
    if m < n {
        lemma_sums_grow(content, m, n - 1);
        lemma_strip_shortens(content[n - 1].symbol);
    } else if n > 0 {
        lemma_sums_grow(content, m - 1, n - 1);
        lemma_strip_shortens(content[n - 1].symbol);
    }
}

/// The number of transmit commands and of bytes of graphics commands on a screen; `None` where a
/// `usize` cannot hold one of them.
pub fn kitty_transmits_checked(buf: &ratatui::buffer::Buffer) -> (r: Option<(usize, usize)>)
    ensures
        ({
            let content = buffer_content(*buf);
            let n = transmits_in(content, content.len() as int);
            let bytes = graphics_bytes_in(content, content.len() as int);
            match r {
                Some(t) => t.0 == n && t.1 == bytes,
                None => n > usize::MAX || bytes > usize::MAX,
            }
        }),
{
    let ghost content = buffer_content(*buf);
    let len: usize = content_len(buf);
    let mut n: usize = 0;
    let mut bytes: usize = 0;
    let mut i: usize = 0;
    while i < len
        invariant
            i <= len,
            content == buffer_content(*buf),
            len == content.len(),
            n == transmits_in(content, i as int),
            bytes == graphics_bytes_in(content, i as int),
        decreases len - i,
    {
        let symbol = content_symbol(buf, i);
        let stripped = strip_apc(symbol.as_str());
        proof {
            lemma_strip_shortens(symbol@);
            lemma_sums_grow(content, i + 1, len as int);
        }
        let more: usize = count_transmits(symbol.as_str());
        let more_bytes: usize = byte_len(symbol.as_str()) - byte_len(stripped.as_str());
        match (n.checked_add(more), bytes.checked_add(more_bytes)) {
            (Some(a), Some(b)) => {
                n = a;
                bytes = b;
            },
            _ => {
                return None;
            },
        }
        i += 1;
    }
    Some((n, bytes))
}

/// The number of transmit commands (`a=T`) and of bytes of graphics commands on a screen.
pub fn kitty_transmits(buf: &ratatui::buffer::Buffer) -> (r: (usize, usize))
    requires
        transmits_in(buffer_content(*buf), buffer_content(*buf).len() as int) <= usize::MAX,
        graphics_bytes_in(buffer_content(*buf), buffer_content(*buf).len() as int) <= usize::MAX,
    ensures
        r.0 == transmits_in(buffer_content(*buf), buffer_content(*buf).len() as int),
        r.1 == graphics_bytes_in(buffer_content(*buf), buffer_content(*buf).len() as int),
{
    kitty_transmits_checked(buf).unwrap()
}

/// The first diacritics by which a placeholder names the row of its image, in order.
pub open spec fn row_diacritics() -> Seq<char> {
    seq![
        '\u{305}', '\u{30D}', '\u{30E}', '\u{310}', '\u{312}', '\u{33D}', '\u{33E}', '\u{33F}',
        '\u{346}', '\u{34A}', '\u{34B}', '\u{34C}', '\u{350}', '\u{351}', '\u{352}', '\u{357}',
        '\u{35B}', '\u{363}', '\u{364}', '\u{365}', '\u{366}', '\u{367}', '\u{368}', '\u{369}',
        '\u{36A}', '\u{36B}', '\u{36C}', '\u{36D}', '\u{36E}', '\u{36F}', '\u{483}', '\u{484}',
        '\u{485}', '\u{486}', '\u{487}', '\u{592}', '\u{593}', '\u{594}', '\u{595}', '\u{597}',
    ]
}

/// The first index at or behind `from` at which `s` holds `v`; the length of `s` if there is none.
pub open spec fn position_from<T>(s: Seq<T>, v: T, from: int) -> int
    decreases s.len() - from,
{
    if from >= s.len() {
        s.len() as int
    } else if s[from] == v {
        from
    } else {
        position_from(s, v, from + 1)
    }
}

/// The first index at which `s` holds `v`; the length of `s` if there is none.
pub open spec fn position<T>(s: Seq<T>, v: T) -> int {
    position_from(s, v, 0)
}

/// How a description writes the row of an image: its number where `row` is one of the first
/// diacritics, else a question mark and the code point.
pub open spec fn row_text(row: char) -> Seq<char> {
    let r = position(row_diacritics(), row);
    if r < row_diacritics().len() {
        decimal(r as nat)
    } else {
        seq!['?'] + hexadecimal(row as nat)
    }
}

/// What a description makes of a cell.
pub enum Token {
    /// A run of placeholders.
    Run { image: ImageName, row: char, width: u16 },
    /// Any other text.
    Text(Seq<char>),
}

/// What a description makes of a cell.
pub open spec fn token_of(cell: CellView) -> Token {
    let text = strip(cell.symbol);
    match placeholder_run(text, cell.fg) {
        Some((image, row, width)) => Token::Run { image, row, width },
        None => Token::Text(text),
    }
}

/// What a description makes of the cells of a screen, row by row.
pub open spec fn screen_tokens(b: ratatui::buffer::Buffer) -> Seq<Seq<Token>> {
    let a = buffer_area(b);
    Seq::new(
        a.height as nat,
        |y: int| Seq::new(a.width as nat, |x: int| token_of(cell_at(b, a.x + x, a.y + y))),
    )
}

/// The images of `ids`, and `image` behind them if it is not yet one of them.
pub open spec fn with_image(ids: Seq<ImageName>, image: ImageName) -> Seq<ImageName> {
    if position(ids, image) < ids.len() {
        ids
    } else {
        ids.push(image)
    }
}

/// How a description writes a run of placeholders.
pub open spec fn run_text(slot: int, row: char, width: u16) -> Seq<char> {
    "[#"@ + decimal(slot as nat) + " r"@ + row_text(row) + " w"@ + decimal(width as nat) + "]"@
}

/// The number of columns that a run of `width` placeholders stands for: at least one.
pub open spec fn run_columns(width: u16) -> int {
    if width > 1 {
        width as int
    } else {
        1
    }
}

/// The description of a row of cells from column `x` on, where `ids` are the images that were
/// seen before, and the images that were seen behind it. A run stands for as many columns as it
/// has placeholders, and images are numbered in the order in which they are first seen.
pub open spec fn line_from(tokens: Seq<Token>, x: int, ids: Seq<ImageName>) -> (
    Seq<char>,
    Seq<ImageName>,
)
    decreases
        (if x < tokens.len() {
            tokens.len() - x
        } else {
            0
        }),
{
    if x >= tokens.len() {
        (Seq::empty(), ids)
    } else {
        match tokens[x] {
            Token::Run { image, row, width } => {
                let rest = line_from(
                    tokens,
                    x + run_columns(width),
                    with_image(ids, image),
                );
                (run_text(position(ids, image), row, width) + rest.0, rest.1)
            },
            Token::Text(text) => {
                let rest = line_from(tokens, x + 1, ids);
                (text + rest.0, rest.1)
            },
        }
    }
}

/// The description of the rows from `y` on: a line for each, without the white space at its end.
pub open spec fn lines_from(rows: Seq<Seq<Token>>, y: int, ids: Seq<ImageName>) -> Seq<char>
    decreases rows.len() - y,
{
    if y >= rows.len() {
        Seq::empty()
    } else {
        let line = line_from(rows[y], 0, ids);
        trim_end(line.0) + seq!['\n'] + lines_from(rows, y + 1, line.1)
    }
}

/// The description of a screen.
pub open spec fn description(rows: Seq<Seq<Token>>) -> Seq<char> {
    lines_from(rows, 0, Seq::empty())
}

/// Whether two images have the same name.
fn same_image(a: ImageName, b: ImageName) -> (r: bool)
    ensures
        r == (a == b),
{
    a.0 == b.0 && match (a.1, b.1) {
        (Some(c), Some(d)) => c == d,
        (None, None) => true,
        _ => false,
    }
}

/// The number of `image` among `ids`, to which it is added if it is not yet one of them.
fn number_image(ids: &mut Vec<ImageName>, image: ImageName) -> (r: usize)
    ensures
        r == position(old(ids)@, image),
        final(ids)@ == with_image(old(ids)@, image),
{
    let mut i: usize = 0;
    while i < ids.len()
        invariant
            i <= ids.len(),
            ids@ == old(ids)@,
            position(ids@, image) == position_from(ids@, image, i as int),
        decreases ids.len() - i,
    {
        if same_image(ids[i], image) {
            return i;
        }
        i += 1;
    }
    ids.push(image);
    i
}

/// Appends the row of an image to a description.
fn push_row(out: &mut String, row: char)
    ensures
        final(out)@ == old(out)@ + row_text(row),
{
    let table: [char; 40] = [
        '\u{305}', '\u{30D}', '\u{30E}', '\u{310}', '\u{312}', '\u{33D}', '\u{33E}', '\u{33F}',
        '\u{346}', '\u{34A}', '\u{34B}', '\u{34C}', '\u{350}', '\u{351}', '\u{352}', '\u{357}',
        '\u{35B}', '\u{363}', '\u{364}', '\u{365}', '\u{366}', '\u{367}', '\u{368}', '\u{369}',
        '\u{36A}', '\u{36B}', '\u{36C}', '\u{36D}', '\u{36E}', '\u{36F}', '\u{483}', '\u{484}',
        '\u{485}', '\u{486}', '\u{487}', '\u{592}', '\u{593}', '\u{594}', '\u{595}', '\u{597}',
    ];
    assert(table@ =~= row_diacritics());
    let mut i: usize = 0;
    while i < 40
        invariant
            i <= 40,
            table@ == row_diacritics(),
            out@ == old(out)@,
            position(row_diacritics(), row) == position_from(row_diacritics(), row, i as int),
        decreases 40 - i,
    {
        if table[i] == row {
            push_decimal(out, i as u64);
            return;
        }
        i += 1;
    }
    out.push('?');
    push_hexadecimal(out, row as u32);
    assert(out@ =~= old(out)@ + row_text(row));
}

/// Appends a run of placeholders to a description.
fn push_run(out: &mut String, slot: usize, row: char, width: u16)
    ensures
        final(out)@ == old(out)@ + run_text(slot as int, row, width),
{
    out.append("[#");
    push_decimal(out, slot as u64);
    out.append(" r");
    push_row(out, row);
    out.append(" w");
    push_decimal(out, width as u64);
    out.append("]");
    assert(out@ =~= old(out)@ + run_text(slot as int, row, width));
}

/// The description of a screen that shows images through the Kitty protocol.
///
/// A run of placeholders becomes `[#<image> r<row> w<width>]`, where `<image>` numbers the images
/// in the order in which they are first seen and `<row>` is the row of the image that is shown.
pub fn kitty_snapshot(buf: &ratatui::buffer::Buffer) -> (r: String)
    requires
        complete(*buf),
    ensures
        r@ == description(screen_tokens(*buf)),
{
    let area = area_of(buf);
    let ghost rows = screen_tokens(*buf);
    let mut ids: Vec<ImageName> = Vec::new();
    let mut out = String::new();
    let mut y: u16 = 0;
    assert(ids@ =~= Seq::empty());
    assert(out@ + lines_from(rows, 0, ids@) =~= description(rows));
    while y < area.height
        invariant
            y <= area.height,
            area == buffer_area(*buf),
            complete(*buf),
            rows == screen_tokens(*buf),
            out@ + lines_from(rows, y as int, ids@) == description(rows),
        decreases area.height - y,
    {
        let ghost tokens = rows[y as int];
        let ghost line_spec = line_from(tokens, 0, ids@);
        let mut line = String::new();
        let mut x: u32 = 0;
        assert(line@ + line_spec.0 =~= line_spec.0);
        while x < area.width as u32
            invariant
                x <= area.width + 0xffff,
                y < area.height,
                area == buffer_area(*buf),
                complete(*buf),
                rows == screen_tokens(*buf),
                tokens == rows[y as int],
                line@ + line_from(tokens, x as int, ids@).0 == line_spec.0,
                line_from(tokens, x as int, ids@).1 == line_spec.1,
            decreases area.width + 0xffff - x,
        {
            assert(has_cell(*buf, area.x + x, area.y + y));
            let (cx, cy): (u16, u16) = (area.x + x as u16, area.y + y);
            assert(tokens[x as int] == token_of(cell_at(*buf, cx as int, cy as int)));
            let ghost (line0, ids0) = (line@, ids@);
            let symbol = strip_apc(symbol_at(buf, cx, cy).unwrap().as_str());
            match parse_placeholder_run(symbol.as_str(), fg_at(buf, cx, cy).unwrap()) {
                Some((image, row, width)) => {
                    let slot = number_image(&mut ids, image);
                    push_run(&mut line, slot, row, width);
                    let step: u32 = if width > 1 {
                        width as u32
                    } else {
                        1
                    };
                    proof {
                        let rest = line_from(tokens, x + step, ids@).0;
                        assert(line@ + rest =~= line0 + (run_text(slot as int, row, width) + rest));
                    }
                    x = x + step;
                },
                None => {
                    line.append(symbol.as_str());
                    proof {
                        let rest = line_from(tokens, x + 1, ids@).0;
                        assert(line@ + rest =~= line0 + (symbol@ + rest));
                    }
                    x = x + 1;
                },
            }
        }
        assert(line@ =~= line_spec.0);
        let ghost before = out@;
        push_trimmed(&mut out, line.as_str());
        out.push('\n');
        proof {
            let rest = lines_from(rows, y + 1, ids@);
            assert(out@ + rest =~= before + (trim_end(line_spec.0) + seq!['\n'] + rest));
        }
        y += 1;
    }
    assert(out@ =~= description(rows));
    out
}

/// The images of `ids` under the names that `rename` gives them.
pub open spec fn renamed_ids(ids: Seq<ImageName>, rename: spec_fn(ImageName) -> ImageName) -> Seq<
    ImageName,
> {
    ids.map_values(rename)
}

/// The same cells with the images under the names that `rename` gives them.
pub open spec fn renamed_tokens(tokens: Seq<Token>, rename: spec_fn(ImageName) -> ImageName) -> Seq<
    Token,
> {
    tokens.map_values(
        |t: Token|
            match t {
                Token::Run { image, row, width } => Token::Run { image: rename(image), row, width },
                Token::Text(text) => Token::Text(text),
            },
    )
}

/// The same screen with the images under the names that `rename` gives them.
pub open spec fn renamed_screen(
    rows: Seq<Seq<Token>>,
    rename: spec_fn(ImageName) -> ImageName,
) -> Seq<Seq<Token>> {
    rows.map_values(|tokens: Seq<Token>| renamed_tokens(tokens, rename))
}

/// Whether `rename` keeps different images apart.
pub open spec fn keeps_apart(rename: spec_fn(ImageName) -> ImageName) -> bool {
    forall|a: ImageName, b: ImageName| #[trigger] rename(a) == #[trigger] rename(b) ==> a == b
}

proof fn lemma_position_renamed(
    ids: Seq<ImageName>,
    image: ImageName,
    rename: spec_fn(ImageName) -> ImageName,
    from: int,
)
    requires
        keeps_apart(rename),
        0 <= from <= ids.len(),
    ensures
        position_from(renamed_ids(ids, rename), rename(image), from) == position_from(
            ids,
            image,
            from,
        ),
    decreases ids.len() - from,
{
    if from < ids.len() {
        lemma_position_renamed(ids, image, rename, from + 1);
    }
}

proof fn lemma_line_renamed(
    tokens: Seq<Token>,
    x: int,
    ids: Seq<ImageName>,
    rename: spec_fn(ImageName) -> ImageName,
)
    requires
        keeps_apart(rename),
        0 <= x,
    ensures
        line_from(renamed_tokens(tokens, rename), x, renamed_ids(ids, rename)) == (
            line_from(tokens, x, ids).0,
            renamed_ids(line_from(tokens, x, ids).1, rename),
        ),
    decreases
        (if x < tokens.len() {
            tokens.len() - x
        } else {
            0
        }),
{
    if x < tokens.len() {
        match tokens[x] {
            Token::Run { image, row, width } => {
                lemma_position_renamed(ids, image, rename, 0);
                assert(with_image(renamed_ids(ids, rename), rename(image)) =~= renamed_ids(
                    with_image(ids, image),
                    rename,
                ));
                lemma_line_renamed(tokens, x + run_columns(width), with_image(ids, image), rename);
            },
            Token::Text(text) => {
                lemma_line_renamed(tokens, x + 1, ids, rename);
            },
        }
    }
}

proof fn lemma_lines_renamed(
    rows: Seq<Seq<Token>>,
    y: int,
    ids: Seq<ImageName>,
    rename: spec_fn(ImageName) -> ImageName,
)
    requires
        keeps_apart(rename),
        0 <= y,
    ensures
        lines_from(renamed_screen(rows, rename), y, renamed_ids(ids, rename)) == lines_from(
            rows,
            y,
            ids,
        ),
    decreases rows.len() - y,
{
    if y < rows.len() {
        lemma_line_renamed(rows[y], 0, ids, rename);
        lemma_lines_renamed(rows, y + 1, line_from(rows[y], 0, ids).1, rename);
    }
}

/// A description does not depend on how the images are named, as long as different images have
/// different names: it stays the same when names are drawn at random.
pub proof fn description_ignores_image_names(
    rows: Seq<Seq<Token>>,
    rename: spec_fn(ImageName) -> ImageName,
)
    requires
        keeps_apart(rename),
    ensures
        description(renamed_screen(rows, rename)) == description(rows),
{
    lemma_lines_renamed(rows, 0, Seq::empty(), rename);
    assert(renamed_ids(Seq::empty(), rename) =~= Seq::<ImageName>::empty());
}

} // verus!
