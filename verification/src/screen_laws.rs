//! What holds between the text that is left on a screen and what is read back from it.

use crate::cover_model::{delete_commands, screen_flushed, told, StoreView};
use crate::draw::{commands, is_diacritic, placeholder_text, plain_bodies, shows_row, shows_row_by, RowParts};
use crate::kitty::{
    apc_end, apc_start, byte_value, decimal_value, delete_command, fields, lemma_strip_leading,
    placeholder_run, sgr_rgb, strip, strip_removes_delete_command, KITTY_PLACEHOLDER,
};
use crate::screen::{area_contains, buffer_area, cell_at, cell_index, complete, has_cell, CellView, Color, Position};
use crate::snapshot::{description, position_from, row_diacritics, row_text, screen_tokens, token_of, Token};
use crate::text::{
    decimal, digit, find, lemma_decimal_digits, lemma_find_is, lemma_find_none, lemma_rfind_is, occurrences, occurs_at,
};
use vstd::prelude::*;

verus! {

proof fn lemma_strip_command(body: Seq<char>, s: Seq<char>)
    requires
        forall|j: int| 0 <= j < body.len() ==> #[trigger] body[j] != '\u{1b}',
    ensures
        strip(apc_start() + body + apc_end() + s) == strip(s),
{
    let t = apc_start() + body + apc_end() + s;
    let n = body.len() as int;
    assert(t.subrange(0, 3) =~= apc_start());
    assert(t.subrange(n + 3, n + 5) =~= apc_end());
    assert forall|j: int| 0 <= j < n + 3 implies !#[trigger] occurs_at(t, apc_end(), j) by {
        if occurs_at(t, apc_end(), j) {
            let w = t.subrange(j, j + 2);
            assert(w[0] == t[j] && w[1] == t[j + 1]);
            if j >= 3 {
                assert(t[j] == body[j - 3]);
            }
        }
    }
    lemma_strip_leading(t, n + 3);
    assert(t.skip(n + 5) =~= s);
}

/// Graphics commands in front of a text take no space on the screen.
pub proof fn strip_removes_commands(bodies: Seq<Seq<char>>, s: Seq<char>)
    requires
        plain_bodies(bodies),
    ensures
        strip(commands(bodies) + s) == strip(s),
    decreases bodies.len(),
{
    if bodies.len() == 0 {
        assert(commands(bodies) + s =~= s);
    } else {
        let rest = bodies.skip(1);
        assert forall|i: int, j: int|
            0 <= i < rest.len() && 0 <= j < rest[i].len() implies #[trigger] rest[i][j]
            != '\u{1b}' by {
            assert(rest[i] == bodies[i + 1]);
            assert(bodies[i + 1][j] != '\u{1b}');
        }
        strip_removes_commands(rest, s);
        let b = bodies[0];
        assert forall|j: int| 0 <= j < b.len() implies #[trigger] b[j] != '\u{1b}' by {
            assert(bodies[0][j] != '\u{1b}');
        }
        lemma_strip_command(b, commands(rest) + s);
        assert(commands(bodies) + s =~= apc_start() + b + apc_end() + (commands(rest) + s));
    }
}

/// The commands that make the terminal forget images take no space on the screen.
pub proof fn strip_removes_delete_commands(ids: Seq<u32>, s: Seq<char>)
    ensures
        strip(delete_commands(ids, false) + s) == strip(s),
    decreases ids.len(),
{
    if ids.len() == 0 {
        assert(delete_commands(ids, false) + s =~= s);
    } else {
        let last = delete_command(ids.last(), false);
        strip_removes_delete_commands(ids.drop_last(), last + s);
        strip_removes_delete_command(ids.last(), s);
        assert(delete_commands(ids, false) + s =~= delete_commands(ids.drop_last(), false) + (last
            + s));
    }
}

/// Telling the terminal which images to forget does not change what a screen shows.
pub proof fn forgetting_images_does_not_show(
    s: StoreView,
    before: ratatui::buffer::Buffer,
    anchor: Position,
    after: ratatui::buffer::Buffer,
)
    requires
        complete(before),
        screen_flushed(s, before, anchor, false, after),
    ensures
        screen_tokens(after) == screen_tokens(before),
        description(screen_tokens(after)) == description(screen_tokens(before)),
{
    if after != before {
        let a = buffer_area(before);
        let (ax, ay) = (anchor.x as int, anchor.y as int);
        let at = cell_index(a, ax, ay);
        let cell = cell_at(before, ax, ay);
        let ids = s.pending_deletes;
        strip_removes_delete_commands(ids, cell.symbol);
        assert(token_of(told(cell, ids, false)) == token_of(cell));
        let (x1, x2) = (screen_tokens(after), screen_tokens(before));
        assert forall|y: int| 0 <= y < a.height implies #[trigger] x1[y] == x2[y] by {
            assert forall|x: int| 0 <= x < a.width implies #[trigger] x1[y][x] == x2[y][x] by {
                assert(has_cell(before, a.x + x, a.y + y));
                lemma_index_nonnegative(a, a.x + x, a.y + y);
                lemma_index_nonnegative(a, ax, ay);
            }
            assert(x1[y] =~= x2[y]);
        }
        assert(x1 =~= x2);
    }
}

proof fn lemma_index_nonnegative(a: crate::screen::Rect, x: int, y: int)
    requires
        area_contains(a, x, y),
    ensures
        cell_index(a, x, y) >= 0,
{
    assert((y - a.y) * a.width >= 0) by (nonlinear_arith)
        requires
            y - a.y >= 0,
            a.width >= 0,
    ;
}

/// The part of `placeholder_text` up to the placeholders.
spec fn header(id: u32) -> Seq<char> {
    "\x1b[s\x1b[38;2;"@ + colors(id) + "m"@
}

/// The color that names an image.
spec fn colors(id: u32) -> Seq<char> {
    decimal(id as nat / 0x10000 % 0x100) + ";"@ + decimal(id as nat / 0x100 % 0x100) + ";"@
        + decimal(id as nat % 0x100)
}

/// The part of `placeholder_text` that is made of placeholders and diacritics.
spec fn run(row: char, column: char, high: char, width: int) -> Seq<char> {
    seq![KITTY_PLACEHOLDER, row, column, high] + Seq::new(
        (width - 1) as nat,
        |i: int| KITTY_PLACEHOLDER,
    )
}

/// The part of `placeholder_text` behind the placeholders.
spec fn trailer(right: int, down: int) -> Seq<char> {
    "\x1b[u\x1b["@ + decimal(right as nat) + "C\x1b["@ + decimal(down as nat) + "B"@
}

proof fn lemma_decimal_value(n: nat)
    ensures
        decimal_value(decimal(n)) == n,
    decreases n,
{
    let s = decimal(n);
    if n < 10 {
        assert(s.drop_last() =~= Seq::empty());
        assert(decimal_value(s.drop_last()) == 0);
        assert(s.last() == digit(n as int));
    } else {
        lemma_decimal_value(n / 10);
        assert(s.drop_last() =~= decimal(n / 10));
        assert(s.last() == digit((n % 10) as int));
    }
}

proof fn lemma_byte_value(n: nat)
    requires
        n <= 255,
    ensures
        byte_value(decimal(n)) == Some(n as u8),
{
    lemma_decimal_digits(n);
    lemma_decimal_value(n);
    assert(decimal(n)[0] != '+');
}

/// A single character is found at its first index.
proof fn lemma_find_char(s: Seq<char>, c: char, i: int)
    requires
        0 <= i < s.len(),
        s[i] == c,
        forall|j: int| 0 <= j < i ==> #[trigger] s[j] != c,
    ensures
        find(s, seq![c]) == Some(i),
{
    assert(s.subrange(i, i + 1) =~= seq![c]);
    assert forall|j: int| 0 <= j < i implies !#[trigger] occurs_at(s, seq![c], j) by {
        if occurs_at(s, seq![c], j) {
            assert(s.subrange(j, j + 1)[0] == s[j]);
        }
    }
    lemma_find_is(s, seq![c], i);
}

proof fn lemma_find_no_char(s: Seq<char>, c: char)
    requires
        forall|j: int| 0 <= j < s.len() ==> #[trigger] s[j] != c,
    ensures
        find(s, seq![c]) is None,
{
    assert forall|j: int| 0 <= j implies !#[trigger] occurs_at(s, seq![c], j) by {
        if occurs_at(s, seq![c], j) {
            assert(s.subrange(j, j + 1)[0] == s[j]);
        }
    }
    lemma_find_none(s, seq![c]);
}

proof fn lemma_fields(a: Seq<char>, b: Seq<char>, c: Seq<char>)
    requires
        forall|j: int| 0 <= j < a.len() ==> #[trigger] a[j] != ';',
        forall|j: int| 0 <= j < b.len() ==> #[trigger] b[j] != ';',
        forall|j: int| 0 <= j < c.len() ==> #[trigger] c[j] != ';',
    ensures
        fields(a + seq![';'] + b + seq![';'] + c) == seq![a, b, c],
{
    let s = a + seq![';'] + b + seq![';'] + c;
    let t = b + seq![';'] + c;
    assert forall|j: int| 0 <= j < a.len() implies #[trigger] s[j] != ';' by {
        assert(s[j] == a[j]);
    }
    lemma_find_char(s, ';', a.len() as int);
    assert(s.take(a.len() as int) =~= a);
    assert(s.skip(a.len() as int + 1) =~= t);
    assert forall|j: int| 0 <= j < b.len() implies #[trigger] t[j] != ';' by {
        assert(t[j] == b[j]);
    }
    lemma_find_char(t, ';', b.len() as int);
    assert(t.take(b.len() as int) =~= b);
    assert(t.skip(b.len() as int + 1) =~= c);
    lemma_find_no_char(c, ';');
    assert(fields(c) == seq![c]);
    assert(fields(t) =~= seq![b, c]);
    assert(fields(s) =~= seq![a, b, c]);
}

/// The color that names an image holds no characters but digits and semicolons, and is read back.
proof fn lemma_colors(id: u32)
    ensures
        forall|j: int| 0 <= j < colors(id).len() ==> {
            let c = #[trigger] colors(id)[j];
            '0' <= c <= '9' || c == ';'
        },
        ({
            let parts = fields(colors(id));
            &&& parts.len() == 3
            &&& byte_value(parts[0]) == Some((id as nat / 0x10000 % 0x100) as u8)
            &&& byte_value(parts[1]) == Some((id as nat / 0x100 % 0x100) as u8)
            &&& byte_value(parts[2]) == Some((id as nat % 0x100) as u8)
        }),
{
    reveal_strlit(";");
    let (x, y, z) = (id as nat / 0x10000 % 0x100, id as nat / 0x100 % 0x100, id as nat % 0x100);
    let (a, b, c) = (decimal(x), decimal(y), decimal(z));
    lemma_decimal_digits(x);
    lemma_decimal_digits(y);
    lemma_decimal_digits(z);
    lemma_byte_value(x);
    lemma_byte_value(y);
    lemma_byte_value(z);
    assert(";"@ =~= seq![';']);
    lemma_fields(a, b, c);
    let s = colors(id);
    assert forall|j: int| 0 <= j < s.len() implies {
        let c = #[trigger] s[j];
        '0' <= c <= '9' || c == ';'
    } by {
        let (p, q) = (a.len() as int, a.len() as int + 1 + b.len());
        if j < p {
            assert(s[j] == a[j]);
        } else if j == p {
            assert(s[j] == ';');
        } else if j < q {
            assert(s[j] == b[j - p - 1]);
        } else if j == q {
            assert(s[j] == ';');
        } else {
            assert(s[j] == c[j - q - 1]);
        }
    }
}

proof fn lemma_header(id: u32)
    ensures
        ({
            let h = header(id);
            &&& h.len() > 4
            &&& sgr_rgb(h) == Some(
                (
                    (id as nat / 0x10000 % 0x100) as u8,
                    (id as nat / 0x100 % 0x100) as u8,
                    (id as nat % 0x100) as u8,
                ),
            )
            &&& forall|j: int|
                0 <= j < h.len() ==> #[trigger] h[j] != '_' && h[j] != KITTY_PLACEHOLDER
        }),
{
    reveal_strlit("\x1b[s\x1b[38;2;");
    reveal_strlit("\x1b[38;2;");
    reveal_strlit("m");
    lemma_colors(id);
    let (start, mid, h) = ("\x1b[s\x1b[38;2;"@, colors(id), header(id));
    let n = mid.len() as int;
    assert(start.len() == 10);
    assert(h.len() == 11 + n);
    assert forall|j: int| 0 <= j < h.len() implies {
        &&& #[trigger] h[j] != '_' && h[j] != KITTY_PLACEHOLDER
        &&& h[j] == '\u{1b}' ==> j <= 3
        &&& h[j] == 'm' ==> j == 10 + n
    } by {
        if j < 10 {
            assert(h[j] == start[j]);
        } else if j < 10 + n {
            assert(h[j] == mid[j - 10]);
        } else {
            assert(h[j] == "m"@[0]);
        }
    }
    let pat = "\x1b[38;2;"@;
    assert(pat.len() == 7);
    assert(h.subrange(3, 10) =~= pat) by {
        assert forall|j: int| 0 <= j < 7 implies h[j + 3] == pat[j] by {
            assert(h[j + 3] == start[j + 3]);
        }
    }
    assert forall|j: int| 3 < j implies !#[trigger] occurs_at(h, pat, j) by {
        if occurs_at(h, pat, j) {
            assert(h.subrange(j, j + 7)[0] == h[j]);
        }
    }
    assert(occurs_at(h, pat, 3));
    lemma_rfind_is(h, pat, 3);
    let rest = h.skip(10);
    assert forall|j: int| 0 <= j < n implies #[trigger] rest[j] != 'm' by {
        assert(rest[j] == h[j + 10]);
    }
    assert(rest[n] == h[10 + n]);
    assert(h[10 + n] == "m"@[0]);
    lemma_find_char(rest, 'm', n);
    assert(rest.take(n) =~= mid);
}

proof fn lemma_trailer(right: int, down: int)
    ensures
        forall|j: int|
            0 <= j < trailer(right, down).len() ==> #[trigger] trailer(right, down)[j] != '_'
                && trailer(right, down)[j] != KITTY_PLACEHOLDER,
{
    reveal_strlit("\x1b[u\x1b[");
    reveal_strlit("C\x1b[");
    reveal_strlit("B");
    let (a, b, c, d, e) = (
        "\x1b[u\x1b["@,
        decimal(right as nat),
        "C\x1b["@,
        decimal(down as nat),
        "B"@,
    );
    lemma_decimal_digits(right as nat);
    lemma_decimal_digits(down as nat);
    let s = trailer(right, down);
    assert forall|j: int| 0 <= j < s.len() implies #[trigger] s[j] != '_' && s[j]
        != KITTY_PLACEHOLDER by {
        let p = a.len() as int;
        let q = p + b.len();
        let r = q + c.len();
        let t = r + d.len();
        if j < p {
            assert(s[j] == a[j]);
        } else if j < q {
            assert(s[j] == b[j - p]);
        } else if j < r {
            assert(s[j] == c[j - q]);
        } else if j < t {
            assert(s[j] == d[j - r]);
        } else {
            assert(s[j] == e[j - t]);
        }
    }
}

proof fn lemma_occurrences_add(a: Seq<char>, b: Seq<char>, c: char)
    ensures
        occurrences(a + b, seq![c]) == occurrences(a, seq![c]) + occurrences(b, seq![c]),
    decreases a.len(),
{
    if a.len() == 0 {
        assert(a + b =~= b);
    } else {
        assert((a + b).skip(1) =~= a.skip(1) + b);
        lemma_occurrences_add(a.skip(1), b, c);
        assert(a.subrange(0, 1) =~= seq![a[0]]);
        assert((a + b).subrange(0, 1) =~= seq![a[0]]);
    }
}

proof fn lemma_occurrences_none(s: Seq<char>, c: char)
    requires
        forall|j: int| 0 <= j < s.len() ==> #[trigger] s[j] != c,
    ensures
        occurrences(s, seq![c]) == 0,
    decreases s.len(),
{
    if s.len() > 0 {
        assert forall|j: int| 0 <= j < s.skip(1).len() implies #[trigger] s.skip(1)[j] != c by {
            assert(s.skip(1)[j] == s[j + 1]);
        }
        lemma_occurrences_none(s.skip(1), c);
        if occurs_at(s, seq![c], 0) {
            assert(s.subrange(0, 1)[0] == s[0]);
        }
    }
}

proof fn lemma_occurrences_all(s: Seq<char>, c: char)
    requires
        forall|j: int| 0 <= j < s.len() ==> #[trigger] s[j] == c,
    ensures
        occurrences(s, seq![c]) == s.len(),
    decreases s.len(),
{
    if s.len() > 0 {
        assert forall|j: int| 0 <= j < s.skip(1).len() implies #[trigger] s.skip(1)[j] == c by {
            assert(s.skip(1)[j] == s[j + 1]);
        }
        lemma_occurrences_all(s.skip(1), c);
        assert(s.subrange(0, 1) =~= seq![c]);
    }
}

proof fn lemma_run_occurrences(row: char, column: char, high: char, width: int)
    requires
        width >= 1,
        row != KITTY_PLACEHOLDER && column != KITTY_PLACEHOLDER && high != KITTY_PLACEHOLDER,
    ensures
        occurrences(run(row, column, high, width), seq![KITTY_PLACEHOLDER]) == width,
{
    let p = KITTY_PLACEHOLDER;
    let (a, b) = (seq![p], seq![row, column, high]);
    let c = Seq::new((width - 1) as nat, |i: int| KITTY_PLACEHOLDER);
    lemma_occurrences_all(a, p);
    lemma_occurrences_none(b, p);
    lemma_occurrences_all(c, p);
    lemma_occurrences_add(b, c, p);
    lemma_occurrences_add(a, b + c, p);
    assert(run(row, column, high, width) =~= a + (b + c));
}

proof fn lemma_text_parts(
    id: u32,
    row: char,
    column: char,
    high: char,
    width: int,
    right: int,
    down: int,
)
    ensures
        placeholder_text(id, row, column, high, width, right, down) == header(id) + run(
            row,
            column,
            high,
            width,
        ) + trailer(right, down),
{
    assert(placeholder_text(id, row, column, high, width, right, down) =~= header(id) + run(
        row,
        column,
        high,
        width,
    ) + trailer(right, down));
}

proof fn lemma_name_low_bytes(id: u32)
    ensures
        ((id as nat / 0x10000 % 0x100) as u8) * 0x10000 + ((id as nat / 0x100 % 0x100) as u8)
            * 0x100 + ((id as nat % 0x100) as u8) == id as int % 0x1000000,
{
}

/// The text that stands for a row of an image holds no graphics command.
proof fn lemma_text_is_plain(
    id: u32,
    row: char,
    column: char,
    high: char,
    width: int,
    right: int,
    down: int,
)
    requires
        width >= 1,
        is_diacritic(column, 0),
    ensures
        strip(placeholder_text(id, row, column, high, width, right, down)) == placeholder_text(
            id,
            row,
            column,
            high,
            width,
            right,
            down,
        ),
{
    let t = placeholder_text(id, row, column, high, width, right, down);
    let (h, r, e) = (header(id), run(row, column, high, width), trailer(right, down));
    lemma_text_parts(id, row, column, high, width, right, down);
    lemma_header(id);
    lemma_trailer(right, down);
    let (n, m) = (h.len() as int, h.len() as int + 3 + width);
    assert(column == '\u{305}');
    assert forall|j: int| 0 <= j implies !#[trigger] occurs_at(t, apc_start(), j) by {
        if occurs_at(t, apc_start(), j) {
            let w = t.subrange(j, j + 3);
            assert(w[0] == t[j] && w[1] == t[j + 1]);
            if j + 1 < n {
                assert(t[j + 1] == h[j + 1]);
            } else if j + 1 < m {
                assert(t[j + 1] == r[j + 1 - n]);
                if j + 1 == n + 1 {
                    assert(t[j] == r[0]);
                } else if j + 1 == n + 3 {
                    assert(t[j] == r[2]);
                }
            } else {
                assert(t[j + 1] == e[j + 1 - m]);
            }
        }
    }
    lemma_find_none(t, apc_start());
}

/// The text that stands for a row of an image is read back as a run of that image and row.
proof fn lemma_text_read_back(
    id: u32,
    row: char,
    column: char,
    high: char,
    width: int,
    right: int,
    down: int,
    fg: Color,
)
    requires
        1 <= width <= u16::MAX,
        row != KITTY_PLACEHOLDER && column != KITTY_PLACEHOLDER && high != KITTY_PLACEHOLDER,
    ensures
        placeholder_run(placeholder_text(id, row, column, high, width, right, down), fg) == Some(
            (((id as int % 0x1000000) as u32, Some(high)), row, width as u16),
        ),
{
    let t = placeholder_text(id, row, column, high, width, right, down);
    let (h, r, e) = (header(id), run(row, column, high, width), trailer(right, down));
    lemma_text_parts(id, row, column, high, width, right, down);
    lemma_header(id);
    lemma_trailer(right, down);
    lemma_name_low_bytes(id);
    let n = h.len() as int;
    assert forall|j: int| 0 <= j < n implies #[trigger] t[j] != KITTY_PLACEHOLDER by {
        assert(t[j] == h[j]);
    }
    assert(t[n] == r[0] && t[n + 1] == r[1] && t[n + 3] == r[3]);
    lemma_find_char(t, KITTY_PLACEHOLDER, n);
    assert(t.take(n) =~= h);
    lemma_occurrences_none(h, KITTY_PLACEHOLDER);
    lemma_occurrences_none(e, KITTY_PLACEHOLDER);
    lemma_run_occurrences(row, column, high, width);
    lemma_occurrences_add(h, r, KITTY_PLACEHOLDER);
    lemma_occurrences_add(h + r, e, KITTY_PLACEHOLDER);
}

/// A row of an image that was drawn outside tmux is read back: the description of the screen sees
/// a run of that image, row and width, whatever is in front of it.
pub proof fn a_drawn_row_is_read_back(
    cell: CellView,
    prefix: Seq<char>,
    id: u32,
    row: int,
    width: int,
    down: int,
)
    requires
        1 <= width <= u16::MAX,
        shows_row(cell.symbol, prefix, id, false, row, width, down),
    ensures
        exists|c: char, high: char|
            #![trigger is_diacritic(c, row), is_diacritic(high, id as int / 0x1000000)]
            is_diacritic(c, row) && is_diacritic(high, id as int / 0x1000000) && token_of(cell) == (
            Token::Run {
                image: ((id as int % 0x1000000) as u32, Some(high)),
                row: c,
                width: width as u16,
            }),
{
    let parts = choose|parts: RowParts|
        shows_row_by(cell.symbol, prefix, id, false, row, width, down, parts);
    let text = placeholder_text(
        id,
        parts.row,
        parts.column,
        parts.high,
        width,
        width - 1,
        down,
    );
    strip_removes_commands(parts.bodies, text);
    lemma_text_is_plain(id, parts.row, parts.column, parts.high, width, width - 1, down);
    lemma_text_read_back(
        id,
        parts.row,
        parts.column,
        parts.high,
        width,
        width - 1,
        down,
        cell.fg,
    );
    assert(is_diacritic(parts.row, row));
    assert(is_diacritic(parts.high, id as int / 0x1000000));
}

/// A description writes the number of a row for its diacritic, for the first forty rows.
pub proof fn a_row_is_described_by_its_number(c: char, row: int)
    requires
        0 <= row < row_diacritics().len(),
        is_diacritic(c, row),
    ensures
        row_text(c) == decimal(row as nat),
{
    lemma_position(row, 0);
}

proof fn lemma_position(row: int, from: int)
    requires
        0 <= from <= row < row_diacritics().len(),
    ensures
        position_from(row_diacritics(), row_diacritics()[row], from) == row,
    decreases row - from,
{
    let d = row_diacritics();
    if from < row {
        lemma_position(row, from + 1);
        assert(d[from] != d[row]) by {
            lemma_diacritics_ascend(from, row);
        }
    }
}

proof fn lemma_diacritics_ascend(i: int, j: int)
    requires
        0 <= i < j < row_diacritics().len(),
    ensures
        row_diacritics()[i] < row_diacritics()[j],
    decreases j - i,
{
    let d = row_diacritics();
    if j == i + 1 {
        assert(forall|k: int| 0 <= k < 39 ==> d[k] < #[trigger] d[k + 1]);
    } else {
        lemma_diacritics_ascend(i, j - 1);
        lemma_diacritics_ascend(j - 1, j);
    }
}

} // verus!
