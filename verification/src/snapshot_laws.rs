//! What holds of text descriptions of a screen.

use crate::kitty::{placeholder_run, strip, transmit_commands, ImageName};
use crate::screen::{buffer_area, cell_at, CellView};
use crate::snapshot::{
    description, graphics_bytes_in, line_from, lines_from, position, position_from, row_diacritics, row_text,
    run_columns, run_text, screen_tokens, transmits_in, with_image, Token,
};
use crate::text::{
    decimal, hex_digit, hexadecimal, lemma_decimal_digits, lemma_decimal_injective, trim_end, utf8_len,
};
use vstd::prelude::*;

verus! {

/// Whether `c` does not occur in `s`.
spec fn free_of(s: Seq<char>, c: char) -> bool {
    forall|i: int| 0 <= i < s.len() ==> #[trigger] s[i] != c
}

/// Two texts up to the first occurrence of a character, and behind it.
proof fn lemma_split(a: Seq<char>, b: Seq<char>, c: char, x: Seq<char>, y: Seq<char>)
    requires
        free_of(a, c),
        free_of(b, c),
        a + seq![c] + x == b + seq![c] + y,
    ensures
        a == b,
        x == y,
{
    let (s, t) = (a + seq![c] + x, b + seq![c] + y);
    assert(s[a.len() as int] == c);
    assert(t[b.len() as int] == c);
    if a.len() < b.len() {
        assert(t[a.len() as int] == b[a.len() as int]);
    } else if b.len() < a.len() {
        assert(s[b.len() as int] == a[b.len() as int]);
    }
    assert(a =~= s.take(a.len() as int));
    assert(b =~= t.take(b.len() as int));
    assert(x =~= s.skip(a.len() as int + 1));
    assert(y =~= t.skip(b.len() as int + 1));
}

proof fn lemma_hexadecimal_digits(n: nat)
    ensures
        hexadecimal(n).len() >= 1,
        forall|i: int|
            0 <= i < hexadecimal(n).len() ==> '0' <= #[trigger] hexadecimal(n)[i] <= 'F',
    decreases n,
{
    if n >= 16 {
        lemma_hexadecimal_digits(n / 16);
    }
}

proof fn lemma_hexadecimal_injective(a: nat, b: nat)
    requires
        hexadecimal(a) == hexadecimal(b),
    ensures
        a == b,
    decreases a,
{
    let (s, t) = (hexadecimal(a), hexadecimal(b));
    assert(s.last() == hex_digit((a % 16) as int));
    assert(t.last() == hex_digit((b % 16) as int));
    if a >= 16 && b >= 16 {
        assert(s.drop_last() =~= hexadecimal(a / 16));
        assert(t.drop_last() =~= hexadecimal(b / 16));
        lemma_hexadecimal_injective(a / 16, b / 16);
    } else if a >= 16 {
        lemma_hexadecimal_digits(a / 16);
        assert(s.len() >= 2 && t.len() == 1);
    } else if b >= 16 {
        lemma_hexadecimal_digits(b / 16);
        assert(t.len() >= 2 && s.len() == 1);
    }
}

/// A position is that of the first element that is equal, or the length where there is none.
proof fn lemma_position_from<T>(s: Seq<T>, v: T, from: int)
    requires
        0 <= from <= s.len(),
    ensures
        ({
            let p = position_from(s, v, from);
            &&& from <= p <= s.len()
            &&& p < s.len() ==> s[p] == v
            &&& forall|i: int| from <= i < p ==> #[trigger] s[i] != v
        }),
    decreases s.len() - from,
{
    if from < s.len() && s[from] != v {
        lemma_position_from(s, v, from + 1);
    }
}

/// The diacritics of the first forty rows, by their code points: they ascend, in stretches without a
/// gap.
pub proof fn diacritics_of_rows(row: int)
    requires
        0 <= row < row_diacritics().len(),
    ensures
        row_diacritics().len() == 40,
        ({
            let c = row_diacritics()[row] as int;
            &&& row == 0 ==> c == 0x305
            &&& 1 <= row <= 2 ==> c == 0x30d + (row - 1)
            &&& row == 3 ==> c == 0x310
            &&& row == 4 ==> c == 0x312
            &&& 5 <= row <= 7 ==> c == 0x33d + (row - 5)
            &&& row == 8 ==> c == 0x346
            &&& 9 <= row <= 11 ==> c == 0x34a + (row - 9)
            &&& 12 <= row <= 14 ==> c == 0x350 + (row - 12)
            &&& row == 15 ==> c == 0x357
            &&& row == 16 ==> c == 0x35b
            &&& 17 <= row <= 29 ==> c == 0x363 + (row - 17)
            &&& 30 <= row <= 34 ==> c == 0x483 + (row - 30)
            &&& 35 <= row <= 38 ==> c == 0x592 + (row - 35)
            &&& row == 39 ==> c == 0x597
        }),
{
}

/// A row is written as its number where it is one of the first forty, and else as a question mark and
/// the code point of its diacritic.
pub proof fn rows_are_written_by_number(row: int, other: char)
    requires
        0 <= row < 40,
        !row_diacritics().contains(other),
    ensures
        row_text(row_diacritics()[row]) == decimal(row as nat),
        row_text(other) == seq!['?'] + hexadecimal(other as nat),
{
    let d = row_diacritics();
    lemma_position_from(d, d[row], 0);
    let p = position(d, d[row]);
    if p < row {
        diacritics_of_rows(p);
        diacritics_of_rows(row);
    }
    lemma_position_from(d, other, 0);
    let q = position(d, other);
    if q < d.len() {
        assert(d.contains(d[q]));
    }
}

/// How a row is written tells which diacritic names it.
pub proof fn written_rows_tell_their_diacritic(a: char, b: char)
    requires
        row_text(a) == row_text(b),
    ensures
        a == b,
{
    let d = row_diacritics();
    lemma_position_from(d, a, 0);
    lemma_position_from(d, b, 0);
    let (p, q) = (position(d, a), position(d, b));
    lemma_decimal_digits(p as nat);
    lemma_decimal_digits(q as nat);
    if p < d.len() && q < d.len() {
        lemma_decimal_injective(p as nat, q as nat);
    } else if p < d.len() {
        assert(row_text(b)[0] == '?');
        assert('0' <= decimal(p as nat)[0]);
    } else if q < d.len() {
        assert(row_text(a)[0] == '?');
        assert('0' <= decimal(q as nat)[0]);
    } else {
        assert(row_text(a).skip(1) =~= hexadecimal(a as nat));
        assert(row_text(b).skip(1) =~= hexadecimal(b as nat));
        lemma_hexadecimal_injective(a as nat, b as nat);
    }
}

proof fn lemma_row_text(row: char)
    ensures
        free_of(row_text(row), ' '),
{
    let r = position(row_diacritics(), row);
    lemma_position_from(row_diacritics(), row, 0);
    lemma_decimal_digits(r as nat);
    lemma_hexadecimal_digits(row as nat);
    let t = row_text(row);
    assert forall|i: int| 0 <= i < t.len() implies #[trigger] t[i] != ' ' by {
        if r < row_diacritics().len() {
            assert('0' <= decimal(r as nat)[i]);
        } else if i > 0 {
            assert('0' <= hexadecimal(row as nat)[i - 1]);
        }
    }
}

/// A run is written as `[#`, the number of the image, ` r`, the row, ` w`, the width and `]`, with
/// the numbers in full.
pub proof fn runs_are_written_in_full(slot: int, row: char, width: u16)
    ensures
        run_text(slot, row, width) == seq!['[', '#'] + decimal(slot as nat) + seq![' ', 'r'] + row_text(
            row,
        ) + seq![' ', 'w'] + decimal(width as nat) + seq![']'],
{
    reveal_strlit("[#");
    reveal_strlit(" r");
    reveal_strlit(" w");
    reveal_strlit("]");
    assert(run_text(slot, row, width) =~= seq!['[', '#'] + decimal(slot as nat) + seq![' ', 'r']
        + row_text(row) + seq![' ', 'w'] + decimal(width as nat) + seq![']']);
}

/// How a run is written tells its image, row and width apart from all others.
pub proof fn written_runs_tell_what_they_show(
    a: int,
    row: char,
    width: u16,
    b: int,
    other_row: char,
    other_width: u16,
)
    requires
        0 <= a && 0 <= b,
        run_text(a, row, width) == run_text(b, other_row, other_width),
    ensures
        a == b,
        row == other_row,
        width == other_width,
{
    runs_are_written_in_full(a, row, width);
    runs_are_written_in_full(b, other_row, other_width);
    let (s, t) = (run_text(a, row, width), run_text(b, other_row, other_width));
    let (x, y) = (decimal(a as nat), decimal(b as nat));
    let (v, w) = (decimal(width as nat), decimal(other_width as nat));
    let tail = seq!['r'] + row_text(row) + seq![' '] + (seq!['w'] + v + seq![']']);
    let other_tail = seq!['r'] + row_text(other_row) + seq![' '] + (seq!['w'] + w + seq![']']);
    lemma_decimal_digits(a as nat);
    lemma_decimal_digits(b as nat);
    lemma_decimal_digits(width as nat);
    lemma_decimal_digits(other_width as nat);
    assert(s =~= seq!['[', '#'] + x + seq![' '] + tail);
    assert(t =~= seq!['[', '#'] + y + seq![' '] + other_tail);
    assert(free_of(seq!['[', '#'] + x, ' ')) by {
        let h = seq!['[', '#'] + x;
        assert forall|i: int| 0 <= i < h.len() implies #[trigger] h[i] != ' ' by {
            if i >= 2 {
                assert('0' <= x[i - 2]);
            }
        }
    }
    assert(free_of(seq!['[', '#'] + y, ' ')) by {
        let h = seq!['[', '#'] + y;
        assert forall|i: int| 0 <= i < h.len() implies #[trigger] h[i] != ' ' by {
            if i >= 2 {
                assert('0' <= y[i - 2]);
            }
        }
    }
    lemma_split(seq!['[', '#'] + x, seq!['[', '#'] + y, ' ', tail, other_tail);
    assert(x =~= (seq!['[', '#'] + x).skip(2));
    assert(y =~= (seq!['[', '#'] + y).skip(2));
    lemma_decimal_injective(a as nat, b as nat);
    let (p, q) = (seq!['r'] + row_text(row), seq!['r'] + row_text(other_row));
    lemma_row_text(row);
    lemma_row_text(other_row);
    assert(free_of(p, ' ')) by {
        assert forall|i: int| 0 <= i < p.len() implies #[trigger] p[i] != ' ' by {
            if i >= 1 {
                assert(row_text(row)[i - 1] != ' ');
            }
        }
    }
    assert(free_of(q, ' ')) by {
        assert forall|i: int| 0 <= i < q.len() implies #[trigger] q[i] != ' ' by {
            if i >= 1 {
                assert(row_text(other_row)[i - 1] != ' ');
            }
        }
    }
    lemma_split(p, q, ' ', seq!['w'] + v + seq![']'], seq!['w'] + w + seq![']']);
    assert(row_text(row) =~= p.skip(1));
    assert(row_text(other_row) =~= q.skip(1));
    written_rows_tell_their_diacritic(row, other_row);
    let (m, n) = (seq!['w'] + v + seq![']'], seq!['w'] + w + seq![']']);
    assert(v =~= m.subrange(1, m.len() - 1));
    assert(w =~= n.subrange(1, n.len() - 1));
    lemma_decimal_injective(width as nat, other_width as nat);
}

/// The images of the runs that a reader meets in a row of cells, from column `x` on, where each run
/// covers as many columns as it is wide, but at least one.
pub open spec fn line_images(tokens: Seq<Token>, x: int) -> Seq<ImageName>
    decreases
        (if x < tokens.len() {
            tokens.len() - x
        } else {
            0
        }),
{
    if x >= tokens.len() {
        Seq::empty()
    } else {
        match tokens[x] {
            Token::Run { image, width, .. } => seq![image] + line_images(
                tokens,
                x + (if width == 0 {
                    1int
                } else {
                    width as int
                }),
            ),
            Token::Text(_) => line_images(tokens, x + 1),
        }
    }
}

/// The images of the runs that a reader meets on a screen, from row `y` on.
pub open spec fn screen_images(rows: Seq<Seq<Token>>, y: int) -> Seq<ImageName>
    decreases rows.len() - y,
{
    if y >= rows.len() {
        Seq::empty()
    } else {
        line_images(rows[y], 0) + screen_images(rows, y + 1)
    }
}

/// A row of cells as text from column `x` on, with the images written by number.
pub open spec fn numbered_line(tokens: Seq<Token>, x: int, number: spec_fn(ImageName) -> nat) -> Seq<
    char,
>
    decreases
        (if x < tokens.len() {
            tokens.len() - x
        } else {
            0
        }),
{
    if x >= tokens.len() {
        Seq::empty()
    } else {
        match tokens[x] {
            Token::Run { image, row, width } => seq!['[', '#'] + decimal(number(image)) + seq![
                ' ',
                'r',
            ] + row_text(row) + seq![' ', 'w'] + decimal(width as nat) + seq![']'] + numbered_line(
                tokens,
                x + (if width == 0 {
                    1int
                } else {
                    width as int
                }),
                number,
            ),
            Token::Text(text) => text + numbered_line(tokens, x + 1, number),
        }
    }
}

/// A screen as text from row `y` on, with the images written by number.
pub open spec fn numbered_lines(
    rows: Seq<Seq<Token>>,
    y: int,
    number: spec_fn(ImageName) -> nat,
) -> Seq<char>
    decreases rows.len() - y,
{
    if y >= rows.len() {
        Seq::empty()
    } else {
        trim_end(numbered_line(rows[y], 0, number)) + seq!['\n'] + numbered_lines(rows, y + 1, number)
    }
}

/// The number of different images that are met ahead of the first run of `image`.
pub open spec fn images_before(met: Seq<ImageName>, image: ImageName) -> nat {
    met.take(met.index_of_first(image)->0).to_set().len()
}

/// `ids` with the images of `met` added, one after the other.
spec fn with_images(ids: Seq<ImageName>, met: Seq<ImageName>) -> Seq<ImageName>
    decreases met.len(),
{
    if met.len() == 0 {
        ids
    } else {
        with_images(with_image(ids, met[0]), met.skip(1))
    }
}

proof fn lemma_with_images_add(ids: Seq<ImageName>, a: Seq<ImageName>, b: Seq<ImageName>)
    ensures
        with_images(ids, a + b) == with_images(with_images(ids, a), b),
    decreases a.len(),
{
    if a.len() == 0 {
        assert(a + b =~= b);
    } else {
        assert((a + b).skip(1) =~= a.skip(1) + b);
        lemma_with_images_add(with_image(ids, a[0]), a.skip(1), b);
    }
}

/// Whether `all` starts with `ids`.
spec fn starts_with(all: Seq<ImageName>, ids: Seq<ImageName>) -> bool {
    ids.len() <= all.len() && forall|i: int| 0 <= i < ids.len() ==> all[i] == #[trigger] ids[i]
}

proof fn lemma_with_images_extends(ids: Seq<ImageName>, met: Seq<ImageName>)
    ensures
        starts_with(with_images(ids, met), ids),
    decreases met.len(),
{
    if met.len() > 0 {
        let next = with_image(ids, met[0]);
        lemma_with_images_extends(next, met.skip(1));
        assert forall|i: int| 0 <= i < ids.len() implies with_images(ids, met)[i] == #[trigger] ids[i] by {
            assert(next[i] == ids[i]);
        }
    }
}

/// An image keeps its place when more images are added.
proof fn lemma_position_stays(ids: Seq<ImageName>, image: ImageName, all: Seq<ImageName>)
    requires
        starts_with(all, with_image(ids, image)),
    ensures
        position(all, image) == position(ids, image),
{
    lemma_position_from(ids, image, 0);
    lemma_position_from(all, image, 0);
    let (p, q) = (position(ids, image), position(all, image));
    let next = with_image(ids, image);
    assert(next[p] == image);
    assert(all[p] == next[p]);
    if q < p {
        assert(next[q] == ids[q]);
        assert(all[q] == next[q]);
    }
}

proof fn lemma_numbered_line(tokens: Seq<Token>, x: int, ids: Seq<ImageName>, all: Seq<ImageName>)
    requires
        0 <= x,
        starts_with(all, with_images(ids, line_images(tokens, x))),
    ensures
        line_from(tokens, x, ids).0 == numbered_line(
            tokens,
            x,
            |image: ImageName| position(all, image) as nat,
        ),
        line_from(tokens, x, ids).1 == with_images(ids, line_images(tokens, x)),
    decreases
        (if x < tokens.len() {
            tokens.len() - x
        } else {
            0
        }),
{
    let number = |image: ImageName| position(all, image) as nat;
    if x < tokens.len() {
        match tokens[x] {
            Token::Run { image, row, width } => {
                let met = line_images(tokens, x + run_columns(width));
                let next = with_image(ids, image);
                assert(line_images(tokens, x) =~= seq![image] + met);
                assert((seq![image] + met).skip(1) =~= met);
                lemma_numbered_line(tokens, x + run_columns(width), next, all);
                lemma_with_images_extends(next, met);
                assert forall|i: int| 0 <= i < next.len() implies all[i] == #[trigger] next[i] by {
                    assert(with_images(next, met)[i] == next[i]);
                }
                lemma_position_stays(ids, image, all);
                lemma_position_from(ids, image, 0);
                runs_are_written_in_full(position(ids, image), row, width);
                assert(number(image) == position(ids, image));
            },
            Token::Text(text) => {
                lemma_numbered_line(tokens, x + 1, ids, all);
            },
        }
    }
}

proof fn lemma_numbered_lines(rows: Seq<Seq<Token>>, y: int, ids: Seq<ImageName>, all: Seq<ImageName>)
    requires
        0 <= y,
        all == with_images(ids, screen_images(rows, y)),
    ensures
        lines_from(rows, y, ids) == numbered_lines(
            rows,
            y,
            |image: ImageName| position(all, image) as nat,
        ),
    decreases rows.len() - y,
{
    if y < rows.len() {
        let (met, rest) = (line_images(rows[y], 0), screen_images(rows, y + 1));
        let next = with_images(ids, met);
        lemma_with_images_add(ids, met, rest);
        lemma_with_images_extends(next, rest);
        lemma_numbered_line(rows[y], 0, ids, all);
        lemma_numbered_lines(rows, y + 1, next, all);
    }
}

/// The images that were added to none are those that were met, each once.
proof fn lemma_distinct(met: Seq<ImageName>)
    ensures
        with_images(Seq::empty(), met).no_duplicates(),
        with_images(Seq::empty(), met).to_set() == met.to_set(),
        with_images(Seq::empty(), met).len() == met.to_set().len(),
    decreases met.len(),
{
    let none = Seq::<ImageName>::empty();
    let all = with_images(none, met);
    if met.len() == 0 {
        assert(all.to_set() =~= met.to_set());
    } else {
        let (front, last) = (met.drop_last(), met.last());
        let ids = with_images(none, front);
        lemma_distinct(front);
        assert(met =~= front + seq![last]);
        lemma_with_images_add(none, front, seq![last]);
        assert(seq![last].skip(1) =~= none);
        assert(with_images(with_image(ids, last), none) == with_image(ids, last));
        assert(all == with_image(ids, last));
        lemma_position_from(ids, last, 0);
        let p = position(ids, last);
        assert(met.to_set() =~= front.to_set().insert(last));
        if p < ids.len() {
            assert(ids.contains(last));
            assert(ids.to_set().contains(last));
            assert(met.to_set() =~= front.to_set());
        } else {
            assert(all == ids.push(last));
            assert forall|v: ImageName| all.to_set().contains(v) == ids.to_set().insert(last).contains(
                v,
            ) by {
                if ids.contains(v) {
                    assert(all[ids.index_of(v)] == v);
                }
                assert(all[ids.len() as int] == last);
                if all.contains(v) && v != last {
                    assert(ids[all.index_of(v)] == v);
                }
            }
            assert(all.to_set() =~= ids.to_set().insert(last));
        }
    }
    all.unique_seq_to_set();
}

proof fn lemma_number_is_order(met: Seq<ImageName>, image: ImageName)
    requires
        met.contains(image),
    ensures
        position(with_images(Seq::empty(), met), image) == images_before(met, image),
{
    let none = Seq::<ImageName>::empty();
    met.index_of_first_ensures(image);
    let k = met.index_of_first(image)->0;
    let (front, rest) = (met.take(k), met.skip(k));
    let ids = with_images(none, front);
    let all = with_images(none, met);
    assert(met =~= front + rest);
    lemma_with_images_add(none, front, rest);
    lemma_distinct(front);
    assert(rest[0] == image);
    lemma_with_images_extends(with_image(ids, image), rest.skip(1));
    lemma_position_stays(ids, image, all);
    lemma_position_from(ids, image, 0);
    let p = position(ids, image);
    if p < ids.len() {
        assert(ids.contains(image));
        assert(ids.to_set().contains(image));
        assert(front.contains(image));
        let i = front.index_of(image);
        assert(met[i] == image);
    }
}

/// In a description, every image is written with the number of different images that were met before
/// it first came up, wherever it is shown.
pub proof fn images_are_numbered_as_they_come(rows: Seq<Seq<Token>>)
    ensures
        description(rows) == numbered_lines(
            rows,
            0,
            |image: ImageName| images_before(screen_images(rows, 0), image),
        ),
{
    let met = screen_images(rows, 0);
    let all = with_images(Seq::empty(), met);
    lemma_numbered_lines(rows, 0, Seq::empty(), all);
    lemma_same_lines(
        rows,
        0,
        met,
        |image: ImageName| position(all, image) as nat,
        |image: ImageName| images_before(met, image),
    );
}

proof fn lemma_same_line(
    tokens: Seq<Token>,
    x: int,
    met: Seq<ImageName>,
    f: spec_fn(ImageName) -> nat,
    g: spec_fn(ImageName) -> nat,
)
    requires
        0 <= x,
        forall|i: int| 0 <= i < line_images(tokens, x).len() ==> met.contains(
            #[trigger] line_images(tokens, x)[i],
        ),
        forall|image: ImageName| met.contains(image) ==> #[trigger] f(image) == g(image),
    ensures
        numbered_line(tokens, x, f) == numbered_line(tokens, x, g),
    decreases
        (if x < tokens.len() {
            tokens.len() - x
        } else {
            0
        }),
{
    if x < tokens.len() {
        match tokens[x] {
            Token::Run { image, width, .. } => {
                let next = x + (if width == 0 {
                    1int
                } else {
                    width as int
                });
                let rest = line_images(tokens, next);
                assert(line_images(tokens, x)[0] == image);
                assert forall|i: int| 0 <= i < rest.len() implies met.contains(#[trigger] rest[i]) by {
                    assert(line_images(tokens, x)[i + 1] == rest[i]);
                }
                lemma_same_line(tokens, next, met, f, g);
                assert(f(image) == g(image));
            },
            Token::Text(_) => {
                assert(line_images(tokens, x) == line_images(tokens, x + 1));
                lemma_same_line(tokens, x + 1, met, f, g);
            },
        }
    }
}

proof fn lemma_same_lines(
    rows: Seq<Seq<Token>>,
    y: int,
    met: Seq<ImageName>,
    f: spec_fn(ImageName) -> nat,
    g: spec_fn(ImageName) -> nat,
)
    requires
        0 <= y,
        met == screen_images(rows, 0),
        f == (|image: ImageName| position(with_images(Seq::empty(), met), image) as nat),
        g == (|image: ImageName| images_before(met, image)),
        forall|i: int| 0 <= i < screen_images(rows, y).len() ==> met.contains(
            #[trigger] screen_images(rows, y)[i],
        ),
    ensures
        numbered_lines(rows, y, f) == numbered_lines(rows, y, g),
    decreases rows.len() - y,
{
    if y < rows.len() {
        let (line, rest) = (line_images(rows[y], 0), screen_images(rows, y + 1));
        let both = screen_images(rows, y);
        assert forall|i: int| 0 <= i < line.len() implies met.contains(#[trigger] line[i]) by {
            assert(both[i] == line[i]);
        }
        assert forall|i: int| 0 <= i < rest.len() implies met.contains(#[trigger] rest[i]) by {
            assert(both[line.len() + i] == rest[i]);
        }
        assert forall|image: ImageName| met.contains(image) implies #[trigger] f(image) == g(image) by {
            lemma_number_is_order(met, image);
        }
        lemma_same_line(rows[y], 0, met, f, g);
        lemma_same_lines(rows, y + 1, met, f, g);
    }
}

/// Two images of a screen are written with the same number exactly if they are the same, the first
/// with zero.
pub proof fn different_images_have_different_numbers(met: Seq<ImageName>, a: ImageName, b: ImageName)
    requires
        met.contains(a) && met.contains(b),
    ensures
        images_before(met, a) == images_before(met, b) ==> a == b,
        met[0] == a ==> images_before(met, a) == 0,
        images_before(met, a) < met.to_set().len(),
{
    let all = with_images(Seq::empty(), met);
    lemma_number_is_order(met, a);
    lemma_number_is_order(met, b);
    lemma_distinct(met);
    lemma_position_from(all, a, 0);
    lemma_position_from(all, b, 0);
    assert(all.to_set().contains(a) && all.to_set().contains(b));
    assert(all.contains(a) && all.contains(b));
    let (p, q) = (position(all, a), position(all, b));
    assert(p < all.len()) by {
        assert(all[all.index_of(a)] == a);
    }
    assert(q < all.len()) by {
        assert(all[all.index_of(b)] == b);
    }
    assert(all[p] == a && all[q] == b);
    if met[0] == a {
        met.index_of_first_ensures(a);
        assert(met.take(0).to_set() =~= Set::empty());
    }
}

/// A description is made of the cells of the screen, row by row: each is a run of placeholders where
/// its text without commands holds one, and else that text.
pub proof fn descriptions_are_of_the_cells(b: ratatui::buffer::Buffer, x: int, y: int)
    requires
        0 <= x < buffer_area(b).width && 0 <= y < buffer_area(b).height,
    ensures
        screen_tokens(b).len() == buffer_area(b).height,
        screen_tokens(b)[y].len() == buffer_area(b).width,
        ({
            let cell = cell_at(b, buffer_area(b).x + x, buffer_area(b).y + y);
            let text = strip(cell.symbol);
            match screen_tokens(b)[y][x] {
                Token::Run { image, row, width } => placeholder_run(text, cell.fg) == Some(
                    (image, row, width),
                ),
                Token::Text(t) => t == text && placeholder_run(text, cell.fg) is None,
            }
        }),
{
}

/// The commands and bytes on a screen are those of its cells together. The bytes of a cell are those
/// that it has more with its graphics commands than without.
pub proof fn commands_and_bytes_add_up(content: Seq<CellView>, cell: CellView)
    ensures
        ({
            let (n, all) = (content.len() as int, content.push(cell));
            &&& transmits_in(all, n + 1) == transmits_in(content, n) + transmit_commands(cell.symbol)
            &&& graphics_bytes_in(all, n + 1) + utf8_len(strip(cell.symbol)) == graphics_bytes_in(
                content,
                n,
            ) + utf8_len(cell.symbol)
        }),
        transmits_in(content, 0) == 0 && graphics_bytes_in(content, 0) == 0,
{
    let (n, all) = (content.len() as int, content.push(cell));
    lemma_same_prefix(content, all, n);
}

proof fn lemma_same_prefix(a: Seq<CellView>, b: Seq<CellView>, n: int)
    requires
        forall|i: int| 0 <= i < n ==> #[trigger] a[i] == b[i],
    ensures
        transmits_in(a, n) == transmits_in(b, n),
        graphics_bytes_in(a, n) == graphics_bytes_in(b, n),
    decreases n,
{
    if n > 0 {
        lemma_same_prefix(a, b, n - 1);
        assert(a[n - 1] == b[n - 1]);
    }
}

} // verus!
