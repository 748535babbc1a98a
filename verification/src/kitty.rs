//! The graphics protocol of the Kitty terminal: its commands, and what they leave on a screen.

use crate::screen::Color;
use crate::text::{
    chars_of, decimal, find, find_from, find_last, first_at, matches_at, same_text, string_of, lemma_decimal_digits, lemma_decimal_injective,
    lemma_find_is, occurrences, occurs_at, push_decimal, rfind, count_matches,
};
use vstd::prelude::*;

verus! {

/// The command that makes the terminal forget image `id`, wrapped for passing through tmux where
/// the terminal runs in it.
pub open spec fn delete_command(id: u32, tmux: bool) -> Seq<char> {
    if tmux {
        "\x1bPtmux;\x1b\x1b_Ga=d,d=I,i="@ + decimal(id as nat) + ",q=2\x1b\x1b\\\x1b\\"@
    } else {
        "\x1b_Ga=d,d=I,i="@ + decimal(id as nat) + ",q=2\x1b\\"@
    }
}

/// The command that makes the terminal forget image `id`.
pub fn kitty_delete(id: u32, tmux: bool) -> (r: String)
    ensures
        r@ == delete_command(id, tmux),
{
    let mut r = String::new();
    if tmux {
        r.append("\x1bPtmux;\x1b\x1b_Ga=d,d=I,i=");
        push_decimal(&mut r, id as u64);
        r.append(",q=2\x1b\x1b\\\x1b\\");
    } else {
        r.append("\x1b_Ga=d,d=I,i=");
        push_decimal(&mut r, id as u64);
        r.append(",q=2\x1b\\");
    }
    assert(r@ =~= delete_command(id, tmux));
    r
}

/// What a graphics command starts with: escape, underscore, `G`.
pub open spec fn apc_start() -> Seq<char> {
    seq!['\u{1b}', '_', 'G']
}

/// What a graphics command ends with: escape, backslash.
pub open spec fn apc_end() -> Seq<char> {
    seq!['\u{1b}', '\\']
}

/// `s` without its graphics commands. One that does not end takes the rest of `s` with it.
pub open spec fn strip(s: Seq<char>) -> Seq<char>
    decreases s.len(),
{
    match find(s, apc_start()) {
        None => s,
        Some(i) => match find(s.skip(i), apc_end()) {
            None => s.take(i),
            Some(j) => s.take(i) + strip(s.skip(i + j + 2)),
        },
    }
}

/// Appends the characters of `chars` from index `from` up to index `to`.
fn push_range(out: &mut String, chars: &Vec<char>, from: usize, to: usize)
    requires
        from <= to <= chars.len(),
    ensures
        final(out)@ == old(out)@ + chars@.subrange(from as int, to as int),
{
    let ghost start = out@;
    let mut i: usize = from;
    while i < to
        invariant
            from <= i <= to <= chars.len(),
            out@ == start + chars@.subrange(from as int, i as int),
        decreases to - i,
    {
        out.push(chars[i]);
        i += 1;
        assert(out@ =~= start + chars@.subrange(from as int, i as int));
    }
}

/// Removes the graphics commands (`ESC _ G ... ESC \`) from the symbol of a cell.
pub fn strip_apc(symbol: &str) -> (r: String)
    ensures
        r@ == strip(symbol@),
{
    let chars = chars_of(symbol);
    let start: Vec<char> = vec!['\u{1b}', '_', 'G'];
    let end: Vec<char> = vec!['\u{1b}', '\\'];
    assert(start@ =~= apc_start());
    assert(end@ =~= apc_end());
    let mut out = String::new();
    let mut pos: usize = 0;
    assert(chars@.skip(0) =~= chars@);
    assert(out@ + strip(chars@) =~= strip(chars@));
    loop
        invariant
            pos <= chars.len(),
            chars@ == symbol@,
            start@ == apc_start(),
            end@ == apc_end(),
            out@ + strip(chars@.skip(pos as int)) == strip(symbol@),
        decreases chars.len() - pos,
    {
        let ghost rest = chars@.skip(pos as int);
        match find_from(&chars, pos, &start) {
            None => {
                let n = chars.len();
                push_range(&mut out, &chars, pos, n);
                assert(chars@.subrange(pos as int, n as int) =~= rest);
                return out;
            },
            Some(i) => {
                let ghost before = out@;
                push_range(&mut out, &chars, pos, pos + i);
                assert(chars@.subrange(pos as int, pos + i) =~= rest.take(i as int));
                assert(rest.skip(i as int) =~= chars@.skip(pos + i));
                match find_from(&chars, pos + i, &end) {
                    None => {
                        return out;
                    },
                    Some(j) => {
                        assert(rest.skip(i + j + 2) =~= chars@.skip(pos + i + j + 2));
                        pos = pos + i + j + 2;
                        assert(out@ + strip(chars@.skip(pos as int)) =~= before + (rest.take(i as int)
                            + strip(chars@.skip(pos as int))));
                    },
                }
            },
        }
    }
}

/// Whether `setting` stands at index `i` of the control data of a graphics command, between commas.
pub open spec fn setting_at(control: Seq<char>, setting: Seq<char>, i: int) -> bool {
    let end = i + setting.len();
    &&& occurs_at(control, setting, i)
    &&& i == 0 || control[i - 1] == ','
    &&& end == control.len() || control[end] == ','
}

/// The control data of a graphics command: what its body holds up to the first semicolon.
pub open spec fn control_data(body: Seq<char>) -> Seq<char> {
    match find(body, seq![';']) {
        None => body,
        Some(i) => body.take(i),
    }
}

/// Whether the graphics command with this body transmits an image and shows it.
pub open spec fn is_transmit(body: Seq<char>) -> bool {
    exists|i: int| #[trigger] setting_at(control_data(body), "a=T"@, i)
}

/// One for a graphics command that transmits an image, zero for another.
pub open spec fn transmit_weight(body: Seq<char>) -> nat {
    if is_transmit(body) {
        1
    } else {
        0
    }
}

/// The number of graphics commands in `s` that transmit an image. One that does not end goes up to
/// the end of `s`.
pub open spec fn transmit_commands(s: Seq<char>) -> nat
    decreases s.len(),
{
    match find(s, apc_start()) {
        None => 0,
        Some(i) => match find(s.skip(i), apc_end()) {
            None => transmit_weight(s.skip(i + 3)),
            Some(j) => transmit_weight(s.subrange(i + 3, i + j)) + transmit_commands(
                s.skip(i + j + 2),
            ),
        },
    }
}

/// Whether the graphics command with this body transmits an image.
fn body_transmits(body: &Vec<char>) -> (r: bool)
    ensures
        r == is_transmit(body@),
{
    let semicolon: Vec<char> = vec![';'];
    assert(semicolon@ =~= seq![';']);
    assert(body@.skip(0) =~= body@);
    let end: usize = match find_from(body, 0, &semicolon) {
        Some(i) => i,
        None => body.len(),
    };
    let control = copy_range(body, 0, end);
    assert(control@ =~= control_data(body@));
    let setting = chars_of("a=T");
    let n: usize = control.len();
    let mut i: usize = 0;
    while i < n
        invariant
            i <= n,
            n == control.len(),
            control@ == control_data(body@),
            setting@ == "a=T"@,
            forall|k: int| 0 <= k < i ==> !#[trigger] setting_at(control@, setting@, k),
        decreases n - i,
    {
        if matches_at(&control, &setting, i) && (i == 0 || control[i - 1] == ',') && (i
            + setting.len() == n || control[i + setting.len()] == ',') {
            assert(setting_at(control@, setting@, i as int));
            return true;
        }
        i += 1;
    }
    proof {
        reveal_strlit("a=T");
    }
    false
}

/// The number of graphics commands in the symbol of a cell that transmit an image.
pub fn count_transmits(symbol: &str) -> (r: usize)
    ensures
        r == transmit_commands(symbol@),
{
    let chars = chars_of(symbol);
    let start: Vec<char> = vec!['\u{1b}', '_', 'G'];
    let end: Vec<char> = vec!['\u{1b}', '\\'];
    assert(start@ =~= apc_start());
    assert(end@ =~= apc_end());
    let len: usize = chars.len();
    let mut count: usize = 0;
    let mut pos: usize = 0;
    assert(chars@.skip(0) =~= chars@);
    loop
        invariant
            count <= pos <= len,
            len == chars.len(),
            chars@ == symbol@,
            start@ == apc_start(),
            end@ == apc_end(),
            count + transmit_commands(chars@.skip(pos as int)) == transmit_commands(symbol@),
        decreases len - pos,
    {
        let ghost rest = chars@.skip(pos as int);
        match find_from(&chars, pos, &start) {
            None => {
                return count;
            },
            Some(i) => {
                assert(rest.subrange(i as int, i + 3) =~= apc_start());
                assert(rest.skip(i as int) =~= chars@.skip(pos + i));
                match find_from(&chars, pos + i, &end) {
                    None => {
                        let body = copy_range(&chars, pos + i + 3, len);
                        assert(body@ =~= rest.skip(i + 3));
                        if body_transmits(&body) {
                            count += 1;
                        }
                        return count;
                    },
                    Some(j) => {
                        proof {
                            assert(rest.skip(i as int).subrange(0, 3) =~= apc_start());
                            lemma_end_behind_start(rest.skip(i as int), j as int);
                        }
                        let body = copy_range(&chars, pos + i + 3, pos + i + j);
                        assert(body@ =~= rest.subrange(i + 3, i + j));
                        assert(rest.skip(i + j + 2) =~= chars@.skip(pos + i + j + 2));
                        if body_transmits(&body) {
                            count += 1;
                        }
                        pos = pos + i + j + 2;
                    },
                }
            },
        }
    }
}

/// What ends a graphics command stands behind what starts it.
proof fn lemma_end_behind_start(s: Seq<char>, j: int)
    requires
        occurs_at(s, apc_start(), 0),
        occurs_at(s, apc_end(), j),
    ensures
        j >= 3,
{
    let (a, b) = (s.subrange(0, 3), s.subrange(j, j + 2));
    assert(a[0] == s[0] && a[1] == s[1] && a[2] == s[2]);
    assert(b[0] == s[j] && b[1] == s[j + 1]);
}

/// Whether the two variables of the environment tell of tmux: `TERM` by its beginning,
/// `TERM_PROGRAM` as a whole.
pub open spec fn tells_of_tmux(term: Option<Seq<char>>, term_program: Option<Seq<char>>) -> bool {
    ||| term is Some && occurs_at(term->0, "tmux"@, 0)
    ||| term_program == Some("tmux"@)
}

/// Whether the terminal runs in tmux, by the values of `TERM` and `TERM_PROGRAM`.
pub fn is_tmux(term: Option<&str>, term_program: Option<&str>) -> (r: bool)
    ensures
        r == tells_of_tmux(
            match term {
                Some(t) => Some(t@),
                None => None,
            },
            match term_program {
                Some(t) => Some(t@),
                None => None,
            },
        ),
{
    let name = chars_of("tmux");
    let by_term = match term {
        Some(t) => matches_at(&chars_of(t), &name, 0),
        None => false,
    };
    let by_program = match term_program {
        Some(t) => same_text(t, "tmux"),
        None => false,
    };
    by_term || by_program
}

/// The value of a sequence of decimal digits.
pub open spec fn decimal_value(s: Seq<char>) -> int
    decreases s.len(),
{
    if s.len() == 0 {
        0
    } else {
        10 * decimal_value(s.drop_last()) + (s.last() as int - '0' as int)
    }
}

/// Whether `s` is made of decimal digits, at least one.
pub open spec fn is_numeral(s: Seq<char>) -> bool {
    s.len() > 0 && forall|i: int| 0 <= i < s.len() ==> '0' <= #[trigger] s[i] <= '9'
}

/// The byte that `s` writes in decimal, with a plus sign in front or not.
pub open spec fn byte_value(s: Seq<char>) -> Option<u8> {
    let digits = if s.len() > 0 && s[0] == '+' {
        s.skip(1)
    } else {
        s
    };
    if is_numeral(digits) && decimal_value(digits) <= 255 {
        Some(decimal_value(digits) as u8)
    } else {
        None
    }
}

/// The byte that the characters from `from` up to `to` write in decimal.
fn parse_byte(chars: &Vec<char>, from: usize, to: usize) -> (r: Option<u8>)
    requires
        from <= to <= chars.len(),
    ensures
        r == byte_value(chars@.subrange(from as int, to as int)),
{
    let ghost field = chars@.subrange(from as int, to as int);
    let start: usize = if from < to && chars[from] == '+' {
        from + 1
    } else {
        from
    };
    let ghost digits = chars@.subrange(start as int, to as int);
    proof {
        if start == from + 1 {
            assert(field[0] == '+');
            assert(field.skip(1) =~= digits);
        }
    }
    if start == to {
        return None;
    }
    let mut value: u32 = 0;
    let mut i: usize = start;
    assert(decimal_value(digits.take(0)) == 0);
    while i < to
        invariant
            from <= start <= i <= to <= chars.len(),
            field == chars@.subrange(from as int, to as int),
            digits == chars@.subrange(start as int, to as int),
            field.len() > 0 && field[0] == '+' ==> digits == field.skip(1),
            !(field.len() > 0 && field[0] == '+') ==> digits == field,
            value <= 2559,
            decimal_value(digits.take(i - start)) >= 0,
            value <= 255 ==> value == decimal_value(digits.take(i - start)),
            value > 255 ==> decimal_value(digits.take(i - start)) > 255,
            forall|j: int| 0 <= j < i - start ==> '0' <= #[trigger] digits[j] <= '9',
        decreases to - i,
    {
        let c = chars[i];
        assert(c == digits[i - start]);
        assert(digits.take(i - start + 1).drop_last() =~= digits.take(i - start));
        if !('0' <= c && c <= '9') {
            return None;
        }
        let d: u32 = c as u32 - '0' as u32;
        if value <= 255 {
            value = value * 10 + d;
        }
        i += 1;
    }
    assert(digits.take(to - start) =~= digits);
    if value <= 255 {
        Some(value as u8)
    } else {
        None
    }
}

/// The parts of `s` between its semicolons.
pub open spec fn fields(s: Seq<char>) -> Seq<Seq<char>>
    decreases s.len(),
{
    match find(s, seq![';']) {
        None => seq![s],
        Some(i) => seq![s.take(i)] + fields(s.skip(i + 1)),
    }
}

/// The red, green and blue that the last color sequence of `s` (`ESC [ 38 ; 2 ; r ; g ; b m`)
/// selects for text.
pub open spec fn sgr_rgb(s: Seq<char>) -> Option<(u8, u8, u8)> {
    match rfind(s, "\x1b[38;2;"@) {
        None => None,
        Some(i) => {
            let rest = s.skip(i + 7);
            match find(rest, seq!['m']) {
                None => None,
                Some(m) => {
                    let parts = fields(rest.take(m));
                    if parts.len() >= 3 {
                        match (byte_value(parts[0]), byte_value(parts[1]), byte_value(parts[2])) {
                            (Some(r), Some(g), Some(b)) => Some((r, g, b)),
                            _ => None,
                        }
                    } else {
                        None
                    }
                },
            }
        },
    }
}

/// A copy of the characters from `from` up to `to`.
pub(crate) fn copy_range(chars: &Vec<char>, from: usize, to: usize) -> (r: Vec<char>)
    requires
        from <= to <= chars.len(),
    ensures
        r@ == chars@.subrange(from as int, to as int),
{
    let mut r: Vec<char> = Vec::new();
    let mut i: usize = from;
    while i < to
        invariant
            from <= i <= to <= chars.len(),
            r@ == chars@.subrange(from as int, i as int),
        decreases to - i,
    {
        r.push(chars[i]);
        i += 1;
        assert(r@ =~= chars@.subrange(from as int, i as int));
    }
    r
}

/// The first three fields of `body` as bytes.
fn parse_three_bytes(body: &Vec<char>) -> (r: Option<(u8, u8, u8)>)
    ensures
        r == ({
            let parts = fields(body@);
            if parts.len() >= 3 {
                match (byte_value(parts[0]), byte_value(parts[1]), byte_value(parts[2])) {
                    (Some(r), Some(g), Some(b)) => Some((r, g, b)),
                    _ => None,
                }
            } else {
                None
            }
        }),
{
    let semicolon: Vec<char> = vec![';'];
    assert(semicolon@ =~= seq![';']);
    let ghost parts = fields(body@);
    assert(body@.skip(0) =~= body@);
    let first: usize = match find_from(body, 0, &semicolon) {
        Some(i) => i,
        None => {
            assert(parts.len() == 1);
            return None;
        },
    };
    let ghost tail = body@.skip(first + 1);
    assert(parts == seq![body@.take(first as int)] + fields(tail));
    assert(body@.take(first as int) =~= body@.subrange(0, first as int));
    let second: usize = match find_from(body, first + 1, &semicolon) {
        Some(i) => first + 1 + i,
        None => {
            assert(fields(tail) == seq![tail]);
            return None;
        },
    };
    let ghost last = body@.skip(second + 1);
    assert(tail.skip(second - first - 1 + 1) =~= last);
    assert(fields(tail) == seq![tail.take(second - first - 1)] + fields(last));
    assert(tail.take(second - first - 1) =~= body@.subrange(first + 1, second as int));
    let third: usize = match find_from(body, second + 1, &semicolon) {
        Some(i) => second + 1 + i,
        None => body.len(),
    };
    assert(fields(last).len() >= 1 && fields(last)[0] =~= body@.subrange(second + 1, third as int));
    assert(parts[0] == body@.subrange(0, first as int));
    assert(parts[1] == body@.subrange(first + 1, second as int));
    assert(parts[2] == body@.subrange(second + 1, third as int));
    match (
        parse_byte(body, 0, first),
        parse_byte(body, first + 1, second),
        parse_byte(body, second + 1, third),
    ) {
        (Some(r), Some(g), Some(b)) => Some((r, g, b)),
        _ => None,
    }
}

/// The red, green and blue that the last color sequence of `s` selects for text.
pub fn parse_sgr_rgb(s: &str) -> (r: Option<(u8, u8, u8)>)
    ensures
        r == sgr_rgb(s@),
{
    let chars = chars_of(s);
    let introducer = chars_of("\x1b[38;2;");
    proof {
        reveal_strlit("\x1b[38;2;");
    }
    let start: usize = match find_last(&chars, &introducer) {
        Some(i) => i + 7,
        None => {
            return None;
        },
    };
    let closer: Vec<char> = vec!['m'];
    assert(closer@ =~= seq!['m']);
    let end: usize = match find_from(&chars, start, &closer) {
        Some(m) => start + m,
        None => {
            return None;
        },
    };
    let body = copy_range(&chars, start, end);
    assert(body@ =~= chars@.skip(start as int).take(end - start));
    parse_three_bytes(&body)
}

/// The character that the terminal replaces by a part of an image.
pub const KITTY_PLACEHOLDER: char = '\u{10EEEE}';

/// What names an image: the number that the text color holds, and a further diacritic.
pub type ImageName = (u32, Option<char>);

/// The run of placeholders that the symbol of a cell holds: the image, the diacritic of the row
/// that is shown, and the number of placeholders. The text color of the image is the one that the
/// symbol selects ahead of the run, or else that of the cell.
pub open spec fn placeholder_run(symbol: Seq<char>, fg: Color) -> Option<(ImageName, char, u16)> {
    match find(symbol, seq![KITTY_PLACEHOLDER]) {
        None => None,
        Some(first) => {
            let color = match (sgr_rgb(symbol.take(first)), fg) {
                (Some(rgb), _) => Some(rgb),
                (None, Color::Rgb(r, g, b)) => Some((r, g, b)),
                _ => None,
            };
            match color {
                Some((r, g, b)) if first + 1 < symbol.len() => {
                    let id = (r * 0x10000 + g * 0x100 + b) as u32;
                    let extra = if first + 3 < symbol.len() && symbol[first + 3] != KITTY_PLACEHOLDER {
                        Some(symbol[first + 3])
                    } else {
                        None
                    };
                    let count = occurrences(symbol, seq![KITTY_PLACEHOLDER]);
                    Some(((id, extra), symbol[first + 1], (count % 0x10000) as u16))
                },
                _ => None,
            }
        },
    }
}

/// The run of placeholders that the symbol of a cell holds, with `fg` as the cell's text color.
pub fn parse_placeholder_run(symbol: &str, fg: Color) -> (r: Option<(ImageName, char, u16)>)
    ensures
        r == placeholder_run(symbol@, fg),
{
    let chars = chars_of(symbol);
    let placeholder: Vec<char> = vec![KITTY_PLACEHOLDER];
    assert(placeholder@ =~= seq![KITTY_PLACEHOLDER]);
    assert(chars@.skip(0) =~= chars@);
    let first: usize = match find_from(&chars, 0, &placeholder) {
        Some(i) => i,
        None => {
            return None;
        },
    };
    let before = string_of(&copy_range(&chars, 0, first));
    assert(before@ =~= symbol@.take(first as int));
    let color: (u8, u8, u8) = match parse_sgr_rgb(before.as_str()) {
        Some(rgb) => rgb,
        None => match fg {
            Color::Rgb(r, g, b) => (r, g, b),
            _ => {
                return None;
            },
        },
    };
    if first + 1 >= chars.len() {
        return None;
    }
    let id: u32 = color.0 as u32 * 0x10000 + color.1 as u32 * 0x100 + color.2 as u32;
    let extra = if chars.len() - first > 3 && chars[first + 3] != KITTY_PLACEHOLDER {
        Some(chars[first + 3])
    } else {
        None
    };
    let width: u16 = (count_matches(&chars, &placeholder) % 0x10000) as u16;
    Some(((id, extra), chars[first + 1], width))
}

/// Different images are forgotten by different commands.
pub proof fn delete_commands_differ(a: u32, b: u32, tmux: bool)
    requires
        delete_command(a, tmux) == delete_command(b, tmux),
    ensures
        a == b,
{
    let (head, tail) = if tmux {
        ("\x1bPtmux;\x1b\x1b_Ga=d,d=I,i="@, ",q=2\x1b\x1b\\\x1b\\"@)
    } else {
        ("\x1b_Ga=d,d=I,i="@, ",q=2\x1b\\"@)
    };
    let (x, y) = (decimal(a as nat), decimal(b as nat));
    let (s, t) = (delete_command(a, tmux), delete_command(b, tmux));
    assert(s.len() == head.len() + x.len() + tail.len());
    assert(t.len() == head.len() + y.len() + tail.len());
    assert(s.subrange(head.len() as int, (head.len() + x.len()) as int) =~= x);
    assert(t.subrange(head.len() as int, (head.len() + y.len()) as int) =~= y);
    lemma_decimal_injective(a as nat, b as nat);
}

/// What stands where in the command that makes the terminal forget an image.
proof fn lemma_delete_command_chars(id: u32)
    ensures
        ({
            let c = delete_command(id, false);
            let n = c.len() as int;
            &&& n >= 20
            &&& c[0] == '\u{1b}' && c[1] == '_' && c[2] == 'G'
            &&& c[n - 2] == '\u{1b}' && c[n - 1] == '\\'
            &&& forall|j: int| 1 <= j < n - 2 ==> #[trigger] c[j] != '\u{1b}'
        }),
{
    reveal_strlit("\x1b_Ga=d,d=I,i=");
    reveal_strlit(",q=2\x1b\\");
    let (head, digits, tail) = ("\x1b_Ga=d,d=I,i="@, decimal(id as nat), ",q=2\x1b\\"@);
    let c = delete_command(id, false);
    lemma_decimal_digits(id as nat);
    assert forall|j: int| 1 <= j < c.len() - 2 implies #[trigger] c[j] != '\u{1b}' by {
        if j < 13 {
            assert(c[j] == head[j]);
        } else if j < 13 + digits.len() {
            assert(c[j] == digits[j - 13]);
        } else {
            assert(c[j] == tail[j - 13 - digits.len()]);
        }
    }
}

pub proof fn lemma_strip_leading(t: Seq<char>, end: int)
    requires
        first_at(t, apc_start(), 0),
        first_at(t, apc_end(), end),
    ensures
        strip(t) == strip(t.skip(end + 2)),
{
    lemma_find_is(t, apc_start(), 0);
    lemma_find_is(t, apc_end(), end);
    assert(t.skip(0) =~= t);
    assert(t.take(0) + strip(t.skip(end + 2)) =~= strip(t.skip(end + 2)));
}

/// A command that makes the terminal forget an image is a graphics command: it takes no space on
/// the screen, and leaves the text behind it as it is.
pub proof fn strip_removes_delete_command(id: u32, s: Seq<char>)
    ensures
        strip(delete_command(id, false) + s) == strip(s),
{
    let c = delete_command(id, false);
    let n = c.len() as int;
    let t = c + s;
    lemma_delete_command_chars(id);
    assert(t.subrange(0, 3) =~= apc_start());
    assert(t.subrange(n - 2, n) =~= apc_end());
    assert forall|j: int| 0 <= j < n - 2 implies !#[trigger] occurs_at(t, apc_end(), j) by {
        if occurs_at(t, apc_end(), j) {
            let w = t.subrange(j, j + 2);
            assert(w[0] == t[j] && w[1] == t[j + 1]);
            assert(t[j] == c[j] && t[j + 1] == c[j + 1]);
        }
    }
    lemma_strip_leading(t, n - 2);
    assert(t.skip(n) =~= s);
}

} // verus!
