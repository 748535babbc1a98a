//! What holds of the commands of the Kitty terminal, and of reading what they leave on a screen.

use crate::kitty::{
    apc_end, apc_start, byte_value, control_data, decimal_value, delete_command, fields, is_numeral, is_transmit,
    placeholder_run, setting_at, sgr_rgb, strip, tells_of_tmux, transmit_commands, };
use crate::screen::Color;
use crate::text::{
    decimal, digit, find, lemma_decimal_digits, lemma_find_is, lemma_find_none, lemma_rfind_is, occurs_at, rfind,
};
use crate::text_laws::{every_place_counts_once, places, stands_at};
use vstd::prelude::*;

verus! {

proof fn lemma_stands(s: Seq<char>, pat: Seq<char>, i: int)
    ensures
        stands_at(s, pat, i) == occurs_at(s, pat, i),
{
    if occurs_at(s, pat, i) {
        let w = s.subrange(i, i + pat.len());
        assert forall|k: int| 0 <= k < pat.len() implies s[i + k] == #[trigger] pat[k] by {
            assert(w[k] == s[i + k]);
        }
    }
    if stands_at(s, pat, i) {
        assert(s.subrange(i, i + pat.len()) =~= pat);
    }
}

/// The pattern is found where it stands first.
proof fn lemma_found(s: Seq<char>, pat: Seq<char>, i: int)
    requires
        stands_at(s, pat, i),
        forall|j: int| 0 <= j < i ==> !#[trigger] stands_at(s, pat, j),
    ensures
        find(s, pat) == Some(i),
{
    lemma_stands(s, pat, i);
    assert forall|j: int| 0 <= j < i implies !#[trigger] occurs_at(s, pat, j) by {
        lemma_stands(s, pat, j);
        assert(!stands_at(s, pat, j));
    }
    lemma_find_is(s, pat, i);
}

proof fn lemma_not_found(s: Seq<char>, pat: Seq<char>)
    requires
        forall|j: int| 0 <= j ==> !#[trigger] stands_at(s, pat, j),
    ensures
        find(s, pat) is None,
{
    assert forall|j: int| 0 <= j implies !#[trigger] occurs_at(s, pat, j) by {
        lemma_stands(s, pat, j);
        assert(!stands_at(s, pat, j));
    }
    lemma_find_none(s, pat);
}

/// `s` with every escape character doubled.
pub open spec fn doubled(s: Seq<char>) -> Seq<char>
    decreases s.len(),
{
    if s.len() == 0 {
        Seq::empty()
    } else if s.last() == '\u{1b}' {
        doubled(s.drop_last()).push('\u{1b}').push('\u{1b}')
    } else {
        doubled(s.drop_last()).push(s.last())
    }
}

proof fn lemma_doubled_add(a: Seq<char>, b: Seq<char>)
    ensures
        doubled(a + b) == doubled(a) + doubled(b),
    decreases b.len(),
{
    if b.len() == 0 {
        assert(a + b =~= a);
        assert(doubled(a) + doubled(b) =~= doubled(a));
    } else {
        assert((a + b).drop_last() =~= a + b.drop_last());
        lemma_doubled_add(a, b.drop_last());
        assert(doubled(a + b) =~= doubled(a) + doubled(b));
    }
}

proof fn lemma_doubled_plain(s: Seq<char>)
    requires
        forall|i: int| 0 <= i < s.len() ==> #[trigger] s[i] != '\u{1b}',
    ensures
        doubled(s) == s,
    decreases s.len(),
{
    if s.len() > 0 {
        lemma_doubled_plain(s.drop_last());
        assert(doubled(s) =~= s);
    }
}

/// The command that makes the terminal forget an image is a graphics command that deletes (`a=d`) the
/// image with the number (`i`) and its data (`d=I`), and asks for no answer (`q=2`).
pub proof fn a_delete_command_names_its_image(id: u32)
    ensures
        delete_command(id, false) == seq![
            '\u{1b}',
            '_',
            'G',
            'a',
            '=',
            'd',
            ',',
            'd',
            '=',
            'I',
            ',',
            'i',
            '=',
        ] + decimal(id as nat) + seq![',', 'q', '=', '2', '\u{1b}', '\\'],
{
    reveal_strlit("\x1b_Ga=d,d=I,i=");
    reveal_strlit(",q=2\x1b\\");
    assert("\x1b_Ga=d,d=I,i="@ =~= seq![
        '\u{1b}',
        '_',
        'G',
        'a',
        '=',
        'd',
        ',',
        'd',
        '=',
        'I',
        ',',
        'i',
        '=',
    ]);
    assert(",q=2\x1b\\"@ =~= seq![',', 'q', '=', '2', '\u{1b}', '\\']);
}

/// In tmux, the command is passed through: it stands between `ESC P tmux ;` and `ESC \`, with every
/// escape character doubled.
pub proof fn tmux_passes_the_command_through(id: u32)
    ensures
        delete_command(id, true) == seq!['\u{1b}', 'P', 't', 'm', 'u', 'x', ';'] + doubled(
            delete_command(id, false),
        ) + seq!['\u{1b}', '\\'],
{
    a_delete_command_names_its_image(id);
    let esc = seq!['\u{1b}'];
    let head = seq!['_', 'G', 'a', '=', 'd', ',', 'd', '=', 'I', ',', 'i', '='];
    let (digits, mid, tail) = (decimal(id as nat), seq![',', 'q', '=', '2'], seq!['\\']);
    let plain = delete_command(id, false);
    assert(plain =~= esc + head + digits + mid + esc + tail);
    lemma_decimal_digits(id as nat);
    lemma_doubled_add(esc + head + digits + mid + esc, tail);
    lemma_doubled_add(esc + head + digits + mid, esc);
    lemma_doubled_add(esc + head + digits, mid);
    lemma_doubled_add(esc + head, digits);
    lemma_doubled_add(esc, head);
    lemma_doubled_plain(head);
    lemma_doubled_plain(digits);
    lemma_doubled_plain(mid);
    lemma_doubled_plain(tail);
    assert(esc.drop_last() =~= Seq::empty());
    assert(doubled(esc.drop_last()) =~= Seq::empty());
    assert(doubled(esc) =~= seq!['\u{1b}', '\u{1b}']);
    reveal_strlit("\x1bPtmux;\x1b\x1b_Ga=d,d=I,i=");
    reveal_strlit(",q=2\x1b\x1b\\\x1b\\");
    assert(delete_command(id, true) =~= seq!['\u{1b}', 'P', 't', 'm', 'u', 'x', ';'] + doubled(plain)
        + seq!['\u{1b}', '\\']);
}

/// What a graphics command starts with.
pub open spec fn command_start() -> Seq<char> {
    seq!['\u{1b}', '_', 'G']
}

/// What a graphics command ends with.
pub open spec fn command_end() -> Seq<char> {
    seq!['\u{1b}', '\\']
}

/// The text that is made of one character.
spec fn one(c: char) -> Seq<char> {
    seq![c]
}

/// Whether the first graphics command of `s` starts at `i`.
pub open spec fn starts_first_at(s: Seq<char>, i: int) -> bool {
    &&& stands_at(s, command_start(), i)
    &&& forall|j: int| 0 <= j < i ==> !#[trigger] stands_at(s, command_start(), j)
}

/// Whether no graphics command starts in `s`.
pub open spec fn has_no_command(s: Seq<char>) -> bool {
    forall|j: int| 0 <= j ==> !#[trigger] stands_at(s, command_start(), j)
}

/// Whether the command that starts at `i` of `s` ends right in front of `end`: with the first `ESC \`
/// behind its start.
pub open spec fn command_ends_at(s: Seq<char>, i: int, end: int) -> bool {
    &&& i + 5 <= end && stands_at(s, command_end(), end - 2)
    &&& forall|j: int| i <= j < end - 2 ==> !#[trigger] stands_at(s, command_end(), j)
}

/// Whether the command that starts at `i` of `s` does not end.
pub open spec fn command_is_open(s: Seq<char>, i: int) -> bool {
    forall|j: int| i <= j ==> !#[trigger] stands_at(s, command_end(), j)
}

proof fn lemma_command(s: Seq<char>, i: int)
    requires
        starts_first_at(s, i),
    ensures
        find(s, apc_start()) == Some(i),
        forall|end: int| #[trigger]
            command_ends_at(s, i, end) ==> find(s.skip(i), apc_end()) == Some(end - 2 - i),
        command_is_open(s, i) ==> find(s.skip(i), apc_end()) is None,
{
    assert(apc_start() =~= command_start());
    assert(apc_end() =~= command_end());
    lemma_found(s, apc_start(), i);
    let t = s.skip(i);
    assert forall|j: int| 0 <= j implies stands_at(s, apc_end(), i + j) == #[trigger] stands_at(
        t,
        apc_end(),
        j,
    ) by {
        if stands_at(t, apc_end(), j) {
            assert forall|k: int| 0 <= k < apc_end().len() implies s[i + j + k]
                == #[trigger] apc_end()[k] by {
                assert(t[j + k] == apc_end()[k]);
            }
        }
        if stands_at(s, apc_end(), i + j) {
            assert forall|k: int| 0 <= k < apc_end().len() implies t[j + k]
                == #[trigger] apc_end()[k] by {
                assert(s[i + j + k] == apc_end()[k]);
            }
        }
    }
    assert forall|end: int| #[trigger] command_ends_at(s, i, end) implies find(t, apc_end()) == Some(
        end - 2 - i,
    ) by {
        assert forall|j: int| 0 <= j < end - 2 - i implies !#[trigger] stands_at(t, apc_end(), j) by {
            assert(!stands_at(s, apc_end(), i + j));
        }
        assert(stands_at(s, apc_end(), i + (end - 2 - i)));
        assert(stands_at(t, apc_end(), end - 2 - i));
        lemma_found(t, apc_end(), end - 2 - i);
    }
    if command_is_open(s, i) {
        assert forall|j: int| 0 <= j implies !#[trigger] stands_at(t, apc_end(), j) by {
            assert(!stands_at(s, apc_end(), i + j));
        }
        lemma_not_found(t, apc_end());
    }
}

/// What is left of a text without its graphics commands: a text without any stays as it is; the first
/// command is taken out of a text and what is left of the rest follows; and one that does not end takes
/// the rest with it.
pub proof fn graphics_commands_are_taken_out(s: Seq<char>, i: int, end: int)
    ensures
        has_no_command(s) ==> strip(s) == s,
        starts_first_at(s, i) && command_ends_at(s, i, end) ==> strip(s) == s.take(i) + strip(
            s.skip(end),
        ),
        starts_first_at(s, i) && command_is_open(s, i) ==> strip(s) == s.take(i),
{
    assert(apc_start() =~= command_start());
    if has_no_command(s) {
        lemma_not_found(s, apc_start());
    }
    if starts_first_at(s, i) {
        lemma_command(s, i);
    }
}

/// Every graphics command of a text that transmits an image counts, with the part between its start
/// and its end as its body.
pub proof fn transmitting_commands_count(s: Seq<char>, i: int, end: int)
    ensures
        has_no_command(s) ==> transmit_commands(s) == 0,
        starts_first_at(s, i) && command_ends_at(s, i, end) ==> transmit_commands(s)
            == transmit_commands(s.skip(end)) + (if is_transmit(s.subrange(i + 3, end - 2)) {
            1nat
        } else {
            0nat
        }),
        starts_first_at(s, i) && command_is_open(s, i) ==> transmit_commands(s) == (if is_transmit(
            s.skip(i + 3),
        ) {
            1nat
        } else {
            0nat
        }),
{
    assert(apc_start() =~= command_start());
    if has_no_command(s) {
        lemma_not_found(s, apc_start());
    }
    if starts_first_at(s, i) {
        lemma_command(s, i);
    }
}

/// A command transmits an image and shows it where `a=T` is one of the settings, between commas, in
/// front of the first semicolon, if there is one.
pub proof fn transmitting_is_a_setting(body: Seq<char>, n: int)
    requires
        0 <= n <= body.len(),
        n < body.len() ==> body[n] == ';',
        forall|j: int| 0 <= j < n ==> #[trigger] body[j] != ';',
    ensures
        is_transmit(body) <==> exists|i: int|
            0 <= i && i + 3 <= n && #[trigger] body[i] == 'a' && body[i + 1] == '=' && body[i + 2] == 'T'
                && (i == 0 || body[i - 1] == ',') && (i + 3 == n || body[i + 3] == ','),
{
    reveal_strlit("a=T");
    let control = control_data(body);
    assert forall|j: int| 0 <= j < n implies !#[trigger] stands_at(body, one(';'), j) by {
        assert(seq![';'][0] == ';');
        if stands_at(body, one(';'), j) {
            assert(body[j + 0] == seq![';'][0]);
        }
    }
    if n < body.len() {
        assert(stands_at(body, one(';'), n));
        lemma_found(body, one(';'), n);
    } else {
        assert forall|j: int| 0 <= j implies !#[trigger] stands_at(body, one(';'), j) by {}
        lemma_not_found(body, one(';'));
        assert(body.take(n) =~= body);
    }
    assert(control =~= body.take(n));
    let setting = "a=T"@;
    assert(setting =~= seq!['a', '=', 'T']);
    assert forall|i: int| #[trigger] setting_at(control, setting, i) <==> {
        &&& 0 <= i && i + 3 <= n
        &&& body[i] == 'a' && body[i + 1] == '=' && body[i + 2] == 'T'
        &&& i == 0 || body[i - 1] == ','
        &&& i + 3 == n || body[i + 3] == ','
    } by {
        if setting_at(control, setting, i) {
            let w = control.subrange(i, i + 3);
            assert(w[0] == control[i] && w[1] == control[i + 1] && w[2] == control[i + 2]);
            assert(w[0] == setting[0] && w[1] == setting[1] && w[2] == setting[2]);
        }
        if 0 <= i && i + 3 <= n && body[i] == 'a' && body[i + 1] == '=' && body[i + 2] == 'T' {
            assert(control.subrange(i, i + 3) =~= setting);
        }
    }
    if is_transmit(body) {
        let i = choose|i: int| #[trigger] setting_at(control, setting, i);
        assert(body[i] == 'a');
    }
    if exists|i: int|
        0 <= i && i + 3 <= n && #[trigger] body[i] == 'a' && body[i + 1] == '=' && body[i + 2] == 'T' && (
        i == 0 || body[i - 1] == ',') && (i + 3 == n || body[i + 3] == ',') {
        let i = choose|i: int|
            0 <= i && i + 3 <= n && #[trigger] body[i] == 'a' && body[i + 1] == '=' && body[i + 2] == 'T'
                && (i == 0 || body[i - 1] == ',') && (i + 3 == n || body[i + 3] == ',');
        assert(setting_at(control, setting, i));
    }
}

/// The terminal runs in tmux where `TERM` starts with the four letters of that name, or where
/// `TERM_PROGRAM` is made of them alone.
pub proof fn tmux_is_told_by_its_name(term: Option<Seq<char>>, program: Option<Seq<char>>)
    ensures
        tells_of_tmux(term, program) <==> {
            ||| (term matches Some(t) && t.len() >= 4 && t[0] == 't' && t[1] == 'm' && t[2] == 'u' && t[3]
                == 'x')
            ||| (program matches Some(p) && p.len() == 4 && p[0] == 't' && p[1] == 'm' && p[2] == 'u' && p[3]
                == 'x')
        },
{
    reveal_strlit("tmux");
    let name = "tmux"@;
    assert(name =~= seq!['t', 'm', 'u', 'x']);
    if let Some(t) = term {
        if occurs_at(t, name, 0) {
            let w = t.subrange(0, 4);
            assert(w[0] == t[0] && w[1] == t[1] && w[2] == t[2] && w[3] == t[3]);
        }
        if t.len() >= 4 && t[0] == 't' && t[1] == 'm' && t[2] == 'u' && t[3] == 'x' {
            assert(t.subrange(0, 4) =~= name);
        }
    }
    if let Some(p) = program {
        if p.len() == 4 && p[0] == 't' && p[1] == 'm' && p[2] == 'u' && p[3] == 'x' {
            assert(p =~= name);
        }
    }
}

/// A numeral has the value of the number that it was written for.
pub proof fn numerals_are_read_back(n: nat)
    ensures
        decimal_value(decimal(n)) == n,
    decreases n,
{
    let s = decimal(n);
    if n < 10 {
        assert(s.drop_last() =~= Seq::empty());
        assert(decimal_value(s.drop_last()) == 0);
        assert(s.last() == digit(n as int));
    } else {
        numerals_are_read_back(n / 10);
        assert(s.drop_last() =~= decimal(n / 10));
        assert(s.last() == digit((n % 10) as int));
    }
}

/// A number is read as the byte that it is where it is one, with a plus sign in front or without. What
/// is empty or holds anything but digits is not a number.
pub proof fn bytes_are_read_from_their_numerals(n: nat, s: Seq<char>, i: int)
    ensures
        byte_value(decimal(n)) == (if n <= 255 {
            Some(n as u8)
        } else {
            None
        }),
        byte_value(seq!['+'] + decimal(n)) == byte_value(decimal(n)),
        s.len() == 0 ==> byte_value(s) is None,
        0 <= i < s.len() && !('0' <= s[i] <= '9') && !(i == 0 && s[i] == '+') ==> byte_value(s) is None,
        s.len() == 1 && s[0] == '+' ==> byte_value(s) is None,
{
    lemma_decimal_digits(n);
    numerals_are_read_back(n);
    assert(decimal(n)[0] != '+');
    assert(is_numeral(decimal(n)));
    let t = seq!['+'] + decimal(n);
    assert(t.skip(1) =~= decimal(n));
    if 0 < i < s.len() && s[0] == '+' {
        assert(s.skip(1)[i - 1] == s[i]);
    }
}

/// The value of a numeral does not depend on zeros in front of it.
pub proof fn leading_zeros_do_not_count(s: Seq<char>)
    ensures
        decimal_value(seq!['0'] + s) == decimal_value(s),
    decreases s.len(),
{
    let t = seq!['0'] + s;
    if s.len() == 0 {
        assert(t.drop_last() =~= Seq::empty());
        assert(decimal_value(t.drop_last()) == 0);
        assert(t.last() == '0');
    } else {
        assert(t.drop_last() =~= seq!['0'] + s.drop_last());
        leading_zeros_do_not_count(s.drop_last());
    }
}

/// The parts of a text between its semicolons hold none, and make up the text again with semicolons
/// between them.
pub proof fn fields_make_up_the_text(s: Seq<char>, i: int)
    ensures
        fields(s).len() >= 1,
        0 <= i < fields(s).len() ==> !#[trigger] fields(s)[i].contains(';'),
        joined_by_semicolons(fields(s)) == s,
    decreases s.len(),
{
    match find(s, seq![';']) {
        None => {
            assert(joined_by_semicolons(seq![s]) == s);
            if s.contains(';') {
                let k = s.index_of(';');
                lemma_first_char(s, ';', k);
            }
        },
        Some(k) => {
            let (a, rest) = (s.take(k), s.skip(k + 1));
            assert(s.subrange(k, k + 1)[0] == s[k]);
            fields_make_up_the_text(rest, i - 1);
            let all = fields(s);
            assert(all =~= seq![a] + fields(rest));
            assert(all.skip(1) =~= fields(rest));
            assert(joined_by_semicolons(all) == a + seq![';'] + joined_by_semicolons(fields(rest)));
            assert(s =~= a + seq![';'] + rest);
            if a.contains(';') {
                let j = a.index_of(';');
                assert(s.subrange(j, j + 1) =~= seq![';']);
                assert(occurs_at(s, seq![';'], j));
            }
        },
    }
}

/// The texts of `parts`, in order, with semicolons between them.
pub open spec fn joined_by_semicolons(parts: Seq<Seq<char>>) -> Seq<char>
    decreases parts.len(),
{
    if parts.len() == 0 {
        Seq::empty()
    } else if parts.len() == 1 {
        parts[0]
    } else {
        parts[0] + seq![';'] + joined_by_semicolons(parts.skip(1))
    }
}

proof fn lemma_first_char(s: Seq<char>, c: char, k: int)
    requires
        0 <= k < s.len(),
        s[k] == c,
    ensures
        find(s, seq![c]) is Some,
    decreases k,
{
    if exists|j: int| 0 <= j < k && #[trigger] s[j] == c {
        let j = choose|j: int| 0 <= j < k && #[trigger] s[j] == c;
        lemma_first_char(s, c, j);
    } else {
        assert(seq![c][0] == c);
        assert(stands_at(s, one(c), k));
        assert forall|j: int| 0 <= j < k implies !#[trigger] stands_at(s, one(c), j) by {
            if stands_at(s, one(c), j) {
                assert(s[j + 0] == seq![c][0]);
            }
        }
        lemma_found(s, one(c), k);
    }
}

/// What selects a color for text: `ESC [ 3 8 ; 2 ;`.
pub open spec fn color_start() -> Seq<char> {
    seq!['\u{1b}', '[', '3', '8', ';', '2', ';']
}

/// Red, green and blue in decimal, with semicolons between them.
pub open spec fn color_text(r: u8, g: u8, b: u8) -> Seq<char> {
    decimal(r as nat) + seq![';'] + decimal(g as nat) + seq![';'] + decimal(b as nat)
}

proof fn lemma_color_text(r: u8, g: u8, b: u8, j: int)
    requires
        0 <= j < color_text(r, g, b).len(),
    ensures
        '0' <= color_text(r, g, b)[j] <= '9' || color_text(r, g, b)[j] == ';',
{
    let (x, y, z) = (decimal(r as nat), decimal(g as nat), decimal(b as nat));
    let mid = color_text(r, g, b);
    lemma_decimal_digits(r as nat);
    lemma_decimal_digits(g as nat);
    lemma_decimal_digits(b as nat);
    let (p, q) = (x.len() as int, x.len() as int + 1 + y.len());
    if j < p {
        assert(mid[j] == x[j]);
    } else if p < j < q {
        assert(mid[j] == y[j - p - 1]);
    } else if q < j {
        assert(mid[j] == z[j - q - 1]);
    }
}

proof fn lemma_color_fields(r: u8, g: u8, b: u8)
    ensures
        ({
            let parts = fields(color_text(r, g, b));
            &&& parts.len() == 3
            &&& byte_value(parts[0]) == Some(r)
            &&& byte_value(parts[1]) == Some(g)
            &&& byte_value(parts[2]) == Some(b)
        }),
{
    let (x, y, z) = (decimal(r as nat), decimal(g as nat), decimal(b as nat));
    lemma_decimal_digits(r as nat);
    lemma_decimal_digits(g as nat);
    lemma_decimal_digits(b as nat);
    lemma_three_fields(x, y, z);
    bytes_are_read_from_their_numerals(r as nat, x, 0);
    bytes_are_read_from_their_numerals(g as nat, y, 0);
    bytes_are_read_from_their_numerals(b as nat, z, 0);
}

proof fn lemma_color_end(mid: Seq<char>, after: Seq<char>)
    requires
        forall|j: int| 0 <= j < mid.len() ==> #[trigger] mid[j] != 'm',
    ensures
        find(mid + seq!['m'] + after, seq!['m']) == Some(mid.len() as int),
{
    let rest = mid + seq!['m'] + after;
    let n = mid.len() as int;
    assert(one('m')[0] == 'm');
    assert(stands_at(rest, one('m'), n));
    assert forall|j: int| 0 <= j < n implies !#[trigger] stands_at(rest, one('m'), j) by {
        if stands_at(rest, one('m'), j) {
            assert(rest[j + 0] == one('m')[0]);
            assert(rest[j] == mid[j]);
        }
    }
    lemma_found(rest, one('m'), n);
}

/// The color that a text selects is the one behind the last `ESC [ 38 ; 2 ;`: red, green and blue, in
/// decimal, with semicolons between them, up to the next `m`.
pub proof fn the_last_color_counts(
    before: Seq<char>,
    r: u8,
    g: u8,
    b: u8,
    after: Seq<char>,
)
    requires
        ({
            let s = before + color_start() + color_text(r, g, b) + seq!['m'] + after;
            forall|j: int| j > before.len() ==> !#[trigger] stands_at(s, color_start(), j)
        }),
    ensures
        sgr_rgb(before + color_start() + color_text(r, g, b) + seq!['m'] + after) == Some((r, g, b)),
{
    reveal_strlit("\x1b[38;2;");
    let pat = color_start();
    assert("\x1b[38;2;"@ =~= pat);
    let mid = color_text(r, g, b);
    let s = before + pat + mid + seq!['m'] + after;
    let (i, n) = (before.len() as int, mid.len() as int);
    assert(s.subrange(i, i + 7) =~= pat);
    assert forall|j: int| i < j implies !#[trigger] occurs_at(s, pat, j) by {
        lemma_stands(s, pat, j);
        assert(!stands_at(s, pat, j));
    }
    lemma_rfind_is(s, pat, i);
    assert(s.skip(i + 7) =~= mid + seq!['m'] + after);
    assert forall|j: int| 0 <= j < mid.len() implies #[trigger] mid[j] != 'm' by {
        lemma_color_text(r, g, b, j);
    }
    lemma_color_end(mid, after);
    assert((mid + seq!['m'] + after).take(n) =~= mid);
    lemma_color_fields(r, g, b);
}

/// A text without `ESC [ 38 ; 2 ;` selects no color.
pub proof fn no_color_is_selected_without_a_sequence(s: Seq<char>)
    requires
        forall|j: int| 0 <= j ==> !#[trigger] stands_at(s, color_start(), j),
    ensures
        sgr_rgb(s) is None,
{
    reveal_strlit("\x1b[38;2;");
    let pat = color_start();
    assert("\x1b[38;2;"@ =~= pat);
    if let Some(j) = rfind(s, pat) {
        lemma_stands(s, pat, j);
        assert(occurs_at(s, pat, j));
        assert(!stands_at(s, pat, j));
    }
}

proof fn lemma_three_fields(a: Seq<char>, b: Seq<char>, c: Seq<char>)
    requires
        forall|j: int| 0 <= j < a.len() ==> '0' <= #[trigger] a[j] <= '9',
        forall|j: int| 0 <= j < b.len() ==> '0' <= #[trigger] b[j] <= '9',
        forall|j: int| 0 <= j < c.len() ==> '0' <= #[trigger] c[j] <= '9',
    ensures
        fields(a + seq![';'] + b + seq![';'] + c) == seq![a, b, c],
{
    let s = a + seq![';'] + b + seq![';'] + c;
    let t = b + seq![';'] + c;
    lemma_field(a, t);
    assert(s =~= a + seq![';'] + t);
    lemma_field(b, c);
    assert forall|j: int| 0 <= j implies !#[trigger] stands_at(c, one(';'), j) by {
        if stands_at(c, one(';'), j) {
            assert(c[j + 0] == seq![';'][0]);
            assert('0' <= c[j]);
        }
    }
    lemma_not_found(c, one(';'));
    assert(fields(c) == seq![c]);
    assert(fields(t) =~= seq![b, c]);
    assert(fields(s) =~= seq![a, b, c]);
}

proof fn lemma_field(a: Seq<char>, t: Seq<char>)
    requires
        forall|j: int| 0 <= j < a.len() ==> '0' <= #[trigger] a[j] <= '9',
    ensures
        fields(a + seq![';'] + t) == seq![a] + fields(t),
{
    let s = a + seq![';'] + t;
    let n = a.len() as int;
    assert(seq![';'][0] == ';');
    assert(stands_at(s, one(';'), n));
    assert forall|j: int| 0 <= j < n implies !#[trigger] stands_at(s, one(';'), j) by {
        if stands_at(s, one(';'), j) {
            assert(s[j + 0] == seq![';'][0]);
            assert(s[j] == a[j]);
        }
    }
    lemma_found(s, one(';'), n);
    assert(s.take(n) =~= a);
    assert(s.skip(n + 1) =~= t);
}

/// A run of placeholders is told by its first: the character behind it names the row, the one two
/// behind that is the rest of the image's name unless it is a placeholder, and the width is the number
/// of placeholders, in sixteen bits. The image has the number whose bytes are red, green and blue of
/// the color that the text selects in front of the run, or else of the cell's color.
pub proof fn runs_are_told_by_their_first_placeholder(symbol: Seq<char>, fg: Color, first: int)
    requires
        0 <= first < symbol.len(),
        symbol[first] == '\u{10EEEE}',
        forall|j: int| 0 <= j < first ==> #[trigger] symbol[j] != '\u{10EEEE}',
    ensures
        ({
            let selected = sgr_rgb(symbol.take(first));
            let run = placeholder_run(symbol, fg);
            &&& run is Some <==> first + 1 < symbol.len() && (selected is Some || fg is Rgb)
            &&& run matches Some((image, row, width)) ==> {
                &&& row == symbol[first + 1]
                &&& image.1 == (if first + 3 < symbol.len() && symbol[first + 3] != '\u{10EEEE}' {
                    Some(symbol[first + 3])
                } else {
                    None
                })
                &&& width == places(symbol, seq!['\u{10EEEE}']).len() % 0x10000
                &&& selected matches Some((r, g, b)) ==> image.0 == 65536 * r + 256 * g + b
                &&& selected is None ==> (fg matches Color::Rgb(r, g, b) ==> image.0 == 65536 * r + 256
                    * g + b)
            }
        }),
{
    let p = '\u{10EEEE}';
    assert(seq![p][0] == p);
    assert(stands_at(symbol, one(p), first));
    assert forall|j: int| 0 <= j < first implies !#[trigger] stands_at(symbol, one(p), j) by {
        if stands_at(symbol, one(p), j) {
            assert(symbol[j + 0] == seq![p][0]);
        }
    }
    lemma_found(symbol, one(p), first);
    every_place_counts_once(symbol, seq![p]);
}

/// A text without a placeholder holds no run.
pub proof fn no_placeholder_means_no_run(symbol: Seq<char>, fg: Color)
    requires
        forall|j: int| 0 <= j < symbol.len() ==> #[trigger] symbol[j] != '\u{10EEEE}',
    ensures
        placeholder_run(symbol, fg) is None,
{
    let p = '\u{10EEEE}';
    assert forall|j: int| 0 <= j implies !#[trigger] stands_at(symbol, one(p), j) by {
        if stands_at(symbol, one(p), j) {
            assert(symbol[j + 0] == seq![p][0]);
        }
    }
    lemma_not_found(symbol, one(p));
}

} // verus!
