//! Made-up playlists with covers, for trying out the grid.

use crate::canvas::{canvas_height, canvas_width, in_canvas, pixel, Canvas, Rgba};
use crate::raster::{basic_glyph, bit_set, fill, glyph_of, in_rect, opaque};
use crate::text::{chars_of, decimal, digit, lemma_decimal_digits, lemma_decimal_injective, pad_left, push_padded};
use vstd::prelude::*;

verus! {

/// The number of playlists.
pub const N_PLAYLISTS: usize = 40;

/// The width and height of a cover in pixels.
pub const COVER_SIZE: u32 = 640;

/// The number of pixels by which a pixel of a digit is scaled.
pub const DIGIT_SCALE: u32 = 16;

/// The genre of playlist `i`.
pub open spec fn genre(i: int) -> Seq<char> {
    if i % 5 == 0 {
        "Rock"@
    } else if i % 5 == 1 {
        "Jazz"@
    } else if i % 5 == 2 {
        "Lo-Fi"@
    } else if i % 5 == 3 {
        "Techno"@
    } else {
        "Indie"@
    }
}

/// `i` in decimal, with at least two digits.
pub open spec fn two_digits(i: nat) -> Seq<char> {
    pad_left(decimal(i), '0', 2)
}

/// The name of playlist `i`. One of them does not fit under its cover.
pub open spec fn name_of(i: nat) -> Seq<char> {
    if i == 13 {
        "A Very Long Playlist Name That Overflows The Cover"@
    } else {
        genre(i as int) + " Mix "@ + two_digits(i)
    }
}

/// The URL of the cover of playlist `i`.
pub open spec fn url_of(i: nat) -> Seq<char> {
    "https://covers.test/"@ + two_digits(i) + ".jpg"@
}

/// The name of playlist `i`.
pub fn playlist_name(i: usize) -> (r: String)
    ensures
        r@ == name_of(i as nat),
{
    if i == 13 {
        return "A Very Long Playlist Name That Overflows The Cover".to_string();
    }
    let mut r = String::new();
    let genre = match i % 5 {
        0 => "Rock",
        1 => "Jazz",
        2 => "Lo-Fi",
        3 => "Techno",
        _ => "Indie",
    };
    r.append(genre);
    r.append(" Mix ");
    push_padded(&mut r, i as u64, 2);
    assert(r@ =~= name_of(i as nat));
    r
}

/// The URL of the cover of playlist `i`.
pub fn cover_url(i: usize) -> (r: String)
    ensures
        r@ == url_of(i as nat),
{
    let mut r = String::new();
    r.append("https://covers.test/");
    push_padded(&mut r, i as u64, 2);
    r.append(".jpg");
    assert(r@ =~= url_of(i as nat));
    r
}

/// Numerals that are padded alike are those of the same number.
proof fn lemma_two_digits_injective(a: nat, b: nat)
    requires
        two_digits(a) == two_digits(b),
    ensures
        a == b,
{
    let (x, y) = (decimal(a), decimal(b));
    lemma_decimal_digits(a);
    lemma_decimal_digits(b);
    if x.len() == y.len() {
        assert(x =~= two_digits(a).skip(two_digits(a).len() - x.len()));
        assert(y =~= two_digits(b).skip(two_digits(b).len() - y.len()));
        lemma_decimal_injective(a, b);
    } else {
        let (short, long, n) = if x.len() < y.len() {
            (two_digits(a), y, b)
        } else {
            (two_digits(b), x, a)
        };
        // the shorter numeral has one digit, so the longer one would start with a zero
        assert(long.len() == 2);
        assert(short[0] == '0');
        lemma_leading_digit(n);
    }
}

/// A numeral of two digits does not start with a zero.
proof fn lemma_leading_digit(n: nat)
    requires
        decimal(n).len() == 2,
    ensures
        decimal(n)[0] != '0',
{
    if n >= 10 {
        let q = n / 10;
        assert(decimal(n).len() == decimal(q).len() + 1);
        if q >= 10 {
            lemma_decimal_digits(q / 10);
            assert(decimal(q).len() == decimal(q / 10).len() + 1);
        } else {
            assert(decimal(n)[0] == decimal(q)[0]);
            assert(decimal(q)[0] == digit(q as int));
            assert(digit(q as int) as int == 48 + q);
        }
    }
}

/// Different playlists have different covers.
pub proof fn cover_urls_differ(a: nat, b: nat)
    requires
        url_of(a) == url_of(b),
    ensures
        a == b,
{
    let (head, tail) = ("https://covers.test/"@, ".jpg"@);
    let (x, y) = (two_digits(a), two_digits(b));
    let (s, t) = (url_of(a), url_of(b));
    assert(s.len() == head.len() + x.len() + tail.len());
    assert(t.len() == head.len() + y.len() + tail.len());
    assert(s.subrange(head.len() as int, (head.len() + x.len()) as int) =~= x);
    assert(t.subrange(head.len() as int, (head.len() + y.len()) as int) =~= y);
    lemma_two_digits_injective(a, b);
}

/// A playlist.
pub struct Playlist {
    pub id: String,
    pub collaborative: bool,
    pub name: String,
    /// The name of the owner, and what Spotify knows the owner by.
    pub owner: (String, String),
    pub desc: String,
    pub current_folder_id: usize,
    pub snapshot_id: String,
    pub cover_url: Option<String>,
}

/// Whether `c` is a letter or a digit of ASCII.
pub open spec fn is_alphanumeric(c: char) -> bool {
    '0' <= c <= '9' || 'A' <= c <= 'Z' || 'a' <= c <= 'z'
}

/// `PlaylistId::from_id`, and `Id::id` of its result: an ID is any text of ASCII letters and
/// digits, and keeps it.
#[verifier::external_body]
fn playlist_id(id: String) -> (r: Option<String>)
    ensures
        r is Some <==> forall|i: int| 0 <= i < id@.len() ==> is_alphanumeric(#[trigger] id@[i]),
        r matches Some(text) ==> text@ == id@,
{
    let id = rspotify::model::PlaylistId::from_id(id).ok();
    id.map(|id| rspotify::model::Id::id(&id).to_string())
}

/// `UserId::from_id`, and `Id::id` of its result: an ID is any text, and keeps it.
#[verifier::external_body]
fn user_id(id: String) -> (r: Option<String>)
    ensures
        r is Some,
        r matches Some(text) ==> text@ == id@,
{
    let id = rspotify::model::UserId::from_id(id).ok();
    id.map(|id| rspotify::model::Id::id(&id).to_string())
}

/// Whether `r` is playlist `i`.
pub open spec fn is_playlist(r: Playlist, i: nat) -> bool {
    &&& r.id@ == pad_left(decimal(i), '0', 22)
    &&& !r.collaborative
    &&& r.name@ == name_of(i)
    &&& r.owner.0@ == "tester"@ && r.owner.1@ == "tester"@
    &&& r.desc@ == Seq::<char>::empty()
    &&& r.current_folder_id == 0
    &&& r.snapshot_id@ == Seq::<char>::empty()
    &&& r.cover_url is Some && r.cover_url->0@ == url_of(i)
}

/// Playlist `i`.
pub fn playlist(i: usize) -> (r: Playlist)
    ensures
        is_playlist(r, i as nat),
        r.cover_url matches Some(url) && url@ == url_of(i as nat),
{
    let mut id = String::new();
    push_padded(&mut id, i as u64, 22);
    proof {
        let s = decimal(i as nat);
        lemma_decimal_digits(i as nat);
        assert(id@ =~= pad_left(s, '0', 22));
        assert forall|k: int| 0 <= k < id@.len() implies is_alphanumeric(#[trigger] id@[k]) by {
            let zeros = id@.len() - s.len();
            if k >= zeros {
                assert(id@[k] == s[k - zeros]);
            }
        }
    }
    Playlist {
        id: playlist_id(id).unwrap(),
        collaborative: false,
        name: playlist_name(i),
        owner: ("tester".to_string(), user_id("tester".to_string()).unwrap()),
        desc: String::new(),
        current_folder_id: 0,
        snapshot_id: String::new(),
        cover_url: Some(cover_url(i)),
    }
}

/// Whether the picture of `text` in the middle of a cover has ink at `(x, y)`. Every character is
/// a bitmap of eight by eight dots, which are sixteen pixels wide and high.
pub open spec fn text_inked(text: Seq<char>, x: int, y: int) -> bool {
    let width = text.len() as int * 128;
    let left = (640 - width) / 2;
    in_rect(x, y, left, 256, width, 128) && dot_inked(
        text[(x - left) / 128],
        (x - left) % 128 / 16,
        (y - 256) / 16,
    )
}

/// Whether the bitmap of `ch` has a dot in column `col` and row `row`.
pub open spec fn dot_inked(ch: char, col: int, row: int) -> bool {
    bit_set(basic_glyph(ch)->0[row], col)
}

/// Draws a bitmap of the basic font at `(ox, oy)`, each dot sixteen pixels wide and high.
fn draw_digit(img: &mut Canvas, ox: u32, oy: u32, glyph: [u8; 8], color: [u8; 3])
    requires
        ox + 128 <= u32::MAX,
        oy + 128 <= u32::MAX,
    ensures
        canvas_width(*final(img)) == canvas_width(*old(img)),
        canvas_height(*final(img)) == canvas_height(*old(img)),
        forall|px: int, py: int|
            in_canvas(*final(img), px, py) ==> #[trigger] pixel(*final(img), px, py) == (if in_rect(
                px,
                py,
                ox as int,
                oy as int,
                128,
                128,
            ) && bit_set(glyph@[(py - oy) / 16], (px - ox) / 16) {
                opaque(color@)
            } else {
                pixel(*old(img), px, py)
            }),
{
    let ghost start = *img;
    let mut row: u32 = 0;
    while row < 8
        invariant
            row <= 8,
            ox + 128 <= u32::MAX,
            oy + 128 <= u32::MAX,
            canvas_width(*img) == canvas_width(start),
            canvas_height(*img) == canvas_height(start),
            forall|px: int, py: int|
                in_canvas(start, px, py) ==> #[trigger] pixel(*img, px, py) == (if in_rect(
                    px,
                    py,
                    ox as int,
                    oy as int,
                    128,
                    16 * row as int,
                ) && bit_set(glyph@[(py - oy) / 16], (px - ox) / 16) {
                    opaque(color@)
                } else {
                    pixel(start, px, py)
                }),
        decreases 8 - row,
    {
        let bits: u8 = glyph[row as usize];
        let mut col: u32 = 0;
        while col < 8
            invariant
                row < 8,
                col <= 8,
                bits == glyph@[row as int],
                ox + 128 <= u32::MAX,
                oy + 128 <= u32::MAX,
                canvas_width(*img) == canvas_width(start),
                canvas_height(*img) == canvas_height(start),
                forall|px: int, py: int|
                    in_canvas(start, px, py) ==> #[trigger] pixel(*img, px, py) == (if (in_rect(
                        px,
                        py,
                        ox as int,
                        oy as int,
                        128,
                        16 * row as int,
                    ) || in_rect(px, py, ox as int, oy + 16 * row, 16 * col as int, 16)) && bit_set(
                        glyph@[(py - oy) / 16],
                        (px - ox) / 16,
                    ) {
                        opaque(color@)
                    } else {
                        pixel(start, px, py)
                    }),
            decreases 8 - col,
        {
            if bits & (1u8 << (col as u8)) != 0 {
                fill(img, ox + col * DIGIT_SCALE, oy + row * DIGIT_SCALE, DIGIT_SCALE, DIGIT_SCALE, color);
            }
            col += 1;
        }
        row += 1;
    }
}

/// Whether `c` is a cover of 640 by 640 pixels with the number `i` large and white in the middle of
/// sixteen horizontal bands.
pub open spec fn is_cover(c: Canvas, i: nat, bands: Seq<[u8; 3]>) -> bool {
    &&& canvas_width(c) == 640 && canvas_height(c) == 640
    &&& forall|x: int, y: int|
        in_canvas(c, x, y) ==> #[trigger] pixel(c, x, y) == (if text_inked(two_digits(i), x, y) {
            opaque(seq![255u8, 255, 255])
        } else {
            opaque(bands[y / 40]@)
        })
}

/// The cover of playlist `i`: sixteen horizontal bands, so that it can be seen where a cover is cut
/// off, and the number of the playlist large and white in the middle.
pub fn cover_image(i: usize, bands: &[[u8; 3]; 16]) -> (r: Canvas)
    requires
        i < 100_000,
    ensures
        is_cover(r, i as nat, bands@),
{
    let black = Rgba { r: 0, g: 0, b: 0, a: 255 };
    let mut img = Canvas::filled(COVER_SIZE, COVER_SIZE, black);
    let mut band: u32 = 0;
    while band < 16
        invariant
            band <= 16,
            canvas_width(img) == 640 && canvas_height(img) == 640,
            forall|x: int, y: int|
                in_canvas(img, x, y) && y < 40 * band ==> #[trigger] pixel(img, x, y) == opaque(
                    bands@[y / 40]@,
                ),
        decreases 16 - band,
    {
        fill(&mut img, 0, band * 40, COVER_SIZE, 40, bands[band as usize]);
        band += 1;
    }
    let mut text = String::new();
    push_padded(&mut text, i as u64, 2);
    let chars = chars_of(text.as_str());
    let ghost digits = two_digits(i as nat);
    let ghost start = img;
    proof {
        assert(chars@ =~= digits);
        lemma_decimal_digits(i as nat);
        lemma_short_numeral(i as nat);
        assert forall|k: int| 0 <= k < digits.len() implies '0' <= #[trigger] digits[k] <= '9' by {
            let s = decimal(i as nat);
            let zeros = digits.len() - s.len();
            if k >= zeros {
                assert(digits[k] == s[k - zeros]);
            }
        }
    }
    let white: [u8; 3] = [255, 255, 255];
    assert(white@ =~= seq![255u8, 255, 255]);
    let left: u32 = (COVER_SIZE - chars.len() as u32 * 128) / 2;
    let mut n: u32 = 0;
    while n < chars.len() as u32
        invariant
            n <= chars.len() <= 5,
            chars@ == digits,
            white@ == seq![255u8, 255, 255],
            left == (640 - digits.len() * 128) / 2,
            forall|k: int| 0 <= k < digits.len() ==> '0' <= #[trigger] digits[k] <= '9',
            canvas_width(img) == 640 && canvas_height(img) == 640,
            canvas_width(start) == 640 && canvas_height(start) == 640,
            forall|x: int, y: int|
                in_canvas(start, x, y) ==> #[trigger] pixel(img, x, y) == (if text_inked(digits, x, y)
                    && x < left + 128 * n {
                    opaque(white@)
                } else {
                    pixel(start, x, y)
                }),
        decreases chars.len() - n,
    {
        let ch = chars[n as usize];
        let ghost before = img;
        if let Some(glyph) = glyph_of(ch) {
            draw_digit(&mut img, left + n * 128, 256, glyph, white);
            assert forall|x: int, y: int| in_canvas(start, x, y) implies #[trigger] pixel(img, x, y)
                == (if text_inked(digits, x, y) && x < left + 128 * (n + 1) {
                opaque(white@)
            } else {
                pixel(start, x, y)
            }) by {
                let ox = left + 128 * n;
                if in_rect(x, y, ox, 256, 128, 128) {
                    assert((x - left) / 128 == n);
                    assert((x - left) % 128 == x - ox);
                }
            }
        }
        n += 1;
    }
    img
}

/// The cover of a playlist with a number of two digits has the color of its bands everywhere but in a
/// block in the middle, which holds the digits.
pub proof fn digits_stay_in_their_block(c: Canvas, i: nat, bands: Seq<[u8; 3]>, x: int, y: int)
    requires
        is_cover(c, i, bands),
        i < 100,
        0 <= x < 640 && 0 <= y < 640,
        !in_rect(x, y, 192, 256, 256, 128),
    ensures
        pixel(c, x, y) == opaque(bands[y / 40]@),
{
    reveal_with_fuel(decimal, 3);
    assert(two_digits(i).len() == 2);
    assert(in_canvas(c, x, y));
}

/// The covers of two playlists with numbers of two digits differ at the left edge exactly where their
/// bands do.
pub proof fn different_bands_make_different_covers(
    c: Canvas,
    i: nat,
    bands: Seq<[u8; 3]>,
    d: Canvas,
    j: nat,
    others: Seq<[u8; 3]>,
    y: int,
)
    requires
        is_cover(c, i, bands) && is_cover(d, j, others),
        i < 100 && j < 100,
        0 <= y < 640,
    ensures
        pixel(c, 0, y) == pixel(d, 0, y) <==> bands[y / 40]@ == others[y / 40]@,
{
    digits_stay_in_their_block(c, i, bands, 0, y);
    digits_stay_in_their_block(d, j, others, 0, y);
    let (a, b) = (bands[y / 40]@, others[y / 40]@);
    assert(a.len() == 3 && b.len() == 3);
    assert(a =~= b <==> a[0] == b[0] && a[1] == b[1] && a[2] == b[2]);
}

/// The number of a playlist is written with two digits below a hundred, the first for the tens, and
/// else as it is.
pub proof fn numbers_have_two_digits(i: nat)
    ensures
        i < 100 ==> two_digits(i).len() == 2 && two_digits(i)[0] as int == 48 + i / 10 && two_digits(
            i,
        )[1] as int == 48 + i % 10,
        i >= 100 ==> two_digits(i) == decimal(i),
{
    reveal_with_fuel(decimal, 4);
}

/// Playlists go through five genres in turn.
pub proof fn genres_take_turns(i: int)
    ensures
        i % 5 == 0 ==> genre(i) == seq!['R', 'o', 'c', 'k'],
        i % 5 == 1 ==> genre(i) == seq!['J', 'a', 'z', 'z'],
        i % 5 == 2 ==> genre(i) == seq!['L', 'o', '-', 'F', 'i'],
        i % 5 == 3 ==> genre(i) == seq!['T', 'e', 'c', 'h', 'n', 'o'],
        i % 5 == 4 ==> genre(i) == seq!['I', 'n', 'd', 'i', 'e'],
        genre(i + 5) == genre(i),
{
    reveal_strlit("Rock");
    reveal_strlit("Jazz");
    reveal_strlit("Lo-Fi");
    reveal_strlit("Techno");
    reveal_strlit("Indie");
    assert(i % 5 == 0 ==> genre(i) =~= seq!['R', 'o', 'c', 'k']);
    assert(i % 5 == 1 ==> genre(i) =~= seq!['J', 'a', 'z', 'z']);
    assert(i % 5 == 2 ==> genre(i) =~= seq!['L', 'o', '-', 'F', 'i']);
    assert(i % 5 == 3 ==> genre(i) =~= seq!['T', 'e', 'c', 'h', 'n', 'o']);
    assert(i % 5 == 4 ==> genre(i) =~= seq!['I', 'n', 'd', 'i', 'e']);
}

/// A playlist is named after its genre and number, and its cover after its number. One playlist has a
/// name that is longer than any other.
pub proof fn playlists_are_named_by_number(i: nat)
    ensures
        i != 13 ==> name_of(i) == genre(i as int) + seq![' ', 'M', 'i', 'x', ' '] + two_digits(i),
        i < 100 && i != 13 ==> name_of(i).len() < name_of(13).len(),
        url_of(i).len() == 24 + two_digits(i).len(),
        url_of(i).subrange(20, 20 + two_digits(i).len() as int) == two_digits(i),
{
    reveal_strlit(" Mix ");
    reveal_strlit("A Very Long Playlist Name That Overflows The Cover");
    reveal_strlit("https://covers.test/");
    reveal_strlit(".jpg");
    assert(" Mix "@ =~= seq![' ', 'M', 'i', 'x', ' ']);
    numbers_have_two_digits(i);
    genres_take_turns(i as int);
    assert(url_of(i).subrange(20, 20 + two_digits(i).len() as int) =~= two_digits(i));
}

/// The digits on a cover are drawn whole: every dot of the bitmap of a digit is a white square of
/// sixteen by sixteen pixels, and where there is no dot, the band shows.
pub proof fn digits_are_drawn_dot_by_dot(
    c: Canvas,
    i: nat,
    bands: Seq<[u8; 3]>,
    k: int,
    row: int,
    col: int,
    x: int,
    y: int,
)
    requires
        is_cover(c, i, bands),
        i < 100,
        0 <= k < 2 && 0 <= row < 8 && 0 <= col < 8,
        0 <= x < 16 && 0 <= y < 16,
    ensures
        ({
            let ch = (48 + (if k == 0 {
                i as int / 10
            } else {
                i as int % 10
            })) as char;
            let (px, py) = (192 + 128 * k + 16 * col + x, 256 + 16 * row + y);
            pixel(c, px, py) == (if basic_glyph(ch)->0[row] & (1u8 << (col as u8)) != 0 {
                Rgba { r: 255, g: 255, b: 255, a: 255 }
            } else {
                Rgba { r: bands[py / 40]@[0], g: bands[py / 40]@[1], b: bands[py / 40]@[2], a: 255 }
            })
        }),
{
    numbers_have_two_digits(i);
    let text = two_digits(i);
    let (px, py) = (192 + 128 * k + 16 * col + x, 256 + 16 * row + y);
    assert((640 - 2 * 128) / 2 == 192);
    assert((px - 192) / 128 == k);
    assert((px - 192) % 128 / 16 == col);
    assert((py - 256) / 16 == row);
    assert(in_canvas(c, px, py));
    let ch = (48 + (if k == 0 {
        i as int / 10
    } else {
        i as int % 10
    })) as char;
    assert(text[k] == ch);
}

/// Different playlists have different IDs and covers. An ID is as long as those of Spotify, made of
/// digits, and holds the number of the playlist at its end.
pub proof fn playlists_differ(p: Playlist, a: nat, q: Playlist, b: nat)
    requires
        is_playlist(p, a) && is_playlist(q, b),
        a < 100_000 && b < 100_000 && a != b,
    ensures
        p.id@ != q.id@,
        p.cover_url->0@ != q.cover_url->0@,
        p.id@.len() == 22,
        p.id@.skip(22 - decimal(a).len()) == decimal(a),
        forall|k: int| 0 <= k < 22 - decimal(a).len() ==> #[trigger] p.id@[k] == '0',
        p.name@ == name_of(a) && p.owner.0@ == p.owner.1@ && p.desc@.len() == 0,
{
    lemma_short_numeral(a);
    lemma_short_numeral(b);
    assert(p.id@.skip(22 - decimal(a).len()) =~= decimal(a));
    if p.id@ == q.id@ {
        lemma_padded_injective(a, b);
    }
    if p.cover_url->0@ == q.cover_url->0@ {
        cover_urls_differ(a, b);
    }
}

proof fn lemma_padded_injective(a: nat, b: nat)
    requires
        a < 100_000 && b < 100_000,
        pad_left(decimal(a), '0', 22) == pad_left(decimal(b), '0', 22),
    ensures
        a == b,
{
    lemma_short_numeral(a);
    lemma_short_numeral(b);
    let (x, y) = (pad_left(decimal(a), '0', 22), pad_left(decimal(b), '0', 22));
    lemma_padded_value(decimal(a), (22 - decimal(a).len()) as nat);
    lemma_padded_value(decimal(b), (22 - decimal(b).len()) as nat);
    assert(x =~= Seq::new((22 - decimal(a).len()) as nat, |i: int| '0') + decimal(a));
    assert(y =~= Seq::new((22 - decimal(b).len()) as nat, |i: int| '0') + decimal(b));
    crate::kitty_laws::numerals_are_read_back(a);
    crate::kitty_laws::numerals_are_read_back(b);
}

proof fn lemma_padded_value(s: Seq<char>, n: nat)
    ensures
        crate::kitty::decimal_value(Seq::new(n, |i: int| '0') + s) == crate::kitty::decimal_value(s),
    decreases n,
{
    if n == 0 {
        assert(Seq::new(n, |i: int| '0') + s =~= s);
    } else {
        let t = Seq::new((n - 1) as nat, |i: int| '0') + s;
        lemma_padded_value(s, (n - 1) as nat);
        crate::kitty_laws::leading_zeros_do_not_count(t);
        assert(Seq::new(n, |i: int| '0') + s =~= seq!['0'] + t);
    }
}

/// Small numbers have short numerals.
proof fn lemma_short_numeral(n: nat)
    requires
        n < 100_000,
    ensures
        decimal(n).len() <= 5,
{
    reveal_with_fuel(decimal, 6);
}

} // verus!
