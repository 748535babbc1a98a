//! What a store of covers holds, and how the operations on it change that.

use crate::draw::{drawable, on_screen, same_cover, SignedPosition};
use crate::encode::{
    is_kitty, picker_font, picker_protocol, shown_by, shown_size, transmission, transmitted, CellKey, EncodeError, Encoded,
    EncodedImage, FontSize,
};
use crate::kitty::delete_command;
use crate::screen::{buffer_area, buffer_content, cell_at, cell_index, has_cell, CellDiff, CellView, Position, Rect, Size};
use vstd::prelude::*;

verus! {

/// How long to wait for a requested cover image before it is asked for again, in nanoseconds.
pub const IMAGE_REQUEST_RETRY: u128 = 10_000_000_000;

/// Approximate memory kept for encoded covers.
pub const MEMORY_BUDGET: usize = 128 * 1024 * 1024;

/// The number of encoded covers that are kept.
pub const MAX_ENTRIES: usize = 512;

/// The number of bytes of new Kitty image data that are sent in a frame. One cover always goes
/// through.
pub const TRANSMIT_BUDGET: usize = 2 * 1024 * 1024;

/// An encoded cover.
pub struct CoverEntry {
    pub proto: EncodedImage,
    pub kitty_id: Option<u32>,
    pub bytes: usize,
    pub last_used: u64,
    /// Whether the image data has been sent to the terminal.
    pub sent: bool,
}

/// What a store of covers holds.
#[verifier::ext_equal]
pub struct StoreView {
    pub key: Option<CellKey>,
    pub generation: u64,
    pub frame: u64,
    pub entries: Map<Seq<char>, CoverEntry>,
    pub pending: Set<Seq<char>>,
    pub failed: Set<Seq<char>>,
    pub requested: Map<Seq<char>, u128>,
    pub frame_sent_bytes: usize,
    pub pending_deletes: Seq<u32>,
    pub next_kitty_id: u32,
    pub encoder_running: bool,
    pub encoded: usize,
}

/// What an empty store holds.
pub open spec fn empty_store() -> StoreView {
    StoreView {
        key: None,
        generation: 0,
        frame: 0,
        entries: Map::empty(),
        pending: Set::empty(),
        failed: Set::empty(),
        requested: Map::empty(),
        frame_sent_bytes: 0,
        pending_deletes: Seq::empty(),
        next_kitty_id: 0,
        encoder_running: false,
        encoded: 0,
    }
}

/// The numbers of the images of `urls`, as far as they have one, in order.
pub open spec fn released(entries: Map<Seq<char>, CoverEntry>, urls: Seq<Seq<char>>) -> Seq<u32>
    decreases urls.len(),
{
    if urls.len() == 0 {
        Seq::empty()
    } else {
        let before = released(entries, urls.drop_last());
        match entries[urls.last()].kitty_id {
            Some(id) => before.push(id),
            None => before,
        }
    }
}

/// Whether `urls` holds each element of `all` once.
pub open spec fn enumerates(urls: Seq<Seq<char>>, all: Set<Seq<char>>) -> bool {
    urls.no_duplicates() && urls.to_set() == all
}

/// `s` with every encoded cover dropped, of which the images are to be forgotten in the order of
/// `urls`.
pub open spec fn cleared_by(s: StoreView, urls: Seq<Seq<char>>) -> StoreView {
    StoreView {
        generation: (s.generation + 1) as u64,
        entries: Map::empty(),
        pending: Set::empty(),
        failed: Set::empty(),
        pending_deletes: s.pending_deletes + released(s.entries, urls),
        ..s
    }
}

/// Whether `t` is `s` with every encoded cover dropped, of which the images are to be forgotten in
/// some order.
pub open spec fn cleared(s: StoreView, t: StoreView) -> bool {
    exists|urls: Seq<Seq<char>>|
        #[trigger] enumerates(urls, s.entries.dom()) && t == cleared_by(s, urls)
}

/// The number after `id` that an image can have: zero is none.
pub open spec fn id_after(id: u32) -> u32 {
    if id == u32::MAX {
        1
    } else {
        (id + 1) as u32
    }
}

/// A number of pixels that is not zero.
pub open spec fn at_least_one(n: u16) -> u16 {
    if n == 0 {
        1
    } else {
        n
    }
}

/// What covers of size `size` depend on, with this picker.
pub open spec fn key_for(picker: ratatui_image::picker::Picker, size: Size) -> CellKey {
    CellKey {
        size,
        font_size: FontSize {
            width: at_least_one(picker_font(picker).width),
            height: at_least_one(picker_font(picker).height),
        },
        protocol: picker_protocol(picker),
    }
}

/// `s` at the start of the next frame.
pub open spec fn next_frame(s: StoreView) -> StoreView {
    StoreView { frame: (s.frame + 1) as u64, frame_sent_bytes: 0, ..s }
}

/// Whether `t` is `s`, ready for covers of `key`: what was encoded for another key is dropped.
pub open spec fn switched(s: StoreView, key: CellKey, t: StoreView) -> bool {
    if s.key == Some(key) {
        t == s
    } else {
        exists|u: StoreView| #[trigger] cleared(s, u) && t == (StoreView { key: Some(key), ..u })
    }
}

/// `s` with what became of a job taken in. What belongs to dropped covers is ignored.
pub open spec fn collected(s: StoreView, done: Encoded) -> StoreView {
    if done.generation != s.generation {
        s
    } else {
        let url = done.url@;
        let t = StoreView { pending: s.pending.remove(url), ..s };
        match done.result {
            Ok(Some((cover, bytes))) => StoreView {
                encoded: (s.encoded + 1) as usize,
                entries: s.entries.insert(
                    url,
                    CoverEntry {
                        proto: cover.image(),
                        kitty_id: if is_kitty(cover.image()) {
                            Some(done.kitty_id)
                        } else {
                            None
                        },
                        bytes,
                        last_used: s.frame,
                        sent: false,
                    },
                ),
                ..t
            },
            Ok(None) => t,
            Err(_) => StoreView { failed: s.failed.insert(url), ..t },
        }
    }
}

/// `s` with the first `n` of `results` taken in.
pub open spec fn all_collected(s: StoreView, results: Seq<Encoded>, n: int) -> StoreView
    decreases n,
{
    if n <= 0 {
        s
    } else {
        collected(all_collected(s, results, n - 1), results[n - 1])
    }
}

/// Whether a job of `generation` failed.
pub open spec fn failed_now(generation: u64, done: Encoded) -> bool {
    done.generation == generation && done.result is Err
}

/// The URLs and errors of the failed jobs among the first `n` of `results`.
pub open spec fn failures_in(generation: u64, results: Seq<Encoded>, n: int) -> Seq<
    (Seq<char>, EncodeError),
>
    decreases n,
{
    if n <= 0 {
        Seq::empty()
    } else {
        let before = failures_in(generation, results, n - 1);
        let done = results[n - 1];
        if failed_now(generation, done) {
            before.push((done.url@, done.result->Err_0))
        } else {
            before
        }
    }
}

/// Whether an image is to be asked for at `now`: it was not asked for before, or long ago.
pub open spec fn due(s: StoreView, url: Seq<char>, now: u128) -> bool {
    s.requested.contains_key(url) ==> now - s.requested[url] >= IMAGE_REQUEST_RETRY
}

/// `s` with the cover of `url` used in the current frame.
pub open spec fn touched(s: StoreView, url: Seq<char>) -> StoreView {
    StoreView {
        entries: s.entries.insert(url, CoverEntry { last_used: s.frame, ..s.entries[url] }),
        ..s
    }
}

/// Whether a cover is to be encoded when it is requested.
pub open spec fn encodes(s: StoreView, image_cached: bool, url: Seq<char>, max_pending: int) -> bool {
    &&& !s.entries.contains_key(url) && !s.pending.contains(url) && !s.failed.contains(url)
    &&& image_cached && s.pending.len() < max_pending
    &&& s.key is Some && s.encoder_running
}

/// Whether an image is to be loaded when its cover is requested.
pub open spec fn loads(s: StoreView, image_cached: bool, url: Seq<char>, now: u128) -> bool {
    &&& !s.entries.contains_key(url) && !s.pending.contains(url) && !s.failed.contains(url)
    &&& !image_cached && due(s, url, now)
}

/// The number of the image of a job that is handed out.
pub open spec fn job_number(s: StoreView) -> u32 {
    s.next_kitty_id
}

/// `s` after a request for the cover of `url`.
pub open spec fn requested(
    s: StoreView,
    image_cached: bool,
    now: u128,
    url: Seq<char>,
    max_pending: int,
) -> StoreView {
    if s.entries.contains_key(url) {
        touched(s, url)
    } else if loads(s, image_cached, url, now) {
        StoreView { requested: s.requested.insert(url, now), ..s }
    } else if encodes(s, image_cached, url, max_pending) {
        StoreView { next_kitty_id: id_after(s.next_kitty_id), ..s }
    } else {
        s
    }
}

/// `s` after the job for `url` was queued.
pub open spec fn queued(s: StoreView, url: Seq<char>) -> StoreView {
    StoreView { pending: s.pending.insert(url), ..s }
}

/// Whether rendering the cover of `url` sends its image data to the terminal, unless that has to
/// wait for a later frame.
pub open spec fn unsent(s: StoreView, url: Seq<char>, clip: Rect, pos: SignedPosition) -> bool {
    let entry = s.entries[url];
    entry.kitty_id is Some && !entry.sent && on_screen(shown_size(entry.proto).height, clip, pos)
}

/// Whether rendering the cover of `url` has to wait for a later frame.
pub open spec fn held_back(s: StoreView, url: Seq<char>, clip: Rect, pos: SignedPosition) -> bool {
    unsent(s, url, clip, pos) && s.frame_sent_bytes > 0 && s.frame_sent_bytes
        + s.entries[url].bytes > TRANSMIT_BUDGET
}

/// Whether the cover of `url` can be rendered at `pos` into `clip`: there is none, it has to wait for
/// a later frame, or it can be drawn.
pub open spec fn can_be_rendered(
    s: StoreView,
    url: Seq<char>,
    clip: Rect,
    pos: SignedPosition,
) -> bool {
    let proto = s.entries[url].proto;
    s.entries.contains_key(url) && !held_back(s, url, clip, pos) ==> drawable(
        shown_by(proto),
        shown_size(proto),
        clip,
        pos,
    )
}

/// Whether rendering the cover of `url` sends its image data to the terminal.
pub open spec fn sends(s: StoreView, url: Seq<char>, clip: Rect, pos: SignedPosition) -> bool {
    s.entries.contains_key(url) && unsent(s, url, clip, pos) && !held_back(s, url, clip, pos)
}

/// `s` after rendering the cover of `url`, where drawing makes `proto` of the encoded image.
pub open spec fn rendered(
    s: StoreView,
    url: Seq<char>,
    clip: Rect,
    pos: SignedPosition,
    proto: EncodedImage,
) -> StoreView {
    let entry = s.entries[url];
    if !s.entries.contains_key(url) {
        s
    } else if sends(s, url, clip, pos) {
        StoreView {
            entries: s.entries.insert(
                url,
                CoverEntry { proto, last_used: s.frame, sent: true, ..entry },
            ),
            frame_sent_bytes: (s.frame_sent_bytes + entry.bytes) as usize,
            ..s
        }
    } else {
        touched(s, url)
    }
}

/// Whether `t` is `s` after rendering the cover of `url`. An encoded image whose data is sent is the
/// same as before, but for having handed it out.
pub open spec fn renders(
    s: StoreView,
    url: Seq<char>,
    clip: Rect,
    pos: SignedPosition,
    t: StoreView,
) -> bool {
    let (p, q) = (s.entries[url].proto, t.entries[url].proto);
    &&& t == rendered(s, url, clip, pos, q)
    &&& sends(s, url, clip, pos) ==> same_cover(p, q) && transmission(q) == transmission(p)
        && transmitted(q)
}

/// What stands in front of the first row of a rendered cover: the commands that transmit its image
/// where it is sent, and nothing where it was sent before.
pub open spec fn rendered_prefix(
    s: StoreView,
    url: Seq<char>,
    clip: Rect,
    pos: SignedPosition,
    transmission: Seq<char>,
) -> Seq<char> {
    if sends(s, url, clip, pos) {
        transmission
    } else {
        Seq::empty()
    }
}

/// Whether an entry has a number exactly where its image is encoded for the Kitty protocol, and is
/// marked as sent exactly where the image has handed out the commands that transmit it.
pub open spec fn faithful(entry: CoverEntry) -> bool {
    &&& entry.kitty_id is Some <==> is_kitty(entry.proto)
    &&& is_kitty(entry.proto) ==> (entry.sent <==> transmitted(entry.proto))
}

/// Whether the numbers of images go on in `t` where those of `s` end, or start anew where the encoder
/// of `s` does not run yet.
pub open spec fn numbers_go_on(s: StoreView, t: StoreView) -> bool {
    if s.encoder_running {
        t.next_kitty_id == s.next_kitty_id
    } else {
        1 <= t.next_kitty_id <= 0x00f0_0000
    }
}

/// Whether `t` is `s` after a frame was started for covers of `key` and `results` were taken in.
pub open spec fn begun(s: StoreView, key: CellKey, results: Seq<Encoded>, t: StoreView) -> bool {
    &&& numbers_go_on(s, t)
    &&& exists|u: StoreView| #[trigger]
        switched(next_frame(s), key, u) && t == all_collected(
            StoreView { encoder_running: true, next_kitty_id: t.next_kitty_id, ..u },
            results,
            results.len() as int,
        )
}

/// The approximate memory that `entries` take.
pub open spec fn total_bytes(entries: Map<Seq<char>, CoverEntry>) -> int
    decreases entries.dom().len(),
{
    if entries.dom().finite() && entries.dom().len() > 0 {
        let url = entries.dom().choose();
        entries[url].bytes + total_bytes(entries.remove(url))
    } else {
        0
    }
}

/// Whether there are more than `keep` entries, and they take too much memory or are too many.
pub open spec fn over_limit(entries: Map<Seq<char>, CoverEntry>, keep: int) -> bool {
    &&& entries.len() > keep
    &&& total_bytes(entries) > MEMORY_BUDGET || (entries.len() > MAX_ENTRIES)
}

/// Whether `url` is among the least recently used entries, and not used in the current frame.
pub open spec fn oldest(entries: Map<Seq<char>, CoverEntry>, frame: u64, url: Seq<char>) -> bool {
    &&& entries.contains_key(url) && entries[url].last_used < frame
    &&& forall|other: Seq<char>|
        entries.contains_key(other) ==> entries[url].last_used <= (
        #[trigger] entries[other]).last_used
}

/// Whether every entry is used in the current frame.
pub open spec fn all_in_use(entries: Map<Seq<char>, CoverEntry>, frame: u64) -> bool {
    forall|url: Seq<char>|
        entries.contains_key(url) ==> (#[trigger] entries[url]).last_used >= frame
}

/// `entries` without `urls`.
pub open spec fn without(entries: Map<Seq<char>, CoverEntry>, urls: Seq<Seq<char>>) -> Map<
    Seq<char>,
    CoverEntry,
> {
    entries.remove_keys(urls.to_set())
}

/// Whether `url` is evicted next from `entries`.
pub open spec fn evicts(
    entries: Map<Seq<char>, CoverEntry>,
    frame: u64,
    keep: int,
    url: Seq<char>,
) -> bool {
    over_limit(entries, keep) && oldest(entries, frame, url)
}

/// Whether each of `victims` was next in its turn.
pub open spec fn evicted_in_turn(
    entries: Map<Seq<char>, CoverEntry>,
    frame: u64,
    keep: int,
    victims: Seq<Seq<char>>,
) -> bool {
    forall|i: int|
        0 <= i < victims.len() ==> evicts(
            without(entries, victims.take(i)),
            frame,
            keep,
            #[trigger] victims[i],
        )
}

/// Whether the `victims` are evicted from `entries`, in this order: the least recently used first,
/// until the limits are met or nothing is left but what is in use.
pub open spec fn eviction(
    entries: Map<Seq<char>, CoverEntry>,
    frame: u64,
    keep: int,
    victims: Seq<Seq<char>>,
) -> bool {
    &&& evicted_in_turn(entries, frame, keep, victims)
    &&& !over_limit(without(entries, victims), keep) || all_in_use(without(entries, victims), frame)
}

/// `s` without the covers of `victims`, the images of which are to be forgotten.
pub open spec fn evicted(s: StoreView, victims: Seq<Seq<char>>) -> StoreView {
    StoreView {
        entries: without(s.entries, victims),
        pending_deletes: s.pending_deletes + released(s.entries, victims),
        ..s
    }
}

/// The commands that make the terminal forget the images `ids`.
pub open spec fn delete_commands(ids: Seq<u32>, tmux: bool) -> Seq<char>
    decreases ids.len(),
{
    if ids.len() == 0 {
        Seq::empty()
    } else {
        delete_commands(ids.drop_last(), tmux) + delete_command(ids.last(), tmux)
    }
}

/// Whether there is something for the terminal to forget and a cell that can tell it.
pub open spec fn flushes(s: StoreView, b: ratatui::buffer::Buffer, anchor: Position) -> bool {
    s.pending_deletes.len() > 0 && has_cell(b, anchor.x as int, anchor.y as int)
}

/// `s` after its images to be forgotten were told to the terminal, where that is possible.
pub open spec fn flushed(s: StoreView, b: ratatui::buffer::Buffer, anchor: Position) -> StoreView {
    if flushes(s, b, anchor) {
        StoreView { pending_deletes: Seq::empty(), ..s }
    } else {
        s
    }
}

/// The cell at `anchor`, with the images that the terminal is to forget in front of its symbol.
pub open spec fn told(cell: CellView, ids: Seq<u32>, tmux: bool) -> CellView {
    CellView {
        symbol: delete_commands(ids, tmux) + cell.symbol,
        diff: CellDiff::ForcedWidth(1),
        ..cell
    }
}

/// Whether `after` is `before`, with the images that `s` has to be forgotten told to the terminal
/// by the cell at `anchor`, where that is possible.
pub open spec fn screen_flushed(
    s: StoreView,
    before: ratatui::buffer::Buffer,
    anchor: Position,
    tmux: bool,
    after: ratatui::buffer::Buffer,
) -> bool {
    if flushes(s, before, anchor) {
        let (x, y) = (anchor.x as int, anchor.y as int);
        &&& buffer_area(after) == buffer_area(before)
        &&& buffer_content(after) == buffer_content(before).update(
            cell_index(buffer_area(before), x, y),
            told(cell_at(before, x, y), s.pending_deletes, tmux),
        )
    } else {
        after == before
    }
}

proof fn lemma_total_bytes_nonnegative(entries: Map<Seq<char>, CoverEntry>)
    ensures
        total_bytes(entries) >= 0,
    decreases entries.dom().len(),
{
    if entries.dom().finite() && entries.dom().len() > 0 {
        let url = entries.dom().choose();
        assert(entries.remove(url).dom() =~= entries.dom().remove(url));
        lemma_total_bytes_nonnegative(entries.remove(url));
    }
}

/// An entry more adds its memory to the total.
pub proof fn lemma_total_bytes(entries: Map<Seq<char>, CoverEntry>, url: Seq<char>)
    requires
        entries.dom().finite(),
        entries.contains_key(url),
    ensures
        total_bytes(entries) == entries[url].bytes + total_bytes(entries.remove(url)),
        total_bytes(entries.remove(url)) >= 0,
    decreases entries.dom().len(),
{
    lemma_total_bytes_nonnegative(entries.remove(url));
    let first = entries.dom().choose();
    assert(entries.dom().contains(url));
    assert(entries.dom().len() > 0) by {
        if entries.dom().len() == 0 {
            assert(entries.dom() =~= Set::empty());
        }
    }
    assert(entries.dom().contains(first));
    if first != url {
        assert(entries.remove(first).dom() =~= entries.dom().remove(first));
        assert(entries.remove(url).dom() =~= entries.dom().remove(url));
        lemma_total_bytes(entries.remove(first), url);
        lemma_total_bytes(entries.remove(url), first);
        assert(entries.remove(first).remove(url) =~= entries.remove(url).remove(first));
    }
}

/// One URL more is left out.
pub proof fn lemma_without_push(
    entries: Map<Seq<char>, CoverEntry>,
    urls: Seq<Seq<char>>,
    url: Seq<char>,
)
    ensures
        without(entries, urls.push(url)) == without(entries, urls).remove(url),
{
    let more = urls.push(url);
    assert forall|u: Seq<char>| more.to_set().contains(u) == (urls.to_set().contains(u) || u == url) by {
        if urls.contains(u) {
            let j = urls.index_of(u);
            assert(more[j] == u);
        }
        assert(more[urls.len() as int] == url);
    }
    assert(without(entries, more) =~= without(entries, urls).remove(url));
}

/// Taking in what became of jobs changes the covers, but not what they are encoded for, nor what
/// belongs to the frame or the terminal.
pub proof fn lemma_all_collected(s: StoreView, results: Seq<Encoded>, n: int)
    ensures
        all_collected(s, results, n) == (StoreView {
            entries: all_collected(s, results, n).entries,
            pending: all_collected(s, results, n).pending,
            failed: all_collected(s, results, n).failed,
            encoded: all_collected(s, results, n).encoded,
            ..s
        }),
    decreases n,
{
    if n > 0 {
        lemma_all_collected(s, results, n - 1);
    }
}

} // verus!
