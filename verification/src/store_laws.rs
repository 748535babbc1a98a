//! What each operation does to a store of covers.

use crate::cover_laws::lemma_released_push;
use crate::cover_model::{
    all_collected, begun, can_be_rendered, cleared, cleared_by, collected, delete_commands, encodes, enumerates,
    evicted, evicts, failed_now, failures_in, faithful, flushed, flushes, held_back, key_for,     lemma_total_bytes, loads, next_frame, queued, released, rendered_prefix, renders,
    requested, screen_flushed, sends, switched, total_bytes, unsent, without, CoverEntry, StoreView,
};
use crate::covers::{answers, first_number, reports, screen_rendered, CoverRequest, Failure};
use crate::draw::{
    drawable, drawn_rows, drawn_width, is_diacritic, kitty_row_shown, SignedPosition,
};
use crate::encode::{
    kitty_name, picker_font, picker_protocol, shown_by, shown_size, transmission, transmitted, CellKey,
    EncodeError, Encoded, Job,
    ProtocolType,
};
use crate::kitty::delete_command;
use crate::screen::{buffer_area, cell_at, has_cell, CellDiff, Position, Rect, Size};
use crate::screen_laws::a_drawn_row_is_read_back;
use crate::snapshot::{token_of, Token};
use vstd::prelude::*;

verus! {

/// Whether the store has nothing to do with the cover of `url`: it is not there, not being encoded,
/// and not known to be impossible to encode.
pub open spec fn knows_nothing_of(s: StoreView, url: Seq<char>) -> bool {
    !s.entries.contains_key(url) && !s.pending.contains(url) && !s.failed.contains(url)
}

/// A request hands out a job exactly where the image is loaded, nothing is known of the cover, fewer
/// than `max_pending` jobs are waiting, and the store was started.
pub proof fn jobs_are_handed_out_when_they_can_be(
    s: StoreView,
    image_cached: bool,
    url: Seq<char>,
    max_pending: int,
)
    ensures
        encodes(s, image_cached, url, max_pending) <==> image_cached && knows_nothing_of(s, url)
            && s.pending.len() + 1 <= max_pending && s.encoder_running && s.key is Some,
{
}

/// A request has an image loaded exactly where it is missing, nothing is known of the cover, and ten
/// seconds have passed since it was last asked for, if it ever was.
pub proof fn images_are_asked_for_when_they_are_due(
    s: StoreView,
    image_cached: bool,
    url: Seq<char>,
    now: u128,
)
    ensures
        loads(s, image_cached, url, now) <==> !image_cached && knows_nothing_of(s, url) && (
        s.requested.contains_key(url) ==> now >= s.requested[url] + 10_000_000_000),
{
}

/// What a request changes: a cover that is there counts as used in this frame; an image that is asked
/// for is noted with the time; a job that is handed out takes a number; and nothing else changes.
pub proof fn a_request_changes_no_more_than_it_says(
    s: StoreView,
    image_cached: bool,
    now: u128,
    url: Seq<char>,
    max_pending: int,
    other: Seq<char>,
)
    ensures
        ({
            let t = requested(s, image_cached, now, url, max_pending);
            let job = encodes(s, image_cached, url, max_pending);
            let load = loads(s, image_cached, url, now);
            &&& t.key == s.key && t.generation == s.generation && t.frame == s.frame
            &&& t.pending == s.pending && t.failed == s.failed && t.encoded == s.encoded
            &&& t.frame_sent_bytes == s.frame_sent_bytes && t.pending_deletes == s.pending_deletes
            &&& t.encoder_running == s.encoder_running
            &&& !(job && load)
            &&& t.entries.contains_key(other) == s.entries.contains_key(other)
            &&& s.entries.contains_key(other) ==> {
                let (a, b) = (s.entries[other], t.entries[other]);
                &&& b.proto == a.proto && b.kitty_id == a.kitty_id && b.bytes == a.bytes && b.sent
                    == a.sent
                &&& b.last_used == (if other == url {
                    s.frame
                } else {
                    a.last_used
                })
            }
            &&& load ==> t.requested.contains_key(url) && t.requested[url] == now
            &&& t.requested.contains_key(other) == (s.requested.contains_key(other) || load && other
                == url)
            &&& !(load && other == url) && s.requested.contains_key(other) ==> t.requested[other]
                == s.requested[other]
            &&& !job ==> t.next_kitty_id == s.next_kitty_id
            &&& job && s.next_kitty_id < u32::MAX ==> t.next_kitty_id == s.next_kitty_id + 1
            &&& job && s.next_kitty_id == u32::MAX ==> t.next_kitty_id == 1
        }),
{
}

/// Queuing a job notes its URL as waiting, and changes nothing else.
pub proof fn a_queued_job_waits(s: StoreView, url: Seq<char>, other: Seq<char>)
    ensures
        queued(s, url).pending.contains(other) == (s.pending.contains(other) || other == url),
        queued(s, url) == (StoreView { pending: queued(s, url).pending, ..s }),
{
}

/// What is taken in of a job of the current covers: an encoded cover is there from now on, used in this
/// frame, not sent, with the job's number where it is encoded for the Kitty protocol; one without an
/// image is forgotten, so that it can be requested again; one that failed is known to have failed. It
/// no longer waits, and nothing else changes. What is of older covers changes nothing.
pub proof fn results_are_taken_in(s: StoreView, done: Encoded, other: Seq<char>)
    requires
        s.encoded < usize::MAX,
    ensures
        ({
            let t = collected(s, done);
            let (url, current) = (done.url@, done.generation == s.generation);
            let there = current && (done.result matches Ok(Some(_)));
            &&& !current ==> t == s
            &&& t == (StoreView {
                entries: t.entries,
                pending: t.pending,
                failed: t.failed,
                encoded: t.encoded,
                ..s
            })
            &&& t.pending.contains(other) == (s.pending.contains(other) && !(current && other == url))
            &&& t.failed.contains(other) == (s.failed.contains(other) || current && done.result is Err
                && other == url)
            &&& t.encoded == s.encoded + (if there {
                1int
            } else {
                0int
            })
            &&& t.entries.contains_key(other) == (s.entries.contains_key(other) || there && other == url)
            &&& !(there && other == url) && s.entries.contains_key(other) ==> t.entries[other]
                == s.entries[other]
            &&& there ==> {
                let e = t.entries[url];
                let done = done.result->Ok_0->0;
                &&& e.proto == done.0.image() && e.bytes == done.1
                &&& e.last_used == s.frame && !e.sent
            }
            &&& there ==> t.entries[url].kitty_id == (if shown_by(t.entries[url].proto)
                == ProtocolType::Kitty {
                Some(done.kitty_id)
            } else {
                None
            })
        }),
{
}

/// A cover whose image was gone when its job ran is asked for again by the next request, or encoded
/// where the image is there again.
pub proof fn a_lost_image_is_loaded_again(
    s: StoreView,
    done: Encoded,
    now: u128,
    max_pending: int,
)
    requires
        done.generation == s.generation,
        done.result == Ok::<Option<(crate::encode::Cover, usize)>, EncodeError>(None),
        !s.entries.contains_key(done.url@) && !s.failed.contains(done.url@),
        s.pending.finite() && s.pending.contains(done.url@),
        s.pending.len() <= max_pending,
        s.key is Some && s.encoder_running,
    ensures
        encodes(collected(s, done), true, done.url@, max_pending),
        !s.requested.contains_key(done.url@) ==> loads(collected(s, done), false, done.url@, now),
{
}

/// The failures that a frame reports are those of the current covers, in order, each with its URL and
/// error, and a failure is reported exactly where a job of the current covers failed.
pub proof fn failures_are_reported_in_order(generation: u64, results: Seq<Encoded>, done: Encoded)
    ensures
        failures_in(generation, results, 0).len() == 0,
        failed_now(generation, done) <==> done.generation == generation && done.result is Err,
        ({
            let (n, all) = (results.len() as int, results.push(done));
            let (before, after) = (failures_in(generation, results, n), failures_in(generation, all, n + 1));
            if done.generation == generation && done.result is Err {
                after == before.push((done.url@, done.result->Err_0))
            } else {
                after == before
            }
        }),
{
    lemma_same_failures(generation, results, results.push(done), results.len() as int);
}

proof fn lemma_same_failures(generation: u64, a: Seq<Encoded>, b: Seq<Encoded>, n: int)
    requires
        forall|i: int| 0 <= i < n ==> #[trigger] a[i] == b[i],
    ensures
        failures_in(generation, a, n) == failures_in(generation, b, n),
    decreases n,
{
    if n > 0 {
        lemma_same_failures(generation, a, b, n - 1);
        assert(a[n - 1] == b[n - 1]);
    }
}

/// Covers depend on their size in cells, on the protocol, and on the size of a cell, which counts as
/// one pixel where it is not known: covers are encoded anew when one of these changes, and only then.
pub proof fn covers_depend_on_size_font_and_protocol(
    picker: ratatui_image::picker::Picker,
    size: Size,
    other: ratatui_image::picker::Picker,
    other_size: Size,
)
    ensures
        key_for(picker, size).size == size,
        key_for(picker, size).protocol == picker_protocol(picker),
        picker_font(picker).width >= 1 ==> key_for(picker, size).font_size.width == picker_font(
            picker,
        ).width,
        picker_font(picker).height >= 1 ==> key_for(picker, size).font_size.height == picker_font(
            picker,
        ).height,
        picker_font(picker).width == 0 ==> key_for(picker, size).font_size.width == 1,
        picker_font(picker).height == 0 ==> key_for(picker, size).font_size.height == 1,
        size != other_size || picker_protocol(picker) != picker_protocol(other) ==> key_for(picker, size)
            != key_for(other, other_size),
{
}

/// What the start of a frame without results changes: the frame is counted, nothing of it was sent
/// yet, and the encoder runs. Where the covers stay of the same kind, nothing else changes; where they
/// change, all are dropped, and jobs of the old kind no longer count.
pub proof fn a_frame_starts_afresh(s: StoreView, key: CellKey, t: StoreView, url: Seq<char>, id: u32)
    requires
        s.frame < u64::MAX && s.generation < u64::MAX,
        begun(s, key, Seq::empty(), t),
    ensures
        t.frame == s.frame + 1 && t.frame_sent_bytes == 0 && t.encoder_running && t.key == Some(key),
        t.requested == s.requested && t.encoded == s.encoded,
        s.key == Some(key) ==> {
            &&& t.generation == s.generation && t.entries == s.entries && t.pending == s.pending
            &&& t.failed == s.failed && t.pending_deletes == s.pending_deletes
        },
        s.key != Some(key) ==> {
            &&& t.generation == s.generation + 1
            &&& !t.entries.contains_key(url) && !t.pending.contains(url) && !t.failed.contains(url)
            &&& t.pending_deletes.len() >= s.pending_deletes.len()
            &&& t.pending_deletes.take(s.pending_deletes.len() as int) == s.pending_deletes
        },
        s.encoder_running ==> t.next_kitty_id == s.next_kitty_id,
        !s.encoder_running ==> 1 <= t.next_kitty_id <= 15_728_640,
{
    let u = choose|u: StoreView| #[trigger]
        switched(next_frame(s), key, u) && t == all_collected(
            StoreView { encoder_running: true, next_kitty_id: t.next_kitty_id, ..u },
            Seq::<Encoded>::empty(),
            0,
        );
    if s.key != Some(key) {
        let v = choose|v: StoreView| #[trigger]
            cleared(next_frame(s), v) && u == (StoreView { key: Some(key), ..v });
        let urls = choose|urls: Seq<Seq<char>>| #[trigger]
            enumerates(urls, s.entries.dom()) && v == cleared_by(next_frame(s), urls);
        assert(t.pending_deletes =~= s.pending_deletes + released(s.entries, urls));
        assert(t.pending_deletes.take(s.pending_deletes.len() as int) =~= s.pending_deletes);
    }
}

/// A frame that takes in one result more is the frame without it, and then that result.
pub proof fn a_frame_takes_in_its_results_in_order(
    s: StoreView,
    key: CellKey,
    results: Seq<Encoded>,
    done: Encoded,
    t: StoreView,
)
    requires
        begun(s, key, results, t),
    ensures
        begun(s, key, results.push(done), collected(t, done)),
{
    let all = results.push(done);
    let n = results.len() as int;
    let u = choose|u: StoreView| #[trigger]
        switched(next_frame(s), key, u) && t == all_collected(
            StoreView { encoder_running: true, next_kitty_id: t.next_kitty_id, ..u },
            results,
            n,
        );
    let base = StoreView { encoder_running: true, next_kitty_id: t.next_kitty_id, ..u };
    lemma_same_collected(base, results, all, n);
    let after = collected(t, done);
    assert(after.next_kitty_id == t.next_kitty_id);
    assert(all_collected(base, all, n + 1) == after);
    assert(switched(next_frame(s), key, u));
}

proof fn lemma_same_collected(base: StoreView, a: Seq<Encoded>, b: Seq<Encoded>, n: int)
    requires
        forall|i: int| 0 <= i < n ==> #[trigger] a[i] == b[i],
    ensures
        all_collected(base, a, n) == all_collected(base, b, n),
    decreases n,
{
    if n > 0 {
        lemma_same_collected(base, a, b, n - 1);
        assert(a[n - 1] == b[n - 1]);
    }
}

/// Dropping the covers makes results of older jobs count no more, forgets which jobs wait and which
/// failed, and keeps everything else but the covers.
pub proof fn dropping_keeps_the_rest(s: StoreView, t: StoreView, url: Seq<char>)
    requires
        s.generation < u64::MAX,
        cleared(s, t),
    ensures
        t.generation == s.generation + 1,
        !t.entries.contains_key(url) && !t.pending.contains(url) && !t.failed.contains(url),
        t.key == s.key && t.frame == s.frame && t.requested == s.requested && t.encoded == s.encoded,
        t.frame_sent_bytes == s.frame_sent_bytes && t.next_kitty_id == s.next_kitty_id,
        t.encoder_running == s.encoder_running,
        t.pending_deletes.len() <= s.pending_deletes.len() + s.entries.dom().len(),
        t.pending_deletes.take(s.pending_deletes.len() as int) == s.pending_deletes,
{
    let urls = choose|urls: Seq<Seq<char>>| #[trigger]
        enumerates(urls, s.entries.dom()) && t == cleared_by(s, urls);
    urls.unique_seq_to_set();
    lemma_released_len(s.entries, urls);
    assert(t.pending_deletes.take(s.pending_deletes.len() as int) =~= s.pending_deletes);
}

proof fn lemma_released_len(entries: Map<Seq<char>, CoverEntry>, urls: Seq<Seq<char>>)
    ensures
        released(entries, urls).len() <= urls.len(),
    decreases urls.len(),
{
    if urls.len() > 0 {
        lemma_released_len(entries, urls.drop_last());
    }
}

/// The images of dropped covers are noted in the order of the covers, each once, and covers without a
/// number are left out.
pub proof fn each_image_is_noted_once(
    entries: Map<Seq<char>, CoverEntry>,
    urls: Seq<Seq<char>>,
    url: Seq<char>,
)
    ensures
        released(entries, Seq::empty()).len() == 0,
        entries[url].kitty_id is None ==> released(entries, urls.push(url)) == released(entries, urls),
        entries[url].kitty_id matches Some(id) ==> released(entries, urls.push(url)) == released(
            entries,
            urls,
        ).push(id),
{
    lemma_released_push(entries, urls, url);
}

/// Whether a row of an image of height `height`, drawn at row `y` of `clip`, lies in `clip`.
pub open spec fn a_row_shows(height: u16, clip: Rect, y: i16) -> bool {
    exists|row: int| 0 <= row < height && 0 <= #[trigger] (y + row) < clip.height && clip.width > 0
}

proof fn lemma_a_row_shows(height: u16, clip: Rect, y: i16)
    requires
        height >= 1,
    ensures
        a_row_shows(height, clip, y) <==> crate::draw::on_screen(
            height,
            clip,
            SignedPosition { x: 0, y },
        ),
{
    let row: int = if y < 0 {
        -y
    } else {
        0
    };
    if crate::draw::on_screen(height, clip, SignedPosition { x: 0, y }) {
        assert(0 <= y + row < clip.height);
    }
}

/// Image data is sent exactly where the cover is there, is encoded for the Kitty protocol, was not sent
/// before and has a row that shows, and where it stays within two mebibytes for the frame or is the
/// first that is sent in it. Where it would go beyond that, the cover is held back.
pub proof fn image_data_is_sent_when_it_fits(
    s: StoreView,
    url: Seq<char>,
    clip: Rect,
    pos: SignedPosition,
)
    requires
        s.entries.contains_key(url),
        shown_size(s.entries[url].proto).height >= 1,
    ensures
        ({
            let e = s.entries[url];
            let new = e.kitty_id is Some && !e.sent && a_row_shows(
                shown_size(e.proto).height,
                clip,
                pos.y,
            );
            let fits = s.frame_sent_bytes == 0 || s.frame_sent_bytes + e.bytes <= 2_097_152;
            &&& unsent(s, url, clip, pos) <==> new
            &&& sends(s, url, clip, pos) <==> new && fits
            &&& held_back(s, url, clip, pos) <==> new && !fits
        }),
{
    lemma_a_row_shows(shown_size(s.entries[url].proto).height, clip, pos.y);
    let height = shown_size(s.entries[url].proto).height;
    assert(crate::draw::on_screen(height, clip, pos) == crate::draw::on_screen(
        height,
        clip,
        SignedPosition { x: 0, y: pos.y },
    ));
}

/// What rendering changes: the cover counts as used in this frame, and where its image data is sent it
/// is marked as sent, and its bytes are added to those of the frame. Nothing else changes.
pub proof fn rendering_changes_no_more_than_it_says(
    s: StoreView,
    url: Seq<char>,
    clip: Rect,
    pos: SignedPosition,
    t: StoreView,
    other: Seq<char>,
)
    requires
        renders(s, url, clip, pos, t),
        s.frame_sent_bytes + s.entries[url].bytes <= usize::MAX,
    ensures
        t == (StoreView { entries: t.entries, frame_sent_bytes: t.frame_sent_bytes, ..s }),
        t.entries.contains_key(other) == s.entries.contains_key(other),
        other != url && s.entries.contains_key(other) ==> t.entries[other] == s.entries[other],
        t.frame_sent_bytes == s.frame_sent_bytes + (if sends(s, url, clip, pos) {
            s.entries[url].bytes as int
        } else {
            0int
        }),
        s.entries.contains_key(url) ==> {
            let (a, b) = (s.entries[url], t.entries[url]);
            &&& b.last_used == s.frame && b.kitty_id == a.kitty_id && b.bytes == a.bytes
            &&& b.sent == (a.sent || sends(s, url, clip, pos))
            &&& shown_by(b.proto) == shown_by(a.proto) && shown_size(b.proto) == shown_size(a.proto)
            &&& !sends(s, url, clip, pos) ==> b.proto == a.proto
            &&& sends(s, url, clip, pos) ==> transmitted(b.proto)
        },
{
}

/// In front of a rendered cover stand the commands that transmit its image where it is sent, and
/// nothing where it is not.
pub proof fn a_cover_is_transmitted_when_it_is_sent(
    s: StoreView,
    url: Seq<char>,
    clip: Rect,
    pos: SignedPosition,
    text: Seq<char>,
)
    ensures
        rendered_prefix(s, url, clip, pos, text) == (if sends(s, url, clip, pos) {
            text
        } else {
            Seq::empty()
        }),
{
}

/// A cover that is not there, or is held back, can always be rendered, for nothing is drawn. One that
/// is drawn has to be where its rows and columns can be counted.
pub proof fn covers_can_be_rendered_where_they_can_be_drawn(
    s: StoreView,
    url: Seq<char>,
    clip: Rect,
    pos: SignedPosition,
)
    ensures
        !s.entries.contains_key(url) ==> can_be_rendered(s, url, clip, pos),
        held_back(s, url, clip, pos) ==> can_be_rendered(s, url, clip, pos),
        s.entries.contains_key(url) && !held_back(s, url, clip, pos) ==> (can_be_rendered(
            s,
            url,
            clip,
            pos,
        ) <==> drawable(
            shown_by(s.entries[url].proto),
            shown_size(s.entries[url].proto),
            clip,
            pos,
        )),
{
}

/// On a screen of ordinary size, a cover with rows and columns can be drawn anywhere: above, below and
/// beside the area, and at the edge of it, as long as it does not start behind its last column.
pub proof fn covers_can_be_drawn_on_ordinary_screens(
    protocol: ProtocolType,
    size: Size,
    clip: Rect,
    pos: SignedPosition,
)
    requires
        1 <= size.width <= 1000 && 1 <= size.height <= 1000,
        clip.width <= 10_000 && clip.height <= 10_000 && clip.x <= 10_000 && clip.y <= 10_000,
        -10_000 <= pos.y <= 10_000,
        pos.x < clip.width,
    ensures
        drawable(protocol, size, clip, pos),
{
}

/// Nothing that cannot be counted is drawn: the rows of the image and of the area are counted in
/// sixteen bits with a sign, the columns and the place on the screen without.
pub proof fn what_is_drawn_can_be_counted(
    protocol: ProtocolType,
    size: Size,
    clip: Rect,
    pos: SignedPosition,
)
    requires
        drawable(protocol, size, clip, pos),
        clip.width > 0 && clip.height > 0,
    ensures
        size.height <= 32_767 && clip.height <= 32_767 && -32_768 < pos.y,
        pos.y + size.height <= 32_767,
        pos.y < clip.height && pos.y + size.height > 0 ==> {
            &&& pos.x <= clip.width && pos.x + size.width <= 65_535
            &&& clip.x + clip.width <= 65_535 && clip.y + clip.height <= 65_535
            &&& protocol != ProtocolType::Halfblocks ==> size.width >= 1
            &&& protocol == ProtocolType::Kitty ==> pos.x < clip.width
            &&& protocol == ProtocolType::Iterm2 ==> clip.y + pos.y + size.height <= 65_535
        },
{
}

/// The memory of the covers is the sum of what each takes.
pub proof fn memory_adds_up(entries: Map<Seq<char>, CoverEntry>, url: Seq<char>, entry: CoverEntry)
    requires
        entries.dom().finite(),
        !entries.contains_key(url),
    ensures
        total_bytes(Map::<Seq<char>, CoverEntry>::empty()) == 0,
        total_bytes(entries.insert(url, entry)) == total_bytes(entries) + entry.bytes,
{
    let more = entries.insert(url, entry);
    assert(more.dom() =~= entries.dom().insert(url));
    lemma_total_bytes(more, url);
    assert(more.remove(url) =~= entries);
}

/// A cover is evicted only while more than `keep` are there and they are more than 512 or take more
/// than 128 mebibytes, only where it was not used in this frame, and none goes before it that was used
/// later.
pub proof fn covers_are_evicted_beyond_the_limits(
    entries: Map<Seq<char>, CoverEntry>,
    frame: u64,
    keep: int,
    url: Seq<char>,
    other: Seq<char>,
)
    ensures
        evicts(entries, frame, keep, url) ==> {
            &&& entries.dom().len() > keep
            &&& entries.dom().len() > 512 || total_bytes(entries) > 134_217_728
            &&& entries.contains_key(url) && entries[url].last_used < frame
            &&& entries.contains_key(other) ==> entries[other].last_used >= entries[url].last_used
        },
        entries.dom().len() > keep && (entries.dom().len() > 512 || total_bytes(entries) > 134_217_728)
            && entries.contains_key(url) && entries[url].last_used < frame && (forall|v: Seq<char>|
            entries.contains_key(v) ==> entries[url].last_used <= (#[trigger] entries[v]).last_used)
            ==> evicts(entries, frame, keep, url),
{
}

/// An eviction takes out the evicted covers and notes their images, and changes nothing else.
pub proof fn evicting_changes_no_more_than_it_says(
    s: StoreView,
    victims: Seq<Seq<char>>,
    url: Seq<char>,
)
    ensures
        ({
            let t = evicted(s, victims);
            &&& t == (StoreView { entries: t.entries, pending_deletes: t.pending_deletes, ..s })
            &&& t.entries.contains_key(url) == (s.entries.contains_key(url) && !victims.contains(url))
            &&& t.entries.contains_key(url) ==> t.entries[url] == s.entries[url]
            &&& t.pending_deletes == s.pending_deletes + released(s.entries, victims)
        }),
{
}

/// The commands for several images stand one behind the other, in the order of the images.
pub proof fn commands_stand_in_order(ids: Seq<u32>, id: u32, tmux: bool)
    ensures
        delete_commands(Seq::empty(), tmux).len() == 0,
        delete_commands(ids.push(id), tmux) == delete_commands(ids, tmux) + delete_command(id, tmux),
{
    assert(ids.push(id).drop_last() =~= ids);
}

/// Where images are to be forgotten and the screen has the cell, the cell gets the commands in front of
/// its symbol and is as wide as one column, with its style as before, no other cell changes, and
/// nothing is left to be told. Else neither the screen nor the store changes.
pub proof fn the_terminal_is_told_by_one_cell(
    s: StoreView,
    before: ratatui::buffer::Buffer,
    anchor: Position,
    tmux: bool,
    after: ratatui::buffer::Buffer,
    x: int,
    y: int,
)
    requires
        screen_flushed(s, before, anchor, tmux, after),
        has_cell(before, x, y),
    ensures
        ({
            let (ax, ay) = (anchor.x as int, anchor.y as int);
            let tells = s.pending_deletes.len() > 0 && has_cell(before, ax, ay);
            let t = flushed(s, before, anchor);
            &&& flushes(s, before, anchor) <==> tells
            &&& t == (StoreView { pending_deletes: t.pending_deletes, ..s })
            &&& tells ==> {
                let (a, b) = (cell_at(before, ax, ay), cell_at(after, ax, ay));
                &&& t.pending_deletes.len() == 0
                &&& b.symbol == delete_commands(s.pending_deletes, tmux) + a.symbol
                &&& b.diff == CellDiff::ForcedWidth(1)
                &&& b.fg == a.fg && b.bg == a.bg && b.underline == a.underline && b.reversed == a.reversed
                &&& b.modifiers == a.modifiers && b.skip == a.skip
                &&& x != ax || y != ay ==> cell_at(after, x, y) == cell_at(before, x, y)
                &&& buffer_area(after) == buffer_area(before)
            }
            &&& !tells ==> after == before && t == s
        }),
{
    let a = buffer_area(before);
    let (ax, ay) = (anchor.x as int, anchor.y as int);
    if s.pending_deletes.len() > 0 && has_cell(before, ax, ay) {
        let (w, dx, dy) = (a.width as int, x - a.x, y - a.y);
        let (ex, ey) = (ax - a.x, ay - a.y);
        assert(0 <= dy * w && 0 <= ey * w) by (nonlinear_arith)
            requires
                0 <= w,
                0 <= dy,
                0 <= ey,
        ;
        if dy * w + dx == ey * w + ex {
            assert(dx == ex && dy == ey) by (nonlinear_arith)
                requires
                    dy * w + dx == ey * w + ex,
                    0 <= dx < w,
                    0 <= ex < w,
                    0 <= dy,
                    0 <= ey,
            ;
        }
    }
}

/// The mark of a cover tells whether its image was handed out, and its number whether it is encoded for
/// the Kitty protocol.
pub proof fn marks_are_true(entry: CoverEntry)
    requires
        faithful(entry),
    ensures
        entry.kitty_id is Some <==> shown_by(entry.proto) == ProtocolType::Kitty,
        entry.kitty_id is Some ==> entry.sent == transmitted(entry.proto),
{
}

/// A job that is handed out says what to encode: the cover that was requested, for what the covers are
/// encoded for now, with the picker of the page, under the number of the next image. The next job has
/// another number.
pub proof fn a_job_says_what_to_encode(
    s: StoreView,
    image_cached: bool,
    now: u128,
    picker: ratatui_image::picker::Picker,
    url: Seq<char>,
    max_pending: int,
    job: Job,
    next_cached: bool,
    next_now: u128,
    next_url: Seq<char>,
    next_pending: int,
    accepted: bool,
    next: Job,
)
    requires
        answers(s, image_cached, now, picker, url, max_pending, CoverRequest::Encode(job)),
        ({
            let t = requested(s, image_cached, now, url, max_pending);
            answers(
                if accepted {
                    queued(t, url)
                } else {
                    t
                },
                next_cached,
                next_now,
                picker,
                next_url,
                next_pending,
                CoverRequest::Encode(next),
            )
        }),
    ensures
        job.url@ == url && s.key == Some(job.key) && job.generation == s.generation,
        job.picker == picker,
        job.kitty_id == s.next_kitty_id,
        next.kitty_id != job.kitty_id,
        next.url@ == next_url && next.generation == s.generation && next.key == job.key,
        accepted ==> next_url != url,
{
}

/// What a request is answered: a cover that is there, waits or failed needs nothing; else a missing
/// image is to be loaded when that is due, and the cover of an image that is there to be encoded.
pub proof fn requests_are_answered(
    s: StoreView,
    image_cached: bool,
    now: u128,
    picker: ratatui_image::picker::Picker,
    url: Seq<char>,
    max_pending: int,
    r: CoverRequest,
)
    requires
        answers(s, image_cached, now, picker, url, max_pending, r),
    ensures
        !knows_nothing_of(s, url) ==> r is Nothing,
        r is LoadImage ==> !image_cached,
        r is Encode ==> image_cached,
        knows_nothing_of(s, url) && !image_cached && !s.requested.contains_key(url) ==> r is LoadImage,
        knows_nothing_of(s, url) && image_cached && s.pending.len() < max_pending && s.key is Some
            && s.encoder_running ==> r is Encode,
        image_cached && s.pending.len() >= max_pending ==> r is Nothing,
{
}

/// A failure is reported of a job of the current covers that failed, and of no other, with the URL and
/// the error of the job.
pub proof fn failures_are_reported(s: StoreView, done: Encoded, r: Option<Failure>)
    requires
        reports(s, done, r),
    ensures
        r is Some <==> done.generation == s.generation && done.result is Err,
        r matches Some(f) ==> f.url@ == done.url@ && done.result == Err::<
            Option<(crate::encode::Cover, usize)>,
            EncodeError,
        >(f.error),
{
}

/// The first number is from one on, leaves more than four billion numbers behind it, and is as random
/// as the number that was drawn.
pub proof fn first_numbers_are_spread(a: u32, b: u32)
    ensures
        1 <= first_number(a) <= 15_728_640,
        a < 15_728_640 && b < 15_728_640 && a != b ==> first_number(a) != first_number(b),
        a + 15_728_640 <= u32::MAX ==> first_number((a + 15_728_640) as u32) == first_number(a),
{
}

/// Rendering a cover that is not there or is held back leaves the screen as it is. Else nothing changes
/// left, right or above the area that the cover is drawn into, and for the Kitty protocol nothing below
/// it.
pub proof fn rendering_stays_in_its_area(
    s: StoreView,
    url: Seq<char>,
    clip: Rect,
    pos: SignedPosition,
    before: ratatui::buffer::Buffer,
    after: ratatui::buffer::Buffer,
    x: int,
    y: int,
)
    requires
        screen_rendered(s, url, clip, pos, before, after),
        can_be_rendered(s, url, clip, pos),
        has_cell(before, x, y),
    ensures
        !s.entries.contains_key(url) || held_back(s, url, clip, pos) ==> after == before,
        x < clip.x || x >= clip.x + clip.width || y < clip.y ==> cell_at(after, x, y) == cell_at(
            before,
            x,
            y,
        ),
        shown_by(s.entries[url].proto) == ProtocolType::Kitty && y >= clip.y + clip.height ==> cell_at(
            after,
            x,
            y,
        ) == cell_at(before, x, y),
        buffer_area(after) == buffer_area(before),
{
}

/// Whether a reader of a screen sees a run of row `row` of image `id` that is `width` columns wide.
pub open spec fn is_run_of(token: Token, id: int, row: int, width: int) -> bool {
    match token {
        Token::Run { image, row: c, width: w } => {
            &&& image.0 == id % 0x1000000
            &&& image.1 is Some && is_diacritic(image.1->0, id / 0x1000000)
            &&& is_diacritic(c, row)
            &&& w == width
        },
        Token::Text(_) => false,
    }
}

/// A row of a cover that is rendered for the Kitty protocol, outside tmux, is on the screen where the
/// cover was asked to be: row `k` of those that show stands `k` rows below the first, and a reader of
/// the screen sees there a run of the image, of the row that shows at this height, as wide as the cover
/// or as the area has room.
pub proof fn rendered_rows_are_where_they_belong(
    s: StoreView,
    url: Seq<char>,
    clip: Rect,
    pos: SignedPosition,
    before: ratatui::buffer::Buffer,
    after: ratatui::buffer::Buffer,
    row: int,
)
    requires
        screen_rendered(s, url, clip, pos, before, after),
        s.entries.contains_key(url) && !held_back(s, url, clip, pos),
        shown_by(s.entries[url].proto) == ProtocolType::Kitty,
        !kitty_name(s.entries[url].proto).1,
        0 <= row < shown_size(s.entries[url].proto).height,
        0 <= pos.y + row < clip.height,
        row + (if pos.y < 0 {
            pos.y as int
        } else {
            0
        }) < 297,
        0 <= pos.x < clip.width,
        shown_size(s.entries[url].proto).width >= 1,
        has_cell(before, clip.x + pos.x, clip.y + pos.y + row),
    ensures
        ({
            let p = s.entries[url].proto;
            let (width, room) = (shown_size(p).width as int, clip.width - pos.x);
            is_run_of(
                token_of(cell_at(after, clip.x + pos.x, clip.y + pos.y + row)),
                kitty_name(p).0 as int,
                row,
                if width < room {
                    width
                } else {
                    room
                },
            )
        }),
{
    let p = s.entries[url].proto;
    let size = shown_size(p);
    let k = row + (if pos.y < 0 {
        pos.y as int
    } else {
        0
    });
    let prefix = rendered_prefix(s, url, clip, pos, transmission(p));
    assert(kitty_row_shown(p, prefix, clip, pos, before, after, k));
    let cell = cell_at(after, clip.x + pos.x, clip.y + pos.y + row);
    a_drawn_row_is_read_back(
        cell,
        if k == 0 {
            prefix
        } else {
            Seq::empty()
        },
        kitty_name(p).0,
        row,
        drawn_width(size, clip, pos),
        drawn_rows(size, clip, pos) - 1,
    );
    let (id, width) = (kitty_name(p).0, drawn_width(size, clip, pos));
    let (c, high) = choose|c: char, high: char|
        #![trigger is_diacritic(c, row), is_diacritic(high, id as int / 0x1000000)]
        is_diacritic(c, row) && is_diacritic(high, id as int / 0x1000000) && token_of(cell) == (
        Token::Run {
            image: ((id as int % 0x1000000) as u32, Some(high)),
            row: c,
            width: width as u16,
        });
    assert(is_run_of(token_of(cell), id as int, row, width));
}

/// Whatever can be counted can be drawn: an area without cells takes any image; else the rows have to fit
/// into sixteen bits with a sign, and where rows show, the columns and the place on the screen into
/// sixteen bits.
pub proof fn what_can_be_counted_is_drawn(
    protocol: ProtocolType,
    size: Size,
    clip: Rect,
    pos: SignedPosition,
)
    ensures
        clip.width == 0 || clip.height == 0 ==> drawable(protocol, size, clip, pos),
        size.height <= 32_767 && clip.height <= 32_767 && pos.y != -32_768 && pos.y + size.height
            <= 32_767 && (pos.y >= clip.height || pos.y + size.height <= 0) ==> drawable(
            protocol,
            size,
            clip,
            pos,
        ),
        size.height <= 32_767 && clip.height <= 32_767 && pos.y != -32_768 && pos.y + size.height
            <= 32_767 && pos.x <= clip.width && pos.x + size.width <= 65_535 && clip.x + clip.width
            <= 65_535 && clip.y + clip.height <= 65_535 && clip.y + pos.y + size.height <= 65_535
            && clip.y + size.height <= 65_535 && (protocol == ProtocolType::Halfblocks || size.width >= 1
            && size.height >= 1) && (protocol == ProtocolType::Kitty ==> pos.x < clip.width) ==> drawable(
            protocol,
            size,
            clip,
            pos,
        ),
{
}

} // verus!
