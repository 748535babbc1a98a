//! What holds of a store of covers, whatever is done with it.

use crate::cover_model::{
    all_in_use, cleared, cleared_by, collected, encodes, enumerates, evicted, evicted_in_turn, eviction, evicts,
    held_back, id_after, lemma_without_push, loads, next_frame, over_limit, queued, released, rendered, renders, requested, sends, switched,
    total_bytes, unsent, without, CoverEntry, StoreView, IMAGE_REQUEST_RETRY, MAX_ENTRIES, MEMORY_BUDGET,
    TRANSMIT_BUDGET,
};
use crate::draw::SignedPosition;
use crate::encode::{
    encoded_for, filled_size, is_kitty, kitty_name, picker_font, shown_by, shown_size, transmitted,
    CellKey, Cover, Encoded, EncodedImage, Job,
};
use crate::screen::{Rect, Size};
use vstd::prelude::*;

verus! {

proof fn lemma_evicted_prefix(
    entries: Map<Seq<char>, CoverEntry>,
    frame: u64,
    keep: int,
    victims: Seq<Seq<char>>,
    n: int,
)
    requires
        entries.dom().finite(),
        evicted_in_turn(entries, frame, keep, victims),
        0 <= n <= victims.len(),
    ensures
        without(entries, victims.take(n)).dom().finite(),
        without(entries, victims.take(n)).len() == entries.len() - n,
        n > 0 && keep >= 0 ==> without(entries, victims.take(n)).len() >= keep,
    decreases n,
{
    if n == 0 {
        assert(without(entries, victims.take(0)) =~= entries);
    } else {
        lemma_evicted_prefix(entries, frame, keep, victims, n - 1);
        let before = without(entries, victims.take(n - 1));
        let url = victims[n - 1];
        assert(evicts(before, frame, keep, url));
        assert(victims.take(n) =~= victims.take(n - 1).push(url));
        lemma_without_push(entries, victims.take(n - 1), url);
        assert(before.remove(url).dom() =~= before.dom().remove(url));
    }
}

/// No cover that is used in the current frame is evicted.
pub proof fn eviction_spares_covers_in_use(
    entries: Map<Seq<char>, CoverEntry>,
    frame: u64,
    keep: int,
    victims: Seq<Seq<char>>,
    url: Seq<char>,
)
    requires
        eviction(entries, frame, keep, victims),
        entries.contains_key(url),
        entries[url].last_used >= frame,
    ensures
        without(entries, victims).contains_key(url),
        without(entries, victims)[url] == entries[url],
{
    if victims.contains(url) {
        let i = victims.index_of(url);
        assert(evicts(without(entries, victims.take(i)), frame, keep, victims[i]));
    }
}

/// Covers are evicted one by one, each of them once, and at least `keep` are left where there were
/// as many.
pub proof fn eviction_keeps_enough(
    entries: Map<Seq<char>, CoverEntry>,
    frame: u64,
    keep: int,
    victims: Seq<Seq<char>>,
)
    requires
        entries.dom().finite(),
        keep >= 0,
        eviction(entries, frame, keep, victims),
    ensures
        victims.no_duplicates(),
        without(entries, victims).len() == entries.len() - victims.len(),
        entries.len() >= keep ==> without(entries, victims).len() >= keep,
        entries.len() <= keep ==> without(entries, victims) == entries,
{
    assert(victims.take(victims.len() as int) =~= victims);
    lemma_evicted_prefix(entries, frame, keep, victims, victims.len() as int);
    assert forall|i: int, j: int| 0 <= i < j < victims.len() implies victims[i] != victims[j] by {
        let before = without(entries, victims.take(j));
        assert(evicts(before, frame, keep, victims[j]));
        assert(victims.take(j)[i] == victims[i]);
    }
    if entries.len() <= keep {
        if victims.len() > 0 {
            assert(evicts(without(entries, victims.take(0)), frame, keep, victims[0]));
            assert(without(entries, victims.take(0)) =~= entries);
        }
        assert(without(entries, victims) =~= entries);
    }
}

/// Nothing is evicted that was used later than something that stays.
pub proof fn eviction_takes_the_least_recently_used(
    entries: Map<Seq<char>, CoverEntry>,
    frame: u64,
    keep: int,
    victims: Seq<Seq<char>>,
    gone: Seq<char>,
    stays: Seq<char>,
)
    requires
        eviction(entries, frame, keep, victims),
        victims.contains(gone),
        without(entries, victims).contains_key(stays),
    ensures
        entries.contains_key(gone),
        entries[gone].last_used <= entries[stays].last_used,
{
    let i = victims.index_of(gone);
    let before = without(entries, victims.take(i));
    assert(evicts(before, frame, keep, victims[i]));
    if victims.take(i).contains(stays) {
        let j = victims.take(i).index_of(stays);
        assert(victims[j] == stays);
    }
    assert(before.contains_key(stays));
    assert(before[stays].last_used == entries[stays].last_used);
}

/// After an eviction the limits on memory and number are met, unless no more than `keep` covers
/// are left, or none but those in use. Where the limits were met before, nothing is evicted.
pub proof fn eviction_meets_the_limits(
    entries: Map<Seq<char>, CoverEntry>,
    frame: u64,
    keep: int,
    victims: Seq<Seq<char>>,
)
    requires
        eviction(entries, frame, keep, victims),
    ensures
        ({
            let left = without(entries, victims);
            ||| total_bytes(left) <= MEMORY_BUDGET && left.len() <= MAX_ENTRIES
            ||| left.len() <= keep
            ||| all_in_use(left, frame)
        }),
        !over_limit(entries, keep) ==> victims.len() == 0,
{
    if victims.len() > 0 {
        assert(evicts(without(entries, victims.take(0)), frame, keep, victims[0]));
        assert(without(entries, victims.take(0)) =~= entries);
    }
}

/// The number of an image is among those released exactly where one of the URLs has that image.
proof fn lemma_released(entries: Map<Seq<char>, CoverEntry>, urls: Seq<Seq<char>>, id: u32)
    ensures
        released(entries, urls).contains(id) <==> exists|url: Seq<char>| #[trigger]
            urls.contains(url) && entries[url].kitty_id == Some(id),
    decreases urls.len(),
{
    if urls.len() > 0 {
        let (front, last) = (urls.drop_last(), urls.last());
        lemma_released(entries, front, id);
        let before = released(entries, front);
        assert(urls[urls.len() - 1] == last);
        assert(urls.contains(last));
        assert forall|url: Seq<char>| #[trigger] urls.contains(url) <==> front.contains(url) || url
            == last by {
            if front.contains(url) {
                assert(urls[front.index_of(url)] == url);
            }
            if urls.contains(url) && url != last {
                assert(front[urls.index_of(url)] == url);
            }
        }
        if before.contains(id) {
            let url = choose|url: Seq<char>| #[trigger]
                front.contains(url) && entries[url].kitty_id == Some(id);
            assert(urls.contains(url));
        }
        if exists|url: Seq<char>| #[trigger]
            urls.contains(url) && entries[url].kitty_id == Some(id) {
            let url = choose|url: Seq<char>| #[trigger]
                urls.contains(url) && entries[url].kitty_id == Some(id);
            if url != last {
                assert(front.contains(url));
            }
        }
        if let Some(released_id) = entries[last].kitty_id {
            let all = before.push(released_id);
            assert(all[before.len() as int] == released_id);
            if before.contains(id) {
                assert(all[before.index_of(id)] == id);
            }
            if all.contains(id) && id != released_id {
                assert(before[all.index_of(id)] == id);
            }
        }
    }
}

/// One URL more releases the number of its image, if it has one.
pub proof fn lemma_released_push(
    entries: Map<Seq<char>, CoverEntry>,
    urls: Seq<Seq<char>>,
    url: Seq<char>,
)
    ensures
        released(entries, urls.push(url)) == match entries[url].kitty_id {
            Some(id) => released(entries, urls).push(id),
            None => released(entries, urls),
        },
{
    assert(urls.push(url).drop_last() =~= urls);
}

/// An image leaves the store only to be forgotten by the terminal: after an eviction its cover is
/// still there, or its number is noted. No other number is noted.
pub proof fn evicted_images_are_forgotten(
    s: StoreView,
    keep: int,
    victims: Seq<Seq<char>>,
    id: u32,
)
    requires
        eviction(s.entries, s.frame, keep, victims),
    ensures
        forall|url: Seq<char>| #[trigger]
            s.entries.contains_key(url) && s.entries[url].kitty_id == Some(id) ==> evicted(
                s,
                victims,
            ).entries.contains_key(url) || evicted(s, victims).pending_deletes.contains(id),
        evicted(s, victims).pending_deletes.contains(id) <==> s.pending_deletes.contains(id)
            || exists|url: Seq<char>| #[trigger]
            s.entries.contains_key(url) && s.entries[url].kitty_id == Some(id)
                && !evicted(s, victims).entries.contains_key(url),
{
    let more = released(s.entries, victims);
    let all = evicted(s, victims).pending_deletes;
    lemma_released(s.entries, victims, id);
    lemma_contains_either(s.pending_deletes, more, id);
    assert forall|url: Seq<char>| #[trigger] victims.contains(url) implies s.entries.contains_key(
        url,
    ) && !evicted(s, victims).entries.contains_key(url) by {
        let i = victims.index_of(url);
        assert(evicts(without(s.entries, victims.take(i)), s.frame, keep, victims[i]));
    }
    if more.contains(id) {
        let url = choose|url: Seq<char>| #[trigger]
            victims.contains(url) && s.entries[url].kitty_id == Some(id);
        assert(s.entries.contains_key(url));
    }
}

proof fn lemma_contains_either(a: Seq<u32>, b: Seq<u32>, id: u32)
    ensures
        (a + b).contains(id) <==> a.contains(id) || b.contains(id),
{
    if a.contains(id) {
        assert((a + b)[a.index_of(id)] == id);
    }
    if b.contains(id) {
        assert((a + b)[a.len() + b.index_of(id)] == id);
    }
    if (a + b).contains(id) {
        let i = (a + b).index_of(id);
        if i < a.len() {
            assert(a[i] == id);
        } else {
            assert(b[i - a.len()] == id);
        }
    }
}

/// When the covers are dropped, the images of all of them are to be forgotten by the terminal, and
/// no other image is added.
pub proof fn cleared_images_are_forgotten(s: StoreView, t: StoreView, id: u32)
    requires
        cleared(s, t),
    ensures
        t.entries == Map::<Seq<char>, CoverEntry>::empty(),
        t.pending_deletes.contains(id) <==> s.pending_deletes.contains(id) || exists|
            url: Seq<char>,
        | #[trigger]
            s.entries.contains_key(url) && s.entries[url].kitty_id == Some(id),
{
    let urls = choose|urls: Seq<Seq<char>>| #[trigger]
        enumerates(urls, s.entries.dom()) && t == cleared_by(s, urls);
    lemma_released(s.entries, urls, id);
    lemma_contains_either(s.pending_deletes, released(s.entries, urls), id);
    assert forall|url: Seq<char>| #[trigger] urls.contains(url) == s.entries.contains_key(url) by {
        assert(urls.to_set().contains(url) == s.entries.dom().contains(url));
    }
}

/// A cover that is requested or rendered counts as used in the current frame, and so is not
/// evicted at its end.
pub proof fn a_used_cover_survives_the_frame(
    s: StoreView,
    image_cached: bool,
    now: u128,
    url: Seq<char>,
    max_pending: int,
    clip: Rect,
    pos: SignedPosition,
    shown: StoreView,
    keep: int,
    victims: Seq<Seq<char>>,
)
    requires
        s.entries.contains_key(url),
        renders(s, url, clip, pos, shown),
    ensures
        ({
            let t = requested(s, image_cached, now, url, max_pending);
            eviction(t.entries, t.frame, keep, victims) ==> evicted(t, victims).entries.contains_key(
                url,
            )
        }),
        eviction(shown.entries, shown.frame, keep, victims) ==> evicted(
            shown,
            victims,
        ).entries.contains_key(url),
{
    let t = requested(s, image_cached, now, url, max_pending);
    if eviction(t.entries, t.frame, keep, victims) {
        eviction_spares_covers_in_use(t.entries, t.frame, keep, victims, url);
    }
    if eviction(shown.entries, shown.frame, keep, victims) {
        eviction_spares_covers_in_use(shown.entries, shown.frame, keep, victims, url);
    }
}

/// A cover to be rendered, and what drawing makes of its encoded image.
pub struct Rendering {
    pub url: Seq<char>,
    pub clip: Rect,
    pub pos: SignedPosition,
    pub proto: EncodedImage,
}

/// `s` after the first `n` of `renderings`.
pub open spec fn all_rendered(s: StoreView, renderings: Seq<Rendering>, n: int) -> StoreView
    decreases n,
{
    if n <= 0 {
        s
    } else {
        let r = renderings[n - 1];
        rendered(all_rendered(s, renderings, n - 1), r.url, r.clip, r.pos, r.proto)
    }
}

proof fn lemma_rendered_bytes(s: StoreView, renderings: Seq<Rendering>, n: int, url: Seq<char>)
    ensures
        all_rendered(s, renderings, n).entries.contains_key(url) == s.entries.contains_key(url),
        s.entries.contains_key(url) ==> all_rendered(s, renderings, n).entries[url].bytes
            == s.entries[url].bytes,
    decreases n,
{
    if n > 0 {
        lemma_rendered_bytes(s, renderings, n - 1, url);
    }
}

/// The new image data that is sent in a frame stays in the budget, or is that of a single cover.
pub proof fn a_frame_stays_in_its_budget(s: StoreView, renderings: Seq<Rendering>, n: int)
    requires
        s.frame_sent_bytes == 0,
        0 <= n <= renderings.len(),
    ensures
        ({
            let sent = all_rendered(s, renderings, n).frame_sent_bytes;
            sent <= TRANSMIT_BUDGET || exists|i: int|
                0 <= i < n && s.entries.contains_key((#[trigger] renderings[i]).url) && sent
                    == s.entries[renderings[i].url].bytes
        }),
    decreases n,
{
    if n > 0 {
        a_frame_stays_in_its_budget(s, renderings, n - 1);
        let before = all_rendered(s, renderings, n - 1);
        let r = renderings[n - 1];
        lemma_rendered_bytes(s, renderings, n - 1, r.url);
        let after = all_rendered(s, renderings, n);
        assert(after == rendered(before, r.url, r.clip, r.pos, r.proto));
        if after.frame_sent_bytes != before.frame_sent_bytes && before.frame_sent_bytes == 0 {
            assert(after.frame_sent_bytes == s.entries[renderings[n - 1].url].bytes);
        } else if after.frame_sent_bytes > TRANSMIT_BUDGET {
            let i = choose|i: int|
                0 <= i < n - 1 && s.entries.contains_key((#[trigger] renderings[i]).url)
                    && before.frame_sent_bytes == s.entries[renderings[i].url].bytes;
            assert(renderings[i].url == renderings[i].url);
        }
    }
}

/// However large a cover is, it is not held back as long as nothing else was sent in the frame.
pub proof fn one_cover_always_goes_through(
    s: StoreView,
    url: Seq<char>,
    clip: Rect,
    pos: SignedPosition,
    shown: StoreView,
)
    requires
        s.frame_sent_bytes == 0,
        s.entries.contains_key(url),
        unsent(s, url, clip, pos),
        renders(s, url, clip, pos, shown),
    ensures
        !held_back(s, url, clip, pos),
        sends(s, url, clip, pos),
        shown.entries[url].sent && transmitted(shown.entries[url].proto),
        shown.frame_sent_bytes == s.entries[url].bytes,
{
}

/// Image data is sent once: a cover that was sent stays sent, in later frames too, whatever is
/// rendered, requested or taken in for other covers, and rendering it again sends nothing.
pub proof fn image_data_is_sent_once(
    s: StoreView,
    url: Seq<char>,
    other: Seq<char>,
    clip: Rect,
    pos: SignedPosition,
    image_cached: bool,
    now: u128,
    max_pending: int,
    done: Encoded,
    shown: StoreView,
)
    requires
        s.entries.contains_key(url),
        s.entries[url].sent,
        renders(s, other, clip, pos, shown),
    ensures
        next_frame(s).entries[url].sent,
        done.url@ != url ==> collected(s, done).entries[url].sent,
        shown.entries[url].sent,
        requested(s, image_cached, now, other, max_pending).entries[url].sent,
        !held_back(s, url, clip, pos) && !sends(s, url, clip, pos),
        other == url ==> shown.frame_sent_bytes == s.frame_sent_bytes,
{
}

/// A cover that is being encoded, is there, or could not be encoded is not queued, and its image
/// is not asked for.
pub proof fn a_cover_is_queued_once(
    s: StoreView,
    image_cached: bool,
    now: u128,
    url: Seq<char>,
    max_pending: int,
)
    requires
        s.pending.contains(url) || s.entries.contains_key(url) || s.failed.contains(url),
    ensures
        !encodes(s, image_cached, url, max_pending),
        !loads(s, image_cached, url, now),
{
}

/// No more than `max_pending` jobs are queued at a time.
pub proof fn pending_jobs_are_bounded(
    s: StoreView,
    image_cached: bool,
    url: Seq<char>,
    max_pending: int,
)
    requires
        s.pending.finite(),
        encodes(s, image_cached, url, max_pending),
    ensures
        queued(s, url).pending.len() == s.pending.len() + 1,
        queued(s, url).pending.len() <= max_pending,
{
}

/// A missing image that was asked for is asked for again after the retry time, and not before.
pub proof fn a_missing_image_is_requested_once(
    s: StoreView,
    now: u128,
    later: u128,
    url: Seq<char>,
    max_pending: int,
)
    requires
        loads(s, false, url, now),
    ensures
        loads(requested(s, false, now, url, max_pending), false, url, later) <==> later
            >= now + IMAGE_REQUEST_RETRY,
{
}

/// What became of jobs that were queued before the covers were dropped is ignored.
pub proof fn results_of_dropped_covers_are_ignored(s: StoreView, t: StoreView, done: Encoded)
    requires
        s.generation < u64::MAX,
        cleared(s, t),
        done.generation <= s.generation,
    ensures
        collected(t, done) == t,
{
}

/// A cover that could not be encoded is not tried again until the covers are dropped; then it can
/// be.
pub proof fn a_failed_cover_waits_for_a_new_size(
    s: StoreView,
    done: Encoded,
    max_pending: int,
    t: StoreView,
)
    requires
        done.generation == s.generation,
        done.result is Err,
        max_pending > 0,
        cleared(collected(s, done), t),
        s.key is Some && s.encoder_running,
    ensures
        !encodes(collected(s, done), true, done.url@, max_pending),
        encodes(t, true, done.url@, max_pending),
{
}

/// Whether no URL is in two of the three states: being encoded, encoded, or impossible to encode.
pub open spec fn apart(s: StoreView) -> bool {
    &&& forall|url: Seq<char>| #[trigger]
        s.entries.contains_key(url) ==> !s.pending.contains(url) && !s.failed.contains(url)
    &&& forall|url: Seq<char>| #[trigger] s.pending.contains(url) ==> !s.failed.contains(url)
}

/// No URL is ever being encoded, encoded or impossible to encode at the same time: jobs are queued
/// only for URLs in none of these states, and what became of them is taken in for URLs that are
/// being encoded.
pub proof fn states_stay_apart(
    s: StoreView,
    image_cached: bool,
    now: u128,
    url: Seq<char>,
    max_pending: int,
    done: Encoded,
    clip: Rect,
    pos: SignedPosition,
    shown: StoreView,
    victims: Seq<Seq<char>>,
    dropped: StoreView,
)
    requires
        renders(s, url, clip, pos, shown),
        apart(s),
        done.generation == s.generation ==> s.pending.contains(done.url@),
        cleared(s, dropped),
    ensures
        apart(requested(s, image_cached, now, url, max_pending)),
        encodes(s, image_cached, url, max_pending) ==> apart(
            queued(requested(s, image_cached, now, url, max_pending), url),
        ),
        apart(collected(s, done)),
        apart(shown),
        apart(evicted(s, victims)),
        apart(dropped),
{
}

/// Whether an encoded image is of the size `size`, as far as its protocol can show that.
pub open spec fn has_size(p: EncodedImage, size: Size) -> bool {
    shown_size(p) == filled_size(shown_by(p), size)
}

/// What a job gives back is of the size that it asks for, where its picker goes by the size of a cell
/// that the job does.
pub proof fn a_job_gives_its_size(
    job: Job,
    img: image::DynamicImage,
    tmux: bool,
    done: (Cover, usize),
)
    requires
        encoded_for(job, img, tmux, done),
        picker_font(job.picker) == job.key.font_size,
    ensures
        has_size(done.0.image(), job.key.size),
{
}

/// Whether every cover has the size that the store's covers are encoded for.
pub open spec fn sizes_fit(s: StoreView) -> bool {
    forall|url: Seq<char>| #[trigger]
        s.entries.contains_key(url) ==> s.key is Some && has_size(
            s.entries[url].proto,
            s.key->0.size,
        )
}

/// The store never holds a cover of another size than the current one: a change of size drops all
/// covers, and what jobs of the current size give back is of that size.
pub proof fn stored_covers_fit(
    s: StoreView,
    key: CellKey,
    next: StoreView,
    done: Encoded,
    image_cached: bool,
    now: u128,
    url: Seq<char>,
    max_pending: int,
    clip: Rect,
    pos: SignedPosition,
    shown: StoreView,
    victims: Seq<Seq<char>>,
)
    requires
        renders(s, url, clip, pos, shown),
        sizes_fit(s),
        switched(s, key, next),
        done.generation == s.generation ==> match done.result {
            Ok(Some((cover, _))) => s.key is Some && has_size(cover.image(), s.key->0.size),
            _ => true,
        },
    ensures
        sizes_fit(next),
        sizes_fit(collected(s, done)),
        sizes_fit(requested(s, image_cached, now, url, max_pending)),
        sizes_fit(shown),
        sizes_fit(evicted(s, victims)),
{
    if s.key != Some(key) {
        let u = choose|u: StoreView| #[trigger]
            cleared(s, u) && next == (StoreView { key: Some(key), ..u });
        assert(u.entries == Map::<Seq<char>, CoverEntry>::empty());
    }
}

/// Whether the number that the store knows an image by is the one that the terminal knows it by.
pub open spec fn numbers_fit(s: StoreView) -> bool {
    forall|url: Seq<char>| #[trigger]
        s.entries.contains_key(url) ==> match s.entries[url].kitty_id {
            Some(id) => is_kitty(s.entries[url].proto) && kitty_name(s.entries[url].proto).0 == id,
            None => !is_kitty(s.entries[url].proto),
        }
}

/// The store knows every image by the number that the terminal knows it by, so that it can make
/// the terminal forget it: what jobs give back carries the number that was encoded with the image.
pub proof fn stored_numbers_fit(
    s: StoreView,
    key: CellKey,
    next: StoreView,
    done: Encoded,
    image_cached: bool,
    now: u128,
    url: Seq<char>,
    max_pending: int,
    clip: Rect,
    pos: SignedPosition,
    shown: StoreView,
    victims: Seq<Seq<char>>,
)
    requires
        renders(s, url, clip, pos, shown),
        numbers_fit(s),
        switched(s, key, next),
        match done.result {
            Ok(Some((cover, _))) => is_kitty(cover.image()) ==> kitty_name(cover.image()).0
                == done.kitty_id,
            _ => true,
        },
    ensures
        numbers_fit(next),
        numbers_fit(collected(s, done)),
        numbers_fit(requested(s, image_cached, now, url, max_pending)),
        numbers_fit(shown),
        numbers_fit(evicted(s, victims)),
{
    if s.key != Some(key) {
        let u = choose|u: StoreView| #[trigger]
            cleared(s, u) && next == (StoreView { key: Some(key), ..u });
        assert(u.entries == Map::<Seq<char>, CoverEntry>::empty());
    }
}

/// The number that an image has after `n` others, if the first of them has the number `id`.
pub open spec fn id_after_others(id: u32, n: nat) -> u32
    decreases n,
{
    if n == 0 {
        id
    } else {
        id_after(id_after_others(id, (n - 1) as nat))
    }
}

proof fn lemma_id_after_others(id: u32, n: nat)
    requires
        id >= 1,
    ensures
        id_after_others(id, n) == (id - 1 + n) % 0xffff_ffff + 1,
    decreases n,
{
    if n > 0 {
        lemma_id_after_others(id, (n - 1) as nat);
    }
}

/// No image gets the number zero, and none gets a number again before all others were given out.
pub proof fn numbers_are_not_reused_soon(id: u32, a: nat, b: nat)
    requires
        id >= 1,
        a < b < a + 0xffff_ffff,
    ensures
        id_after_others(id, a) >= 1,
        id_after_others(id, a) != id_after_others(id, b),
{
    lemma_id_after_others(id, a);
    lemma_id_after_others(id, b);
}

} // verus!
