//! What holds of a store of covers over any number of calls.

use crate::cover_laws::{apart, eviction_meets_the_limits, id_after_others, numbers_are_not_reused_soon};
use crate::cover_model::{
    all_collected, begun, cleared, collected, encodes, evicted, eviction, flushed, flushes,
    held_back, id_after, job_number, lemma_all_collected, loads, next_frame, queued, renders, requested, sends, switched,
    total_bytes, unsent, without, CoverEntry, StoreView, IMAGE_REQUEST_RETRY, MAX_ENTRIES,
    MEMORY_BUDGET,
};
use crate::draw::SignedPosition;
use crate::encode::{CellKey, Encoded};
use crate::screen::{Position, Rect};
use vstd::prelude::*;

verus! {

/// A call that changes a store.
pub enum Call {
    /// A frame is started for covers of `key`, and `results` are taken in.
    BeginFrame { key: CellKey, results: Seq<Encoded> },
    /// A cover is requested; `accepted` is whether its job is queued, if there is one.
    Request { image_cached: bool, now: u128, url: Seq<char>, max_pending: int, accepted: bool },
    /// A cover is rendered.
    Render { url: Seq<char>, clip: Rect, pos: SignedPosition },
    /// A frame is finished; `told` is whether the terminal is told which images to forget.
    EndFrame { keep: int, told: bool },
    /// The covers are dropped.
    Clear,
}

/// `s` after a request, with its job queued where there is one and it is accepted.
pub open spec fn asked(
    s: StoreView,
    image_cached: bool,
    now: u128,
    url: Seq<char>,
    max_pending: int,
    accepted: bool,
) -> StoreView {
    let t = requested(s, image_cached, now, url, max_pending);
    if accepted && encodes(s, image_cached, url, max_pending) {
        queued(t, url)
    } else {
        t
    }
}

/// Whether `t` is `s` after a frame was finished.
pub open spec fn ended(s: StoreView, keep: int, told: bool, t: StoreView) -> bool {
    exists|victims: Seq<Seq<char>>| #[trigger]
        eviction(s.entries, s.frame, keep, victims) && t == (if told {
            StoreView { pending_deletes: Seq::empty(), ..evicted(s, victims) }
        } else {
            evicted(s, victims)
        })
}

/// Whether `t` is `s` after the call.
pub open spec fn takes(s: StoreView, call: Call, t: StoreView) -> bool {
    match call {
        Call::BeginFrame { key, results } => begun(s, key, results, t),
        Call::Request { image_cached, now, url, max_pending, accepted } => t == asked(
            s,
            image_cached,
            now,
            url,
            max_pending,
            accepted,
        ),
        Call::Render { url, clip, pos } => renders(s, url, clip, pos, t),
        Call::EndFrame { keep, told } => ended(s, keep, told, t),
        Call::Clear => cleared(s, t),
    }
}

/// Finishing a frame is a call that tells the terminal what to forget where there is something to
/// tell and a cell for it.
pub proof fn finishing_a_frame_is_a_call(
    s: StoreView,
    keep: int,
    victims: Seq<Seq<char>>,
    b: ratatui::buffer::Buffer,
    anchor: Position,
)
    requires
        eviction(s.entries, s.frame, keep, victims),
    ensures
        takes(
            s,
            Call::EndFrame { keep, told: flushes(evicted(s, victims), b, anchor) },
            flushed(evicted(s, victims), b, anchor),
        ),
{
}

/// Whether each of `results` that is not of dropped covers is that of a job that is queued when it
/// is taken in.
pub open spec fn answered(base: StoreView, results: Seq<Encoded>) -> bool {
    forall|i: int|
        0 <= i < results.len() && (#[trigger] results[i]).generation == base.generation
            ==> all_collected(base, results, i).pending.contains(results[i].url@)
}

/// Whether the results that a frame takes in are those of queued jobs, and can be counted.
pub open spec fn orderly(s: StoreView, call: Call, t: StoreView) -> bool {
    match call {
        Call::BeginFrame { key, results } => {
            &&& s.encoded + results.len() <= usize::MAX
            &&& forall|u: StoreView| #[trigger]
                switched(next_frame(s), key, u) ==> answered(
                    StoreView { encoder_running: true, next_kitty_id: t.next_kitty_id, ..u },
                    results,
                )
        },
        _ => true,
    }
}

/// Whether call `i` leads from state `i` to the next.
pub open spec fn took(states: Seq<StoreView>, calls: Seq<Call>, i: int) -> bool {
    takes(states[i], calls[i], states[i + 1]) && orderly(states[i], calls[i], states[i + 1])
}

/// Whether the calls lead through the states, one after the other.
pub open spec fn is_run(states: Seq<StoreView>, calls: Seq<Call>) -> bool {
    &&& states.len() == calls.len() + 1
    &&& forall|i: int| 0 <= i < calls.len() ==> #[trigger] took(states, calls, i)
}

/// Whether the call hands out a job.
pub open spec fn hands_out_job(s: StoreView, call: Call) -> bool {
    match call {
        Call::Request { image_cached, url, max_pending, .. } => encodes(
            s,
            image_cached,
            url,
            max_pending,
        ),
        _ => false,
    }
}

/// The number of jobs that are handed out from call `from` up to call `to`.
pub open spec fn jobs_between(states: Seq<StoreView>, calls: Seq<Call>, from: int, to: int) -> nat
    decreases to - from,
{
    if to <= from {
        0
    } else {
        jobs_between(states, calls, from, to - 1) + (if hands_out_job(
            states[to - 1],
            calls[to - 1],
        ) {
            1nat
        } else {
            0nat
        })
    }
}

/// What a call does to the number of the next image.
proof fn lemma_number_step(s: StoreView, call: Call, t: StoreView)
    requires
        takes(s, call, t),
    ensures
        s.encoder_running ==> t.encoder_running && t.next_kitty_id == (if hands_out_job(s, call) {
            id_after(s.next_kitty_id)
        } else {
            s.next_kitty_id
        }),
        !s.encoder_running && t.encoder_running ==> t.next_kitty_id >= 1,
{
    match call {
        Call::BeginFrame { key, results } => {
            let u = choose|u: StoreView| #[trigger]
                switched(next_frame(s), key, u) && t == all_collected(
                    StoreView { encoder_running: true, next_kitty_id: t.next_kitty_id, ..u },
                    results,
                    results.len() as int,
                );
            let base = StoreView { encoder_running: true, next_kitty_id: t.next_kitty_id, ..u };
            lemma_all_collected(base, results, results.len() as int);
        },
        Call::Request { .. } => {},
        Call::Render { .. } => {},
        Call::EndFrame { .. } => {},
        Call::Clear => {},
    }
}

proof fn lemma_numbers(states: Seq<StoreView>, calls: Seq<Call>, from: int, to: int)
    requires
        is_run(states, calls),
        0 <= from <= to <= calls.len(),
        states[from].encoder_running,
    ensures
        states[to].encoder_running,
        states[to].next_kitty_id == id_after_others(
            states[from].next_kitty_id,
            jobs_between(states, calls, from, to),
        ),
    decreases to - from,
{
    if from < to {
        lemma_numbers(states, calls, from, to - 1);
        assert(took(states, calls, to - 1));
        lemma_number_step(states[to - 1], calls[to - 1], states[to]);
    }
}

proof fn lemma_numbers_are_positive(states: Seq<StoreView>, calls: Seq<Call>, n: int)
    requires
        is_run(states, calls),
        states[0].encoder_running ==> states[0].next_kitty_id >= 1,
        0 <= n <= calls.len(),
    ensures
        states[n].encoder_running ==> states[n].next_kitty_id >= 1,
    decreases n,
{
    if n > 0 {
        lemma_numbers_are_positive(states, calls, n - 1);
        assert(took(states, calls, n - 1));
        lemma_number_step(states[n - 1], calls[n - 1], states[n]);
    }
}

/// Over any number of calls, two jobs that are handed out carry different numbers, and none the number
/// zero, whatever is queued, taken in, evicted or dropped between them, as long as they are not so many
/// that the numbers have run out.
pub proof fn every_job_has_a_number_of_its_own(
    states: Seq<StoreView>,
    calls: Seq<Call>,
    i: int,
    j: int,
)
    requires
        is_run(states, calls),
        states[0].encoder_running ==> states[0].next_kitty_id >= 1,
        0 <= i < j < calls.len(),
        hands_out_job(states[i], calls[i]),
        hands_out_job(states[j], calls[j]),
        jobs_between(states, calls, i, j) < 0xffff_ffff,
    ensures
        job_number(states[i]) != job_number(states[j]),
        job_number(states[i]) >= 1 && job_number(states[j]) >= 1,
{
    lemma_numbers_are_positive(states, calls, i);
    lemma_numbers_are_positive(states, calls, j);
    lemma_numbers(states, calls, i, j);
    lemma_jobs_include(states, calls, i, j);
    numbers_are_not_reused_soon(
        states[i].next_kitty_id,
        0,
        jobs_between(states, calls, i, j),
    );
}

proof fn lemma_jobs_include(states: Seq<StoreView>, calls: Seq<Call>, from: int, to: int)
    requires
        from < to,
        hands_out_job(states[from], calls[from]),
    ensures
        jobs_between(states, calls, from, to) >= 1,
    decreases to - from,
{
    if from < to - 1 {
        lemma_jobs_include(states, calls, from, to - 1);
    }
}

/// The first jobs after a store has the number `n` for its next image are numbered from `n` on, one by
/// one, until the numbers start again at one.
pub proof fn jobs_are_numbered_one_by_one(
    states: Seq<StoreView>,
    calls: Seq<Call>,
    i: int,
    j: int,
)
    requires
        is_run(states, calls),
        0 <= i <= j < calls.len(),
        states[i].encoder_running && states[i].next_kitty_id >= 1,
        hands_out_job(states[j], calls[j]),
        states[i].next_kitty_id + jobs_between(states, calls, i, j) <= u32::MAX,
    ensures
        job_number(states[j]) == states[i].next_kitty_id + jobs_between(states, calls, i, j),
{
    lemma_numbers(states, calls, i, j);
    lemma_counted_on(states[i].next_kitty_id, jobs_between(states, calls, i, j));
}

proof fn lemma_counted_on(id: u32, n: nat)
    requires
        id + n <= u32::MAX,
    ensures
        id_after_others(id, n) == id + n,
    decreases n,
{
    if n > 0 {
        lemma_counted_on(id, (n - 1) as nat);
    }
}

/// Whether the store has nothing to do with `url`, but for having asked for its image.
pub open spec fn absent(s: StoreView, url: Seq<char>) -> bool {
    !s.entries.contains_key(url) && !s.pending.contains(url) && !s.failed.contains(url)
}

/// Whether the call is a request for the cover of `url`.
pub open spec fn is_request_for(call: Call, url: Seq<char>) -> bool {
    call is Request && call->Request_url == url
}

/// Whether the call makes the client load the image of `url`.
pub open spec fn asks_for_image(s: StoreView, call: Call, url: Seq<char>) -> bool {
    is_request_for(call, url) && loads(s, call->image_cached, url, call->now)
}

/// The number of times that the first `n` calls make the client load the image of `url`.
pub open spec fn image_requests(
    states: Seq<StoreView>,
    calls: Seq<Call>,
    url: Seq<char>,
    n: int,
) -> nat
    decreases n,
{
    if n <= 0 {
        0
    } else {
        image_requests(states, calls, url, n - 1) + (if asks_for_image(
            states[n - 1],
            calls[n - 1],
            url,
        ) {
            1nat
        } else {
            0nat
        })
    }
}

/// Whether one of the first `n` calls is a request for the cover of `url`.
pub open spec fn is_requested(calls: Seq<Call>, url: Seq<char>, n: int) -> bool
    decreases n,
{
    n > 0 && (is_request_for(calls[n - 1], url) || is_requested(calls, url, n - 1))
}

proof fn lemma_absent_collected(base: StoreView, results: Seq<Encoded>, n: int, url: Seq<char>)
    requires
        absent(base, url),
        answered(base, results),
        0 <= n <= results.len(),
    ensures
        absent(all_collected(base, results, n), url),
    decreases n,
{
    if n > 0 {
        lemma_absent_collected(base, results, n - 1, url);
        lemma_all_collected(base, results, n - 1);
        assert(results[n - 1].generation == base.generation ==> all_collected(
            base,
            results,
            n - 1,
        ).pending.contains(results[n - 1].url@));
    }
}

/// A URL stays absent as long as there is no image for it.
proof fn lemma_absent_step(s: StoreView, call: Call, t: StoreView, url: Seq<char>)
    requires
        takes(s, call, t),
        orderly(s, call, t),
        absent(s, url),
        is_request_for(call, url) ==> !call->image_cached,
    ensures
        absent(t, url),
        !asks_for_image(s, call, url) ==> t.requested.contains_key(url) == s.requested.contains_key(
            url,
        ) && t.requested[url] == s.requested[url],
        asks_for_image(s, call, url) ==> t.requested == s.requested.insert(url, call->now),
{
    match call {
        Call::BeginFrame { key, results } => {
            let u = choose|u: StoreView| #[trigger]
                switched(next_frame(s), key, u) && t == all_collected(
                    StoreView { encoder_running: true, next_kitty_id: t.next_kitty_id, ..u },
                    results,
                    results.len() as int,
                );
            let base = StoreView { encoder_running: true, next_kitty_id: t.next_kitty_id, ..u };
            lemma_switched(next_frame(s), key, u);
            assert(absent(base, url));
            lemma_absent_collected(base, results, results.len() as int, url);
            lemma_all_collected(base, results, results.len() as int);
        },
        Call::Request { .. } => {},
        Call::Render { .. } => {},
        Call::EndFrame { .. } => {},
        Call::Clear => {},
    }
}

/// Switching to another size drops the covers, and nothing else is added.
proof fn lemma_switched(s: StoreView, key: CellKey, u: StoreView)
    requires
        switched(s, key, u),
    ensures
        u.key == Some(key),
        u.requested == s.requested,
        u.encoded == s.encoded,
        u.frame_sent_bytes == s.frame_sent_bytes,
        s.key == Some(key) ==> u == s,
        s.key != Some(key) ==> u.entries == Map::<Seq<char>, CoverEntry>::empty() && u.pending
            == Set::<Seq<char>>::empty() && u.failed == Set::<Seq<char>>::empty(),
{
    if s.key != Some(key) {
        let v = choose|v: StoreView| #[trigger]
            cleared(s, v) && u == (StoreView { key: Some(key), ..v });
        assert(cleared(s, v));
    }
}

/// Over any number of calls within the retry time, an image that is missing throughout is asked for
/// exactly once, if its cover is requested at all.
pub proof fn a_missing_image_is_asked_for_once(
    states: Seq<StoreView>,
    calls: Seq<Call>,
    url: Seq<char>,
    since: u128,
    n: int,
)
    requires
        is_run(states, calls),
        absent(states[0], url) && !states[0].requested.contains_key(url),
        forall|i: int|
            0 <= i < calls.len() && is_request_for(#[trigger] calls[i], url) ==> {
                &&& !calls[i]->image_cached
                &&& since <= calls[i]->now < since + IMAGE_REQUEST_RETRY
            },
        0 <= n <= calls.len(),
    ensures
        image_requests(states, calls, url, n) == (if is_requested(calls, url, n) {
            1nat
        } else {
            0nat
        }),
{
    lemma_image_requests(states, calls, url, since, n);
}

proof fn lemma_image_requests(
    states: Seq<StoreView>,
    calls: Seq<Call>,
    url: Seq<char>,
    since: u128,
    n: int,
)
    requires
        is_run(states, calls),
        absent(states[0], url) && !states[0].requested.contains_key(url),
        forall|i: int|
            0 <= i < calls.len() && is_request_for(#[trigger] calls[i], url) ==> {
                &&& !calls[i]->image_cached
                &&& since <= calls[i]->now < since + IMAGE_REQUEST_RETRY
            },
        0 <= n <= calls.len(),
    ensures
        absent(states[n], url),
        states[n].requested.contains_key(url) <==> is_requested(calls, url, n),
        is_requested(calls, url, n) ==> since <= states[n].requested[url] < since
            + IMAGE_REQUEST_RETRY,
        image_requests(states, calls, url, n) == (if is_requested(calls, url, n) {
            1nat
        } else {
            0nat
        }),
    decreases n,
{
    if n > 0 {
        lemma_image_requests(states, calls, url, since, n - 1);
        assert(took(states, calls, n - 1));
        lemma_absent_step(states[n - 1], calls[n - 1], states[n], url);
    }
}

/// Whether a call keeps the size of the covers at `key`, and the cover of `url`.
pub open spec fn keeps(s: StoreView, call: Call, t: StoreView, key: CellKey, url: Seq<char>) -> bool {
    match call {
        Call::BeginFrame { key: k, .. } => k == key,
        Call::EndFrame { .. } => s.entries.contains_key(url) ==> t.entries.contains_key(url),
        Call::Clear => false,
        _ => true,
    }
}

/// Whether the calls keep the size of the covers at `key`, and do not evict the cover of `url`.
pub open spec fn kept(states: Seq<StoreView>, calls: Seq<Call>, key: CellKey, url: Seq<char>) -> bool {
    forall|i: int|
        0 <= i < calls.len() ==> keeps(states[i], #[trigger] calls[i], states[i + 1], key, url)
}

/// Whether a job of `generation` gave back the encoded cover of `url`.
pub open spec fn encodes_cover(generation: u64, done: Encoded, url: Seq<char>) -> bool {
    done.generation == generation && done.url@ == url && (done.result matches Ok(Some(_)))
}

/// The number of times that the first `m` of `results` give back the encoded cover of `url`.
pub open spec fn encodings_in(generation: u64, results: Seq<Encoded>, url: Seq<char>, m: int) -> nat
    decreases m,
{
    if m <= 0 {
        0
    } else {
        encodings_in(generation, results, url, m - 1) + (if encodes_cover(
            generation,
            results[m - 1],
            url,
        ) {
            1nat
        } else {
            0nat
        })
    }
}

/// The number of times that a call, after which the store is `t`, takes in the encoded cover of
/// `url`.
pub open spec fn encodings_of_call(call: Call, t: StoreView, url: Seq<char>) -> nat {
    match call {
        Call::BeginFrame { results, .. } => encodings_in(
            t.generation,
            results,
            url,
            results.len() as int,
        ),
        _ => 0,
    }
}

/// The number of times that the first `n` calls take in the encoded cover of `url`.
pub open spec fn encodings(states: Seq<StoreView>, calls: Seq<Call>, url: Seq<char>, n: int) -> nat
    decreases n,
{
    if n <= 0 {
        0
    } else {
        encodings(states, calls, url, n - 1) + encodings_of_call(calls[n - 1], states[n], url)
    }
}

/// Taking in the results of queued jobs keeps the covers that are there, encodes each cover no more
/// than once, and counts those that are new.
proof fn lemma_results(base: StoreView, results: Seq<Encoded>, m: int, url: Seq<char>)
    requires
        apart(base),
        answered(base, results),
        base.encoded + results.len() <= usize::MAX,
        0 <= m <= results.len(),
    ensures
        ({
            let t = all_collected(base, results, m);
            let n = encodings_in(base.generation, results, url, m);
            &&& apart(t)
            &&& base.entries.contains_key(url) ==> t.entries.contains_key(url) && t.entries[url]
                == base.entries[url] && n == 0
            &&& n <= 1
            &&& n == 1 ==> t.entries.contains_key(url)
            &&& n == 0 && !base.entries.contains_key(url) ==> !t.entries.contains_key(url)
            &&& t.encoded <= base.encoded + m
            &&& base.entries.dom().finite() ==> t.entries.dom().finite() && t.encoded - base.encoded
                == t.entries.dom().len() - base.entries.dom().len()
            &&& t.entries.contains_key(url) || t.pending.contains(url) ==> base.entries.contains_key(
                url,
            ) || base.pending.contains(url)
        }),
    decreases m,
{
    if m > 0 {
        lemma_results(base, results, m - 1, url);
        lemma_all_collected(base, results, m - 1);
        let s = all_collected(base, results, m - 1);
        let done = results[m - 1];
        assert(done.generation == base.generation ==> s.pending.contains(done.url@));
        let t = collected(s, done);
        if done.generation == base.generation {
            assert(!s.entries.contains_key(done.url@));
            match done.result {
                Ok(Some(cover)) => {
                    assert(t.entries.dom() =~= s.entries.dom().insert(done.url@));
                },
                _ => {},
            }
        }
    }
}

/// What a start of a frame for covers of the same size does to the cover of `url`.
proof fn lemma_begun(s: StoreView, key: CellKey, results: Seq<Encoded>, t: StoreView, url: Seq<char>)
    requires
        takes(s, Call::BeginFrame { key, results }, t),
        orderly(s, Call::BeginFrame { key, results }, t),
        apart(s),
    ensures
        apart(t),
        t.key == Some(key),
        ({
            let n = encodings_in(t.generation, results, url, results.len() as int);
            let there = s.key == Some(key) && s.entries.contains_key(url);
            &&& there ==> t.entries.contains_key(url) && t.entries[url] == s.entries[url] && n == 0
            &&& n <= 1
            &&& n == 1 ==> t.entries.contains_key(url)
            &&& n == 0 && !there ==> !t.entries.contains_key(url)
        }),
        s.entries.dom().finite() && (s.key == Some(key) || s.entries.dom().len() == 0)
            ==> t.entries.dom().finite() && t.encoded - s.encoded == t.entries.dom().len()
            - s.entries.dom().len(),
        t.entries.contains_key(url) || t.pending.contains(url) ==> s.entries.contains_key(url)
            || s.pending.contains(url),
{
    let u = choose|u: StoreView| #[trigger]
        switched(next_frame(s), key, u) && t == all_collected(
            StoreView { encoder_running: true, next_kitty_id: t.next_kitty_id, ..u },
            results,
            results.len() as int,
        );
    let base = StoreView { encoder_running: true, next_kitty_id: t.next_kitty_id, ..u };
    lemma_switched(next_frame(s), key, u);
    assert(apart(base));
    assert(answered(base, results));
    lemma_results(base, results, results.len() as int, url);
    lemma_all_collected(base, results, results.len() as int);
}

/// What a call other than a start of a frame does to the cover of `url`.
proof fn lemma_other_call(s: StoreView, call: Call, t: StoreView, url: Seq<char>)
    requires
        takes(s, call, t),
        !(call is BeginFrame),
        !(call is Clear),
        apart(s),
    ensures
        apart(t),
        t.key == s.key,
        t.encoded == s.encoded,
        !s.entries.contains_key(url) ==> !t.entries.contains_key(url),
        s.entries.contains_key(url) && !(call is EndFrame) ==> t.entries.contains_key(url),
        s.entries.contains_key(url) && t.entries.contains_key(url) && s.entries[url].sent
            ==> t.entries[url].sent,
        t.pending.contains(url) ==> s.pending.contains(url) || is_request_for(call, url),
        !(call is EndFrame) ==> t.entries.dom() == s.entries.dom(),
{
    match call {
        Call::Request { image_cached, now, url: other, max_pending, .. } => {
            assert(requested(s, image_cached, now, other, max_pending).entries.dom()
                =~= s.entries.dom());
        },
        Call::Render { url: other, .. } => {
            assert(t.entries.dom() =~= s.entries.dom());
        },
        _ => {},
    }
}

/// Over any number of calls with one size of the covers, a cover that is not evicted is encoded at
/// most once, and not again if it was there at first.
pub proof fn a_cover_is_encoded_once(
    states: Seq<StoreView>,
    calls: Seq<Call>,
    key: CellKey,
    url: Seq<char>,
    n: int,
)
    requires
        is_run(states, calls),
        kept(states, calls, key, url),
        apart(states[0]),
        states[0].key == Some(key) || !states[0].entries.contains_key(url),
        0 <= n <= calls.len(),
    ensures
        encodings(states, calls, url, n) <= 1,
        states[0].entries.contains_key(url) ==> encodings(states, calls, url, n) == 0,
{
    lemma_encoded_once(states, calls, key, url, n);
}

proof fn lemma_encoded_once(
    states: Seq<StoreView>,
    calls: Seq<Call>,
    key: CellKey,
    url: Seq<char>,
    n: int,
)
    requires
        is_run(states, calls),
        kept(states, calls, key, url),
        apart(states[0]),
        states[0].key == Some(key) || !states[0].entries.contains_key(url),
        0 <= n <= calls.len(),
    ensures
        apart(states[n]),
        states[n].key == Some(key) || !states[n].entries.contains_key(url),
        states[n].entries.contains_key(url) <==> states[0].entries.contains_key(url) || encodings(
            states,
            calls,
            url,
            n,
        ) == 1,
        encodings(states, calls, url, n) <= 1,
        states[0].entries.contains_key(url) ==> encodings(states, calls, url, n) == 0,
    decreases n,
{
    if n > 0 {
        lemma_encoded_once(states, calls, key, url, n - 1);
        assert(took(states, calls, n - 1));
        assert(keeps(states[n - 1], calls[n - 1], states[n], key, url));
        match calls[n - 1] {
            Call::BeginFrame { key: k, results } => {
                lemma_begun(states[n - 1], k, results, states[n], url);
            },
            _ => {
                lemma_other_call(states[n - 1], calls[n - 1], states[n], url);
            },
        }
    }
}

/// Whether a cover that a job gave back takes no more than `each` bytes.
pub open spec fn no_larger(done: Encoded, each: int) -> bool {
    done.result matches Ok(Some((_, bytes))) ==> bytes <= each
}

/// Whether the call keeps the size of the covers at `key`, requests no covers but those of `urls`,
/// and takes in none of more than `each` bytes.
pub open spec fn is_modest(call: Call, key: CellKey, urls: Set<Seq<char>>, each: int) -> bool {
    match call {
        Call::BeginFrame { key: k, results } => k == key && forall|j: int|
            0 <= j < results.len() ==> no_larger(#[trigger] results[j], each),
        Call::Request { url, .. } => urls.contains(url),
        Call::Render { .. } => true,
        Call::EndFrame { .. } => true,
        Call::Clear => false,
    }
}

/// Whether the calls lead through the states from a store without covers, keep the size of the covers
/// at `key`, and are about the covers of `urls` alone, which are within the limits on number and
/// memory when each takes up to `each` bytes.
pub open spec fn is_modest_run(
    states: Seq<StoreView>,
    calls: Seq<Call>,
    key: CellKey,
    urls: Set<Seq<char>>,
    each: int,
) -> bool {
    &&& is_run(states, calls)
    &&& states[0].entries.dom() == Set::<Seq<char>>::empty()
    &&& states[0].pending == Set::<Seq<char>>::empty()
    &&& urls.finite() && urls.len() <= MAX_ENTRIES
    &&& 0 <= each && urls.len() * each <= MEMORY_BUDGET
    &&& forall|i: int| 0 <= i < calls.len() ==> is_modest(#[trigger] calls[i], key, urls, each)
}

/// Over any number of calls with one size of the covers, covers that together are within the limits
/// on number and memory stay once they are there.
pub proof fn covers_within_the_limits_are_kept(
    states: Seq<StoreView>,
    calls: Seq<Call>,
    key: CellKey,
    urls: Set<Seq<char>>,
    each: int,
    url: Seq<char>,
)
    requires
        is_modest_run(states, calls, key, urls, each),
    ensures
        kept(states, calls, key, url),
{
    assert forall|i: int| 0 <= i < calls.len() implies keeps(
        states[i],
        #[trigger] calls[i],
        states[i + 1],
        key,
        url,
    ) by {
        assert(is_modest(calls[i], key, urls, each));
        if calls[i] is EndFrame {
            assert(took(states, calls, i));
            lemma_modest_run(states, calls, key, urls, each, i);
            lemma_nothing_evicted(states[i], calls[i], states[i + 1], urls, each);
        }
    }
}

/// Over any number of calls with one size of the covers, no more covers are encoded than there are
/// URLs, however often they are requested, where the covers together are within the limits on number
/// and memory.
pub proof fn no_more_covers_are_encoded_than_there_are(
    states: Seq<StoreView>,
    calls: Seq<Call>,
    key: CellKey,
    urls: Set<Seq<char>>,
    each: int,
    n: int,
)
    requires
        is_modest_run(states, calls, key, urls, each),
        0 <= n <= calls.len(),
    ensures
        states[n].encoded - states[0].encoded == states[n].entries.dom().len(),
        states[n].encoded - states[0].encoded <= urls.len(),
{
    lemma_modest_run(states, calls, key, urls, each, n);
    assert(states[n].entries.dom().subset_of(urls));
    vstd::set_lib::lemma_len_subset(states[n].entries.dom(), urls);
}

/// Whether the store holds or encodes covers of `urls` alone, each of up to `each` bytes.
spec fn modest(s: StoreView, urls: Set<Seq<char>>, each: int) -> bool {
    &&& s.entries.dom().finite()
    &&& forall|url: Seq<char>|
        #![trigger s.entries.contains_key(url)]
        #![trigger s.pending.contains(url)]
        s.entries.contains_key(url) || s.pending.contains(url) ==> urls.contains(url)
    &&& small(s.entries, each)
}

/// Whether no entry takes more than `each` bytes.
spec fn small(entries: Map<Seq<char>, CoverEntry>, each: int) -> bool {
    forall|url: Seq<char>| #[trigger]
        entries.contains_key(url) ==> entries[url].bytes <= each
}

proof fn lemma_small_total(entries: Map<Seq<char>, CoverEntry>, each: int)
    requires
        entries.dom().finite(),
        small(entries, each),
    ensures
        total_bytes(entries) <= entries.dom().len() * each,
    decreases entries.dom().len(),
{
    if entries.dom().len() > 0 {
        let url = entries.dom().choose();
        let rest = entries.remove(url);
        assert(entries.contains_key(url));
        assert(rest.dom() =~= entries.dom().remove(url));
        lemma_small_total(rest, each);
        let n = entries.dom().len() as int;
        assert((n - 1) * each + each == n * each) by (nonlinear_arith);
    }
}

/// Finishing a frame evicts nothing where the covers are within the limits.
proof fn lemma_nothing_evicted(
    s: StoreView,
    call: Call,
    t: StoreView,
    urls: Set<Seq<char>>,
    each: int,
)
    requires
        call is EndFrame,
        takes(s, call, t),
        modest(s, urls, each),
        urls.finite() && urls.len() <= MAX_ENTRIES,
        0 <= each && urls.len() * each <= MEMORY_BUDGET,
    ensures
        t.entries == s.entries,
{
    let keep = call->keep;
    let victims = choose|victims: Seq<Seq<char>>| #[trigger]
        eviction(s.entries, s.frame, keep, victims) && t == (if call->told {
            StoreView { pending_deletes: Seq::empty(), ..evicted(s, victims) }
        } else {
            evicted(s, victims)
        });
    assert(s.entries.dom().subset_of(urls));
    vstd::set_lib::lemma_len_subset(s.entries.dom(), urls);
    lemma_small_total(s.entries, each);
    let (n, m) = (s.entries.dom().len() as int, urls.len() as int);
    assert(n * each <= m * each) by (nonlinear_arith)
        requires
            n <= m,
            0 <= each,
    ;
    eviction_meets_the_limits(s.entries, s.frame, keep, victims);
    assert(without(s.entries, victims) =~= s.entries);
}

/// Taking in covers of up to `each` bytes leaves none larger.
proof fn lemma_small_results(base: StoreView, results: Seq<Encoded>, m: int, each: int)
    requires
        small(base.entries, each),
        forall|j: int| 0 <= j < results.len() ==> no_larger(#[trigger] results[j], each),
        0 <= m <= results.len(),
    ensures
        small(all_collected(base, results, m).entries, each),
    decreases m,
{
    if m > 0 {
        lemma_small_results(base, results, m - 1, each);
        assert(no_larger(results[m - 1], each));
    }
}

proof fn lemma_modest_run(
    states: Seq<StoreView>,
    calls: Seq<Call>,
    key: CellKey,
    urls: Set<Seq<char>>,
    each: int,
    n: int,
)
    requires
        is_modest_run(states, calls, key, urls, each),
        0 <= n <= calls.len(),
    ensures
        apart(states[n]),
        modest(states[n], urls, each),
        states[n].key == Some(key) || states[n].entries.dom().len() == 0,
        states[n].encoded - states[0].encoded == states[n].entries.dom().len(),
    decreases n,
{
    if n == 0 {
        assert forall|url: Seq<char>| !#[trigger] states[0].entries.contains_key(url) by {
            assert(!states[0].entries.dom().contains(url));
        }
    } else {
        lemma_modest_run(states, calls, key, urls, each, n - 1);
        assert(took(states, calls, n - 1));
        let (s, call, t) = (states[n - 1], calls[n - 1], states[n]);
        assert(is_modest(call, key, urls, each));
        match call {
            Call::BeginFrame { key: k, results } => {
                lemma_begun(s, k, results, t, Seq::empty());
                assert forall|url: Seq<char>|
                    #![trigger t.entries.contains_key(url)]
                    #![trigger t.pending.contains(url)]
                    t.entries.contains_key(url) || t.pending.contains(url) implies urls.contains(
                    url,
                ) by {
                    lemma_begun(s, k, results, t, url);
                }
                let u = choose|u: StoreView| #[trigger]
                    switched(next_frame(s), key, u) && t == all_collected(
                        StoreView { encoder_running: true, next_kitty_id: t.next_kitty_id, ..u },
                        results,
                        results.len() as int,
                    );
                lemma_switched(next_frame(s), key, u);
                lemma_small_results(
                    StoreView { encoder_running: true, next_kitty_id: t.next_kitty_id, ..u },
                    results,
                    results.len() as int,
                    each,
                );
            },
            _ => {
                lemma_other_call(s, call, t, Seq::empty());
                assert forall|url: Seq<char>|
                    #![trigger t.entries.contains_key(url)]
                    #![trigger t.pending.contains(url)]
                    t.entries.contains_key(url) || t.pending.contains(url) implies urls.contains(
                    url,
                ) by {
                    lemma_other_call(s, call, t, url);
                }
                if call is EndFrame {
                    lemma_nothing_evicted(s, call, t, urls, each);
                }
            },
        }
    }
}

/// Whether the call sends the image data of the cover of `url` to the terminal.
pub open spec fn sends_cover(s: StoreView, call: Call, url: Seq<char>) -> bool {
    call is Render && call->Render_url == url && sends(s, url, call->clip, call->pos)
}

/// The number of times that the first `n` calls send the image data of the cover of `url` to the
/// terminal.
pub open spec fn sendings(states: Seq<StoreView>, calls: Seq<Call>, url: Seq<char>, n: int) -> nat
    decreases n,
{
    if n <= 0 {
        0
    } else {
        sendings(states, calls, url, n - 1) + (if sends_cover(states[n - 1], calls[n - 1], url) {
            1nat
        } else {
            0nat
        })
    }
}

/// Over any number of calls with one size of the covers, the image data of a cover that is not
/// evicted is sent to the terminal at most once.
pub proof fn a_cover_is_sent_once(
    states: Seq<StoreView>,
    calls: Seq<Call>,
    key: CellKey,
    url: Seq<char>,
    n: int,
)
    requires
        is_run(states, calls),
        kept(states, calls, key, url),
        apart(states[0]),
        states[0].key == Some(key) || !states[0].entries.contains_key(url),
        0 <= n <= calls.len(),
    ensures
        sendings(states, calls, url, n) <= 1,
{
    lemma_sent_once(states, calls, key, url, n);
}

proof fn lemma_sent_once(
    states: Seq<StoreView>,
    calls: Seq<Call>,
    key: CellKey,
    url: Seq<char>,
    n: int,
)
    requires
        is_run(states, calls),
        kept(states, calls, key, url),
        apart(states[0]),
        states[0].key == Some(key) || !states[0].entries.contains_key(url),
        0 <= n <= calls.len(),
    ensures
        sendings(states, calls, url, n) <= 1,
        sendings(states, calls, url, n) == 1 ==> states[n].entries.contains_key(url)
            && states[n].entries[url].sent,
    decreases n,
{
    if n > 0 {
        lemma_sent_once(states, calls, key, url, n - 1);
        lemma_encoded_once(states, calls, key, url, n - 1);
        assert(took(states, calls, n - 1));
        assert(keeps(states[n - 1], calls[n - 1], states[n], key, url));
        match calls[n - 1] {
            Call::BeginFrame { key: k, results } => {
                lemma_begun(states[n - 1], k, results, states[n], url);
            },
            _ => {
                lemma_other_call(states[n - 1], calls[n - 1], states[n], url);
            },
        }
    }
}

/// Only a call that sends the image data of a cover adds to what is sent in the frame, and it adds
/// the bytes of that cover. A cover that was sent, is not encoded for the Kitty protocol or is off
/// the screen is never held back, and stays as it is.
pub proof fn only_sending_costs(
    s: StoreView,
    url: Seq<char>,
    clip: Rect,
    pos: SignedPosition,
    shown: StoreView,
)
    requires
        renders(s, url, clip, pos, shown),
        s.entries.contains_key(url),
    ensures
        sends(s, url, clip, pos) ==> shown.frame_sent_bytes == s.frame_sent_bytes
            + s.entries[url].bytes,
        !sends(s, url, clip, pos) ==> shown.frame_sent_bytes == s.frame_sent_bytes
            && shown.entries[url].sent == s.entries[url].sent && shown.entries[url].proto
            == s.entries[url].proto,
        !unsent(s, url, clip, pos) ==> !sends(s, url, clip, pos) && !held_back(s, url, clip, pos),
{
}

/// Whether one of the first `n` calls hands out a job for `url` with the number `id`.
pub open spec fn job_was_handed_out(
    states: Seq<StoreView>,
    calls: Seq<Call>,
    n: int,
    url: Seq<char>,
    id: u32,
) -> bool {
    exists|i: int| 0 <= i < n && #[trigger] hands_out_numbered(states, calls, i, url, id)
}

/// Whether call `i` hands out a job for `url` with the number `id`.
pub open spec fn hands_out_numbered(
    states: Seq<StoreView>,
    calls: Seq<Call>,
    i: int,
    url: Seq<char>,
    id: u32,
) -> bool {
    hands_out_job(states[i], calls[i]) && is_request_for(calls[i], url) && job_number(states[i]) == id
}

/// Whether each of the results that are taken in is of a job that was handed out before, and carries
/// its number.
pub open spec fn results_are_of_jobs(states: Seq<StoreView>, calls: Seq<Call>) -> bool {
    forall|k: int, m: int|
        #![trigger calls[k]->results[m]]
        0 <= k < calls.len() && calls[k] is BeginFrame && 0 <= m < calls[k]->results.len()
            ==> job_was_handed_out(
            states,
            calls,
            k,
            calls[k]->results[m].url@,
            calls[k]->results[m].kitty_id,
        )
}

/// Whether every numbered image of `entries` is of a job that one of the first `n` calls handed out.
spec fn images_are_of_jobs(
    states: Seq<StoreView>,
    calls: Seq<Call>,
    n: int,
    entries: Map<Seq<char>, CoverEntry>,
) -> bool {
    forall|url: Seq<char>| #[trigger]
        entries.contains_key(url) && entries[url].kitty_id is Some ==> job_was_handed_out(
            states,
            calls,
            n,
            url,
            entries[url].kitty_id->0,
        )
}

proof fn lemma_images_of_results(
    states: Seq<StoreView>,
    calls: Seq<Call>,
    k: int,
    base: StoreView,
    m: int,
)
    requires
        results_are_of_jobs(states, calls),
        0 <= k < calls.len() && calls[k] is BeginFrame,
        0 <= m <= calls[k]->results.len(),
        images_are_of_jobs(states, calls, k, base.entries),
    ensures
        images_are_of_jobs(states, calls, k, all_collected(base, calls[k]->results, m).entries),
    decreases m,
{
    if m > 0 {
        lemma_images_of_results(states, calls, k, base, m - 1);
        let done = calls[k]->results[m - 1];
        assert(job_was_handed_out(states, calls, k, done.url@, done.kitty_id));
    }
}

proof fn lemma_images_are_of_jobs(states: Seq<StoreView>, calls: Seq<Call>, n: int)
    requires
        is_run(states, calls),
        results_are_of_jobs(states, calls),
        states[0].entries.dom() == Set::<Seq<char>>::empty(),
        0 <= n <= calls.len(),
    ensures
        images_are_of_jobs(states, calls, n, states[n].entries),
    decreases n,
{
    if n == 0 {
        assert forall|url: Seq<char>| !#[trigger] states[0].entries.contains_key(url) by {
            assert(!states[0].entries.dom().contains(url));
        }
    } else {
        lemma_images_are_of_jobs(states, calls, n - 1);
        assert(took(states, calls, n - 1));
        let (s, call, t) = (states[n - 1], calls[n - 1], states[n]);
        match call {
            Call::BeginFrame { key, results } => {
                let u = choose|u: StoreView| #[trigger]
                    switched(next_frame(s), key, u) && t == all_collected(
                        StoreView { encoder_running: true, next_kitty_id: t.next_kitty_id, ..u },
                        results,
                        results.len() as int,
                    );
                let base = StoreView { encoder_running: true, next_kitty_id: t.next_kitty_id, ..u };
                lemma_switched(next_frame(s), key, u);
                lemma_images_of_results(states, calls, n - 1, base, results.len() as int);
            },
            _ => {},
        }
        assert forall|url: Seq<char>| #[trigger]
            t.entries.contains_key(url) && t.entries[url].kitty_id is Some implies job_was_handed_out(
            states,
            calls,
            n,
            url,
            t.entries[url].kitty_id->0,
        ) by {
            let id = t.entries[url].kitty_id->0;
            if !(call is BeginFrame) {
                assert(s.entries.contains_key(url) && s.entries[url].kitty_id == Some(id));
            }
            assert(job_was_handed_out(states, calls, n - 1, url, id));
            let i = choose|i: int|
                0 <= i < n - 1 && #[trigger] hands_out_numbered(states, calls, i, url, id);
            assert(hands_out_numbered(states, calls, i, url, id));
        }
    }
}

/// After any number of calls, the images of two covers in the store have different numbers, so that
/// the terminal shows each of them for itself, and forgets one without the other.
pub proof fn stored_images_have_different_numbers(
    states: Seq<StoreView>,
    calls: Seq<Call>,
    n: int,
    a: Seq<char>,
    b: Seq<char>,
)
    requires
        is_run(states, calls),
        results_are_of_jobs(states, calls),
        states[0].entries.dom() == Set::<Seq<char>>::empty(),
        states[0].encoder_running ==> states[0].next_kitty_id >= 1,
        jobs_between(states, calls, 0, calls.len() as int) < 0xffff_ffff,
        0 <= n <= calls.len(),
        a != b,
        states[n].entries.contains_key(a) && states[n].entries[a].kitty_id is Some,
        states[n].entries.contains_key(b) && states[n].entries[b].kitty_id is Some,
    ensures
        states[n].entries[a].kitty_id != states[n].entries[b].kitty_id,
{
    lemma_images_are_of_jobs(states, calls, n);
    let (x, y) = (states[n].entries[a].kitty_id->0, states[n].entries[b].kitty_id->0);
    assert(job_was_handed_out(states, calls, n, a, x));
    assert(job_was_handed_out(states, calls, n, b, y));
    let i = choose|i: int| 0 <= i < n && #[trigger] hands_out_numbered(states, calls, i, a, x);
    let j = choose|j: int| 0 <= j < n && #[trigger] hands_out_numbered(states, calls, j, b, y);
    let (p, q) = if i < j {
        (i, j)
    } else {
        (j, i)
    };
    lemma_jobs_split(states, calls, p, q);
    lemma_jobs_split(states, calls, q, calls.len() as int);
    every_job_has_a_number_of_its_own(states, calls, p, q);
}

proof fn lemma_jobs_split(states: Seq<StoreView>, calls: Seq<Call>, from: int, to: int)
    requires
        0 <= from <= to,
    ensures
        jobs_between(states, calls, 0, to) == jobs_between(states, calls, 0, from) + jobs_between(
            states,
            calls,
            from,
            to,
        ),
    decreases to - from,
{
    if from < to {
        lemma_jobs_split(states, calls, from, to - 1);
    }
}

} // verus!
