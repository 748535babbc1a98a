//! The store of encoded covers, keyed by the URL of the image.
//!
//! Every cover is encoded once for a size of the grid's cells. Scrolling then only changes which
//! rows of an encoded image are shown: with the Kitty protocol an image is sent to the terminal
//! once, and later frames only move its placeholders.

use crate::cover_model::{
    all_collected, all_in_use, begun, can_be_rendered, cleared, cleared_by, collected, delete_commands, empty_store,
    encodes, enumerates, evicted, evicted_in_turn, eviction, evicts, failed_now, failures_in, faithful, flushed, held_back,
    job_number, key_for, lemma_all_collected, lemma_total_bytes, lemma_without_push, loads, next_frame, oldest, over_limit, queued,
    released, rendered, rendered_prefix, renders, requested, screen_flushed, switched, total_bytes, touched, without,
    CoverEntry, StoreView, IMAGE_REQUEST_RETRY, MAX_ENTRIES, MEMORY_BUDGET, TRANSMIT_BUDGET,
};
use crate::draw::{draw, drawn, drawn_screen, is_drawable, is_on_screen, SignedPosition};
use crate::encode::{
    clone_picker, font_of, is_kitty, protocol_of, protocol_of_shown, shown_size, size_of_shown, transmission,
    CellKey, EncodeError, Encoded, FontSize, Job, ProtocolType,
};
use crate::kitty::kitty_delete;
use crate::screen::{set_symbol_at, symbol_at, Position, Rect, Size};
use crate::url_map::{lemma_map_of_push, map_of, urls_of, Item, UrlMap};
use vstd::prelude::*;

verus! {

/// A cover that could not be encoded.
pub struct Failure {
    pub url: String,
    pub error: EncodeError,
}

/// What a frame starts with.
pub struct FrameStart {
    /// Whether the encoder is to be started.
    pub start_encoder: bool,
    /// The covers that turned out to be impossible to encode.
    pub failures: Vec<Failure>,
}

/// What is to be done for a cover that was requested.
pub enum CoverRequest {
    /// Nothing: the cover is there, is being prepared, or has to wait.
    Nothing,
    /// The image is to be loaded.
    LoadImage,
    /// The job is to be queued.
    Encode(Job),
}

/// Encoded covers, keyed by the URL of the image.
pub struct CoverStore {
    key: Option<CellKey>,
    generation: u64,
    frame: u64,
    entries: UrlMap<CoverEntry>,
    pending: UrlMap<()>,
    failed: UrlMap<()>,
    requested: UrlMap<u128>,
    frame_sent_bytes: usize,
    pending_deletes: Vec<u32>,
    next_kitty_id: u32,
    encoder_running: bool,
    encoded: usize,
}

impl View for CoverStore {
    type V = StoreView;

    closed spec fn view(&self) -> StoreView {
        StoreView {
            key: self.key,
            generation: self.generation,
            frame: self.frame,
            entries: self.entries@,
            pending: self.pending@.dom(),
            failed: self.failed@.dom(),
            requested: self.requested@,
            frame_sent_bytes: self.frame_sent_bytes,
            pending_deletes: self.pending_deletes@,
            next_kitty_id: self.next_kitty_id,
            encoder_running: self.encoder_running,
            encoded: self.encoded,
        }
    }
}

/// `rand::random` for `u32`. Any number may come out.
#[verifier::external_body]
fn random_u32() -> (r: u32) {
    rand::random::<u32>()
}

/// The number of the first image, for a number drawn at random.
pub open spec fn first_number(random: u32) -> int {
    random as int % 0x00f0_0000 + 1
}

/// The number of the first image, for a number drawn at random. It leaves room for many more.
pub fn first_kitty_id(random: u32) -> (r: u32)
    ensures
        r == first_number(random),
{
    random % 0x00f0_0000 + 1
}

/// The URLs and errors of `failures`.
pub open spec fn failure_views(failures: Seq<Failure>) -> Seq<(Seq<char>, EncodeError)> {
    failures.map_values(|f: Failure| (f.url@, f.error))
}

/// Whether `r` is the answer of a store to a request: the image is to be loaded, the job is to be
/// queued, or nothing is to be done.
pub open spec fn answers(
    s: StoreView,
    image_cached: bool,
    now: u128,
    picker: ratatui_image::picker::Picker,
    url: Seq<char>,
    max_pending: int,
    r: CoverRequest,
) -> bool {
    &&& r is LoadImage <==> loads(s, image_cached, url, now)
    &&& r is Encode <==> encodes(s, image_cached, url, max_pending)
    &&& r matches CoverRequest::Encode(job) ==> {
        &&& job.generation == s.generation
        &&& job.url@ == url
        &&& job.key == s.key->0
        &&& job.picker == picker
        &&& job.kitty_id == job_number(s)
    }
}

/// Whether `r` is what a store reports of a result: the failure, if it is one.
pub open spec fn reports(s: StoreView, done: Encoded, r: Option<Failure>) -> bool {
    &&& r is Some <==> failed_now(s.generation, done)
    &&& r matches Some(f) ==> f.url@ == done.url@ && f.error == done.result->Err_0
}

/// Whether `after` is the screen `before` after the cover of `url` was rendered.
pub open spec fn screen_rendered(
    s: StoreView,
    url: Seq<char>,
    clip: Rect,
    pos: SignedPosition,
    before: ratatui::buffer::Buffer,
    after: ratatui::buffer::Buffer,
) -> bool {
    if !s.entries.contains_key(url) || held_back(s, url, clip, pos) {
        after == before
    } else {
        let proto = s.entries[url].proto;
        let prefix = rendered_prefix(s, url, clip, pos, transmission(proto));
        &&& drawn(proto, prefix, clip, pos, before, after)
        &&& !is_kitty(proto) ==> after == drawn_screen(proto, clip, pos, before)
    }
}

impl Default for CoverStore {
    fn default() -> (r: CoverStore)
        ensures
            r.wf(),
            r@ == empty_store(),
    {
        CoverStore::new()
    }
}

impl CoverStore {
    /// Whether the store is well formed: no cover was used later than in the current frame, and its
    /// mark tells whether its image was sent.
    pub closed spec fn wf(&self) -> bool {
        &&& self.entries.wf() && self.pending.wf() && self.failed.wf() && self.requested.wf()
        &&& forall|url: Seq<char>|
            self.entries@.contains_key(url) ==> {
                let entry = #[trigger] self.entries@[url];
                entry.last_used <= self.frame && faithful(entry)
            }
    }

    /// A cover is marked as sent exactly where its image data was handed out for the terminal.
    pub proof fn sent_covers_were_handed_out(&self, url: Seq<char>)
        requires
            self.wf(),
            self@.entries.contains_key(url),
        ensures
            faithful(self@.entries[url]),
    {
    }

    /// The store holds finitely many URLs.
    pub proof fn the_store_is_finite(&self)
        requires
            self.wf(),
        ensures
            self@.entries.dom().finite(),
            self@.pending.finite(),
            self@.failed.finite(),
            self@.requested.dom().finite(),
    {
        self.entries.lemma_len();
        self.pending.lemma_len();
        self.failed.lemma_len();
        self.requested.lemma_len();
    }

    /// No cover was used later than in the current frame.
    pub proof fn no_cover_is_used_ahead_of_time(&self, url: Seq<char>)
        requires
            self.wf(),
            self@.entries.contains_key(url),
        ensures
            self@.entries[url].last_used <= self@.frame,
    {
    }

    /// An empty store.
    pub fn new() -> (r: CoverStore)
        ensures
            r.wf(),
            r@ == empty_store(),
    {
        let r = CoverStore {
            key: None,
            generation: 0,
            frame: 0,
            entries: UrlMap::new(),
            pending: UrlMap::new(),
            failed: UrlMap::new(),
            requested: UrlMap::new(),
            frame_sent_bytes: 0,
            pending_deletes: Vec::new(),
            next_kitty_id: 0,
            encoder_running: false,
            encoded: 0,
        };
        assert(r.pending@.dom() =~= Set::empty());
        r
    }

    /// Drops every encoded cover.
    pub fn clear(&mut self)
        requires
            old(self).wf(),
            old(self)@.generation < u64::MAX,
        ensures
            final(self).wf(),
            cleared(old(self)@, final(self)@),
    {
        let ghost start = self@;
        let ghost items = self.entries.items@;
        let ghost urls = urls_of(items);
        proof {
            self.entries.lemma_view();
            assert(self.entries@.dom() =~= urls.to_set());
            assert(enumerates(urls, start.entries.dom()));
        }
        self.generation += 1;
        self.pending.clear();
        self.failed.clear();
        let n = self.entries.items.len();
        let mut i: usize = 0;
        assert(released(start.entries, urls.take(0)) =~= Seq::empty());
        while i < n
            invariant
                i <= n,
                n == items.len(),
                self.entries.items@ == items,
                urls == urls_of(items),
                self.entries.wf(),
                start.entries == self.entries@,
                self.pending_deletes@ == start.pending_deletes + released(
                    start.entries,
                    urls.take(i as int),
                ),
                self.generation == start.generation + 1,
                self.pending@ == Map::<Seq<char>, ()>::empty(),
                self.failed@ == Map::<Seq<char>, ()>::empty(),
                self.pending.wf(),
                self.failed.wf(),
                self.requested.wf(),
                self.requested@ == start.requested,
                self.key == start.key,
                self.frame == start.frame,
                self.frame_sent_bytes == start.frame_sent_bytes,
                self.next_kitty_id == start.next_kitty_id,
                self.encoder_running == start.encoder_running,
                self.encoded == start.encoded,
            decreases n - i,
        {
            proof {
                self.entries.lemma_item(i as int);
                assert(urls.take(i + 1).drop_last() =~= urls.take(i as int));
                assert(urls.take(i + 1).last() == items[i as int].url@);
            }
            let ghost before = self.pending_deletes@;
            let id = self.entries.items[i].value.kitty_id;
            if let Some(id) = id {
                self.pending_deletes.push(id);
                assert(before.push(id) =~= start.pending_deletes + released(
                    start.entries,
                    urls.take(i as int),
                ).push(id));
            }
            i += 1;
        }
        self.entries.clear();
        proof {
            assert(urls.take(n as int) =~= urls);
            assert(self@ =~= cleared_by(start, urls));
        }
    }

    /// Takes in what became of a job. Returns the failure, if it is one.
    pub fn collect(&mut self, done: Encoded) -> (r: Option<Failure>)
        requires
            old(self).wf(),
            old(self)@.encoded < usize::MAX,
        ensures
            final(self).wf(),
            final(self)@ == collected(old(self)@, done),
            reports(old(self)@, done, r),
    {
        let ghost start = self@;
        if done.generation != self.generation {
            return None;
        }
        self.pending.remove(done.url.as_str());
        let Encoded { generation, url, kitty_id, result } = done;
        let r = match result {
            Ok(Some((cover, bytes))) => {
                let proto = cover.into_image();
                self.encoded += 1;
                let kitty_id = if protocol_of_shown(&proto) == ProtocolType::Kitty {
                    Some(kitty_id)
                } else {
                    None
                };
                let last_used = self.frame;
                self.entries.insert(
                    url,
                    CoverEntry { proto, kitty_id, bytes, last_used, sent: false },
                );
                None
            },
            // there was no image any more; the next request loads it again
            Ok(None) => None,
            Err(error) => {
                let failure = Failure { url: url.clone(), error };
                self.failed.insert(url, ());
                Some(failure)
            },
        };
        assert(self@ =~= collected(start, done));
        r
    }

    /// Starts a frame: switches to the current size of the covers and takes in what became of the
    /// jobs.
    pub fn begin_frame(
        &mut self,
        picker: &ratatui_image::picker::Picker,
        cover_size: Size,
        results: Vec<Encoded>,
    ) -> (r: FrameStart)
        requires
            old(self).wf(),
            old(self)@.frame < u64::MAX,
            old(self)@.key != Some(key_for(*picker, cover_size)) ==> old(self)@.generation < u64::MAX,
            old(self)@.encoded + results@.len() <= usize::MAX,
        ensures
            final(self).wf(),
            r.start_encoder == !old(self)@.encoder_running,
            if old(self)@.encoder_running {
                final(self)@.next_kitty_id == old(self)@.next_kitty_id
            } else {
                1 <= final(self)@.next_kitty_id <= 0x00f0_0000
            },
            begun(old(self)@, key_for(*picker, cover_size), results@, final(self)@),
            failure_views(r.failures@) == failures_in(
                final(self)@.generation,
                results@,
                results@.len() as int,
            ),
            final(self)@.key == Some(key_for(*picker, cover_size)),
            final(self)@.frame == old(self)@.frame + 1,
            final(self)@.frame_sent_bytes == 0,
            final(self)@.encoder_running,
    {
        self.frame += 1;
        self.frame_sent_bytes = 0;
        let ghost started = self@;
        assert(started =~= next_frame(old(self)@));
        let font = font_of(picker);
        let key = CellKey {
            size: cover_size,
            font_size: FontSize {
                width: if font.width == 0 {
                    1
                } else {
                    font.width
                },
                height: if font.height == 0 {
                    1
                } else {
                    font.height
                },
            },
            protocol: protocol_of(picker),
        };
        let same = match self.key {
            Some(k) => k == key,
            None => false,
        };
        if !same {
            self.clear();
            let ghost dropped = self@;
            self.key = Some(key);
            assert(cleared(started, dropped));
            assert(self@ =~= (StoreView { key: Some(key), ..dropped }));
        }
        let ghost t = self@;
        assert(switched(started, key, t));
        let start_encoder = !self.encoder_running;
        if start_encoder {
            self.next_kitty_id = first_kitty_id(random_u32());
            self.encoder_running = true;
        }
        let ghost base = self@;
        assert(base =~= (StoreView {
            encoder_running: true,
            next_kitty_id: self@.next_kitty_id,
            ..t
        }));
        let mut failures: Vec<Failure> = Vec::new();
        assert(failure_views(failures@) =~= failures_in(base.generation, results@, 0));
        let ghost all = results@;
        for done in it: results
            invariant
                it.seq() == all,
                self.wf(),
                self@ == all_collected(base, all, it.index()),
                self@.generation == base.generation,
                self@.next_kitty_id == base.next_kitty_id,
                self@.encoded <= base.encoded + it.index(),
                base.encoded + all.len() <= usize::MAX,
                failure_views(failures@) == failures_in(base.generation, all, it.index()),
        {
            let ghost before = failures@;
            if let Some(failure) = self.collect(done) {
                failures.push(failure);
                assert(failure_views(failures@) =~= failure_views(before).push(
                    (failure.url@, failure.error),
                ));
            }
        }
        proof {
            lemma_all_collected(base, all, all.len() as int);
        }
        FrameStart { start_encoder, failures }
    }

    /// Makes sure that the cover of `url` is there or being prepared. Says what is to be done for
    /// it; `image_cached` is whether its image is loaded. Covers that can be seen are to be
    /// requested before others: no more than `max_pending` jobs are queued at a time.
    pub fn request(
        &mut self,
        image_cached: bool,
        now: u128,
        picker: &ratatui_image::picker::Picker,
        url: &str,
        max_pending: usize,
    ) -> (r: CoverRequest)
        requires
            old(self).wf(),
        ensures
            final(self).wf(),
            final(self)@ == requested(old(self)@, image_cached, now, url@, max_pending as int),
            answers(old(self)@, image_cached, now, *picker, url@, max_pending as int, r),
    {
        let ghost start = self@;
        let frame = self.frame;
        if let Some(entry) = self.entries.get_mut(url) {
            entry.last_used = frame;
            assert(self@ =~= touched(start, url@));
            return CoverRequest::Nothing;
        }
        if self.pending.contains(url) || self.failed.contains(url) {
            return CoverRequest::Nothing;
        }
        if !image_cached {
            let due = match self.requested.get(url) {
                Some(at) => now >= *at && now - *at >= IMAGE_REQUEST_RETRY,
                None => true,
            };
            if !due {
                return CoverRequest::Nothing;
            }
            self.requested.insert(url.to_string(), now);
            assert(self@ =~= requested(start, image_cached, now, url@, max_pending as int));
            return CoverRequest::LoadImage;
        }
        if self.pending.len() >= max_pending || !self.encoder_running {
            return CoverRequest::Nothing;
        }
        match self.key {
            None => CoverRequest::Nothing,
            Some(key) => {
                let kitty_id = self.next_kitty_id;
                self.next_kitty_id = if kitty_id == u32::MAX {
                    1
                } else {
                    kitty_id + 1
                };
                assert(self@ =~= requested(start, image_cached, now, url@, max_pending as int));
                CoverRequest::Encode(
                    Job {
                        generation: self.generation,
                        url: url.to_string(),
                        key,
                        picker: clone_picker(picker),
                        kitty_id,
                    },
                )
            },
        }
    }

    /// Notes that the job for `url` was queued.
    pub fn job_queued(&mut self, url: &str)
        requires
            old(self).wf(),
        ensures
            final(self).wf(),
            final(self)@ == queued(old(self)@, url@),
    {
        let ghost start = self@;
        self.pending.insert(url.to_string(), ());
        assert(self@ =~= queued(start, url@));
    }

    /// Renders the cover of `url` at `pos`, relative to `clip`, into `clip`. Rows outside `clip`
    /// are left out. A cover that is not ready is not drawn.
    pub fn render(
        &mut self,
        buf: &mut ratatui::buffer::Buffer,
        url: &str,
        clip: Rect,
        pos: SignedPosition,
    )
        requires
            old(self).wf(),
            can_be_rendered(old(self)@, url@, clip, pos),
        ensures
            final(self).wf(),
            renders(old(self)@, url@, clip, pos, final(self)@),
            screen_rendered(old(self)@, url@, clip, pos, *old(buf), *final(buf)),
    {
        let ghost start = self@;
        let frame = self.frame;
        let sent_bytes: usize = self.frame_sent_bytes;
        if let Some(entry) = self.entries.get_mut(url) {
            entry.last_used = frame;
            let height: u16 = size_of_shown(&entry.proto).height;
            if entry.kitty_id.is_some() && !entry.sent && is_on_screen(height, clip, pos) {
                let bytes: usize = entry.bytes;
                if sent_bytes > 0 && sent_bytes as u128 + bytes as u128 > TRANSMIT_BUDGET as u128 {
                    assert(self@ =~= touched(start, url@));
                    return ;
                }
                entry.sent = true;
                draw(&mut entry.proto, clip, pos, buf);
                self.frame_sent_bytes = sent_bytes + bytes;
                assert(self@ =~= rendered(start, url@, clip, pos, self@.entries[url@].proto));
            } else {
                draw(&mut entry.proto, clip, pos, buf);
                assert(self@ =~= touched(start, url@));
            }
        }
    }

    /// Whether covers are still being encoded.
    pub fn has_pending(&self) -> (r: bool)
        requires
            self.wf(),
        ensures
            r <==> exists|url: Seq<char>| self@.pending.contains(url),
    {
        let n = self.pending.len();
        proof {
            let all = self@.pending;
            if n == 0 {
                assert(all =~= Set::empty());
            } else {
                assert(all.contains(all.choose()));
            }
        }
        n > 0
    }

    /// The number of covers that are being encoded.
    pub fn pending_len(&self) -> (r: usize)
        requires
            self.wf(),
        ensures
            r == self@.pending.len(),
    {
        self.pending.len()
    }

    /// The number of encoded covers that the store holds.
    pub fn len(&self) -> (r: usize)
        requires
            self.wf(),
        ensures
            r == self@.entries.len(),
    {
        self.entries.len()
    }

    /// The number of covers encoded so far.
    pub fn encoded(&self) -> (r: usize)
        ensures
            r == self@.encoded,
    {
        self.encoded
    }

    /// The number of times that the covers were dropped.
    pub fn generation(&self) -> (r: u64)
        ensures
            r == self@.generation,
    {
        self.generation
    }

    /// The number of frames so far.
    pub fn frame(&self) -> (r: u64)
        ensures
            r == self@.frame,
    {
        self.frame
    }

    /// What the covers of the store are encoded for.
    pub fn key(&self) -> (r: Option<CellKey>)
        ensures
            r == self@.key,
    {
        self.key
    }

    /// The size of the cover of `url`, if there is one.
    pub fn cover_size(&self, url: &str) -> (r: Option<Size>)
        requires
            self.wf(),
        ensures
            match r {
                Some(size) => self@.entries.contains_key(url@) && size == shown_size(
                    self@.entries[url@].proto,
                ),
                None => !self@.entries.contains_key(url@),
            },
    {
        match self.entries.get(url) {
            Some(entry) => Some(size_of_shown(&entry.proto)),
            None => None,
        }
    }

    /// Whether the cover of `url`, if there is one, can be rendered at `pos` into `clip`.
    pub fn can_render(&self, url: &str, clip: Rect, pos: SignedPosition) -> (r: bool)
        requires
            self.wf(),
        ensures
            r == can_be_rendered(self@, url@, clip, pos),
    {
        match self.entries.get(url) {
            None => true,
            Some(entry) => {
                let size = size_of_shown(&entry.proto);
                let unsent = entry.kitty_id.is_some() && !entry.sent && is_on_screen(
                    size.height,
                    clip,
                    pos,
                );
                unsent && self.frame_sent_bytes > 0 && self.frame_sent_bytes as u128
                    + entry.bytes as u128 > TRANSMIT_BUDGET as u128 || is_drawable(
                    protocol_of_shown(&entry.proto),
                    size,
                    clip,
                    pos,
                )
            },
        }
    }

    /// The approximate memory that the entries take.
    fn total(&self) -> (r: u128)
        requires
            self.wf(),
        ensures
            r == total_bytes(self@.entries),
    {
        let mut total: u128 = 0;
        let mut i: usize = 0;
        let ghost items = self.entries.items@;
        proof {
            self.entries.lemma_view();
            assert(map_of(items.take(0)) =~= Map::empty());
        }
        while i < self.entries.items.len()
            invariant
                i <= items.len(),
                items == self.entries.items@,
                urls_of(items).no_duplicates(),
                total == total_bytes(map_of(items.take(i as int))),
                total <= i * usize::MAX,
            decreases items.len() - i,
        {
            let ghost k = i as int;
            proof {
                lemma_prefix_total(items, k);
                assert(i * usize::MAX <= usize::MAX * usize::MAX) by (nonlinear_arith)
                    requires
                        0 <= i <= usize::MAX,
                ;
                assert(usize::MAX * usize::MAX + usize::MAX <= u128::MAX) by (nonlinear_arith)
                    requires
                        usize::MAX <= 0xffff_ffff_ffff_ffff,
                ;
                assert((i + 1) * usize::MAX == i * usize::MAX + usize::MAX) by (nonlinear_arith);
            }
            total += self.entries.items[i].value.bytes as u128;
            i += 1;
        }
        assert(items.take(items.len() as int) =~= items);
        total
    }

    /// The index of the item of an entry that was used least recently, and not in this frame.
    fn index_of_oldest(&self) -> (r: Option<usize>)
        requires
            self.wf(),
        ensures
            match r {
                Some(i) => i < self.entries.items@.len() && oldest(
                    self@.entries,
                    self.frame,
                    self.entries.items@[i as int].url@,
                ),
                None => all_in_use(self@.entries, self.frame),
            },
    {
        let mut found: Option<usize> = None;
        let mut least: u64 = self.frame;
        let mut i: usize = 0;
        let ghost items = self.entries.items@;
        while i < self.entries.items.len()
            invariant
                i <= items.len(),
                items == self.entries.items@,
                least <= self.frame,
                match found {
                    Some(j) => j < i && items[j as int].value.last_used == least && least
                        < self.frame,
                    None => least == self.frame,
                },
                forall|j: int| 0 <= j < i ==> least <= (#[trigger] items[j]).value.last_used,
            decreases items.len() - i,
        {
            let used: u64 = self.entries.items[i].value.last_used;
            if used < least {
                found = Some(i);
                least = used;
            }
            i += 1;
        }
        proof {
            assert forall|url: Seq<char>| #[trigger]
                self.entries@.contains_key(url) implies self.entries@[url].last_used >= least by {
                let j = self.entries.lemma_url(url);
            }
            if let Some(j) = found {
                self.entries.lemma_item(j as int);
            }
        }
        found
    }

    /// Evicts covers that were not used recently, keeping at least `keep`.
    fn evict(&mut self, keep: usize)
        requires
            old(self).wf(),
        ensures
            final(self).wf(),
            exists|victims: Seq<Seq<char>>| #[trigger]
                eviction(old(self)@.entries, old(self)@.frame, keep as int, victims)
                    && final(self)@ == evicted(old(self)@, victims),
    {
        let ghost start = self@;
        let ghost mut victims: Seq<Seq<char>> = Seq::empty();
        proof {
            assert(without(start.entries, victims) =~= start.entries);
            assert(start.pending_deletes + released(start.entries, victims)
                =~= start.pending_deletes);
            assert(self@ =~= evicted(start, victims));
        }
        let mut total: u128 = self.total();
        while self.entries.len() > keep && (total > MEMORY_BUDGET as u128 || self.entries.len()
            > MAX_ENTRIES)
            invariant
                self.wf(),
                self@ == evicted(start, victims),
                evicted_in_turn(start.entries, start.frame, keep as int, victims),
                start.entries == old(self)@.entries,
                start == old(self)@,
                total == total_bytes(self@.entries),
            decreases self@.entries.len(),
        {
            proof {
                self.entries.lemma_len();
            }
            assert(over_limit(self@.entries, keep as int));
            let ghost before = self@;
            match self.index_of_oldest() {
                None => {
                    assert(eviction(start.entries, start.frame, keep as int, victims));
                    return ;
                },
                Some(i) => {
                    let url: String = self.entries.items[i].url.clone();
                    assert(evicts(before.entries, start.frame, keep as int, url@));
                    proof {
                        lemma_total_bytes(before.entries, url@);
                        lemma_evict_one(start, keep as int, victims, url@);
                        assert(before.entries.remove(url@).dom() =~= before.entries.dom().remove(
                            url@,
                        ));
                    }
                    if let Some(entry) = self.entries.remove(url.as_str()) {
                        total -= entry.bytes as u128;
                        if let Some(id) = entry.kitty_id {
                            self.pending_deletes.push(id);
                        }
                    }
                    proof {
                        assert(self@ =~= evicted(start, victims.push(url@)));
                        victims = victims.push(url@);
                    }
                },
            }
        }
        proof {
            self.entries.lemma_len();
            assert(eviction(start.entries, start.frame, keep as int, victims));
        }
    }

    /// Tells the terminal which images to forget, by the cell at `anchor`.
    fn flush_deletes(&mut self, buf: &mut ratatui::buffer::Buffer, anchor: Position, tmux: bool)
        requires
            old(self).wf(),
        ensures
            final(self).wf(),
            final(self)@ == flushed(old(self)@, *old(buf), anchor),
            screen_flushed(old(self)@, *old(buf), anchor, tmux, *final(buf)),
    {
        let ghost start = self@;
        if self.pending_deletes.len() == 0 {
            return ;
        }
        if let Some(text) = symbol_at(buf, anchor.x, anchor.y) {
            let mut symbol = String::new();
            let mut i: usize = 0;
            let ghost ids = self.pending_deletes@;
            assert(ids.take(0) =~= Seq::empty());
            while i < self.pending_deletes.len()
                invariant
                    i <= ids.len(),
                    ids == self.pending_deletes@,
                    symbol@ == delete_commands(ids.take(i as int), tmux),
                decreases ids.len() - i,
            {
                let command = kitty_delete(self.pending_deletes[i], tmux);
                symbol.append(command.as_str());
                proof {
                    assert(ids.take(i + 1).drop_last() =~= ids.take(i as int));
                }
                i += 1;
            }
            assert(ids.take(ids.len() as int) =~= ids);
            symbol.append(text.as_str());
            // the commands take no room on the screen, so the cell keeps the width of one column
            set_symbol_at(buf, anchor.x, anchor.y, symbol.as_str());
            self.pending_deletes.clear();
            assert(self@ =~= flushed(start, *old(buf), anchor));
        }
    }

    /// Finishes a frame: evicts covers that were not used recently, keeping at least `keep`, and
    /// tells the terminal to forget the images of dropped covers, by the cell at `anchor`.
    pub fn end_frame(
        &mut self,
        buf: &mut ratatui::buffer::Buffer,
        anchor: Position,
        keep: usize,
        tmux: bool,
    )
        requires
            old(self).wf(),
        ensures
            final(self).wf(),
            exists|victims: Seq<Seq<char>>| #[trigger]
                eviction(old(self)@.entries, old(self)@.frame, keep as int, victims) && {
                    let s = evicted(old(self)@, victims);
                    &&& final(self)@ == flushed(s, *old(buf), anchor)
                    &&& screen_flushed(s, *old(buf), anchor, tmux, *final(buf))
                },
    {
        self.evict(keep);
        self.flush_deletes(buf, anchor, tmux);
    }
}

/// One cover more is evicted.
proof fn lemma_evict_one(s: StoreView, keep: int, victims: Seq<Seq<char>>, url: Seq<char>)
    requires
        evicted_in_turn(s.entries, s.frame, keep, victims),
        evicts(without(s.entries, victims), s.frame, keep, url),
    ensures
        evicted_in_turn(s.entries, s.frame, keep, victims.push(url)),
        without(s.entries, victims.push(url)) == without(s.entries, victims).remove(url),
        released(s.entries, victims.push(url)) == match s.entries[url].kitty_id {
            Some(id) => released(s.entries, victims).push(id),
            None => released(s.entries, victims),
        },
        s.entries[url] == without(s.entries, victims)[url],
{
    let more = victims.push(url);
    assert(more.drop_last() =~= victims);
    lemma_without_push(s.entries, victims, url);
    assert forall|i: int| 0 <= i < more.len() implies evicts(
        without(s.entries, more.take(i)),
        s.frame,
        keep,
        #[trigger] more[i],
    ) by {
        assert(more.take(i) =~= victims.take(i));
        if i == victims.len() {
            assert(more.take(i) =~= victims);
        } else {
            assert(more[i] == victims[i]);
        }
    }
}

/// The memory of the items up to `k`, with that of item `k` added.
proof fn lemma_prefix_total(items: Seq<Item<CoverEntry>>, k: int)
    requires
        urls_of(items).no_duplicates(),
        0 <= k < items.len(),
    ensures
        total_bytes(map_of(items.take(k + 1))) == total_bytes(map_of(items.take(k)))
            + items[k].value.bytes,
{
    let (before, after) = (items.take(k), items.take(k + 1));
    assert(urls_of(before) =~= urls_of(items).take(k));
    assert(after =~= before.push(items[k]));
    let url = items[k].url@;
    assert(!map_of(before).contains_key(url)) by {
        if urls_of(before).contains(url) {
            let j = urls_of(before).index_of(url);
            assert(urls_of(items)[j] == urls_of(items)[k]);
        }
    }
    lemma_map_of_push(before, items[k]);
    assert(map_of(after).dom().finite()) by {
        vstd::seq_lib::seq_to_set_is_finite(urls_of(after));
        assert(map_of(after).dom() =~= urls_of(after).to_set());
    }
    lemma_total_bytes(map_of(after), url);
    assert(map_of(after).remove(url) =~= map_of(before));
}

} // verus!
