use image::DynamicImage;
use playlist_covers::covers::{CoverRequest, CoverStore};
use playlist_covers::draw::SignedPosition;
use playlist_covers::encode::{Encoded, Job};
use playlist_covers::fixtures::{cover_image, cover_url, N_PLAYLISTS};
use playlist_covers::grid::GridLayout;
use playlist_covers::scenario::{next_step, Loaded, PassStats, Step, WIDE};
use playlist_covers::screen::{Position, Rect, Size};
use playlist_covers::snapshot::kitty_transmits;
use ratatui::buffer::Buffer;
use ratatui_image::picker::{Picker, ProtocolType};

fn hsl(h: f32, s: f32, l: f32) -> [u8; 3] {
    let c = (1.0 - (2.0 * l - 1.0).abs()) * s;
    let hp = h / 60.0;
    let x = c * (1.0 - (hp % 2.0 - 1.0).abs());
    let (r, g, b) = match hp as u32 {
        0 => (c, x, 0.0),
        1 => (x, c, 0.0),
        2 => (0.0, c, x),
        3 => (0.0, x, c),
        4 => (x, 0.0, c),
        _ => (c, 0.0, x),
    };
    let m = l - c / 2.0;
    [r, g, b].map(|v: f32| ((v + m) * 255.0).round() as u8)
}

fn cover(i: usize) -> DynamicImage {
    let hue = i as f32 * 360.0 / N_PLAYLISTS as f32;
    let mut bands = [[0; 3]; 16];
    for (band, color) in bands.iter_mut().enumerate() {
        let light = 0.30 + band as f32 * 0.03;
        *color = hsl(hue, 0.7, light);
    }
    let canvas = cover_image(i, &bands);
    let (width, height) = (canvas.width(), canvas.height());
    let img = image::RgbaImage::from_raw(width, height, canvas.into_bytes()).unwrap();
    DynamicImage::ImageRgb8(DynamicImage::ImageRgba8(img).to_rgb8())
}

#[test]
fn every_playlist_has_a_hue_of_its_own() {
    let corners: Vec<[u8; 3]> =
        (0..N_PLAYLISTS).map(|i| cover(i).to_rgb8().get_pixel(0, 0).0).collect();
    for i in 0..N_PLAYLISTS {
        for j in 0..i {
            assert_ne!(corners[i], corners[j]);
        }
    }
}

/// A page that shows the covers of a store, two of which are encoded between frames.
struct Harness {
    store: CoverStore,
    picker: Picker,
    layout: GridLayout,
    images: Vec<Option<DynamicImage>>,
    jobs: Vec<Job>,
    results: Vec<Encoded>,
    load_requests: Vec<String>,
    scroll_offset: i32,
    now: u128,
}

impl Harness {
    fn new(protocol: ProtocolType, n_playlists: usize, loaded: Loaded) -> Self {
        #[allow(deprecated)]
        let mut picker = Picker::from_fontsize((8, 16).into());
        picker.set_protocol_type(protocol);
        let inner = Rect { x: 0, y: 0, width: WIDE.0, height: WIDE.1 };
        let cols = GridLayout::columns(inner, 33);
        let rows = (f32::from(cols) * 0.5).round() as u16;
        Self {
            store: CoverStore::default(),
            picker,
            layout: GridLayout::new(inner, 33, rows),
            images: (0..n_playlists).map(|i| if loaded.includes(i) { Some(cover(i)) } else { None }).collect(),
            jobs: Vec::new(),
            results: Vec::new(),
            load_requests: Vec::new(),
            scroll_offset: 0,
            now: 0,
        }
    }

    fn index_of(&self, url: &str) -> usize {
        (0..self.images.len()).find(|i| cover_url(*i) == url).unwrap()
    }

    fn request(&mut self, i: usize) {
        let url = cover_url(i);
        let cached = self.images[i].is_some();
        match self.store.request(cached, self.now, &self.picker, &url, 16) {
            CoverRequest::Nothing => {}
            CoverRequest::LoadImage => self.load_requests.push(url),
            CoverRequest::Encode(job) => {
                self.jobs.push(job);
                self.store.job_queued(&url);
            }
        }
    }

    fn draw(&mut self) -> Buffer {
        self.now += 32_000_000;
        for job in self.jobs.drain(..2.min(self.jobs.len())).collect::<Vec<_>>() {
            let image = self.images[self.index_of(&job.url)].as_ref();
            self.results.push(job.run(image, false));
        }
        let results = std::mem::take(&mut self.results);
        let size = Size { width: self.layout.img_cols, height: self.layout.img_rows };
        let start = self.store.begin_frame(&self.picker, size, results);
        assert!(start.failures.is_empty());

        let mut buf = Buffer::empty(ratatui::layout::Rect::new(0, 0, WIDE.0, WIDE.1));
        let clip = Rect { x: 0, y: 0, width: WIDE.0, height: WIDE.1 };
        let visible: Vec<(usize, i32)> = (0..self.images.len())
            .map(|i| (i, (i / self.layout.items_per_row) as i32 * i32::from(self.layout.item_height)))
            .map(|(i, top)| (i, top - self.scroll_offset))
            .filter(|(_, y)| *y < i32::from(WIDE.1) && *y + i32::from(self.layout.item_height) > 0)
            .collect();
        for (i, _) in &visible {
            self.request(*i);
        }
        for (i, y) in &visible {
            let column = (i % self.layout.items_per_row) as u16;
            let x = self.layout.left_margin + column * self.layout.item_width;
            let pos = SignedPosition { x: x as i16, y: *y as i16 };
            assert!(self.store.can_render(&cover_url(*i), clip, pos));
            self.store.render(&mut buf, &cover_url(*i), clip, pos);
        }
        self.store.end_frame(&mut buf, Position { x: 0, y: 0 }, 0, false);
        buf
    }

    fn settle(&mut self) -> Vec<Buffer> {
        let mut frames: Vec<Buffer> = Vec::new();
        loop {
            let buf = self.draw();
            let stable = frames.last().is_some_and(|prev| *prev == buf);
            frames.push(buf);
            match next_step(stable, true, self.store.has_pending(), frames.len() < 500) {
                Step::Done => return frames,
                Step::Again => {}
                Step::TimedOut => panic!("playlists page did not settle"),
            }
        }
    }

    fn animate_to(&mut self, target: i32, prev: &mut Buffer) -> PassStats {
        let mut stats = PassStats::new();
        loop {
            let gap = (target - self.scroll_offset).clamp(-7, 7);
            self.scroll_offset += gap;
            let buf = self.draw();
            let written: usize = prev.diff(&buf).iter().map(|(_, _, c)| c.symbol().len()).sum();
            let (transmits, graphics_bytes) = kitty_transmits(&buf);
            stats.record(transmits, graphics_bytes, written, 0);
            let resting = self.scroll_offset == target;
            let step = next_step(*prev == buf, resting, self.store.has_pending(), stats.frames < 500);
            *prev = buf;
            match step {
                Step::Done => return stats,
                Step::Again => {}
                Step::TimedOut => panic!("scroll animation did not finish"),
            }
        }
    }
}

#[test]
fn playlists_page_scroll_perf() {
    const N: usize = 120;
    let mut h = Harness::new(ProtocolType::Kitty, N, Loaded::All);
    let frames = h.settle();
    let initial_transmits: usize = frames.iter().map(|b| kitty_transmits(b).0).sum();
    let mut prev = frames.last().unwrap().clone();
    let rows = 6 * i32::from(h.layout.item_height);
    h.load_requests.clear();

    let down = h.animate_to(rows, &mut prev);
    let up = h.animate_to(0, &mut prev);
    let load_requests = h.load_requests.len();

    println!(
        "LoadImage requests while scrolling: {load_requests}, covers encoded: {}",
        h.store.encoded()
    );
    assert!(down.transmits > 0);
    assert!(
        h.store.encoded() <= N,
        "covers were encoded more than once: {} encodes for {N} covers",
        h.store.encoded()
    );
    let transmits = initial_transmits + down.transmits + up.transmits;
    assert!(
        transmits <= N,
        "covers were sent to the terminal more than once ({transmits} transmits for {N} covers)"
    );
    assert_eq!(
        up.transmits, 0,
        "scrolling back over seen rows re-sent covers"
    );
    assert_eq!(load_requests, 0, "all images were already loaded");
}

#[test]
fn playlists_page_requests_missing_images_once() {
    let mut h = Harness::new(ProtocolType::Kitty, N_PLAYLISTS, Loaded::NotEveryThird);
    for _ in 0..30 {
        h.draw();
    }
    let mut urls: Vec<String> = h.load_requests.drain(..).collect();
    let requests = urls.len();
    urls.sort();
    urls.dedup();
    assert!(requests > 0, "missing images were never requested");
    assert_eq!(
        requests,
        urls.len(),
        "some images were requested repeatedly"
    );
}
