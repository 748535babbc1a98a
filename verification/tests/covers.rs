use image::DynamicImage;
use playlist_covers::cover_model::{MAX_ENTRIES, TRANSMIT_BUDGET};
use playlist_covers::covers::{first_kitty_id, CoverRequest, CoverStore};
use playlist_covers::draw::SignedPosition;
use playlist_covers::encode::{
    encode, is_encodable, CellKey, Cover, EncodeError, Encoded, FontSize, Job, ProtocolType,
    MAX_STRETCH,
};
use playlist_covers::kitty::kitty_delete;
use playlist_covers::screen::{Position, Rect, Size};
use playlist_covers::snapshot::{kitty_snapshot, kitty_transmits};
use ratatui::buffer::Buffer;
use ratatui_image::picker::{Picker, ProtocolType as Outside};

const SIZE: Size = Size { width: 4, height: 3 };
const SECOND: u128 = 1_000_000_000;

#[allow(deprecated)]
fn picker(protocol: Outside) -> Picker {
    let mut picker = Picker::from_fontsize((8, 16).into());
    picker.set_protocol_type(protocol);
    picker
}

fn kitty() -> Picker {
    picker(Outside::Kitty)
}

fn halfblocks() -> Picker {
    picker(Outside::Halfblocks)
}

fn picture() -> DynamicImage {
    let mut img = image::RgbaImage::new(40, 60);
    for (x, y, p) in img.enumerate_pixels_mut() {
        *p = image::Rgba([x as u8, y as u8, 7, 255]);
    }
    DynamicImage::ImageRgba8(img)
}

fn job(generation: u64, url: &str, picker: Picker, protocol: ProtocolType, kitty_id: u32) -> Job {
    let key = CellKey { size: SIZE, font_size: FontSize { width: 8, height: 16 }, protocol };
    Job { generation, url: url.to_string(), key, picker, kitty_id }
}

fn cover(id: u32) -> Cover {
    let job = job(0, "", kitty(), ProtocolType::Kitty, id);
    match encode(&job, &picture(), false) {
        Ok(done) => done.0,
        Err(_) => panic!("not encoded"),
    }
}

fn done(store: &CoverStore, url: &str, id: u32, bytes: usize) -> Encoded {
    Encoded {
        generation: store.generation(),
        url: url.to_string(),
        kitty_id: id,
        result: Ok(Some((cover(id), bytes))),
    }
}

/// A store in its first frame.
fn started(picker: &Picker) -> CoverStore {
    let mut store = CoverStore::default();
    let start = store.begin_frame(picker, SIZE, Vec::new());
    assert!(start.start_encoder && start.failures.is_empty());
    store
}

fn screen() -> Buffer {
    Buffer::empty(ratatui::layout::Rect::new(0, 0, 20, 10))
}

const CLIP: Rect = Rect { x: 0, y: 0, width: 20, height: 10 };

fn at(x: i16, y: i16) -> SignedPosition {
    SignedPosition { x, y }
}

fn ids_in(symbol: &str) -> Vec<u32> {
    symbol.split("i=").skip(1).map(|s| s.split(',').next().unwrap().parse().unwrap()).collect()
}

#[test]
fn first_numbers() {
    assert_eq!(first_kitty_id(0), 1);
    assert_eq!(first_kitty_id(0x00ef_ffff), 0x00f0_0000);
    assert_eq!(first_kitty_id(0x00f0_0000), 1);
    assert_eq!(first_kitty_id(u32::MAX), u32::MAX % 0x00f0_0000 + 1);
}

#[test]
fn covers_for_kitty() {
    let job = job(3, "u", kitty(), ProtocolType::Kitty, 77);
    assert!(is_encodable(&job, &picture()));
    assert!(job.is_current(3) && !job.is_current(4));
    let done = job.run(Some(&picture()), false);
    assert_eq!((done.generation, done.url.as_str(), done.kitty_id), (3, "u", 77));
    match done.result {
        Ok(Some((p, bytes))) => {
            assert_eq!(p.protocol(), ProtocolType::Kitty);
            assert_eq!(p.size(), SIZE);
            // 32 by 48 pixels in base64
            assert_eq!(bytes, 32 * 48 * 4 / 3 * 4);
        }
        _ => panic!("not encoded"),
    }
}

#[test]
fn covers_for_halfblocks() {
    let job = job(0, "u", halfblocks(), ProtocolType::Halfblocks, 77);
    assert!(is_encodable(&job, &picture()));
    match job.run(Some(&picture()), false).result {
        Ok(Some((p, bytes))) => {
            assert_eq!(p.protocol(), ProtocolType::Halfblocks);
            assert_eq!(p.size(), SIZE);
            assert_eq!(bytes, 32 * 48 * 4);
        }
        _ => panic!("not encoded"),
    }
}

#[test]
fn missing_and_unfit_images() {
    let given = job(0, "u", kitty(), ProtocolType::Kitty, 1);
    assert!(matches!(given.run(None, false).result, Ok(None)));
    let mut large = job(0, "u", kitty(), ProtocolType::Kitty, 1);
    large.key.size = Size { width: 65535, height: 65535 };
    large.key.font_size = FontSize { width: 65535, height: 65535 };
    assert!(!is_encodable(&large, &picture()));
    let other = picker(Outside::Iterm2);
    let mut flat = job(0, "u", other, ProtocolType::Iterm2, 1);
    flat.key.size = Size { width: 0, height: 3 };
    assert!(!is_encodable(&flat, &picture()));
    let mut wide = job(0, "u", kitty(), ProtocolType::Kitty, 1);
    wide.key.size = Size { width: 65535, height: 1 };
    wide.key.font_size = FontSize { width: 33, height: 1 };
    assert!(65535 * 33 > MAX_STRETCH && !is_encodable(&wide, &picture()));
    wide.key.font_size = FontSize { width: 32, height: 1 };
    assert!(is_encodable(&wide, &picture()));
    let long = DynamicImage::new_luma8(MAX_STRETCH + 1, 1);
    assert!(!is_encodable(&job(0, "u", kitty(), ProtocolType::Kitty, 1), &long));
    let long = DynamicImage::new_luma8(1, MAX_STRETCH);
    assert!(is_encodable(&job(0, "u", kitty(), ProtocolType::Kitty, 1), &long));
}

fn other(protocol: Outside, key: ProtocolType, size: Size) -> Job {
    let mut job = job(0, "u", picker(protocol), key, 1);
    job.key.size = size;
    job
}

#[test]
fn only_halfblocks_count_their_cells() {
    let large = Size { width: 300, height: 300 };
    assert!(is_encodable(&other(Outside::Sixel, ProtocolType::Sixel, large), &picture()));
    assert!(is_encodable(&other(Outside::Iterm2, ProtocolType::Iterm2, large), &picture()));
    assert!(!is_encodable(&other(Outside::Halfblocks, ProtocolType::Halfblocks, large), &picture()));
}

#[test]
fn sixel_covers_show_a_cell_at_least() {
    for (width, height) in [(4, 3), (0, 3), (4, 0), (0, 0)] {
        let size = Size { width, height };
        let job = other(Outside::Sixel, ProtocolType::Sixel, size);
        assert!(is_encodable(&job, &picture()));
        match job.run(Some(&picture()), false).result {
            Ok(Some((p, bytes))) => {
                assert_eq!(p.protocol(), ProtocolType::Sixel);
                assert_eq!(p.size(), Size { width: width.max(1), height: height.max(1) });
                assert_eq!(bytes, 8 * 16 * 4 * width as usize * height as usize);
            }
            _ => panic!("not encoded"),
        }
    }
}

#[test]
fn empty_covers_for_halfblocks() {
    for (width, height) in [(0, 3), (4, 0), (0, 0)] {
        let picker = halfblocks();
        let size = Size { width, height };
        let mut store = CoverStore::new();
        store.begin_frame(&picker, size, Vec::new());
        let job = match store.request(true, 0, &picker, "a", 9) {
            CoverRequest::Encode(job) => job,
            _ => panic!("no job"),
        };
        assert!(is_encodable(&job, &picture()));
        store.job_queued("a");
        let results = vec![job.run(Some(&picture()), false)];
        let start = store.begin_frame(&picker, size, results);
        assert!(start.failures.is_empty());
        assert_eq!(store.cover_size("a"), Some(size));
        for pos in [at(0, 0), at(3, 2), at(20, 1), at(-1, -1)] {
            assert!(store.can_render("a", CLIP, pos));
            let mut buf = screen();
            store.render(&mut buf, "a", CLIP, pos);
            assert_eq!(buf, screen());
        }
    }
}

#[test]
fn halfblocks_at_the_edge_draw_nothing() {
    let picker = halfblocks();
    let mut store = started(&picker);
    let results = vec![job(1, "a", halfblocks(), ProtocolType::Halfblocks, 1).run(Some(&picture()), false)];
    store.begin_frame(&picker, SIZE, results);
    assert!(store.can_render("a", CLIP, at(20, 0)));
    assert!(!store.can_render("a", CLIP, at(21, 0)));
    let mut buf = screen();
    store.render(&mut buf, "a", CLIP, at(20, 0));
    assert_eq!(buf, screen());
}

#[test]
fn nothing_is_sent_without_a_screen() {
    let picker = kitty();
    let mut store = started(&picker);
    let results = vec![done(&store, "a", 7, 100)];
    store.begin_frame(&picker, SIZE, results);
    let mut buf = screen();
    let empty = Rect { x: 0, y: 0, width: 0, height: 10 };
    store.render(&mut buf, "a", empty, at(0, 0));
    let flat = Rect { x: 0, y: 0, width: 20, height: 0 };
    store.render(&mut buf, "a", flat, at(0, -1));
    assert_eq!(buf, screen());
    // so the image goes out with the first row that shows
    store.render(&mut buf, "a", CLIP, at(0, 0));
    assert_eq!(kitty_transmits(&buf).0, 1);
    assert!(buf[(0, 0)].symbol().starts_with("\x1b_G"));
    let mut buf = screen();
    store.render(&mut buf, "a", CLIP, at(0, 0));
    assert_eq!(kitty_transmits(&buf).0, 0);
    assert!(buf[(0, 0)].symbol().starts_with("\x1b[s"));
}

#[test]
fn covers_for_other_protocols() {
    let picker = picker(Outside::Iterm2);
    let job = job(0, "u", picker, ProtocolType::Iterm2, 1);
    assert!(is_encodable(&job, &picture()));
    match job.run(Some(&picture()), false).result {
        Ok(Some((p, bytes))) => {
            assert_eq!(p.protocol(), ProtocolType::Iterm2);
            assert_eq!(p.size(), SIZE);
            assert_eq!(bytes, 32 * 48 * 4);
        }
        _ => panic!("not encoded"),
    }
}

#[test]
fn frames_take_in_results() {
    let picker = kitty();
    let mut store = started(&picker);
    let key = store.key().unwrap();
    assert_eq!((key.size, key.protocol), (SIZE, ProtocolType::Kitty));
    assert_eq!(key.font_size, FontSize { width: 8, height: 16 });
    assert_eq!(store.generation(), 1);
    store.job_queued("a");
    store.job_queued("b");
    store.job_queued("c");
    assert!(store.has_pending());
    assert_eq!(store.pending_len(), 3);
    let none = Encoded { generation: 1, url: "b".to_string(), kitty_id: 2, result: Ok(None) };
    let error = EncodeError::Cover(ratatui_image::errors::Errors::NoCap);
    let failed = Encoded { generation: 1, url: "c".to_string(), kitty_id: 3, result: Err(error) };
    let stale = Encoded { generation: 0, url: "d".to_string(), kitty_id: 4, result: Ok(Some((cover(4), 1))) };
    let results = vec![done(&store, "a", 1, 100), none, failed, stale];
    let start = store.begin_frame(&picker, SIZE, results);
    assert!(!start.start_encoder);
    assert_eq!(start.failures.len(), 1);
    assert_eq!(start.failures[0].url, "c");
    assert!(matches!(start.failures[0].error, EncodeError::Cover(ratatui_image::errors::Errors::NoCap)));
    assert!(!store.has_pending());
    assert_eq!((store.len(), store.encoded(), store.generation()), (1, 1, 1));
    assert_eq!(store.cover_size("a"), Some(SIZE));
    assert_eq!(store.cover_size("b"), None);
    assert_eq!(store.cover_size("d"), None);
    // a cover that failed is not tried again until the covers are dropped
    assert!(matches!(store.request(true, 0, &picker, "c", 9), CoverRequest::Nothing));
    assert!(matches!(store.request(true, 0, &picker, "b", 9), CoverRequest::Encode(_)));
    store.clear();
    assert!(matches!(store.request(true, 0, &picker, "c", 9), CoverRequest::Encode(_)));
}

#[test]
fn a_new_size_drops_the_covers() {
    let picker = kitty();
    let mut store = started(&picker);
    let results = vec![done(&store, "a", 5, 100), done(&store, "b", 6, 100)];
    store.begin_frame(&picker, SIZE, results);
    assert_eq!((store.len(), store.generation()), (2, 1));
    let other = Size { width: 5, height: 3 };
    let late = vec![done(&store, "c", 7, 100)];
    store.begin_frame(&picker, other, late);
    assert_eq!((store.len(), store.generation()), (0, 2));
    assert_eq!(store.key().unwrap().size, other);
    store.begin_frame(&halfblocks(), other, Vec::new());
    assert_eq!(store.generation(), 3);
    store.begin_frame(&halfblocks(), other, Vec::new());
    assert_eq!(store.generation(), 3);
    // the terminal is told to forget the dropped images, once
    let mut buf = screen();
    store.end_frame(&mut buf, Position { x: 0, y: 0 }, 0, false);
    let mut ids = ids_in(buf[(0, 0)].symbol());
    ids.sort();
    assert_eq!(ids, [5, 6]);
    let mut buf = screen();
    store.end_frame(&mut buf, Position { x: 0, y: 0 }, 0, false);
    assert_eq!(buf, screen());
}

#[test]
fn a_font_without_size_counts_as_one_pixel() {
    #[allow(deprecated)]
    let picker = Picker::from_fontsize((0, 16).into());
    let mut store = CoverStore::new();
    store.begin_frame(&picker, SIZE, Vec::new());
    assert_eq!(store.key().unwrap().font_size, FontSize { width: 1, height: 16 });
}

#[test]
fn requests() {
    let picker = kitty();
    let mut idle = CoverStore::new();
    assert!(matches!(idle.request(true, 0, &picker, "a", 9), CoverRequest::Nothing));
    let mut store = started(&picker);
    let (first, second) = match (store.request(true, 0, &picker, "a", 1), store.request(true, 0, &picker, "b", 1)) {
        (CoverRequest::Encode(a), CoverRequest::Encode(b)) => (a, b),
        _ => panic!("no jobs"),
    };
    assert_eq!((first.url.as_str(), first.generation), ("a", 1));
    assert_eq!(first.key, store.key().unwrap());
    assert!(first.kitty_id >= 1 && first.kitty_id <= 0x00f0_0000);
    assert_eq!(second.kitty_id, first.kitty_id + 1);
    // one job at a time, and each cover once
    store.job_queued("a");
    assert!(matches!(store.request(true, 0, &picker, "b", 1), CoverRequest::Nothing));
    assert!(matches!(store.request(true, 0, &picker, "a", 9), CoverRequest::Nothing));
    assert!(matches!(store.request(true, 0, &picker, "b", 2), CoverRequest::Encode(_)));
    let results = vec![first.run(Some(&picture()), false)];
    store.begin_frame(&picker, SIZE, results);
    assert!(matches!(store.request(true, 0, &picker, "a", 9), CoverRequest::Nothing));
    assert_eq!(store.encoded(), 1);
}

#[test]
fn missing_images_are_requested_again_after_a_while() {
    let picker = kitty();
    let mut store = started(&picker);
    assert!(matches!(store.request(false, 5 * SECOND, &picker, "a", 9), CoverRequest::LoadImage));
    assert!(matches!(store.request(false, 5 * SECOND, &picker, "a", 9), CoverRequest::Nothing));
    assert!(matches!(store.request(false, 5 * SECOND, &picker, "b", 9), CoverRequest::LoadImage));
    assert!(matches!(store.request(false, 15 * SECOND - 1, &picker, "a", 9), CoverRequest::Nothing));
    assert!(matches!(store.request(false, 3 * SECOND, &picker, "a", 9), CoverRequest::Nothing));
    assert!(matches!(store.request(false, 15 * SECOND, &picker, "a", 9), CoverRequest::LoadImage));
    assert!(matches!(store.request(false, 16 * SECOND, &picker, "a", 9), CoverRequest::Nothing));
    assert!(!store.has_pending());
}

#[test]
fn rendered_covers_can_be_read_back() {
    let picker = kitty();
    let mut store = started(&picker);
    let results = vec![done(&store, "a", 0x0102_0304, 100)];
    store.begin_frame(&picker, SIZE, results);
    let mut buf = screen();
    assert!(store.can_render("a", CLIP, at(2, -1)));
    store.render(&mut buf, "a", CLIP, at(2, -1));
    assert_eq!(kitty_snapshot(&buf), "  [#0 r1 w4]\n  [#0 r2 w4]\n\n\n\n\n\n\n\n\n");
    assert_eq!(kitty_transmits(&buf).0, 1);
    // the image is sent once
    let mut buf = screen();
    store.render(&mut buf, "a", CLIP, at(0, 8));
    assert_eq!(kitty_snapshot(&buf), "\n\n\n\n\n\n\n\n[#0 r0 w4]\n[#0 r1 w4]\n");
    assert_eq!(kitty_transmits(&buf), (0, 0));
    // what is not there is not drawn
    let mut buf = screen();
    store.render(&mut buf, "b", CLIP, at(0, 0));
    assert_eq!(buf, screen());
}

#[test]
fn halfblocks_are_drawn_at_once() {
    let picker = halfblocks();
    let mut store = started(&picker);
    let job = match store.request(true, 0, &picker, "a", 9) {
        CoverRequest::Encode(job) => job,
        _ => panic!("no job"),
    };
    store.job_queued("a");
    let results = vec![job.run(Some(&picture()), false)];
    store.begin_frame(&picker, SIZE, results);
    let mut buf = screen();
    store.render(&mut buf, "a", CLIP, at(1, 1));
    for y in 0..10u16 {
        for x in 0..20u16 {
            let inside = (1..5).contains(&x) && (1..4).contains(&y);
            assert_eq!(buf[(x, y)] != screen()[(x, y)], inside);
        }
    }
}

#[test]
fn a_frame_sends_no_more_than_its_budget() {
    let picker = kitty();
    let mut store = started(&picker);
    let half = TRANSMIT_BUDGET / 2;
    let results = vec![
        done(&store, "big", 1, 2 * TRANSMIT_BUDGET),
        done(&store, "a", 2, half),
        done(&store, "b", 3, half),
        done(&store, "c", 4, 1),
    ];
    store.begin_frame(&picker, SIZE, results);
    // a cover above the budget goes through, alone
    let mut buf = screen();
    store.render(&mut buf, "big", CLIP, at(0, 0));
    store.render(&mut buf, "a", CLIP, at(5, 0));
    assert_eq!(kitty_transmits(&buf).0, 1);
    assert_eq!(kitty_snapshot(&buf).matches("[#").count(), 3);
    // a cover that is held back is not drawn, wherever it would be
    assert!(store.can_render("a", CLIP, at(25, 0)) && !store.can_render("big", CLIP, at(25, 0)));
    store.render(&mut buf, "a", CLIP, at(25, 0));
    // the next frame takes two more, and not the third
    store.begin_frame(&picker, SIZE, Vec::new());
    let mut buf = screen();
    store.render(&mut buf, "big", CLIP, at(0, 0));
    // what is off the screen is not sent
    store.render(&mut buf, "a", CLIP, at(5, 10));
    store.render(&mut buf, "a", CLIP, at(5, -3));
    store.render(&mut buf, "a", CLIP, at(5, 0));
    store.render(&mut buf, "b", CLIP, at(10, 0));
    store.render(&mut buf, "c", CLIP, at(15, 0));
    assert_eq!(kitty_transmits(&buf).0, 2);
    assert_eq!(kitty_snapshot(&buf).matches("[#").count(), 9);
    store.begin_frame(&picker, SIZE, Vec::new());
    let mut buf = screen();
    store.render(&mut buf, "c", CLIP, at(15, 0));
    assert_eq!(kitty_transmits(&buf).0, 1);
}

#[test]
fn places_that_cannot_be_drawn() {
    let picker = kitty();
    let mut store = started(&picker);
    let results = vec![done(&store, "a", 1, 100)];
    store.begin_frame(&picker, SIZE, results);
    assert!(store.can_render("a", CLIP, at(19, 0)));
    assert!(!store.can_render("a", CLIP, at(20, 0)));
    assert!(store.can_render("a", CLIP, at(20, 10)));
    assert!(!store.can_render("a", CLIP, at(0, i16::MAX)));
    assert!(!store.can_render("a", CLIP, at(0, i16::MIN)));
    assert!(store.can_render("b", CLIP, at(20, 0)));
    let empty = Rect { x: 0, y: 0, width: 0, height: 5 };
    assert!(store.can_render("a", empty, at(3, 3)));
    let mut buf = screen();
    store.render(&mut buf, "a", empty, at(3, 3));
    assert_eq!(buf, screen());
}

#[test]
fn the_least_recently_used_covers_are_evicted() {
    let picker = kitty();
    let mut store = started(&picker);
    let quarter = 50 * 1024 * 1024;
    // one cover to a frame, the fourth in use
    for (i, url) in ["a", "b", "c", "d"].iter().enumerate() {
        let results = vec![done(&store, url, 10 + i as u32, quarter)];
        store.begin_frame(&picker, SIZE, results);
    }
    assert!(matches!(store.request(true, 0, &picker, "a", 9), CoverRequest::Nothing));
    let mut buf = screen();
    buf[(3, 2)].set_symbol("x");
    let anchor = Position { x: 3, y: 2 };
    let before = kitty_snapshot(&buf);
    store.end_frame(&mut buf, anchor, 0, false);
    // two have to go: the oldest that are not in use
    assert_eq!(store.len(), 2);
    assert!(store.cover_size("a").is_some() && store.cover_size("d").is_some());
    assert_eq!(buf[(3, 2)].symbol(), kitty_delete(11, false) + &kitty_delete(12, false) + "x");
    assert_eq!(kitty_snapshot(&buf), before);
}

#[test]
fn covers_in_use_and_those_to_keep_stay() {
    let picker = kitty();
    let mut store = started(&picker);
    let large = 100 * 1024 * 1024;
    let results = vec![done(&store, "a", 1, large), done(&store, "b", 2, large), done(&store, "c", 3, large)];
    store.begin_frame(&picker, SIZE, results);
    let mut buf = screen();
    store.end_frame(&mut buf, Position { x: 0, y: 0 }, 0, false);
    assert_eq!(store.len(), 3);
    store.begin_frame(&picker, SIZE, Vec::new());
    store.end_frame(&mut buf, Position { x: 0, y: 0 }, 3, false);
    assert_eq!(store.len(), 3);
    assert_eq!(buf, screen());
    store.end_frame(&mut buf, Position { x: 0, y: 0 }, 2, true);
    assert_eq!(store.len(), 2);
    assert!(buf[(0, 0)].symbol().starts_with("\x1bPtmux;"));
    // without a cell to tell it by, the terminal is told later
    let mut buf = screen();
    store.end_frame(&mut buf, Position { x: 20, y: 0 }, 0, false);
    assert_eq!(store.len(), 1);
    assert_eq!(buf, screen());
    store.end_frame(&mut buf, Position { x: 19, y: 9 }, 0, false);
    assert_eq!(ids_in(buf[(19, 9)].symbol()).len(), 1);
}

#[test]
fn the_number_of_covers_is_limited() {
    let picker = kitty();
    let mut store = started(&picker);
    let n = MAX_ENTRIES + 8;
    for i in 0..n {
        let encoded = done(&store, &format!("u{i}"), i as u32, 1);
        assert!(store.collect(encoded).is_none());
    }
    assert_eq!(store.len(), n);
    store.begin_frame(&picker, SIZE, Vec::new());
    let mut buf = screen();
    store.end_frame(&mut buf, Position { x: 0, y: 0 }, n, false);
    assert_eq!(store.len(), n);
    store.end_frame(&mut buf, Position { x: 0, y: 0 }, 0, false);
    assert_eq!(store.len(), MAX_ENTRIES);
    assert_eq!(ids_in(buf[(0, 0)].symbol()).len(), 8);
}

#[test]
fn the_terminal_is_told_the_numbers_it_knows() {
    let picker = kitty();
    let mut store = started(&picker);
    let job = match store.request(true, 0, &picker, "a", 9) {
        CoverRequest::Encode(job) => job,
        _ => panic!("no job"),
    };
    let id = job.kitty_id;
    store.job_queued("a");
    assert!(store.collect(job.run(Some(&picture()), false)).is_none());
    assert!(!store.has_pending());
    let mut buf = screen();
    store.render(&mut buf, "a", CLIP, at(0, 0));
    let color = format!("\x1b[38;2;{};{};{}m", id >> 16 & 0xff, id >> 8 & 0xff, id & 0xff);
    assert!(buf[(0, 0)].symbol().contains(&color));
    assert!(buf[(0, 0)].symbol().contains(&format!("i={id},")));
    store.clear();
    let mut buf = screen();
    store.end_frame(&mut buf, Position { x: 0, y: 0 }, 0, false);
    assert_eq!(buf[(0, 0)].symbol(), kitty_delete(id, false) + " ");
}

#[test]
fn failures_are_handed_back() {
    let picker = kitty();
    let mut store = started(&picker);
    store.job_queued("a");
    let error = EncodeError::KittyCover(ratatui_image::errors::Errors::NoFontSize);
    let failed = Encoded { generation: 1, url: "a".to_string(), kitty_id: 1, result: Err(error) };
    let failure = store.collect(failed).unwrap();
    assert_eq!(failure.url, "a");
    assert!(matches!(failure.error, EncodeError::KittyCover(ratatui_image::errors::Errors::NoFontSize)));
    assert_eq!((store.len(), store.pending_len(), store.encoded()), (0, 0, 0));
    let error = EncodeError::Cover(ratatui_image::errors::Errors::NoCap);
    let stale = Encoded { generation: 0, url: "b".to_string(), kitty_id: 1, result: Err(error) };
    assert!(store.collect(stale).is_none());
    assert!(matches!(store.request(true, 0, &picker, "b", 9), CoverRequest::Encode(_)));
}

#[test]
fn frames_are_counted() {
    let picker = kitty();
    let mut store = CoverStore::new();
    assert_eq!((store.frame(), store.generation(), store.key()), (0, 0, None));
    for n in 1..4 {
        store.begin_frame(&picker, SIZE, Vec::new());
        assert_eq!(store.frame(), n);
    }
}

#[test]
fn covers_within_the_limits_stay() {
    let picker = kitty();
    let mut store = started(&picker);
    let urls = ["a", "b", "c"];
    for round in 0..20usize {
        let mut results = Vec::new();
        for url in urls {
            if let CoverRequest::Encode(job) = store.request(true, 0, &picker, url, 9) {
                store.job_queued(url);
                results.push(job.run(Some(&picture()), false));
            }
        }
        assert_eq!(results.len(), if round == 0 { 3 } else { 0 });
        let mut buf = screen();
        store.end_frame(&mut buf, Position { x: 0, y: 0 }, 0, false);
        assert_eq!(buf, screen());
        store.begin_frame(&picker, SIZE, results);
        assert_eq!((store.encoded(), store.len()), (3, 3));
    }
}

#[test]
fn telling_the_terminal_keeps_the_style() {
    let picker = kitty();
    let mut store = started(&picker);
    let results = vec![done(&store, "a", 7, 100)];
    store.begin_frame(&picker, SIZE, results);
    store.clear();
    let mut buf = screen();
    let style = ratatui::style::Style::new()
        .fg(ratatui::style::Color::Red)
        .bg(ratatui::style::Color::Blue)
        .underline_color(ratatui::style::Color::Green)
        .add_modifier(ratatui::style::Modifier::UNDERLINED | ratatui::style::Modifier::REVERSED);
    buf[(2, 1)].set_symbol("x").set_style(style);
    let mut expected = buf.clone();
    store.end_frame(&mut buf, Position { x: 2, y: 1 }, 0, false);
    let width = ratatui::buffer::CellDiffOption::ForcedWidth(std::num::NonZeroU16::MIN);
    expected[(2, 1)].set_symbol(&format!("{}x", kitty_delete(7, false))).set_diff_option(width);
    assert_eq!(buf, expected);
}
