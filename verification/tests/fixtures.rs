use playlist_covers::canvas::Rgba;
use playlist_covers::fixtures::{cover_image, cover_url, playlist, playlist_name, N_PLAYLISTS};

#[test]
fn names_and_urls() {
    assert_eq!(playlist_name(0), "Rock Mix 00");
    assert_eq!(playlist_name(1), "Jazz Mix 01");
    assert_eq!(playlist_name(7), "Lo-Fi Mix 07");
    assert_eq!(playlist_name(13), "A Very Long Playlist Name That Overflows The Cover");
    assert_eq!(playlist_name(18), "Techno Mix 18");
    assert_eq!(playlist_name(119), "Indie Mix 119");
    assert_eq!(cover_url(3), "https://covers.test/03.jpg");
    assert_eq!(cover_url(39), "https://covers.test/39.jpg");
    assert_eq!(cover_url(100), "https://covers.test/100.jpg");
    let mut urls: Vec<String> = (0..N_PLAYLISTS).map(cover_url).collect();
    urls.sort();
    urls.dedup();
    assert_eq!(urls.len(), N_PLAYLISTS);
}

#[test]
fn a_playlist() {
    let p = playlist(7);
    assert_eq!(p.id, "0000000000000000000007");
    assert_eq!(p.name, "Lo-Fi Mix 07");
    assert_eq!(p.owner, ("tester".to_string(), "tester".to_string()));
    assert_eq!(p.cover_url.as_deref(), Some("https://covers.test/07.jpg"));
    assert!(!p.collaborative && p.desc.is_empty() && p.snapshot_id.is_empty() && p.current_folder_id == 0);
}

#[test]
fn bands_and_digits() {
    let mut bands = [[0u8; 3]; 16];
    for (i, band) in bands.iter_mut().enumerate() {
        *band = [i as u8, 100, 200];
    }
    let img = cover_image(7, &bands);
    assert_eq!((img.width(), img.height()), (640, 640));
    for y in 0..640 {
        let band = (y / 40) as u8;
        assert_eq!(img.pixel_at(0, y), Some(Rgba { r: band, g: 100, b: 200, a: 255 }));
    }
    let white = Rgba { r: 255, g: 255, b: 255, a: 255 };
    // two digits of 128 pixels stand in the middle, from column 192 on
    let zero = font8x8::UnicodeFonts::get(&font8x8::BASIC_FONTS, '0').unwrap();
    let seven = font8x8::UnicodeFonts::get(&font8x8::BASIC_FONTS, '7').unwrap();
    for y in 256..384u32 {
        for x in 192..448u32 {
            let glyph = if x < 320 { zero } else { seven };
            let dot = glyph[((y - 256) / 16) as usize] & (1 << ((x - 192) % 128 / 16)) != 0;
            assert_eq!(img.pixel_at(x, y) == Some(white), dot);
        }
    }
    assert_ne!(img.pixel_at(191, 300), Some(white));
    // five digits fill the whole width
    let wide = cover_image(77777, &bands);
    assert!((0..640).any(|y| wide.pixel_at(0, y) == Some(white) || wide.pixel_at(16, y) == Some(white)));
}

#[test]
fn digits_leave_the_bands_alone() {
    let bands = [[1u8, 2, 3]; 16];
    let mut others = bands;
    others[5] = [1, 2, 4];
    let (a, b) = (cover_image(12, &bands), cover_image(34, &others));
    for y in 0..640 {
        for x in 0..640 {
            let block = (192..448).contains(&x) && (256..384).contains(&y);
            assert!(block || a.pixel_at(x, y) == Some(Rgba { r: 1, g: 2, b: 3, a: 255 }));
        }
        assert_eq!(a.pixel_at(0, y) == b.pixel_at(0, y), y / 40 != 5);
    }
}
