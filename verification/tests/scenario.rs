use playlist_covers::scenario::{next_step, scenarios, Loaded, PassStats, Scenario, Scroll, Step, NARROW, WIDE};

#[test]
fn scenes() {
    let all = scenarios();
    let names: Vec<&str> = all.iter().map(|s| s.name).collect();
    assert_eq!(
        names,
        [
            "top",
            "sel_middle",
            "scrolled_1",
            "scrolled_4",
            "row_plus_3",
            "bottom",
            "search_filtered",
            "inactive",
            "missing_images",
            "narrow_top",
            "narrow_scrolled_4"
        ]
    );
    let selected: Vec<usize> = all.iter().map(|s| s.selected).collect();
    assert_eq!(selected, [0, 14, 12, 12, 21, 39, 0, 0, 0, 0, 5]);
    let offsets: Vec<Option<u64>> = all.iter().map(|s| s.scroll.offset(14)).collect();
    assert_eq!(
        offsets,
        [Some(0), Some(0), Some(1), Some(4), Some(17), None, Some(0), Some(0), Some(0), Some(0), Some(4)]
    );
    assert!(all.iter().all(|s| s.active == (s.name != "inactive")));
    assert!(all.iter().all(|s| s.query == if s.name == "search_filtered" { Some("zz") } else { None }));
    assert!(all.iter().all(|s| s.size == if s.name.starts_with("narrow") { NARROW } else { WIDE }));
    assert!(all.iter().all(|s| s.loaded.includes(1)));
    assert!(all.iter().all(|s| s.loaded.includes(3) == (s.name != "missing_images")));
}

#[test]
fn plain_scene() {
    let s = Scenario::new("x", (3, 4));
    assert_eq!((s.name, s.size, s.selected, s.active, s.query), ("x", (3, 4), 0, true, None));
    assert_eq!((s.scroll, s.loaded), (Scroll::Cells(0), Loaded::All));
}

#[test]
fn largest_offset() {
    assert_eq!(Scroll::Rows(65535, 65535).offset(65535), Some(65535 * 65535 + 65535));
}

#[test]
fn steps() {
    assert_eq!(next_step(true, true, false, true), Step::Done);
    assert_eq!(next_step(true, true, false, false), Step::Done);
    assert_eq!(next_step(false, true, false, true), Step::Again);
    assert_eq!(next_step(true, false, false, true), Step::Again);
    assert_eq!(next_step(true, true, true, true), Step::Again);
    assert_eq!(next_step(true, true, true, false), Step::TimedOut);
}

#[test]
fn measurements() {
    let mut stats = PassStats::new();
    assert_eq!(stats.average_render_time(), 0);
    stats.record(2, 100, 300, 10);
    stats.record(0, 0, 50, 31);
    let expected = PassStats {
        frames: 2,
        transmits: 2,
        graphics_bytes: 100,
        written_bytes: 350,
        max_written_bytes: 300,
        render_time: 41,
        max_render_time: 31,
    };
    assert_eq!(stats, expected);
    assert_eq!(stats.average_render_time(), 20);
}
