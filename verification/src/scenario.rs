//! Scenes of the grid to be compared with golden files, and what is measured while it scrolls.

use crate::fixtures::N_PLAYLISTS;
use vstd::prelude::*;

verus! {

/// How far a scene is scrolled.
#[derive(Clone, Copy, Debug, PartialEq, Eq, Structural)]
pub enum Scroll {
    /// By this many cells.
    Cells(u16),
    /// By whole rows of the grid and some cells.
    Rows(u16, u16),
    /// As far as the page itself scrolls to keep the selection in view.
    FollowSelection,
}

/// The offset in cells of a scene, where a row of the grid is `item_height` cells high; `None` where it
/// is left to the page.
pub open spec fn cells_scrolled(scroll: Scroll, item_height: u16) -> Option<int> {
    match scroll {
        Scroll::Cells(cells) => Some(cells as int),
        Scroll::Rows(rows, cells) => Some(rows * item_height + cells),
        Scroll::FollowSelection => None,
    }
}

impl Scroll {
    /// The offset in cells, where a row of the grid is `item_height` cells high; `None` where it is
    /// left to the page.
    pub fn offset(&self, item_height: u16) -> (r: Option<u64>)
        ensures
            r is Some <==> cells_scrolled(*self, item_height) is Some,
            r matches Some(cells) ==> cells == cells_scrolled(*self, item_height)->0,
    {
        match *self {
            Scroll::Cells(cells) => Some(cells as u64),
            Scroll::Rows(rows, cells) => {
                assert(0 <= rows * item_height <= 0xffff * 0xffff) by (nonlinear_arith)
                    requires
                        0 <= rows <= 0xffff,
                        0 <= item_height <= 0xffff,
                ;
                Some(rows as u64 * item_height as u64 + cells as u64)
            },
            Scroll::FollowSelection => None,
        }
    }
}

/// Which images of a scene are loaded.
#[derive(Clone, Copy, Debug, PartialEq, Eq, Structural)]
pub enum Loaded {
    All,
    /// All but every third, from the first on.
    NotEveryThird,
}

/// Whether the image of playlist `i` is loaded.
pub open spec fn is_loaded(loaded: Loaded, i: int) -> bool {
    match loaded {
        Loaded::All => true,
        Loaded::NotEveryThird => i % 3 != 0,
    }
}

impl Loaded {
    /// Whether the image of playlist `i` is loaded.
    pub fn includes(&self, i: usize) -> (r: bool)
        ensures
            r == is_loaded(*self, i as int),
    {
        match *self {
            Loaded::All => true,
            Loaded::NotEveryThird => i % 3 != 0,
        }
    }
}

/// A scene of the grid.
pub struct Scenario {
    pub name: &'static str,
    /// The width and height of the screen.
    pub size: (u16, u16),
    pub selected: usize,
    pub scroll: Scroll,
    pub active: bool,
    /// What is searched for, if a search is open.
    pub query: Option<&'static str>,
    pub loaded: Loaded,
}

/// The size of a wide screen.
pub const WIDE: (u16, u16) = (253, 54);

/// The size of a narrow screen.
pub const NARROW: (u16, u16) = (120, 40);

/// The scene `name` on a screen of size `size`, as it is at first.
pub open spec fn plain(name: &'static str, size: (u16, u16)) -> Scenario {
    Scenario {
        name,
        size,
        selected: 0,
        scroll: Scroll::Cells(0),
        active: true,
        query: None,
        loaded: Loaded::All,
    }
}

impl Scenario {
    /// The scene `name` on a screen of size `size`, as it is at first.
    pub fn new(name: &'static str, size: (u16, u16)) -> (r: Scenario)
        ensures
            r == plain(name, size),
    {
        Scenario {
            name,
            size,
            selected: 0,
            scroll: Scroll::Cells(0),
            active: true,
            query: None,
            loaded: Loaded::All,
        }
    }
}

/// The scenes.
pub fn scenarios() -> (r: Vec<Scenario>)
    ensures
        r@ == seq![
            plain("top", WIDE),
            (Scenario { selected: 14, ..plain("sel_middle", WIDE) }),
            (Scenario { selected: 12, scroll: Scroll::Cells(1), ..plain("scrolled_1", WIDE) }),
            (Scenario { selected: 12, scroll: Scroll::Cells(4), ..plain("scrolled_4", WIDE) }),
            (Scenario { selected: 21, scroll: Scroll::Rows(1, 3), ..plain("row_plus_3", WIDE) }),
            (Scenario {
                selected: (N_PLAYLISTS - 1) as usize,
                scroll: Scroll::FollowSelection,
                ..plain("bottom", WIDE)
            }),
            (Scenario { query: Some("zz"), ..plain("search_filtered", WIDE) }),
            (Scenario { active: false, ..plain("inactive", WIDE) }),
            (Scenario { loaded: Loaded::NotEveryThird, ..plain("missing_images", WIDE) }),
            plain("narrow_top", NARROW),
            (Scenario {
                selected: 5,
                scroll: Scroll::Cells(4),
                ..plain("narrow_scrolled_4", NARROW)
            }),
        ],
{
    vec![
        Scenario::new("top", WIDE),
        Scenario { selected: 14, ..Scenario::new("sel_middle", WIDE) },
        Scenario { selected: 12, scroll: Scroll::Cells(1), ..Scenario::new("scrolled_1", WIDE) },
        Scenario { selected: 12, scroll: Scroll::Cells(4), ..Scenario::new("scrolled_4", WIDE) },
        Scenario { selected: 21, scroll: Scroll::Rows(1, 3), ..Scenario::new("row_plus_3", WIDE) },
        Scenario {
            selected: N_PLAYLISTS - 1,
            scroll: Scroll::FollowSelection,
            ..Scenario::new("bottom", WIDE)
        },
        Scenario { query: Some("zz"), ..Scenario::new("search_filtered", WIDE) },
        Scenario { active: false, ..Scenario::new("inactive", WIDE) },
        Scenario { loaded: Loaded::NotEveryThird, ..Scenario::new("missing_images", WIDE) },
        Scenario::new("narrow_top", NARROW),
        Scenario {
            selected: 5,
            scroll: Scroll::Cells(4),
            ..Scenario::new("narrow_scrolled_4", NARROW)
        },
    ]
}

/// What to do after a frame was drawn.
#[derive(Clone, Copy, Debug, PartialEq, Eq, Structural)]
pub enum Step {
    /// Nothing changes any more.
    Done,
    /// It took too long.
    TimedOut,
    /// Draw another frame.
    Again,
}

/// What to do after a frame was drawn.
pub open spec fn step_after(stable: bool, resting: bool, pending: bool, in_time: bool) -> Step {
    if stable && resting && !pending {
        Step::Done
    } else if in_time {
        Step::Again
    } else {
        Step::TimedOut
    }
}

/// What to do after a frame was drawn: `stable` is whether it is the same as the one before,
/// `resting` whether the scroll offset has reached its target, `pending` whether covers are still
/// being encoded, and `in_time` whether there is time left.
pub fn next_step(stable: bool, resting: bool, pending: bool, in_time: bool) -> (r: Step)
    ensures
        r == step_after(stable, resting, pending, in_time),
{
    if stable && resting && !pending {
        Step::Done
    } else if in_time {
        Step::Again
    } else {
        Step::TimedOut
    }
}

/// What is measured while the grid scrolls. Times are in nanoseconds.
#[derive(Clone, Copy, Debug, PartialEq, Eq, Structural)]
pub struct PassStats {
    pub frames: usize,
    pub transmits: usize,
    pub graphics_bytes: usize,
    pub written_bytes: usize,
    pub max_written_bytes: usize,
    pub render_time: u128,
    pub max_render_time: u128,
}

/// The larger of two numbers.
pub open spec fn larger(a: int, b: int) -> int {
    if a < b {
        b
    } else {
        a
    }
}

/// Whether `t` is `s` with a frame taken in.
pub open spec fn recorded(
    s: PassStats,
    transmits: int,
    graphics_bytes: int,
    written: int,
    elapsed: int,
    t: PassStats,
) -> bool {
    &&& t.frames == s.frames + 1
    &&& t.transmits == s.transmits + transmits
    &&& t.graphics_bytes == s.graphics_bytes + graphics_bytes
    &&& t.written_bytes == s.written_bytes + written
    &&& t.max_written_bytes == larger(s.max_written_bytes as int, written)
    &&& t.render_time == s.render_time + elapsed
    &&& t.max_render_time == larger(s.max_render_time as int, elapsed)
}

impl PassStats {
    /// Nothing measured yet.
    pub fn new() -> (r: PassStats)
        ensures
            r.frames == 0 && r.transmits == 0 && r.graphics_bytes == 0 && r.written_bytes == 0,
            r.max_written_bytes == 0 && r.render_time == 0 && r.max_render_time == 0,
    {
        PassStats {
            frames: 0,
            transmits: 0,
            graphics_bytes: 0,
            written_bytes: 0,
            max_written_bytes: 0,
            render_time: 0,
            max_render_time: 0,
        }
    }

    /// Takes in a frame, which took `elapsed` to render and for which `written` bytes go to the
    /// terminal.
    pub fn record(
        &mut self,
        transmits: usize,
        graphics_bytes: usize,
        written: usize,
        elapsed: u128,
    )
        requires
            old(self).frames < usize::MAX,
            old(self).transmits + transmits <= usize::MAX,
            old(self).graphics_bytes + graphics_bytes <= usize::MAX,
            old(self).written_bytes + written <= usize::MAX,
            old(self).render_time + elapsed <= u128::MAX,
        ensures
            recorded(
                *old(self),
                transmits as int,
                graphics_bytes as int,
                written as int,
                elapsed as int,
                *final(self),
            ),
    {
        self.frames += 1;
        self.transmits += transmits;
        self.graphics_bytes += graphics_bytes;
        self.written_bytes += written;
        if self.max_written_bytes < written {
            self.max_written_bytes = written;
        }
        self.render_time += elapsed;
        if self.max_render_time < elapsed {
            self.max_render_time = elapsed;
        }
    }

    /// The number that the time of all frames is divided by: that of the frames, but not zero, in
    /// thirty-two bits.
    pub open spec fn divisor(&self) -> int {
        larger(self.frames as int, 1) % 0x1_0000_0000
    }

    /// The average time that a frame took to render.
    pub open spec fn average(&self) -> int {
        self.render_time as int / self.divisor()
    }

    /// The average time that a frame took to render.
    pub fn average_render_time(&self) -> (r: u128)
        requires
            self.divisor() != 0,
        ensures
            r == self.average(),
    {
        let frames: u128 = if self.frames > 1 {
            self.frames as u128
        } else {
            1
        };
        self.render_time / (frames % 0x1_0000_0000)
    }
}

/// Scrolling by a row more is scrolling by the height of an item more, by a cell more by one, and by no
/// rows by the cells alone. Only a scene that follows the selection leaves it to the page.
pub proof fn rows_scroll_by_their_height(rows: u16, cells: u16, item_height: u16)
    ensures
        cells_scrolled(Scroll::Cells(cells), item_height) == Some(cells as int),
        cells_scrolled(Scroll::Rows(0, cells), item_height) == cells_scrolled(
            Scroll::Cells(cells),
            item_height,
        ),
        rows < u16::MAX ==> cells_scrolled(Scroll::Rows((rows + 1) as u16, cells), item_height)->0
            == cells_scrolled(Scroll::Rows(rows, cells), item_height)->0 + item_height,
        cells < u16::MAX ==> cells_scrolled(Scroll::Rows(rows, (cells + 1) as u16), item_height)->0
            == cells_scrolled(Scroll::Rows(rows, cells), item_height)->0 + 1,
        cells_scrolled(Scroll::Rows(rows, cells), item_height) is Some,
        cells_scrolled(Scroll::FollowSelection, item_height) is None,
{
    assert((rows + 1) * item_height == rows * item_height + item_height) by (nonlinear_arith);
    assert(0 * item_height == 0) by (nonlinear_arith);
}

/// Of three images in a row, two are loaded where not all are, and the first of all is not.
pub proof fn every_third_image_is_missing(i: int)
    ensures
        is_loaded(Loaded::All, i),
        !is_loaded(Loaded::NotEveryThird, 0),
        is_loaded(Loaded::NotEveryThird, i) == is_loaded(Loaded::NotEveryThird, i + 3),
        !is_loaded(Loaded::NotEveryThird, i) ==> is_loaded(Loaded::NotEveryThird, i + 1) && is_loaded(
            Loaded::NotEveryThird,
            i + 2,
        ),
{
}

/// A page is done when nothing changes, it rests, and no cover is being encoded, however much time is
/// left. Before that, frames are drawn until the time is over.
pub proof fn a_page_is_drawn_until_it_rests(stable: bool, resting: bool, pending: bool, in_time: bool)
    ensures
        step_after(stable, resting, pending, in_time) == Step::Done <==> stable && resting && !pending,
        step_after(stable, resting, pending, in_time) == Step::TimedOut <==> !in_time && (!stable
            || !resting || pending),
        step_after(stable, resting, pending, in_time) == Step::Again <==> in_time && (!stable || !resting
            || pending),
{
}

/// It does not matter in which order frames are taken in. Each counts once, and adds what it took; the
/// largest are never less than those of a frame.
pub proof fn frames_add_up_in_any_order(
    s: PassStats,
    a: (int, int, int, int),
    b: (int, int, int, int),
    t: PassStats,
    ab: PassStats,
    u: PassStats,
    ba: PassStats,
)
    requires
        recorded(s, a.0, a.1, a.2, a.3, t) && recorded(t, b.0, b.1, b.2, b.3, ab),
        recorded(s, b.0, b.1, b.2, b.3, u) && recorded(u, a.0, a.1, a.2, a.3, ba),
    ensures
        ab == ba,
        ab.frames == s.frames + 2,
        ab.transmits == s.transmits + a.0 + b.0,
        ab.graphics_bytes == s.graphics_bytes + a.1 + b.1,
        ab.written_bytes == s.written_bytes + a.2 + b.2,
        ab.render_time == s.render_time + a.3 + b.3,
        ab.max_written_bytes >= a.2 && ab.max_written_bytes >= b.2 && ab.max_written_bytes
            >= s.max_written_bytes,
        ab.max_render_time >= a.3 && ab.max_render_time >= b.3 && ab.max_render_time
            >= s.max_render_time,
        ab.max_written_bytes == a.2 || ab.max_written_bytes == b.2 || ab.max_written_bytes
            == s.max_written_bytes,
        ab.max_render_time == a.3 || ab.max_render_time == b.3 || ab.max_render_time
            == s.max_render_time,
{
}

/// The average is the largest time that all frames together could have taken each. Without frames it is
/// the whole time.
pub proof fn the_average_is_shared_by_all_frames(s: PassStats)
    requires
        s.frames < 0x1_0000_0000,
    ensures
        s.divisor() >= 1,
        s.frames >= 1 ==> s.average() * s.frames <= s.render_time < (s.average() + 1) * s.frames,
        s.frames == 0 ==> s.average() == s.render_time,
{
    if s.frames >= 1 {
        let (t, n) = (s.render_time as int, s.frames as int);
        assert(s.divisor() == n);
        assert(t / n * n <= t < (t / n + 1) * n) by (nonlinear_arith)
            requires
                n >= 1,
                t >= 0,
        ;
    } else {
        assert(s.divisor() == 1);
        assert(s.render_time as int / 1 == s.render_time);
    }
}

} // verus!
