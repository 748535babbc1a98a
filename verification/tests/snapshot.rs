use playlist_covers::kitty::kitty_delete;
use playlist_covers::screen::is_complete;
use playlist_covers::snapshot::{kitty_snapshot, kitty_transmits, kitty_transmits_checked};
use ratatui::buffer::Buffer;
use ratatui::layout::Rect;

const P: char = '\u{10EEEE}';

fn run(color: &str, row: char, width: usize) -> String {
    let rest: String = vec![P; width - 1].into_iter().collect();
    format!("\x1b[38;2;{color}m{P}{row}\u{305}\u{305}{rest}\x1b[u")
}

#[test]
fn text_is_kept() {
    let mut buf = Buffer::empty(Rect::new(2, 1, 5, 3));
    buf.set_string(2, 1, "ab", ratatui::style::Style::default());
    buf.set_string(4, 3, "é", ratatui::style::Style::default());
    assert!(is_complete(&buf));
    assert_eq!(kitty_snapshot(&buf), "ab\n\n  é\n");
}

#[test]
fn images_are_numbered_as_they_come() {
    let mut buf = Buffer::empty(Rect::new(0, 0, 9, 2));
    buf[(0, 0)].set_symbol(&run("0;0;9", '\u{30D}', 4));
    buf[(5, 0)].set_symbol(&run("1;2;3", '\u{305}', 2));
    buf[(0, 1)].set_symbol(&run("1;2;3", '\u{597}', 1));
    buf[(1, 1)].set_symbol(&run("0;0;9", 'x', 3));
    let expected = "[#0 r1 w4] [#1 r0 w2]\n[#1 r39 w1][#0 r?78 w3]\n";
    assert_eq!(kitty_snapshot(&buf), expected);
    // other names for the images give the same description
    let mut other = Buffer::empty(Rect::new(0, 0, 9, 2));
    other[(0, 0)].set_symbol(&run("7;7;7", '\u{30D}', 4));
    other[(5, 0)].set_symbol(&run("0;0;0", '\u{305}', 2));
    other[(0, 1)].set_symbol(&run("0;0;0", '\u{597}', 1));
    other[(1, 1)].set_symbol(&run("7;7;7", 'x', 3));
    assert_eq!(kitty_snapshot(&other), expected);
}

#[test]
fn commands_do_not_show() {
    let mut buf = Buffer::empty(Rect::new(0, 0, 3, 1));
    buf.set_string(0, 0, "abc", ratatui::style::Style::default());
    let before = kitty_snapshot(&buf);
    let told = kitty_delete(3, false) + &kitty_delete(4, false) + "a";
    buf[(0, 0)].set_symbol(&told);
    assert_eq!(kitty_snapshot(&buf), before);
}

#[test]
fn transmissions_are_counted() {
    let mut buf = Buffer::empty(Rect::new(0, 0, 3, 1));
    assert_eq!(kitty_transmits(&buf), (0, 0));
    buf[(0, 0)].set_symbol("\x1b_Ga=T,x\x1b\\\x1b_Gm=0\x1b\\text");
    buf[(2, 0)].set_symbol("\x1b_Gq=2,a=T,yé\x1b\\");
    assert_eq!(kitty_transmits(&buf), (2, 10 + 8 + 16));
    assert_eq!(kitty_transmits_checked(&buf), Some((2, 34)));
}

#[test]
fn only_transmit_commands_count() {
    let cases = [
        ("a=T,", 0),
        ("\x1b_Ga=T\x1b\\", 1),
        ("\x1b_Gq=2,a=T;AAAA\x1b\\", 1),
        ("\x1b_Gq=2,i=7;a=T,\x1b\\", 0),
        ("\x1b_Gaa=T,q=2\x1b\\", 0),
        ("\x1b_Ga=Tx,q=2\x1b\\", 0),
        ("\x1b_Ga=d,d=I,i=3,q=2\x1b\\a=T,", 0),
        ("\x1b_Ga=T,m=1;x\x1b\\\x1b_Gm=0;y\x1b\\\x1b_Ga=T;z\x1b\\", 2),
        ("\x1bPtmux;\x1b\x1b_Gq=2,a=T,m=0;x\x1b\x1b\\\x1b\\", 1),
        ("\x1b_Ga=T,m=1", 1),
    ];
    for (symbol, expected) in cases {
        let mut buf = Buffer::empty(Rect::new(0, 0, 1, 1));
        buf[(0, 0)].set_symbol(symbol);
        assert_eq!(kitty_transmits(&buf).0, expected, "{symbol:?}");
    }
    let mut buf = Buffer::empty(Rect::new(0, 0, 1, 1));
    buf[(0, 0)].set_symbol("a=T,");
    assert_eq!(kitty_transmits(&buf), (0, 0));
}

#[test]
fn screens_with_missing_cells() {
    let mut buf = Buffer::empty(Rect::new(0, 0, 3, 2));
    assert!(is_complete(&buf));
    buf.content.pop();
    assert!(!is_complete(&buf));
    assert!(is_complete(&Buffer::empty(Rect::new(0, 0, 0, 0))));
}
