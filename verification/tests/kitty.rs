use playlist_covers::kitty::{
    is_tmux, kitty_delete, parse_placeholder_run, parse_sgr_rgb, strip_apc, KITTY_PLACEHOLDER,
};
use playlist_covers::screen::Color;

#[test]
fn delete_commands() {
    assert_eq!(kitty_delete(7, false), "\x1b_Ga=d,d=I,i=7,q=2\x1b\\");
    assert_eq!(
        kitty_delete(4294967295, false),
        "\x1b_Ga=d,d=I,i=4294967295,q=2\x1b\\"
    );
    assert_eq!(
        kitty_delete(120, true),
        "\x1bPtmux;\x1b\x1b_Ga=d,d=I,i=120,q=2\x1b\x1b\\\x1b\\"
    );
    assert_ne!(kitty_delete(1, false), kitty_delete(11, false));
}

#[test]
fn tmux_by_its_variables() {
    assert!(is_tmux(Some("tmux-256color"), None));
    assert!(is_tmux(Some("tmux"), Some("ghostty")));
    assert!(is_tmux(Some("xterm"), Some("tmux")));
    assert!(is_tmux(None, Some("tmux")));
    assert!(!is_tmux(Some("xterm-256color"), Some("ghostty")));
    assert!(!is_tmux(Some("not-tmux"), None));
    assert!(!is_tmux(None, Some("tmux-like")));
    assert!(!is_tmux(None, None));
}

#[test]
fn graphics_commands_are_stripped() {
    assert_eq!(strip_apc("plain"), "plain");
    assert_eq!(strip_apc(""), "");
    assert_eq!(strip_apc("a\x1b_Gxyz\x1b\\b\x1b_G\x1b\\c"), "abc");
    assert_eq!(strip_apc("a\x1b_Gnever ends"), "a");
    assert_eq!(strip_apc("a\x1b[1mb"), "a\x1b[1mb");
    assert_eq!(strip_apc("\x1b_Gé\x1b\\ü"), "ü");
    let text = "\x1b[s rest";
    assert_eq!(strip_apc(&(kitty_delete(42, false) + text)), text);
}

#[test]
fn colors_of_text() {
    assert_eq!(parse_sgr_rgb("\x1b[38;2;1;2;3m"), Some((1, 2, 3)));
    assert_eq!(parse_sgr_rgb("x\x1b[38;2;1;2;3m\x1b[38;2;255;0;9my"), Some((255, 0, 9)));
    assert_eq!(parse_sgr_rgb("\x1b[38;2;1;2;3;4m"), Some((1, 2, 3)));
    assert_eq!(parse_sgr_rgb("\x1b[38;2;+1;02;003m"), Some((1, 2, 3)));
    assert_eq!(parse_sgr_rgb("\x1b[38;2;1;2m"), None);
    assert_eq!(parse_sgr_rgb("\x1b[38;2;1;2;256m"), None);
    assert_eq!(parse_sgr_rgb("\x1b[38;2;1;;3m"), None);
    assert_eq!(parse_sgr_rgb("\x1b[38;2;1;2;3"), None);
    assert_eq!(parse_sgr_rgb("\x1b[48;2;1;2;3m"), None);
    assert_eq!(parse_sgr_rgb(""), None);
}

#[test]
fn bytes_are_parsed_as_by_std() {
    let fields = [
        "0", "00", "7", "+7", "++7", "-0", "+", "", "255", "256", "0255", "00000000000000001", "1e1", " 1", "1 ", "é",
        "999999999999999999999999",
    ];
    for field in fields {
        let text = format!("\x1b[38;2;{field};1;2m");
        let expected = field.parse::<u8>().ok().map(|v| (v, 1, 2));
        assert_eq!(parse_sgr_rgb(&text), expected, "field {field:?}");
    }
}

#[test]
fn runs_of_placeholders() {
    let p = KITTY_PLACEHOLDER;
    let text = format!("\x1b[38;2;1;2;3m{p}\u{30D}\u{305}\u{30E}{p}{p}\x1b[u");
    assert_eq!(
        parse_placeholder_run(&text, Color::Reset),
        Some(((0x010203, Some('\u{30E}')), '\u{30D}', 3))
    );
    let text = format!("{p}\u{305}\u{305}{p}");
    assert_eq!(
        parse_placeholder_run(&text, Color::Rgb(0, 1, 0)),
        Some(((0x100, None), '\u{305}', 2))
    );
    assert_eq!(parse_placeholder_run(&text, Color::Red), None);
    assert_eq!(parse_placeholder_run(&format!("{p}"), Color::Rgb(0, 1, 0)), None);
    assert_eq!(parse_placeholder_run("no run", Color::Rgb(0, 1, 0)), None);
}
