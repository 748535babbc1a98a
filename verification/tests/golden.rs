use playlist_covers::golden::{golden_dir, output_dir, snapshot_complaint};

#[test]
fn directories() {
    assert_eq!(golden_dir("/home/me/app"), "/home/me/app/src/ui/visual_test/golden");
    assert_eq!(golden_dir("/home/me/app/"), "/home/me/app/src/ui/visual_test/golden");
    assert_eq!(golden_dir(""), "src/ui/visual_test/golden");
    assert_eq!(output_dir(Some("/tmp/out"), "/app"), "/tmp/out/visual");
    assert_eq!(output_dir(None, "/app"), "/app/../target/visual");
    for dir in ["/a", "/a/", "", "b"] {
        let joined = std::path::PathBuf::from(dir).join("src/ui/visual_test/golden");
        assert_eq!(golden_dir(dir), joined.to_str().unwrap());
    }
}

#[test]
fn equal_descriptions() {
    assert_eq!(snapshot_complaint("top", Some("a\nb\n"), "g/top.txt", "a\nb\n"), None);
    assert_eq!(snapshot_complaint("top", Some(""), "g/top.txt", ""), None);
}

#[test]
fn missing_golden() {
    assert_eq!(
        snapshot_complaint("top", None, "g/top.txt", "a\n").unwrap(),
        "top: missing golden g/top.txt"
    );
}

#[test]
fn first_differing_line() {
    let cases = [
        ("a\nb\nc\n", "a\nx\nc\n"),
        ("a\nb", "a\nb\n"),
        ("a\r\nb\n", "a\nc\n"),
        ("a\r\nb\n", "a\nb\n"),
        ("a\r", "a"),
        ("", "x"),
        ("a\n\nb\n", "a\n\nc"),
        ("x", "y"),
        ("a\nb\n", "a\n"),
    ];
    for (golden, actual) in cases {
        let first = golden.lines().zip(actual.lines()).position(|(g, a)| g != a).unwrap_or(0);
        assert_eq!(
            snapshot_complaint("s", Some(golden), "p", actual).unwrap(),
            format!("s: first difference on line {}", first + 1)
        );
    }
}
