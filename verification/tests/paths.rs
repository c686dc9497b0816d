use zurished::error::BadRequest;
use zurished::error::Error;
use zurished::error::OpenFailure;
use zurished::filter::visible;
use zurished::path::classify;
use zurished::path::file_name;
use zurished::path::join;
use zurished::path::split_spans;
use zurished::path::to_chars;
use zurished::path::Segment;
use zurished::resolver::parse_width;
use zurished::resolver::resolve;

fn segments(path: &str) -> Vec<String> {
    let chars = to_chars(path);
    split_spans(&chars)
        .iter()
        .map(|span| chars[span.start..span.end].iter().collect())
        .collect()
}

#[test]
fn dot_names_are_hidden() {
    assert!(!visible(".git"));
    assert!(!visible("."));
    assert!(!visible(".."));
    assert!(!visible(".hidden.jpeg"));
}

#[test]
fn other_names_are_visible() {
    assert!(visible("2016"));
    assert!(visible("1.jpeg"));
    assert!(visible("a.b"));
    assert!(visible("\u{e9}t\u{e9}"));
}

#[test]
fn the_empty_name_is_visible() {
    assert!(visible(""));
}

#[test]
fn split_keeps_empty_segments() {
    assert_eq!(segments(""), vec![""]);
    assert_eq!(segments("a"), vec!["a"]);
    assert_eq!(segments("a/b"), vec!["a", "b"]);
    assert_eq!(segments("/a//b/"), vec!["", "a", "", "b", ""]);
    assert_eq!(segments("200/sub/pic.jpg"), vec!["200", "sub", "pic.jpg"]);
}

#[test]
fn split_counts_characters_not_bytes() {
    assert_eq!(segments("\u{e9}t\u{e9}/\u{4e2d}"), vec!["\u{e9}t\u{e9}", "\u{4e2d}"]);
}

#[test]
fn classify_tells_segments_apart() {
    let chars = to_chars("/./../...");
    let spans = split_spans(&chars);
    assert_eq!(spans.len(), 4);
    assert_eq!(classify(&chars, spans[0]), Segment::Blank);
    assert_eq!(classify(&chars, spans[1]), Segment::Blank);
    assert_eq!(classify(&chars, spans[2]), Segment::Parent);
    assert_eq!(classify(&chars, spans[3]), Segment::Name);
}

#[test]
fn file_name_is_the_final_component() {
    assert_eq!(file_name("src/test/1.jpeg"), Some("1.jpeg".to_string()));
    assert_eq!(file_name("src/test"), Some("test".to_string()));
    assert_eq!(file_name("test"), Some("test".to_string()));
    assert_eq!(file_name("/usr/bin/"), Some("bin".to_string()));
    assert_eq!(file_name("./a"), Some("a".to_string()));
}

#[test]
fn file_name_passes_over_dots_and_separators() {
    assert_eq!(file_name("foo.txt/."), Some("foo.txt".to_string()));
    assert_eq!(file_name("foo.txt/.//"), Some("foo.txt".to_string()));
    assert_eq!(file_name("a//"), Some("a".to_string()));
}

#[test]
fn file_name_is_missing_without_component() {
    assert_eq!(file_name(""), None);
    assert_eq!(file_name("/"), None);
    assert_eq!(file_name("."), None);
    assert_eq!(file_name("./"), None);
    assert_eq!(file_name(".."), None);
    assert_eq!(file_name("foo.txt/.."), None);
    assert_eq!(file_name("a/../"), None);
}

#[test]
fn file_name_agrees_with_the_standard_library() {
    for path in [
        "", "/", ".", "..", "a", "a/", "a/.", "a/..", "./a", "../a", "a/b/c", "a//b", "/a/b/",
        "a/./b/.", "a/b/../", "...", ".a", "a/.b",
    ] {
        let expected = std::path::Path::new(path)
            .file_name()
            .map(|name| name.to_str().unwrap().to_string());
        assert_eq!(file_name(path), expected, "{}", path);
    }
}

#[test]
fn join_puts_one_separator_between() {
    assert_eq!(join("root", "sub"), "root/sub");
    assert_eq!(join("root/", "sub"), "root/sub");
    assert_eq!(join("/", "etc"), "/etc");
    assert_eq!(join("", "sub"), "sub");
    assert_eq!(join("root", ""), "root/");
    assert_eq!(join("a/b", "c/d"), "a/b/c/d");
}

#[test]
fn join_agrees_with_the_standard_library() {
    for base in ["", "root", "root/", "/", "a/b", "."] {
        for name in ["x", "x.jpeg", "sub/pic.jpg", "2016"] {
            let expected = std::path::Path::new(base).join(name);
            assert_eq!(join(base, name), expected.to_str().unwrap(), "{} {}", base, name);
        }
    }
}

#[test]
fn width_is_a_decimal_number() {
    assert_eq!(parse_width("0"), Some(0));
    assert_eq!(parse_width("200"), Some(200));
    assert_eq!(parse_width("007"), Some(7));
    assert_eq!(parse_width("+200"), Some(200));
    assert_eq!(parse_width("4294967295"), Some(4294967295));
}

#[test]
fn width_is_refused_when_malformed() {
    assert_eq!(parse_width(""), None);
    assert_eq!(parse_width("+"), None);
    assert_eq!(parse_width("-1"), None);
    assert_eq!(parse_width("abc"), None);
    assert_eq!(parse_width("12a"), None);
    assert_eq!(parse_width(" 12"), None);
    assert_eq!(parse_width("1.5"), None);
    assert_eq!(parse_width("++1"), None);
    assert_eq!(parse_width("\u{664}"), None);
}

#[test]
fn width_is_refused_when_too_large() {
    assert_eq!(parse_width("4294967296"), None);
    assert_eq!(parse_width("99999999999999999999999999"), None);
}

#[test]
fn width_agrees_with_the_standard_library() {
    for text in [
        "", "0", "1", "+1", "-1", "+", "00", "42", "4294967295", "4294967296", "42949672950",
        "1 ", "0x10", "1_000", "+0", "-0", "9999999999",
    ] {
        assert_eq!(parse_width(text), text.parse::<u32>().ok(), "{}", text);
    }
}

#[test]
fn resolve_finds_width_and_path() {
    let found = resolve("root", "200/sub/pic.jpg").unwrap();
    assert_eq!(found.width, 200);
    assert_eq!(found.source_path, "root/sub/pic.jpg");
}

#[test]
fn resolve_refuses_the_empty_path() {
    assert_eq!(resolve("root", ""), Err(Error::BadRequest(BadRequest::TooShort)));
}

#[test]
fn resolve_refuses_a_width_that_is_no_number() {
    assert_eq!(resolve("root", "abc/pic.jpg"), Err(Error::BadRequest(BadRequest::BadSize)));
    assert_eq!(resolve("root", "/pic.jpg"), Err(Error::BadRequest(BadRequest::BadSize)));
    assert_eq!(resolve("root", "-5/pic.jpg"), Err(Error::BadRequest(BadRequest::BadSize)));
    assert_eq!(
        resolve("root", "4294967296/pic.jpg"),
        Err(Error::BadRequest(BadRequest::BadSize))
    );
}

#[test]
fn resolve_refuses_a_path_that_leaves_the_root() {
    assert_eq!(
        resolve("root", "200/../../etc/passwd"),
        Err(Error::BadRequest(BadRequest::OutsideRoot))
    );
    assert_eq!(resolve("root", "200/.."), Err(Error::BadRequest(BadRequest::OutsideRoot)));
    assert_eq!(
        resolve("root", "200/a/../../b"),
        Err(Error::BadRequest(BadRequest::OutsideRoot))
    );
    assert_eq!(
        resolve("root", "200/../root/pic.jpg"),
        Err(Error::BadRequest(BadRequest::OutsideRoot))
    );
}

#[test]
fn resolve_refuses_a_path_that_names_nothing() {
    assert_eq!(resolve("root", "200"), Err(Error::BadRequest(BadRequest::TooShort)));
    assert_eq!(resolve("root", "200/"), Err(Error::BadRequest(BadRequest::TooShort)));
    assert_eq!(resolve("root", "200/."), Err(Error::BadRequest(BadRequest::TooShort)));
    assert_eq!(resolve("root", "200/a/.."), Err(Error::BadRequest(BadRequest::TooShort)));
}

#[test]
fn resolve_normalizes_what_stays_inside() {
    assert_eq!(resolve("root", "200/a/../b.jpg").unwrap().source_path, "root/b.jpg");
    assert_eq!(resolve("root", "200//a/./b/").unwrap().source_path, "root/a/b");
    assert_eq!(resolve("root", "200//etc/passwd").unwrap().source_path, "root/etc/passwd");
    assert_eq!(resolve("root", "200/a/b/../../c").unwrap().source_path, "root/c");
}

#[test]
fn resolve_joins_onto_any_root() {
    assert_eq!(resolve("/srv/photos/", "1/a.jpg").unwrap().source_path, "/srv/photos/a.jpg");
    assert_eq!(resolve("", "1/a.jpg").unwrap().source_path, "a.jpg");
    assert_eq!(resolve(".", "1/2016/3.jpeg").unwrap().source_path, "./2016/3.jpeg");
}

#[test]
fn resolve_takes_the_width_as_written() {
    assert_eq!(resolve("root", "0/a.jpg").unwrap().width, 0);
    assert_eq!(resolve("root", "+15/a.jpg").unwrap().width, 15);
    assert_eq!(resolve("root", "4294967295/a.jpg").unwrap().width, 4294967295);
}

#[test]
fn resolved_paths_hold_no_parent_segment() {
    for request in ["200/a/b", "200/a/../b", "200/./a//b/../c", "7/x/y/z/../../w"] {
        let found = resolve("root", request).unwrap();
        assert!(found.source_path.starts_with("root/"));
        for segment in found.source_path.split('/') {
            assert!(!segment.is_empty() && segment != "." && segment != "..");
        }
    }
}

#[test]
fn errors_have_their_status() {
    assert_eq!(Error::NotFound.status(), 404);
    assert_eq!(Error::Undecodable.status(), 404);
    assert_eq!(Error::PermissionDenied.status(), 403);
    assert_eq!(Error::BadRequest(BadRequest::TooShort).status(), 400);
    assert_eq!(Error::BadRequest(BadRequest::BadSize).status(), 400);
    assert_eq!(Error::BadRequest(BadRequest::OutsideRoot).status(), 400);
    assert_eq!(Error::Internal.status(), 500);
}

#[test]
fn bad_requests_have_their_message() {
    assert_eq!(BadRequest::TooShort.message(), "request too short");
    assert_eq!(BadRequest::BadSize.message(), "bad size");
    assert_eq!(BadRequest::OutsideRoot.message(), "path outside album root");
}

#[test]
fn failures_to_open_become_errors() {
    assert_eq!(OpenFailure::NotFound.into_error(), Error::NotFound);
    assert_eq!(OpenFailure::PermissionDenied.into_error(), Error::PermissionDenied);
    assert_eq!(OpenFailure::Other.into_error(), Error::NotFound);
}
