use hgrep::grep::{parse_grep_line, LineKind};

fn parts(line: &str) -> Option<(String, u64, LineKind, String)> {
    parse_grep_line(line.as_bytes()).map(|l| {
        (
            String::from_utf8(l.path).unwrap(),
            l.line_number,
            l.kind,
            String::from_utf8(l.payload).unwrap(),
        )
    })
}

fn expect(path: &str, n: u64, kind: LineKind, payload: &str) -> Option<(String, u64, LineKind, String)> {
    Some((path.to_string(), n, kind, payload.to_string()))
}

#[test]
fn match_line_is_taken_apart() {
    assert_eq!(parts("file.rs:3:let x = 1"), expect("file.rs", 3, LineKind::Match, "let x = 1"));
}

#[test]
fn context_line_is_taken_apart() {
    assert_eq!(parts("file.rs-2-fn main() {"), expect("file.rs", 2, LineKind::Context, "fn main() {"));
}

#[test]
fn empty_text_is_text() {
    assert_eq!(parts("a:1:"), expect("a", 1, LineKind::Match, ""));
    assert_eq!(parts("a-1-"), expect("a", 1, LineKind::Context, ""));
}

#[test]
fn text_may_hold_separators() {
    assert_eq!(parts("a:1:b:2:c"), expect("a", 1, LineKind::Match, "b:2:c"));
    assert_eq!(parts("a-1-b:2:c"), expect("a", 1, LineKind::Context, "b:2:c"));
}

#[test]
fn path_may_hold_separators() {
    assert_eq!(parts("my-file.rs:12:x"), expect("my-file.rs", 12, LineKind::Match, "x"));
    assert_eq!(parts("C:/dir/a.rs:7:x"), expect("C:/dir/a.rs", 7, LineKind::Match, "x"));
    assert_eq!(parts("a-b:c-10-text"), expect("a-b:c", 10, LineKind::Context, "text"));
    assert_eq!(parts("a:b:3:x"), expect("a:b", 3, LineKind::Match, "x"));
}

#[test]
fn first_place_that_splits_is_taken() {
    assert_eq!(parts("a-1-b:2:c"), expect("a", 1, LineKind::Context, "b:2:c"));
    assert_eq!(parts("a:1-b:2:c"), expect("a:1-b", 2, LineKind::Match, "c"));
}

#[test]
fn separators_must_be_of_one_kind() {
    assert_eq!(parts("a:1-x"), None);
    assert_eq!(parts("a-1:x"), None);
}

#[test]
fn line_number_must_be_a_number() {
    assert_eq!(parts("a::x"), None);
    assert_eq!(parts("a:x:y"), None);
    assert_eq!(parts("a:1x:y"), None);
    assert_eq!(parts("a: 1:y"), None);
    assert_eq!(parts("a:-1:y"), None);
}

#[test]
fn line_number_must_be_one_or_more() {
    assert_eq!(parts("a:0:x"), None);
    assert_eq!(parts("a:000:x"), None);
    assert_eq!(parts("a:01:x"), expect("a", 1, LineKind::Match, "x"));
}

#[test]
fn line_number_must_fit() {
    assert_eq!(
        parts("a:18446744073709551615:x"),
        expect("a", u64::MAX, LineKind::Match, "x")
    );
    assert_eq!(parts("a:18446744073709551616:x"), None);
    assert_eq!(parts("a:99999999999999999999999:x"), None);
}

#[test]
fn lines_without_two_separators_are_malformed() {
    assert_eq!(parts(""), None);
    assert_eq!(parts("no separators"), None);
    assert_eq!(parts("a:1"), None);
    assert_eq!(parts(":"), None);
    assert_eq!(parts("Binary file a.out matches"), None);
}

#[test]
fn empty_path_is_a_path() {
    assert_eq!(parts(":1:x"), expect("", 1, LineKind::Match, "x"));
}

#[test]
fn bytes_that_are_no_text_pass_through() {
    let line = parse_grep_line(&[0xff, b':', b'5', b':', 0xfe]).unwrap();
    assert_eq!(line.path, vec![0xff]);
    assert_eq!(line.line_number, 5);
    assert_eq!(line.payload, vec![0xfe]);
}
