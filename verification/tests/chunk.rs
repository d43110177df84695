use hgrep::chunk::{File, LineMatch, LinesInclusive};

fn lines_of(buf: &[u8]) -> Vec<(Vec<u8>, u64)> {
    let mut lines = LinesInclusive::new(buf);
    let mut out = Vec::new();
    while let Some(line) = lines.next() {
        out.push((line.0.to_vec(), line.1));
    }
    assert!(lines.next().is_none());
    out
}

fn file(matches: &[u64], chunks: &[(u64, u64)]) -> File {
    File::new(
        "f".to_string(),
        matches.iter().map(|n| LineMatch::lnum(*n)).collect(),
        chunks.to_vec(),
        Vec::new(),
    )
}

#[test]
fn lines_keep_their_terminators() {
    assert_eq!(
        lines_of(b"one\ntwo\r\n\nlast"),
        vec![
            (b"one\n".to_vec(), 1),
            (b"two\r\n".to_vec(), 2),
            (b"\n".to_vec(), 3),
            (b"last".to_vec(), 4),
        ]
    );
}

#[test]
fn buffer_that_ends_with_a_line_feed_has_no_empty_last_line() {
    assert_eq!(lines_of(b"one\n"), vec![(b"one\n".to_vec(), 1)]);
    assert_eq!(lines_of(b"\n"), vec![(b"\n".to_vec(), 1)]);
}

#[test]
fn empty_buffer_has_no_lines() {
    assert!(lines_of(b"").is_empty());
}

#[test]
fn line_match_constructors() {
    assert_eq!(LineMatch::lnum(3), LineMatch { line_number: 3, range: None });
    assert_eq!(LineMatch::new(3, Some((1, 2))), LineMatch { line_number: 3, range: Some((1, 2)) });
}

#[test]
fn well_formed_files() {
    assert!(file(&[], &[]).is_well_formed());
    assert!(file(&[3], &[(1, 6)]).is_well_formed());
    assert!(file(&[3, 50], &[(1, 6), (47, 53)]).is_well_formed());
    assert!(file(&[1, 2, 3], &[(1, 1), (3, 3)]).is_well_formed() == false);
    assert!(file(&[], &[(1, 1), (3, 3)]).is_well_formed());
    assert!(file(&[u64::MAX], &[(u64::MAX, u64::MAX)]).is_well_formed());
}

#[test]
fn chunks_must_be_apart_and_in_order() {
    assert!(!file(&[], &[(1, 3), (4, 6)]).is_well_formed());
    assert!(!file(&[], &[(1, 3), (3, 6)]).is_well_formed());
    assert!(!file(&[], &[(5, 6), (1, 2)]).is_well_formed());
    assert!(!file(&[], &[(3, 2)]).is_well_formed());
    assert!(!file(&[], &[(0, 2)]).is_well_formed());
    assert!(!file(&[], &[(1, u64::MAX), (3, 4)]).is_well_formed());
}

#[test]
fn matches_must_ascend_and_lie_in_chunks() {
    assert!(!file(&[3, 3], &[(1, 6)]).is_well_formed());
    assert!(!file(&[4, 3], &[(1, 6)]).is_well_formed());
    assert!(!file(&[7], &[(1, 6)]).is_well_formed());
    assert!(!file(&[3], &[]).is_well_formed());
}
