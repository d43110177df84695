use hgrep::assembler::{merge_chunks, ChunkAssembler};
use hgrep::chunk::{File, LineMatch};
use hgrep::grep::{parse_grep_line, GrepLine, LineKind};

fn assemble(input: &str, min_context: u64, max_context: u64) -> Vec<File> {
    let mut assembler = ChunkAssembler::new(min_context, max_context);
    let mut files = Vec::new();
    for line in input.lines() {
        if let Some(parsed) = parse_grep_line(line.as_bytes()) {
            files.extend(assembler.push(parsed));
        }
    }
    files.extend(assembler.finish());
    files
}

fn delivered(numbers: &[u64]) -> Vec<(u64, Vec<u8>)> {
    numbers.iter().map(|n| (*n, Vec::new())).collect()
}

#[test]
fn single_match_with_context() {
    let input = "file.rs-1-fn main() {\nfile.rs-2-\nfile.rs:3:let x = 1\nfile.rs-4-\nfile.rs-5-\nfile.rs-6-}\n";
    let files = assemble(input, 3, 6);
    assert_eq!(files.len(), 1);
    let file = &files[0];
    assert_eq!(file.path, "file.rs");
    assert_eq!(file.chunks, vec![(1, 6)]);
    assert_eq!(file.line_matches, vec![LineMatch::lnum(3)]);
    assert_eq!(file.contents, b"fn main() {\n\nlet x = 1\n\n\n}\n".to_vec());
    assert!(file.is_well_formed());
}

#[test]
fn matches_far_apart_make_two_chunks() {
    let files = assemble("a:3:x\na:50:y\n", 3, 6);
    assert_eq!(files.len(), 1);
    assert_eq!(files[0].chunks, vec![(1, 6), (47, 53)]);
    assert_eq!(files[0].line_matches, vec![LineMatch::lnum(3), LineMatch::lnum(50)]);
    assert!(files[0].is_well_formed());
}

#[test]
fn lines_that_were_not_delivered_are_empty() {
    let files = assemble("a:3:x\na:5:y\n", 0, 0);
    assert_eq!(files[0].contents, b"\n\nx\n\ny\n".to_vec());
    assert_eq!(files[0].chunks, vec![(3, 3), (5, 5)]);
}

#[test]
fn windows_that_touch_are_merged() {
    // With a context of 3 the windows of lines 10 and 17 are 7..13 and
    // 14..20: they touch. Those of lines 10 and 18 leave line 14 between them.
    assert_eq!(merge_chunks(&vec![10, 17], &delivered(&[]), 3, 3), vec![(7, 20)]);
    assert_eq!(merge_chunks(&vec![10, 18], &delivered(&[]), 3, 3), vec![(7, 13), (15, 21)]);
}

#[test]
fn consecutive_lines_merge_without_context() {
    assert_eq!(merge_chunks(&vec![4, 5, 6], &delivered(&[]), 0, 0), vec![(4, 6)]);
    assert_eq!(merge_chunks(&vec![4, 6], &delivered(&[]), 0, 0), vec![(4, 4), (6, 6)]);
}

#[test]
fn most_context_merges_where_the_gap_was_delivered() {
    // The windows of least context, 9..11 and 19..21, leave 12..18 between
    // them; the matches are no more than twice the most context apart.
    let all = delivered(&[10, 12, 13, 14, 15, 16, 17, 18, 20]);
    assert_eq!(merge_chunks(&vec![10, 20], &all, 1, 6), vec![(9, 21)]);
    let hole = delivered(&[10, 12, 13, 14, 16, 17, 18, 20]);
    assert_eq!(merge_chunks(&vec![10, 20], &hole, 1, 6), vec![(9, 11), (19, 21)]);
    // Beyond twice the most context nothing merges.
    assert_eq!(merge_chunks(&vec![10, 20], &all, 1, 4), vec![(9, 11), (19, 21)]);
}

#[test]
fn windows_are_cut_off_at_the_first_and_the_last_line() {
    assert_eq!(merge_chunks(&vec![2], &delivered(&[]), 3, 6), vec![(1, 5)]);
    assert_eq!(merge_chunks(&vec![u64::MAX - 1], &delivered(&[]), 3, 6), vec![(u64::MAX - 4, u64::MAX)]);
    assert_eq!(
        merge_chunks(&vec![1, u64::MAX], &delivered(&[]), u64::MAX, u64::MAX),
        vec![(1, u64::MAX)]
    );
    assert_eq!(merge_chunks(&vec![], &delivered(&[]), 3, 6), vec![]);
}

#[test]
fn least_context_bounds_the_most() {
    // A most context below the least counts as the least.
    let mut assembler = ChunkAssembler::new(5, 1);
    for n in [10, 22] {
        let line = GrepLine { path: b"a".to_vec(), line_number: n, kind: LineKind::Match, payload: Vec::new() };
        assert!(assembler.push(line).is_none());
    }
    let file = assembler.finish().unwrap();
    assert_eq!(file.chunks, vec![(5, 15), (17, 27)]);
}

#[test]
fn files_are_handed_out_when_the_path_changes() {
    let input = "a:1:x\nb:1:y\nb:2:z\na:9:w\n";
    let files = assemble(input, 0, 0);
    let seen: Vec<(&str, Vec<(u64, u64)>)> =
        files.iter().map(|f| (f.path.as_str(), f.chunks.clone())).collect();
    assert_eq!(
        seen,
        vec![("a", vec![(1, 1)]), ("b", vec![(1, 2)]), ("a", vec![(9, 9)])]
    );
    for file in &files {
        assert!(file.is_well_formed());
    }
}

#[test]
fn lines_that_go_backwards_start_a_new_file() {
    let files = assemble("a:5:x\na:3:y\na:3:z\n", 1, 1);
    assert_eq!(files.len(), 3);
    assert_eq!(files[0].line_matches, vec![LineMatch::lnum(5)]);
    assert_eq!(files[1].line_matches, vec![LineMatch::lnum(3)]);
    assert_eq!(files[2].line_matches, vec![LineMatch::lnum(3)]);
    for file in &files {
        assert!(file.is_well_formed());
    }
}

#[test]
fn files_without_matches_are_not_handed_out() {
    assert!(assemble("a-1-x\na-2-y\n", 3, 6).is_empty());
    assert!(assemble("", 3, 6).is_empty());
    let files = assemble("a-1-x\nb:1:y\n", 3, 6);
    assert_eq!(files.len(), 1);
    assert_eq!(files[0].path, "b");
}

#[test]
fn malformed_lines_and_line_zero_are_passed_over() {
    let mut assembler = ChunkAssembler::new(1, 1);
    let zero = GrepLine { path: b"a".to_vec(), line_number: 0, kind: LineKind::Match, payload: Vec::new() };
    assert!(assembler.push(zero).is_none());
    assert!(assembler.finish().is_none());
    let files = assemble("a:1:x\nnonsense\na:2:y\n", 0, 0);
    assert_eq!(files.len(), 1);
    assert_eq!(files[0].chunks, vec![(1, 2)]);
}

#[test]
fn every_match_lies_in_a_chunk() {
    let mut input = String::new();
    for n in [1u64, 2, 9, 10, 11, 30, 31, 45, 100, 101, 103, 200] {
        input.push_str(&format!("f:{}:x\n", n));
        input.push_str(&format!("f-{}-y\n", n + 1));
    }
    for (min, max) in [(0, 0), (0, 3), (1, 1), (2, 5), (3, 6), (10, 20)] {
        let files = assemble(&input, min, max);
        for file in &files {
            assert!(file.is_well_formed(), "min={} max={}", min, max);
            for m in file.line_matches.iter() {
                assert!(file.chunks.iter().any(|(s, e)| *s <= m.line_number && m.line_number <= *e));
            }
            for pair in file.chunks.windows(2) {
                assert!(pair[0].1 + 1 < pair[1].0);
            }
        }
    }
}

#[test]
fn path_that_is_no_text_is_replaced() {
    let mut assembler = ChunkAssembler::new(0, 0);
    let line = GrepLine { path: vec![b'a', 0xff], line_number: 1, kind: LineKind::Match, payload: Vec::new() };
    assert!(assembler.push(line).is_none());
    assert_eq!(assembler.finish().unwrap().path, "a\u{fffd}");
}
