use hgrep::assembler::ChunkAssembler;
use hgrep::chunk::{File, LineMatch};
use hgrep::grep::parse_grep_line;
use hgrep::printer::{PrinterOptions, TermColorSupport, TextWrapMode};
use hgrep::syntect_printer::{
    load_themes, pick_themes, LockableWrite, PrintFailure, SyntectPrinter,
};
use std::cell::RefCell;
use std::fmt;
use std::io;
use std::mem;
use syntect::highlighting::{Color, Theme, ThemeSet};
use syntect::parsing::{SyntaxSet, SyntaxSetBuilder};

fn syntax_set() -> SyntaxSet {
    SyntaxSet::load_defaults_newlines()
}

// The default themes of the options are not among those that syntect
// carries: a theme of syntect stands in for each of them.
fn theme_set() -> ThemeSet {
    let mut ts = ThemeSet::load_defaults();
    let dark = ts.themes["base16-ocean.dark"].clone();
    ts.themes.insert("Monokai Extended".to_string(), dark);
    ts.themes.insert("ansi".to_string(), ansi_theme());
    ts
}

// A theme in the encoding for terminals of sixteen colors: the alpha
// channel is 0 and the red channel holds the number of the color.
fn ansi_theme() -> Theme {
    let mut theme = Theme::default();
    theme.settings.foreground = Some(Color { r: 7, g: 0, b: 0, a: 0 });
    theme.settings.background = Some(Color { r: 0, g: 0, b: 0, a: 0 });
    theme.settings.gutter_foreground = Some(Color { r: 2, g: 0, b: 0, a: 0 });
    theme.settings.line_highlight = Some(Color { r: 4, g: 0, b: 0, a: 0 });
    theme.settings.find_highlight = Some(Color { r: 3, g: 0, b: 0, a: 0 });
    theme.settings.find_highlight_foreground = Some(Color { r: 0, g: 0, b: 0, a: 0 });
    theme
}

#[derive(Default)]
struct DummyStdout(RefCell<Vec<u8>>);

impl LockableWrite for DummyStdout {
    type Error = io::Error;

    fn write_locked(&self, buf: &[u8]) -> io::Result<()> {
        self.0.borrow_mut().extend_from_slice(buf);
        Ok(())
    }
}

#[derive(Debug)]
struct DummyError;

impl std::error::Error for DummyError {}

impl fmt::Display for DummyError {
    fn fmt(&self, f: &mut fmt::Formatter<'_>) -> fmt::Result {
        f.write_str("dummy error!")
    }
}

#[derive(Default)]
struct ErrorStdout;

impl LockableWrite for ErrorStdout {
    type Error = io::Error;

    fn write_locked(&self, _: &[u8]) -> io::Result<()> {
        Err(io::Error::new(io::ErrorKind::Other, DummyError))
    }
}

const SAMPLE: &str = "fn main() {\n    let v = vec![1, 2, 3];\n    let x = 1;\n    for i in v {\n        println!(\"{}\", i + x);\n    }\n}\n";

fn sample_chunk(file: &str) -> File {
    let lmats = vec![LineMatch::lnum(3)];
    let chunks = vec![(1, 6)];
    File::new(file.to_string(), lmats, chunks, SAMPLE.as_bytes().to_vec())
}

fn print_with(file: File, opts: PrinterOptions<'_>) -> String {
    let stdout = DummyStdout(RefCell::new(vec![]));
    let mut printer = SyntectPrinter::with_assets(stdout, syntax_set(), theme_set(), opts);
    printer.print(file).unwrap();
    let printed = mem::take(printer.writer_mut()).0.into_inner();
    String::from_utf8(printed).unwrap()
}

// What is left of a printed page when the escape sequences are taken out.
fn visible(printed: &str) -> String {
    let mut out = String::new();
    let mut chars = printed.chars();
    while let Some(c) = chars.next() {
        if c == '\x1b' {
            for e in chars.by_ref() {
                if e == 'm' {
                    break;
                }
            }
        } else {
            out.push(c);
        }
    }
    out
}

#[test]
fn test_print_nothing() {
    let file = File::new("x.txt".to_string(), vec![], vec![], vec![]);
    let opts = PrinterOptions::default();
    let stdout = DummyStdout(RefCell::new(vec![]));
    let mut printer = SyntectPrinter::with_assets(stdout, syntax_set(), theme_set(), opts);
    printer.print(file).unwrap();
    let printed = mem::take(printer.writer_mut()).0.into_inner();
    assert!(
        printed.is_empty(),
        "pritned:\n{}",
        String::from_utf8_lossy(&printed)
    );
}

#[test]
fn test_error_write() {
    let file = sample_chunk("README.md");
    let opts = PrinterOptions::default();
    let printer = SyntectPrinter::with_assets(ErrorStdout, syntax_set(), theme_set(), opts);
    let err = match printer.print(file).unwrap_err() {
        PrintFailure::Write(err) => err,
        PrintFailure::Print(err) => panic!("the printer failed: {}", err.to_text()),
    };
    assert_eq!(&format!("{}", err), "dummy error!", "message={}", err);
}

#[test]
fn test_unknown_theme() {
    let err = match load_themes(Some("this theme does not exist"), theme_set()) {
        Err(e) => e,
        Ok(_) => panic!("error did not occur"),
    };
    let msg = err.to_text();
    assert!(msg.contains("Unknown theme"), "message={:?}", msg);
    assert_eq!(
        msg,
        "Error while printing output with syntect: Unknown theme 'this theme does not exist'. See --list-themes output"
    );
}

#[test]
fn test_no_syntax_found() {
    let file = sample_chunk("LICENSE.txt");
    let opts = PrinterOptions::default();
    let stdout = DummyStdout(RefCell::new(vec![]));
    let mut printer = SyntectPrinter::with_assets(stdout, syntax_set(), theme_set(), opts);
    printer.print(file).unwrap();
    let printed = mem::take(printer.writer_mut()).0.into_inner();
    assert!(!printed.is_empty());
}

#[test]
fn themes_are_taken_from_the_curated_set_first() {
    let found = load_themes(Some("Monokai Extended"), theme_set()).unwrap();
    assert!(found.themes.contains_key("ansi"));
    let found = load_themes(None, ThemeSet::new()).unwrap();
    assert!(found.themes.is_empty());
    let found = load_themes(Some("InspiredGitHub"), ThemeSet::new()).unwrap();
    assert!(found.themes.contains_key("InspiredGitHub"));
    assert!(!found.themes.contains_key("ansi"));
}

#[test]
fn themes_are_picked_from_the_curated_set_then_from_the_defaults() {
    let found = pick_themes("ansi", theme_set(), ThemeSet::load_defaults()).unwrap();
    assert!(found.themes.contains_key("Monokai Extended"));
    let found = pick_themes("InspiredGitHub", ThemeSet::new(), ThemeSet::load_defaults()).unwrap();
    assert!(found.themes.contains_key("InspiredGitHub"));
    let found = pick_themes("InspiredGitHub", theme_set(), ThemeSet::new()).unwrap();
    assert!(found.themes.contains_key("ansi"));
    let err = pick_themes("nothing", theme_set(), ThemeSet::load_defaults()).unwrap_err();
    assert_eq!(err.message(), "Unknown theme 'nothing'. See --list-themes output");
    let err = pick_themes("ansi", ThemeSet::new(), ThemeSet::load_defaults()).unwrap_err();
    assert_eq!(err.message(), "Unknown theme 'ansi'. See --list-themes output");
}

#[test]
fn printing_with_a_theme_that_is_not_there_fails() {
    let mut opts = PrinterOptions::default();
    opts.theme = Some("nothing of that name");
    let stdout = DummyStdout(RefCell::new(vec![]));
    let mut printer = SyntectPrinter::with_assets(stdout, syntax_set(), theme_set(), opts);
    match printer.print(sample_chunk("a.rs")).unwrap_err() {
        PrintFailure::Print(e) => {
            assert_eq!(e.message(), "Unknown theme 'nothing of that name'. See --list-themes output")
        }
        PrintFailure::Write(_) => panic!("nothing is to be written"),
    }
    assert!(mem::take(printer.writer_mut()).0.into_inner().is_empty());
}

#[test]
fn printing_with_a_theme_without_foreground_fails() {
    let mut themes = theme_set();
    themes.themes.insert("bare".to_string(), Theme::default());
    let mut opts = PrinterOptions::default();
    opts.theme = Some("bare");
    let printer = SyntectPrinter::with_assets(DummyStdout::default(), syntax_set(), themes, opts);
    match printer.print(sample_chunk("a.rs")).unwrap_err() {
        PrintFailure::Print(e) => assert_eq!(e.message(), "Theme 'bare' has no foreground color"),
        PrintFailure::Write(_) => panic!("nothing is to be written"),
    }
}

#[test]
fn printing_on_a_terminal_that_is_too_narrow_fails() {
    let mut opts = PrinterOptions::default();
    opts.term_width = 9;
    let printer =
        SyntectPrinter::with_assets(DummyStdout::default(), syntax_set(), theme_set(), opts);
    match printer.print(sample_chunk("a.rs")).unwrap_err() {
        PrintFailure::Print(e) => {
            assert_eq!(e.message(), "Terminal is too narrow for the line numbers")
        }
        PrintFailure::Write(_) => panic!("nothing is to be written"),
    }
    // Ten columns do for a gutter of five.
    let mut opts = PrinterOptions::default();
    opts.term_width = 10;
    let printed = print_with(sample_chunk("a.rs"), opts);
    assert!(!printed.is_empty());
    // They do not for a line number of seven digits.
    let file = File::new(
        "a.rs".to_string(),
        vec![LineMatch::lnum(1_000_000)],
        vec![(999_997, 1_000_003)],
        Vec::new(),
    );
    let printer =
        SyntectPrinter::with_assets(DummyStdout::default(), syntax_set(), theme_set(), opts);
    assert!(matches!(printer.print(file), Err(PrintFailure::Print(_))));
}

#[test]
fn printing_a_character_that_is_wider_than_a_row_fails() {
    let mut contents = "\n".repeat(999);
    contents.push_str("a\u{17d8}\n");
    let file = File::new(
        "wide.txt".to_string(),
        vec![LineMatch::lnum(1000)],
        vec![(1000, 1000)],
        contents.into_bytes(),
    );
    let mut opts = PrinterOptions::default();
    opts.term_width = 10;
    let printer =
        SyntectPrinter::with_assets(DummyStdout::default(), syntax_set(), theme_set(), opts);
    match printer.print(file.clone()).unwrap_err() {
        PrintFailure::Print(e) => assert_eq!(
            e.message(),
            "A line holds a character that is wider than the rows of the terminal"
        ),
        PrintFailure::Write(_) => panic!("nothing is to be written"),
    }
    // One column more, and the character has its row.
    opts.term_width = 11;
    let seen = visible(&print_with(file, opts));
    let lines: Vec<&str> = seen.lines().collect();
    assert_eq!(lines[3], " 1000 │ a  ");
    assert_eq!(lines[4], "      │ \u{17d8}");
}

#[test]
fn printing_without_any_syntax_fails() {
    let empty = SyntaxSetBuilder::new().build();
    let opts = PrinterOptions::default();
    let printer = SyntectPrinter::with_assets(DummyStdout::default(), empty, theme_set(), opts);
    match printer.print(sample_chunk("a.rs")).unwrap_err() {
        PrintFailure::Print(e) => assert_eq!(e.message(), "No syntax for plain text was found"),
        PrintFailure::Write(_) => panic!("nothing is to be written"),
    }
}

#[test]
fn default_options() {
    let opts = PrinterOptions::default();
    assert_eq!(opts.tab_width, 4);
    assert_eq!(opts.theme, None);
    assert!(opts.grid);
    assert!(!opts.background_color);
    assert_eq!(opts.color_support, TermColorSupport::True);
    assert_eq!(opts.term_width, 80);
    assert_eq!(opts.text_wrap, TextWrapMode::Char);
    assert!(!opts.first_only);
    assert!(!opts.ascii_lines);
}

#[test]
fn theme_names_follow_the_color_support() {
    let mut opts = PrinterOptions::default();
    let p = SyntectPrinter::with_assets(DummyStdout::default(), syntax_set(), theme_set(), opts);
    assert_eq!(p.theme_name(), "Monokai Extended");
    assert!(p.theme().is_ok());
    opts.color_support = TermColorSupport::Ansi16;
    let p = SyntectPrinter::with_assets(DummyStdout::default(), syntax_set(), theme_set(), opts);
    assert_eq!(p.theme_name(), "ansi");
    opts.theme = Some("Nord");
    let p = SyntectPrinter::with_assets(DummyStdout::default(), syntax_set(), theme_set(), opts);
    assert_eq!(p.theme_name(), "Nord");
    assert_eq!(p.theme().unwrap_err().message(), "Unknown theme 'Nord'. See --list-themes output");
}

#[test]
fn single_match_with_default_options() {
    let printed = print_with(sample_chunk("file.rs"), PrinterOptions::default());
    let seen = visible(&printed);
    let lines: Vec<&str> = seen.lines().collect();
    assert_eq!(lines.len(), 10);
    assert_eq!(lines[0], "─".repeat(80));
    assert_eq!(lines[1], " file.rs");
    assert_eq!(lines[2], format!("{}┬{}", "─".repeat(3), "─".repeat(76)));
    assert_eq!(lines[3], " 1 │ fn main() {");
    assert_eq!(lines[4], " 2 │     let v = vec![1, 2, 3];");
    // The matched line is painted up to the margin.
    assert_eq!(lines[5], format!(" 3 │ {:<75}", "    let x = 1;"));
    assert_eq!(lines[6], " 4 │     for i in v {");
    assert_eq!(lines[7], " 5 │         println!(\"{}\", i + x);");
    assert_eq!(lines[8], " 6 │     }");
    assert_eq!(lines[9], format!("{}┴{}", "─".repeat(3), "─".repeat(76)));
    // The background of the matched line is the theme's line highlight,
    // and is set on the matched line only.
    let settings = &theme_set().themes["Monokai Extended"].settings;
    let c = settings.line_highlight.or(settings.background).unwrap();
    let bg = format!("\x1b[48;2;{};{};{}m", c.r, c.g, c.b);
    let raw: Vec<&str> = printed.lines().collect();
    assert!(raw[5].contains(&bg));
    assert!(!raw[4].contains(&bg));
    assert!(!raw[6].contains(&bg));
    assert!(printed.ends_with("\x1b[0m\n"));
}

#[test]
fn printing_twice_gives_the_same_bytes() {
    let first = print_with(sample_chunk("file.rs"), PrinterOptions::default());
    let second = print_with(sample_chunk("file.rs"), PrinterOptions::default());
    assert_eq!(first, second);
}

#[test]
fn without_grid_the_gutter_is_the_number() {
    let mut opts = PrinterOptions::default();
    opts.grid = false;
    let printed = print_with(sample_chunk("file.rs"), opts);
    let seen = visible(&printed);
    let lines: Vec<&str> = seen.lines().collect();
    assert_eq!(lines.len(), 8);
    assert_eq!(lines[0], "─".repeat(80));
    assert_eq!(lines[1], " file.rs");
    assert_eq!(lines[2], " 1 fn main() {");
    assert_eq!(lines[4], format!(" 3 {:<77}", "    let x = 1;"));
    assert_eq!(lines[7], " 6     }");
    assert!(!seen.contains('│'));
    assert!(!seen.contains('┬'));
    assert!(!seen.contains('┴'));
}

#[test]
fn ascii_lines_use_ascii_only() {
    let mut opts = PrinterOptions::default();
    opts.ascii_lines = true;
    let printed = print_with(sample_chunk("file.rs"), opts);
    let seen = visible(&printed);
    assert!(seen.is_ascii());
    let lines: Vec<&str> = seen.lines().collect();
    assert_eq!(lines[0], "-".repeat(80));
    assert_eq!(lines[2], "-".repeat(80));
    assert_eq!(lines[3], " 1 | fn main() {");
    assert_eq!(lines[9], "-".repeat(80));
}

#[test]
fn background_fills_every_row() {
    let mut opts = PrinterOptions::default();
    opts.background_color = true;
    opts.term_width = 40;
    let printed = print_with(sample_chunk("file.rs"), opts);
    let seen = visible(&printed);
    for line in seen.lines() {
        assert_eq!(line.chars().count(), 40, "{:?}", line);
    }
}

fn long_file() -> File {
    let mut contents = String::new();
    for i in 1..=60 {
        contents.push_str(&format!("line {}\n", i));
    }
    File::new(
        "long.txt".to_string(),
        vec![LineMatch::lnum(3), LineMatch::lnum(50)],
        vec![(1, 6), (47, 53)],
        contents.into_bytes(),
    )
}

#[test]
fn chunks_are_set_apart_by_a_separator() {
    let printed = print_with(long_file(), PrinterOptions::default());
    let seen = visible(&printed);
    let lines: Vec<&str> = seen.lines().collect();
    assert_eq!(lines.len(), 3 + 6 + 1 + 7 + 1);
    assert_eq!(lines[2], format!("{}┬{}", "─".repeat(5), "─".repeat(74)));
    assert_eq!(lines[3], "   1 │ line 1");
    assert_eq!(lines[8], "   6 │ line 6");
    assert_eq!(lines[9], format!(" ... ├{}", "╶".repeat(74)));
    assert_eq!(lines[10], "  47 │ line 47");
    assert_eq!(lines[13], format!("  50 │ {:<73}", "line 50"));
    assert_eq!(lines[16], "  53 │ line 53");
}

#[test]
fn separator_without_grid() {
    let mut opts = PrinterOptions::default();
    opts.grid = false;
    let printed = print_with(long_file(), opts);
    let seen = visible(&printed);
    let lines: Vec<&str> = seen.lines().collect();
    assert_eq!(lines[8], format!(" ...{}", "╶".repeat(76)));
    assert_eq!(lines[9], "  47 line 47");
}

#[test]
fn only_the_first_chunk_when_asked() {
    let mut opts = PrinterOptions::default();
    opts.first_only = true;
    let printed = print_with(long_file(), opts);
    let seen = visible(&printed);
    let lines: Vec<&str> = seen.lines().collect();
    assert_eq!(lines.len(), 3 + 6 + 1);
    assert!(!seen.contains("..."));
    assert!(!seen.contains("line 47"));
}

#[test]
fn chunk_that_reaches_beyond_the_file_ends_with_the_file() {
    let file = File::new(
        "short.txt".to_string(),
        vec![LineMatch::lnum(2)],
        vec![(1, 5)],
        b"one\ntwo\nthree".to_vec(),
    );
    let printed = print_with(file, PrinterOptions::default());
    let seen = visible(&printed);
    let lines: Vec<&str> = seen.lines().collect();
    assert_eq!(lines.len(), 3 + 3 + 1);
    assert_eq!(lines[5], " 3 │ three");
}

#[test]
fn long_lines_wrap_at_the_margin() {
    let file = File::new(
        "wide.txt".to_string(),
        vec![LineMatch::lnum(1)],
        vec![(1, 2)],
        "あいうえお\nabcdefghijklmnopqrstuvwxyz\n".as_bytes().to_vec(),
    );
    let mut opts = PrinterOptions::default();
    opts.term_width = 12;
    let printed = print_with(file, opts);
    let seen = visible(&printed);
    let lines: Vec<&str> = seen.lines().collect();
    // The body has seven columns: three wide characters and one space.
    assert_eq!(lines[3], " 1 │ あいう ");
    assert_eq!(lines[4], "   │ えお   ");
    assert_eq!(lines[5], " 2 │ abcdefg");
    assert_eq!(lines[6], "   │ hijklmn");
    assert_eq!(lines[7], "   │ opqrstu");
    assert_eq!(lines[8], "   │ vwxyz");
}

#[test]
fn long_lines_stay_whole_without_wrap() {
    let file = File::new(
        "wide.txt".to_string(),
        vec![LineMatch::lnum(1)],
        vec![(1, 1)],
        b"abcdefghijklmnopqrstuvwxyz\n".to_vec(),
    );
    let mut opts = PrinterOptions::default();
    opts.term_width = 12;
    opts.text_wrap = TextWrapMode::Never;
    let printed = print_with(file, opts);
    let seen = visible(&printed);
    let lines: Vec<&str> = seen.lines().collect();
    assert_eq!(lines[3], " 1 │ abcdefghijklmnopqrstuvwxyz");
}

#[test]
fn region_is_colored_on_every_row_it_spans() {
    let text = "0123456789abcdefghijklmnopqrstuvwxyzABCDEFGHI\n";
    let file = File::new(
        "region.txt".to_string(),
        vec![LineMatch::new(1, Some((4, 40)))],
        vec![(1, 1)],
        text.as_bytes().to_vec(),
    );
    let mut opts = PrinterOptions::default();
    opts.term_width = 20;
    opts.theme = Some("ansi");
    opts.color_support = TermColorSupport::Ansi16;
    let printed = print_with(file, opts);
    let rows: Vec<&str> = printed.lines().collect();
    assert_eq!(rows.len(), 3 + 3 + 1);
    // Fifteen columns of text in a row: the region starts in the first
    // row, fills the second and ends in the third.
    let region = "\x1b[30m\x1b[43m";
    let back = "\x1b[37m\x1b[44m";
    assert!(rows[3].ends_with(&format!("\x1b[44m\x1b[37m0123{}456789abcde\x1b[0m", region)), "{:?}", rows[3]);
    assert!(rows[4].ends_with(&format!("\x1b[44m{}fghijklmnopqrst\x1b[0m", region)), "{:?}", rows[4]);
    assert!(rows[5].ends_with(&format!("\x1b[44m{}uvwxyzABCD{}EFGHI\x1b[0m", region, back)), "{:?}", rows[5]);
}

#[test]
fn region_that_ends_with_a_row_is_gone_on_the_next() {
    let text = "0123456789abcdefghijklmnopqrstuvwxyzABCDEFGHIJKLMNOPQRSTUVWXYZ\n";
    let file = File::new(
        "region.txt".to_string(),
        vec![LineMatch::new(1, Some((4, 40)))],
        vec![(1, 1)],
        text.as_bytes().to_vec(),
    );
    let mut opts = PrinterOptions::default();
    opts.term_width = 25;
    opts.theme = Some("ansi");
    opts.color_support = TermColorSupport::Ansi16;
    let printed = print_with(file, opts);
    let rows: Vec<&str> = printed.lines().collect();
    let region = "\x1b[30m\x1b[43m";
    let back = "\x1b[37m\x1b[44m";
    assert!(rows[3].ends_with(&format!("0123{}456789abcdefghij\x1b[0m", region)), "{:?}", rows[3]);
    assert!(rows[4].ends_with(&format!("\x1b[44m{}klmnopqrstuvwxyzABCD{}\x1b[0m", region, back)), "{:?}", rows[4]);
    assert!(rows[5].ends_with("\x1b[44m\x1b[37mEFGHIJKLMNOPQRSTUVWX\x1b[0m"), "{:?}", rows[5]);
    assert!(rows[6].ends_with(&format!("\x1b[44m\x1b[37mYZ{}\x1b[0m", " ".repeat(18))), "{:?}", rows[6]);
}

#[test]
fn sixteen_colors_use_short_sequences_only() {
    let mut opts = PrinterOptions::default();
    opts.color_support = TermColorSupport::Ansi16;
    let printed = print_with(sample_chunk("file.txt"), opts);
    assert!(printed.contains("\x1b[32m"));
    assert!(printed.contains("\x1b[44m"));
    let mut rest = printed.as_str();
    while let Some(at) = rest.find("\x1b[") {
        let end = at + rest[at..].find('m').unwrap();
        let params = &rest[at + 2..end];
        let ok = params == "0"
            || params == "1"
            || params == "22"
            || params == "4"
            || params == "24"
            || (params.len() == 2
                && (params.starts_with('3') || params.starts_with('4'))
                && params.as_bytes()[1] <= b'7');
        assert!(ok, "sequence {:?}", params);
        rest = &rest[end..];
    }
}

#[test]
fn colors_are_downgraded_for_256_colors() {
    let mut opts = PrinterOptions::default();
    opts.color_support = TermColorSupport::Ansi256;
    let printed = print_with(sample_chunk("file.rs"), opts);
    assert!(printed.contains("\x1b[38;5;"));
    assert!(!printed.contains("\x1b[38;2;"));
    assert!(!printed.contains("\x1b[48;2;"));
}

#[test]
fn bytes_that_are_no_text_are_replaced() {
    let file = File::new(
        "bad.txt".to_string(),
        vec![LineMatch::lnum(1)],
        vec![(1, 1)],
        vec![b'a', 0xff, b'b', b'\n'],
    );
    let printed = print_with(file, PrinterOptions::default());
    assert!(visible(&printed).contains(" 1 │ a\u{fffd}b"));
}

#[test]
fn tabs_are_expanded_by_the_options() {
    let file = File::new(
        "tab.txt".to_string(),
        vec![LineMatch::lnum(2)],
        vec![(1, 1)],
        b"\tx\n".to_vec(),
    );
    let mut opts = PrinterOptions::default();
    opts.tab_width = 2;
    assert!(visible(&print_with(file.clone(), opts)).contains(" 1 │   x"));
    opts.tab_width = 0;
    assert!(visible(&print_with(file, opts)).contains(" 1 │ \tx"));
}

#[test]
fn carriage_return_is_stripped_with_the_line_feed() {
    let file = File::new(
        "crlf.txt".to_string(),
        vec![LineMatch::lnum(1)],
        vec![(1, 2)],
        b"one\r\ntwo\r\n".to_vec(),
    );
    let printed = print_with(file, PrinterOptions::default());
    assert!(!printed.contains('\r'));
}

fn piped(input: &str, min_context: u64, max_context: u64) -> Vec<File> {
    let mut assembler = ChunkAssembler::new(min_context, max_context);
    let mut files = Vec::new();
    for line in input.lines() {
        if let Some(parsed) = parse_grep_line(line.as_bytes()) {
            files.extend(assembler.push(parsed));
        }
    }
    files.extend(assembler.finish());
    files
}

#[test]
fn piped_match_with_its_context_is_printed() {
    let input = "file.rs-1-fn main() {\nfile.rs-2-    let v = vec![1, 2, 3];\nfile.rs:3:let x = 1\n\
                 file.rs-4-    for i in v {\nfile.rs-5-        println!(\"{}\", i + x);\nfile.rs-6-    }\n";
    let mut files = piped(input, 3, 6);
    assert_eq!(files.len(), 1);
    let file = files.remove(0);
    assert_eq!(file.chunks, vec![(1, 6)]);
    let printed = print_with(file, PrinterOptions::default());
    let seen = visible(&printed);
    let lines: Vec<&str> = seen.lines().collect();
    assert_eq!(lines.len(), 10);
    assert_eq!(lines[1], " file.rs");
    assert_eq!(lines[3], " 1 │ fn main() {");
    assert_eq!(lines[5], format!(" 3 │ {:<75}", "let x = 1"));
    assert_eq!(lines[8], " 6 │     }");
}

#[test]
fn piped_matches_far_apart_are_set_apart() {
    let mut files = piped("a.txt:3:three\na.txt:50:fifty\n", 3, 6);
    assert_eq!(files.len(), 1);
    let file = files.remove(0);
    assert_eq!(file.chunks, vec![(1, 6), (47, 53)]);
    let printed = print_with(file, PrinterOptions::default());
    let seen = visible(&printed);
    let lines: Vec<&str> = seen.lines().collect();
    // The contents end with the last line that was delivered.
    assert_eq!(lines.len(), 3 + 6 + 1 + 4 + 1);
    assert_eq!(lines[3], "   1 │ ");
    assert_eq!(lines[5], format!("   3 │ {:<73}", "three"));
    assert_eq!(lines[9], format!(" ... ├{}", "╶".repeat(74)));
    assert_eq!(lines[10], "  47 │ ");
    assert_eq!(lines[13], format!("  50 │ {:<73}", "fifty"));
    assert_eq!(lines[14], format!("{}┴{}", "─".repeat(5), "─".repeat(74)));
}
