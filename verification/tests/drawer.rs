use hgrep::region::Region;
use hgrep::chunk::{File, LineMatch};
use hgrep::drawer::Drawer;
use hgrep::frame::LineChars;
use hgrep::printer::{PrinterOptions, TermColorSupport};
use hgrep::style::{Color, FontStyle, Style, ThemeColors, Token};
use hgrep::highlighter::LineHighlighter;
use hgrep::syntect_printer::PrintError;
use syntect::highlighting::ThemeSet;
use syntect::parsing::SyntaxSet;

fn ansi(n: u8) -> Color {
    Color { r: n, g: 0, b: 0, a: 0 }
}

fn theme() -> ThemeColors {
    ThemeColors {
        foreground: Some(ansi(7)),
        background: Some(ansi(0)),
        gutter_foreground: Some(ansi(2)),
        line_highlight: Some(ansi(4)),
        selection: Some(ansi(5)),
        find_highlight: None,
        find_highlight_foreground: Some(ansi(1)),
    }
}

fn opts(term_width: u16) -> PrinterOptions<'static> {
    let mut opts = PrinterOptions::default();
    opts.term_width = term_width;
    opts.color_support = TermColorSupport::Ansi16;
    opts
}

fn drawer(opts: &PrinterOptions<'_>, chunks: &[(u64, u64)]) -> Drawer {
    assert!(Drawer::fits(opts, &chunks.to_vec()));
    Drawer::new(Vec::new(), opts, &theme(), &chunks.to_vec())
}

fn written(d: &Drawer) -> String {
    d.canvas.out.iter().collect()
}

fn token(fg: Color, text: &str) -> Token {
    Token {
        style: Style {
            foreground: fg,
            background: ansi(0),
            font_style: FontStyle { bold: false, underline: false, italic: false },
        },
        text: text.chars().collect(),
    }
}

#[test]
fn gutter_is_as_wide_as_the_last_line_number() {
    let d = drawer(&opts(80), &[(1, 6)]);
    assert_eq!(d.frame.lnum_width, 1);
    assert_eq!(d.gutter_width(), 5);
    let d = drawer(&opts(80), &[(995, 1001)]);
    assert_eq!(d.frame.lnum_width, 4);
    assert_eq!(d.gutter_width(), 8);
    let mut o = opts(80);
    o.grid = false;
    assert_eq!(drawer(&o, &[(995, 1001)]).gutter_width(), 6);
}

#[test]
fn gutter_has_room_for_the_dots_between_chunks() {
    let d = drawer(&opts(80), &[(1, 2), (5, 6)]);
    assert_eq!(d.frame.lnum_width, 3);
    let d = drawer(&opts(80), &[(1, 2), (5000, 6000)]);
    assert_eq!(d.frame.lnum_width, 4);
    let d = drawer(&opts(80), &[]);
    assert_eq!(d.frame.lnum_width, 1);
}

#[test]
fn terminal_must_have_ten_columns_and_room_for_the_gutter() {
    assert!(Drawer::fits(&opts(10), &vec![(1, 6)]));
    assert!(!Drawer::fits(&opts(9), &vec![(1, 6)]));
    assert!(Drawer::fits(&opts(10), &vec![(1, 2), (5, 999)]));
    assert!(Drawer::fits(&opts(10), &vec![(1, 1000)]));
    assert!(Drawer::fits(&opts(10), &vec![(1, 999_999)]));
    assert!(!Drawer::fits(&opts(10), &vec![(1, 1_000_000)]));
    assert!(Drawer::fits(&opts(11), &vec![(1, 1_000_000)]));
    let mut o = opts(10);
    o.grid = false;
    assert!(Drawer::fits(&o, &vec![(1, 99_999_999)]));
    assert!(!Drawer::fits(&o, &vec![(1, 100_000_000)]));
}

#[test]
fn rows_must_have_room_for_the_characters_of_the_chunks() {
    let file = |text: &str| {
        File::new(
            "f".to_string(),
            vec![LineMatch::lnum(1000)],
            vec![(1000, 1000)],
            format!("{}{}", "\u{17d8}\n".repeat(999), text).into_bytes(),
        )
    };
    // A gutter of eight columns leaves rows of two.
    assert!(Drawer::rows_hold(&opts(10), &file("ab\u{3042}\n")));
    assert!(!Drawer::rows_hold(&opts(10), &file("ab\u{17d8}\n")));
    assert!(Drawer::rows_hold(&opts(11), &file("ab\u{17d8}\n")));
    let mut o = opts(10);
    o.text_wrap = hgrep::printer::TextWrapMode::Never;
    assert!(Drawer::rows_hold(&o, &file("ab\u{17d8}\n")));
}

#[test]
fn rows_of_two_columns_are_drawn() {
    let mut d = drawer(&opts(10), &[(1000, 1000)]);
    d.draw_line(vec![token(ansi(3), "ab\u{3042}c\n")], 1000, None);
    assert_eq!(
        written(&d),
        "\x1b[32m 1000 │ \x1b[33mab\x1b[0m\n\x1b[32m      │ \x1b[33m\u{3042}\x1b[0m\n\x1b[32m      │ \x1b[33mc\x1b[0m\n"
    );
}

#[test]
fn colors_come_from_the_theme() {
    let d = drawer(&opts(80), &[(1, 6)]);
    assert_eq!(d.frame.foreground, Some(ansi(7)));
    assert_eq!(d.frame.gutter_color, ansi(2));
    assert_eq!(d.canvas.paint.match_bg, Some(ansi(4)));
    // Without a find highlight the selection is the region's background.
    assert_eq!(d.canvas.paint.region_bg, Some(ansi(5)));
    assert_eq!(d.canvas.paint.region_fg, None);
    assert!(!d.canvas.paint.true_color);
    assert!(d.canvas.paint.wrap);
    assert_eq!(d.canvas.paint.tab_width, 4);

    let mut t = theme();
    t.find_highlight = Some(ansi(3));
    t.gutter_foreground = None;
    t.line_highlight = None;
    let d = Drawer::new(Vec::new(), &opts(80), &t, &vec![(1, 6)]);
    assert_eq!(d.canvas.paint.region_bg, Some(ansi(3)));
    assert_eq!(d.canvas.paint.region_fg, Some(ansi(1)));
    assert_eq!(d.frame.gutter_color, Color { r: 128, g: 128, b: 128, a: 255 });
    assert_eq!(d.canvas.paint.match_bg, Some(ansi(0)));
}

#[test]
fn drawer_is_made_for_a_theme_without_foreground() {
    let bare = ThemeColors {
        foreground: None,
        background: None,
        gutter_foreground: None,
        line_highlight: None,
        selection: None,
        find_highlight: None,
        find_highlight_foreground: None,
    };
    let mut d = Drawer::new(Vec::new(), &opts(80), &bare, &vec![(1, 6), (47, 53)]);
    assert_eq!(d.frame.lnum_width, 3);
    assert_eq!(d.gutter_width(), 7);
    assert_eq!(d.canvas.current_fg, None);
    assert_eq!(d.canvas.current_bg, None);
    assert_eq!(d.frame.foreground, None);
    d.draw_line_number(5, false);
    assert_eq!(written(&d), "\x1b[38;5;244m   5 │ ");
    let d = Drawer::new(Vec::new(), &opts(80), &bare, &vec![(1, 6)]);
    assert_eq!(d.frame.lnum_width, 1);
    assert_eq!(d.gutter_width(), 5);
}

#[test]
fn line_characters() {
    assert_eq!(LineChars::unicode().horizontal, '─');
    assert_eq!(LineChars::unicode().vertical, '│');
    assert_eq!(LineChars::unicode().vertical_and_right, '├');
    assert_eq!(LineChars::unicode().down_and_horizontal, '┬');
    assert_eq!(LineChars::unicode().up_and_horizontal, '┴');
    assert_eq!(LineChars::unicode().dashed_horizontal, '╶');
    let a = LineChars::ascii();
    assert_eq!(
        (a.horizontal, a.vertical, a.vertical_and_right, a.down_and_horizontal, a.up_and_horizontal, a.dashed_horizontal),
        ('-', '|', '|', '-', '-', '-')
    );
}

#[test]
fn horizontal_line_spans_the_terminal() {
    let mut d = drawer(&opts(12), &[(1, 6)]);
    d.draw_horizontal_line('┬');
    assert_eq!(written(&d), "\x1b[32m───┬────────\x1b[0m\n");
}

#[test]
fn line_number_of_an_unmatched_line() {
    let mut d = drawer(&opts(20), &[(95, 101)]);
    d.draw_line_number(99, false);
    assert_eq!(written(&d), "\x1b[32m  99 │ ");
}

#[test]
fn line_number_of_a_matched_line() {
    let mut d = drawer(&opts(20), &[(95, 101)]);
    d.draw_line_number(100, true);
    assert_eq!(written(&d), "\x1b[37m 100\x1b[32m │ ");
}

#[test]
fn line_number_without_grid() {
    let mut o = opts(20);
    o.grid = false;
    let mut d = drawer(&o, &[(95, 101)]);
    d.draw_line_number(7, true);
    assert_eq!(written(&d), "\x1b[37m   7 ");
}

#[test]
fn line_number_on_a_background() {
    let mut o = opts(20);
    o.background_color = true;
    let mut d = drawer(&o, &[(1, 6)]);
    d.draw_line_number(3, false);
    assert_eq!(written(&d), "\x1b[32m\x1b[40m 3 │ ");
}

#[test]
fn wrapping_gutter_is_blank() {
    let mut d = drawer(&opts(20), &[(95, 101)]);
    d.draw_wrapping_gutter();
    assert_eq!(written(&d), "\x1b[32m     │ ");
    let mut o = opts(20);
    o.grid = false;
    let mut d = drawer(&o, &[(95, 101)]);
    d.draw_wrapping_gutter();
    assert_eq!(written(&d), "\x1b[32m     ");
}

#[test]
fn separator_line_spans_the_terminal() {
    let mut d = drawer(&opts(14), &[(1, 2), (5, 6)]);
    d.draw_separator_line();
    assert_eq!(written(&d), "\x1b[32m ... ├╶╶╶╶╶╶╶╶\x1b[0m\n");
    let mut o = opts(14);
    o.grid = false;
    o.ascii_lines = true;
    let mut d = drawer(&o, &[(1, 2), (5000, 6000)]);
    d.draw_separator_line();
    assert_eq!(written(&d), "\x1b[32m  ...---------\x1b[0m\n");
}

#[test]
fn header_shows_the_path_in_bold() {
    let mut o = opts(12);
    o.grid = false;
    let mut d = drawer(&o, &[(1, 6)]);
    d.draw_header("a/b.rs");
    assert_eq!(written(&d), "\x1b[32m────────────\x1b[0m\n\x1b[1m a/b.rs\x1b[0m\n");
}

#[test]
fn header_on_a_background_is_filled() {
    let mut o = opts(12);
    o.background_color = true;
    let mut d = drawer(&o, &[(1, 6)]);
    d.draw_header("あ.rs");
    assert_eq!(
        written(&d),
        "\x1b[32m\x1b[40m────────────\x1b[0m\n\
         \x1b[40m\x1b[1m あ.rs      \x1b[0m\n\
         \x1b[32m\x1b[40m───┬────────\x1b[0m\n"
    );
}

#[test]
fn footer_is_drawn_with_a_grid_only() {
    let mut d = drawer(&opts(12), &[(1, 6)]);
    d.draw_footer();
    assert_eq!(written(&d), "\x1b[32m───┴────────\x1b[0m\n");
    let mut o = opts(12);
    o.grid = false;
    let mut d = drawer(&o, &[(1, 6)]);
    d.draw_footer();
    assert_eq!(written(&d), "");
}

#[test]
fn line_is_drawn_without_its_terminator() {
    let mut d = drawer(&opts(20), &[(1, 6)]);
    d.draw_line(vec![token(ansi(3), "let "), token(ansi(6), "x;\r\n")], 2, None);
    assert_eq!(written(&d), "\x1b[32m 2 │ \x1b[33mlet \x1b[36mx;\x1b[0m\n");
}

#[test]
fn line_without_tokens_is_a_number() {
    let mut d = drawer(&opts(20), &[(1, 6)]);
    d.draw_line(Vec::new(), 2, None);
    assert_eq!(written(&d), "\x1b[32m 2 │ \x1b[0m\n");
}

#[test]
fn matched_line_wraps_with_its_region() {
    let mut d = drawer(&opts(10), &[(1, 6)]);
    let region = Some(Region { range: Some((3, 7)) });
    d.draw_line(vec![token(ansi(3), "abcdefghijk\n")], 2, region);
    assert_eq!(
        written(&d),
        "\x1b[37m 2\x1b[32m │ \x1b[44m\x1b[33mabc\x1b[45mde\x1b[0m\n\
         \x1b[32m   │ \x1b[44m\x1b[45mfg\x1b[33m\x1b[44mhij\x1b[0m\n\
         \x1b[32m   │ \x1b[44m\x1b[33mk    \x1b[0m\n"
    );
}

#[test]
fn every_row_of_a_line_on_a_background_is_as_wide_as_the_body() {
    let mut o = opts(12);
    o.background_color = true;
    let mut d = drawer(&o, &[(1, 6)]);
    d.draw_line(vec![token(ansi(3), "あいうえお\tx\n")], 2, None);
    let text = written(&d);
    let rows: Vec<String> = text
        .lines()
        .map(|row| {
            let mut seen = String::new();
            let mut chars = row.chars();
            while let Some(c) = chars.next() {
                if c == '\x1b' {
                    for e in chars.by_ref() {
                        if e == 'm' {
                            break;
                        }
                    }
                } else {
                    seen.push(c);
                }
            }
            seen
        })
        .collect();
    assert_eq!(rows, vec![" 2 │ あいう ", "   │ えお   ", "   │ x      "]);
}

#[test]
fn body_skips_what_lies_outside_the_chunks() {
    let syntaxes = SyntaxSet::load_defaults_newlines();
    let themes = ThemeSet::load_defaults();
    let printer = hgrep::syntect_printer::SyntectPrinter::with_assets(
        Sink,
        SyntaxSet::load_defaults_newlines(),
        ThemeSet::load_defaults(),
        PrinterOptions::default(),
    );
    let syntax = printer.find_syntax("x.txt", "").unwrap();
    assert_eq!(syntax.name, "Plain Text");
    let syntax = syntaxes.find_syntax_plain_text();
    let theme = &themes.themes["base16-ocean.dark"];
    let hl = LineHighlighter::new(syntax, theme, &syntaxes);
    let file = File::new(
        "x.txt".to_string(),
        vec![LineMatch::lnum(3)],
        vec![(2, 3), (5, 5)],
        b"one\ntwo\nthree\nfour\nfive\nsix\n".to_vec(),
    );
    let mut o = opts(14);
    o.color_support = TermColorSupport::True;
    let mut d = drawer(&o, &[(2, 3), (5, 5)]);
    d.draw_body(&file, hl);
    let text = written(&d);
    let rows: Vec<&str> = text.lines().collect();
    assert_eq!(rows.len(), 4);
    assert!(rows[0].contains("two"));
    assert!(rows[1].contains("three  "));
    assert!(rows[2].contains(" ... ├╶╶╶╶╶╶╶╶"));
    assert!(rows[3].contains("five"));
    assert!(!text.contains("one"));
    assert!(!text.contains("four"));
    assert!(!text.contains("six"));
}

struct Sink;

impl hgrep::syntect_printer::LockableWrite for Sink {
    type Error = PrintError;

    fn write_locked(&self, _: &[u8]) -> Result<(), PrintError> {
        Ok(())
    }
}

#[test]
fn syntax_is_found_by_override_name_extension_and_first_line() {
    let printer = hgrep::syntect_printer::SyntectPrinter::with_assets(
        Sink,
        SyntaxSet::load_defaults_newlines(),
        ThemeSet::load_defaults(),
        PrinterOptions::default(),
    );
    assert_eq!(printer.find_syntax("src/main.rs", "").unwrap().name, "Rust");
    assert_eq!(printer.find_syntax("dir/Makefile", "").unwrap().name, "Makefile");
    assert_eq!(printer.find_syntax("a.h", "").unwrap().name, "C++");
    assert_eq!(printer.find_syntax("a.c", "").unwrap().name, "C");
    assert_eq!(printer.find_syntax("script", "#!/bin/bash\n").unwrap().name, "Bourne Again Shell (bash)");
    assert_eq!(printer.find_syntax("script", "nothing to go by\n").unwrap().name, "Plain Text");
    // No syntax of that name is among syntect's own: the extension decides.
    assert_eq!(printer.find_syntax("a.pac", "").unwrap().name, "Plain Text");
}

#[test]
fn highlighted_runs_cover_the_line() {
    let syntaxes = SyntaxSet::load_defaults_newlines();
    let themes = ThemeSet::load_defaults();
    let syntax = syntaxes.find_syntax_by_extension("rs").unwrap();
    let theme = &themes.themes["base16-ocean.dark"];
    let mut hl = LineHighlighter::new(syntax, theme, &syntaxes);
    hl.skip_line("/* a comment that goes on\n");
    let in_comment = hl.highlight("fn main() {} */ fn f() {}\n");
    let joined: String = in_comment.iter().flat_map(|t| t.text.iter()).collect();
    assert_eq!(joined, "fn main() {} */ fn f() {}\n");
    assert!(in_comment.len() > 1);
    // The line that was skipped is known to the parser: `fn main` is in
    // the comment's color, the `fn` behind the comment is not.
    assert_ne!(in_comment[0].style.foreground, in_comment.last().unwrap().style.foreground);
    let first: String = in_comment[0].text.iter().collect();
    assert!(first.starts_with("fn main"));
}

#[test]
fn error_reads_with_its_prefix() {
    let err = PrintError::new("something".to_string());
    assert_eq!(err.message(), "something");
    assert_eq!(err.to_text(), "Error while printing output with syntect: something");
}
