//! The options that a printer recognises.

use vstd::prelude::*;

verus! {

/// How many colors the terminal shows.
#[derive(Clone, Copy, Debug, PartialEq, Eq, Structural)]
pub enum TermColorSupport {
    True,
    Ansi256,
    Ansi16,
}

/// Whether lines that are wider than the terminal are broken.
#[derive(Clone, Copy, Debug, PartialEq, Eq, Structural)]
pub enum TextWrapMode {
    Char,
    Never,
}

/// What a printer is asked to do.
#[derive(Clone, Copy, Debug)]
pub struct PrinterOptions<'main> {
    /// Columns per tab; with 0 tabs are passed through as they are.
    pub tab_width: usize,
    /// Name of the theme; without one the default for the color support is taken.
    pub theme: Option<&'main str>,
    /// Whether border lines are drawn.
    pub grid: bool,
    /// Whether the theme's background is painted.
    pub background_color: bool,
    pub color_support: TermColorSupport,
    /// Width of the terminal in columns.
    pub term_width: u16,
    pub text_wrap: TextWrapMode,
    /// Whether only the first chunk of each file is printed.
    pub first_only: bool,
    /// Whether border lines are drawn with ASCII characters.
    pub ascii_lines: bool,
}

impl<'main> Default for PrinterOptions<'main> {
    fn default() -> (opts: Self)
        ensures
            opts.tab_width == 4,
            opts.theme is None,
            opts.grid,
            !opts.background_color,
            opts.color_support == TermColorSupport::True,
            opts.term_width == 80,
            opts.text_wrap == TextWrapMode::Char,
            !opts.first_only,
            !opts.ascii_lines,
    {
        PrinterOptions {
            tab_width: 4,
            theme: None,
            grid: true,
            background_color: false,
            color_support: TermColorSupport::True,
            term_width: 80,
            text_wrap: TextWrapMode::Char,
            first_only: false,
            ascii_lines: false,
        }
    }
}

} // verus!
