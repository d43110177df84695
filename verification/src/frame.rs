//! The frame of a file: what its header, its gutter, its lines, its
//! separators and its footer are, character for character.

use vstd::prelude::*;
use crate::bridge::{cjk_text_width, utf8_lossy};
use crate::chunk::{in_some_chunk, lines_of, LineMatch};
use crate::pen::{pen_default_bg, pen_fg, pen_fill, pen_newline, pen_put, spaces, Paint, Pen};
use crate::printer::{PrinterOptions, TermColorSupport, TextWrapMode};
use crate::reflow::{lemma_row_sound, lemma_uneaten_shrinks, line_chars, tokens_hold};
use crate::region::{slid_left, Region};
use crate::rows::{row, uneaten};
use crate::style::{chomped, Color, ThemeColors, TokenView};
use crate::text::{decimal, text_holds};

verus! {

/// The characters that border lines are drawn with.
#[derive(Clone, Copy, Debug, PartialEq, Eq, Structural)]
pub struct LineChars {
    pub horizontal: char,
    pub vertical: char,
    pub vertical_and_right: char,
    pub down_and_horizontal: char,
    pub up_and_horizontal: char,
    pub dashed_horizontal: char,
}

impl LineChars {
    /// Box-drawing characters.
    pub open spec fn unicode_chars() -> LineChars {
        LineChars {
            horizontal: '\u{2500}',
            vertical: '\u{2502}',
            vertical_and_right: '\u{251c}',
            down_and_horizontal: '\u{252c}',
            up_and_horizontal: '\u{2534}',
            dashed_horizontal: '\u{2576}',
        }
    }

    /// Hyphens and vertical bars.
    pub open spec fn ascii_chars() -> LineChars {
        LineChars {
            horizontal: '-',
            vertical: '|',
            vertical_and_right: '|',
            down_and_horizontal: '-',
            up_and_horizontal: '-',
            dashed_horizontal: '-',
        }
    }

    /// Box-drawing characters.
    pub fn unicode() -> (chars: LineChars)
        ensures
            chars == Self::unicode_chars(),
    {
        LineChars {
            horizontal: '\u{2500}',
            vertical: '\u{2502}',
            vertical_and_right: '\u{251c}',
            down_and_horizontal: '\u{252c}',
            up_and_horizontal: '\u{2534}',
            dashed_horizontal: '\u{2576}',
        }
    }

    /// Hyphens and vertical bars.
    pub fn ascii() -> (chars: LineChars)
        ensures
            chars == Self::ascii_chars(),
    {
        LineChars {
            horizontal: '-',
            vertical: '|',
            vertical_and_right: '|',
            down_and_horizontal: '-',
            up_and_horizontal: '-',
            dashed_horizontal: '-',
        }
    }
}

/// The measures and colors of the frame that is drawn around a file.
#[derive(Clone, Copy, Debug)]
pub struct Frame {
    /// The theme's foreground, if it has one: the color of a matched
    /// line's number.
    pub foreground: Option<Color>,
    pub grid: bool,
    pub term_width: u16,
    /// Columns of the widest line number.
    pub lnum_width: u16,
    pub background: bool,
    pub first_only: bool,
    pub gutter_color: Color,
    pub chars: LineChars,
}

/// The gutter's color where the theme names none.
pub open spec fn default_gutter_color() -> Color {
    Color { r: 128, g: 128, b: 128, a: 255 }
}

/// The last line of the last chunk, 0 without chunks.
pub open spec fn last_line(chunks: Seq<(u64, u64)>) -> u64 {
    if chunks.len() == 0 {
        0
    } else {
        chunks.last().1
    }
}

/// Columns for line numbers: the digits of the last line of the last
/// chunk, and at least three where chunks are set apart by `...`.
pub open spec fn lnum_width_for(chunks: Seq<(u64, u64)>) -> nat {
    let digits = decimal(last_line(chunks) as nat).len();
    if chunks.len() > 1 && digits < 3 {
        3
    } else {
        digits
    }
}

/// Columns of the gutter: the line number between two spaces, and with a
/// grid the vertical line and one more space.
pub open spec fn gutter_width_for(grid: bool, chunks: Seq<(u64, u64)>) -> nat {
    lnum_width_for(chunks) + if grid {
        4nat
    } else {
        2nat
    }
}

/// Whether a terminal of `term_width` columns is wide enough for the
/// chunks: it has ten columns, and room for the gutter.
pub open spec fn fits(term_width: u16, grid: bool, chunks: Seq<(u64, u64)>) -> bool {
    term_width >= 10 && term_width >= gutter_width_for(grid, chunks)
}

/// Columns of a row beside the gutter, on a terminal that is wide enough.
pub open spec fn body_width_for(term_width: u16, grid: bool, chunks: Seq<(u64, u64)>) -> nat {
    (term_width - gutter_width_for(grid, chunks)) as nat
}

/// Whether the rows beside the gutter have room for the lines of the
/// chunks: where text is broken at the margin, no line in a chunk holds a
/// character that is wider than a row.
pub open spec fn rows_hold(
    wrap: bool,
    body_width: nat,
    chunks: Seq<(u64, u64)>,
    texts: Seq<Seq<char>>,
) -> bool {
    wrap ==> forall|i: int|
        0 <= i < texts.len() && in_some_chunk(chunks, (i + 1) as u64) ==> text_holds(
            #[trigger] texts[i],
            body_width,
        )
}

/// The frame for `chunks` that the options and the theme ask for.
pub open spec fn frame_for(opts: PrinterOptions, theme: ThemeColors, chunks: Seq<(u64, u64)>) -> Frame {
    Frame {
        foreground: theme.foreground,
        grid: opts.grid,
        term_width: opts.term_width,
        lnum_width: lnum_width_for(chunks) as u16,
        background: opts.background_color,
        first_only: opts.first_only,
        gutter_color: match theme.gutter_foreground {
            Some(c) => c,
            None => default_gutter_color(),
        },
        chars: if opts.ascii_lines {
            LineChars::ascii_chars()
        } else {
            LineChars::unicode_chars()
        },
    }
}

/// The paint that the options and the theme ask for. A match region is in
/// the theme's find highlight, or in its selection color where it has none;
/// the rest of a matched line is on the theme's line highlight, or on its
/// background where it has none.
pub open spec fn paint_for(opts: PrinterOptions, theme: ThemeColors) -> Paint {
    Paint {
        tab_width: opts.tab_width,
        true_color: opts.color_support == TermColorSupport::True,
        has_background: opts.background_color,
        wrap: opts.text_wrap == TextWrapMode::Char,
        background: theme.background,
        match_bg: if theme.line_highlight is Some {
            theme.line_highlight
        } else {
            theme.background
        },
        region_fg: if theme.find_highlight is Some {
            theme.find_highlight_foreground
        } else {
            None
        },
        region_bg: if theme.find_highlight is Some {
            theme.find_highlight
        } else {
            theme.selection
        },
    }
}

/// `n` times the character `c`.
pub open spec fn repeated(c: char, n: nat) -> Seq<char> {
    Seq::new(n, |i: int| c)
}

impl Frame {
    /// Columns of the gutter: the line number between two spaces, and
    /// with a grid the vertical line and one more space.
    pub open spec fn gutter(&self) -> nat {
        self.lnum_width as nat + if self.grid {
            4nat
        } else {
            2nat
        }
    }

    /// Columns of a row beside the gutter.
    pub open spec fn body_width(&self) -> nat {
        (self.term_width - self.gutter()) as nat
    }

    /// The frame leaves room for the gutter.
    pub open spec fn wf(&self) -> bool {
        &&& 1 <= self.lnum_width <= 20
        &&& self.gutter() <= self.term_width
    }

    /// A border line across the terminal, with `sep` where the gutter ends.
    pub open spec fn horizontal_line(&self, paint: Paint, pen: Pen, sep: char) -> Pen {
        let p = pen_default_bg(paint, pen_fg(paint, pen, self.gutter_color));
        pen_newline(
            pen_put(
                p,
                repeated(self.chars.horizontal, (self.gutter() - 2) as nat) + seq![sep] + repeated(
                    self.chars.horizontal,
                    (self.term_width - self.gutter() + 1) as nat,
                ),
            ),
        )
    }

    /// The gutter of a line's first row: the number flush right, in the
    /// theme's foreground if the line is matched, and the vertical line of
    /// the grid in the gutter's color.
    pub open spec fn line_number(&self, paint: Paint, pen: Pen, lnum: u64, matched: bool) -> Pen {
        let fg = if matched {
            self.foreground->0
        } else {
            self.gutter_color
        };
        let p1 = pen_default_bg(paint, pen_fg(paint, pen, fg));
        let p2 = pen_put(
            pen_put(p1, spaces((self.lnum_width - decimal(lnum as nat).len()) as nat)),
            seq![' '] + decimal(lnum as nat),
        );
        let p3 = if self.grid {
            pen_put(
                if matched {
                    pen_fg(paint, p2, self.gutter_color)
                } else {
                    p2
                },
                seq![' ', self.chars.vertical],
            )
        } else {
            p2
        };
        pen_put(pen_default_bg(paint, p3), seq![' '])
    }

    /// The gutter of a row that continues a line: blank, but for the
    /// vertical line of the grid.
    pub open spec fn wrapping_gutter(&self, paint: Paint, pen: Pen) -> Pen {
        let p = pen_put(
            pen_default_bg(paint, pen_fg(paint, pen, self.gutter_color)),
            spaces(self.lnum_width as nat + 2),
        );
        if self.grid {
            pen_put(p, seq![self.chars.vertical, ' '])
        } else {
            p
        }
    }

    /// The line between two chunks: `...` flush right in the number column,
    /// the grid's joiner, and a dashed line across the rest of the terminal.
    pub open spec fn separator_line(&self, paint: Paint, pen: Pen) -> Pen {
        let left_margin = (self.lnum_width + 1 - 3) as nat;
        let p1 = pen_put(
            pen_default_bg(paint, pen_fg(paint, pen, self.gutter_color)),
            spaces(left_margin),
        );
        let p2 = if self.grid {
            pen_put(p1, seq!['.', '.', '.', ' ', self.chars.vertical_and_right])
        } else {
            pen_put(p1, seq!['.', '.', '.'])
        };
        let w = if self.grid {
            5nat
        } else {
            3nat
        };
        pen_newline(
            pen_put(
                pen_default_bg(paint, p2),
                repeated(self.chars.dashed_horizontal, (self.term_width - left_margin - w) as nat),
            ),
        )
    }

    /// The rows of a line behind its number: each row that breaks is ended,
    /// and the next one starts with the continuation gutter, the region
    /// moved left by what the row consumed.
    ///
    /// Where a row has room for any one character of the line, each
    /// break leaves less to draw and the rows come to an end.
    pub open spec fn rows(
        &self,
        paint: Paint,
        tokens: Seq<TokenView>,
        region: Option<Region>,
        pen: Pen,
    ) -> Pen
        decreases line_chars(tokens),
        when self.wf() && (paint.wrap ==> tokens_hold(tokens, self.body_width()))
    {
        let r = row(paint, tokens, region, self.body_width(), pen);
        match r.wrapping {
            None => pen_newline(r.pen),
            Some(w) => {
                proof {
                    lemma_row_sound(paint, tokens, region, self.body_width(), pen);
                    lemma_uneaten_shrinks(tokens, w);
                }
                self.rows(
                    paint,
                    uneaten(tokens, w),
                    slid_region(region, w.consumed_bytes),
                    self.wrapping_gutter(paint, pen_newline(r.pen)),
                )
            },
        }
    }

    /// One line of the file: its number, then its rows, the line
    /// terminator left out.
    pub open spec fn line(
        &self,
        paint: Paint,
        tokens: Seq<TokenView>,
        lnum: u64,
        region: Option<Region>,
        pen: Pen,
    ) -> Pen {
        self.rows(
            paint,
            chomped_last(tokens),
            region,
            self.line_number(paint, pen, lnum, region is Some),
        )
    }

    /// The head of a file: a border line, the path in bold, filled up to
    /// the terminal's width where backgrounds are painted, and with a grid
    /// a second border line that branches off the gutter's line.
    pub open spec fn header(&self, paint: Paint, pen: Pen, path: Seq<char>) -> Pen {
        let p1 = self.horizontal_line(paint, pen, self.chars.horizontal);
        let p2 = pen_put(
            pen_put(pen_default_bg(paint, p1), seq!['\x1b', '[', '1', 'm']),
            seq![' '] + path,
        );
        let p3 = if self.background {
            pen_fill(p2, path_columns(path) + 1, self.term_width as nat)
        } else {
            p2
        };
        let p4 = pen_newline(p3);
        if self.grid {
            self.horizontal_line(paint, p4, self.chars.down_and_horizontal)
        } else {
            p4
        }
    }

    /// The foot of a file: with a grid, a border line that takes up the
    /// gutter's line.
    pub open spec fn footer(&self, paint: Paint, pen: Pen) -> Pen {
        if self.grid {
            self.horizontal_line(paint, pen, self.chars.up_and_horizontal)
        } else {
            pen
        }
    }
}

/// The region of the next row, after a row consumed `bytes`.
pub open spec fn slid_region(region: Option<Region>, bytes: nat) -> Option<Region> {
    match region {
        Some(r) => Some(Region { range: slid_left(r.range, bytes) }),
        None => None,
    }
}

/// The tokens of a line with the line terminator taken off the last one.
pub open spec fn chomped_last(tokens: Seq<TokenView>) -> Seq<TokenView> {
    if tokens.len() == 0 {
        tokens
    } else {
        tokens.update(
            tokens.len() - 1,
            TokenView { style: tokens.last().style, text: chomped(tokens.last().text) },
        )
    }
}

/// Columns of a path as it is written in the header.
pub open spec fn path_columns(path: Seq<char>) -> nat {
    cjk_text_width(path) as nat
}

/// The texts of the lines of `contents`.
pub open spec fn texts_of(contents: Seq<u8>) -> Seq<Seq<char>> {
    Seq::new(lines_of(contents).len(), |i: int| utf8_lossy(lines_of(contents)[i]))
}

/// The region of line `lnum`: that of its match, if the line matched.
pub open spec fn region_at(matches: Seq<LineMatch>, lnum: int) -> Option<Region> {
    if exists|i: int| 0 <= i < matches.len() && (#[trigger] matches[i]).line_number == lnum {
        let i = choose|i: int| 0 <= i < matches.len() && (#[trigger] matches[i]).line_number == lnum;
        Some(Region { range: matches[i].range })
    } else {
        None
    }
}

/// How far the body of a file is drawn: the chunk that is being drawn or
/// comes next, what is written, and whether the body is finished.
pub struct BodyState {
    pub chunk: int,
    pub pen: Pen,
    pub done: bool,
}

impl Frame {
    /// The body after line `lnum`, whose styled runs are `tokens`, has
    /// passed. A line of the current chunk is drawn, any other changes
    /// nothing. Behind the last line of a chunk the body is finished if only
    /// the first chunk is asked for or no chunk is left; else a separator is
    /// drawn and the next chunk is the current one.
    pub open spec fn body_step(
        &self,
        paint: Paint,
        matches: Seq<LineMatch>,
        chunks: Seq<(u64, u64)>,
        st: BodyState,
        lnum: int,
        tokens: Seq<TokenView>,
    ) -> BodyState {
        if st.done || st.chunk < 0 || st.chunk >= chunks.len() {
            BodyState { chunk: st.chunk, pen: st.pen, done: true }
        } else {
            let (start, end) = chunks[st.chunk];
            if start <= lnum <= end {
                let p = self.line(paint, tokens, lnum as u64, region_at(matches, lnum), st.pen);
                if lnum < end {
                    BodyState { chunk: st.chunk, pen: p, done: false }
                } else if self.first_only || st.chunk + 1 >= chunks.len() {
                    BodyState { chunk: st.chunk, pen: p, done: true }
                } else {
                    BodyState {
                        chunk: st.chunk + 1,
                        pen: self.separator_line(paint, p),
                        done: false,
                    }
                }
            } else {
                st
            }
        }
    }

    /// The body after the first `m` of `lines` have passed.
    pub open spec fn body_after(
        &self,
        paint: Paint,
        matches: Seq<LineMatch>,
        chunks: Seq<(u64, u64)>,
        lines: Seq<Seq<TokenView>>,
        m: int,
        pen: Pen,
    ) -> BodyState
        decreases m,
    {
        if m <= 0 {
            BodyState { chunk: 0, pen, done: false }
        } else {
            self.body_step(
                paint,
                matches,
                chunks,
                self.body_after(paint, matches, chunks, lines, m - 1, pen),
                m,
                lines[m - 1],
            )
        }
    }

    /// How many separators the body holds after the first `m` of `lines`
    /// have passed: one for each time that the next chunk became the
    /// current one.
    pub open spec fn separators_after(
        &self,
        paint: Paint,
        matches: Seq<LineMatch>,
        chunks: Seq<(u64, u64)>,
        lines: Seq<Seq<TokenView>>,
        m: int,
        pen: Pen,
    ) -> nat
        decreases m,
    {
        if m <= 0 {
            0
        } else {
            let before = self.body_after(paint, matches, chunks, lines, m - 1, pen);
            let after = self.body_after(paint, matches, chunks, lines, m, pen);
            self.separators_after(paint, matches, chunks, lines, m - 1, pen) + if after.chunk
                != before.chunk {
                1nat
            } else {
                0nat
            }
        }
    }

    /// The body of a file whose lines have the styled runs `lines`: the
    /// lines of each chunk, chunk after chunk, with a separator between
    /// two chunks. Lines behind the end of the body change nothing.
    pub open spec fn body(
        &self,
        paint: Paint,
        matches: Seq<LineMatch>,
        chunks: Seq<(u64, u64)>,
        lines: Seq<Seq<TokenView>>,
        pen: Pen,
    ) -> Pen {
        self.body_after(paint, matches, chunks, lines, lines.len() as int, pen).pen
    }
}

} // verus!
