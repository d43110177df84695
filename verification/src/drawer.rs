//! The drawer: draws the header, the lines of the chunks and the footer
//! of one file on a canvas.

use vstd::prelude::*;
use crate::bridge::{lossy_text, str_width_cjk};
use crate::canvas::{push_decimal, Canvas};
use crate::chunk::{
    chunks_apart, in_some_chunk, lemma_chunks_in_order, lines_of, matches_ascend, matches_covered,
    File, Line, LineMatch, LinesInclusive,
};
use crate::frame::{
    body_width_for, chomped_last, fits, frame_for, last_line, lnum_width_for, paint_for, region_at,
    repeated, rows_hold, texts_of, BodyState, Frame, LineChars,
};
use crate::highlighter::{advanced, runs_for, runs_of, state_behind, LineHighlighter};
use crate::pen::{pen_newline, pen_put, Paint, Pen};
use crate::printer::{PrinterOptions, TermColorSupport, TextWrapMode};
use crate::reflow::{
    lemma_row_sound, lemma_uneaten_holds, lemma_uneaten_shrinks, line_chars, tokens_hold,
};
use crate::region::Region;
use crate::rows::{lemma_bytes_before_agree, line_bytes};
use crate::style::{chomped, joined, token_views, Color, ThemeColors, Token, TokenView};
use crate::text::{
    char_columns, chars_of, columns, decimal, lemma_decimal_len_grows, num_digits, text_bytes,
    text_holds,
};

verus! {

/// A line without its terminator holds no character that was not there.
proof fn lemma_chomped_last_holds(tokens: Seq<TokenView>, width: nat)
    requires
        tokens_hold(tokens, width),
    ensures
        tokens_hold(chomped_last(tokens), width),
{
    let chomp = chomped_last(tokens);
    assert forall|i: int| 0 <= i < chomp.len() implies text_holds((#[trigger] chomp[i]).text, width) by {
        assert(text_holds(tokens[i].text, width));
        if i == tokens.len() - 1 {
            let text = tokens[i].text;
            assert forall|x: int| 0 <= x < chomp[i].text.len() implies columns(
                #[trigger] chomp[i].text[x],
            ) <= width by {
                assert(chomp[i].text[x] == text[x]);
            }
        }
    }
}

/// Runs that cover a text hold no character that the text does not hold.
proof fn lemma_joined_holds(tokens: Seq<TokenView>, width: nat)
    requires
        text_holds(joined(tokens), width),
    ensures
        tokens_hold(tokens, width),
    decreases tokens.len(),
{
    if tokens.len() > 0 {
        let front = joined(tokens.drop_last());
        let last = tokens.last().text;
        assert forall|x: int| 0 <= x < front.len() implies columns(#[trigger] front[x]) <= width by {
            assert(joined(tokens)[x] == front[x]);
        }
        assert forall|x: int| 0 <= x < last.len() implies columns(#[trigger] last[x]) <= width by {
            assert(joined(tokens)[front.len() + x] == last[x]);
        }
        lemma_joined_holds(tokens.drop_last(), width);
        assert forall|i: int| 0 <= i < tokens.len() implies text_holds(
            (#[trigger] tokens[i]).text,
            width,
        ) by {
            if i < tokens.len() - 1 {
                assert(tokens.drop_last()[i] == tokens[i]);
            }
        }
    }
}

/// A line without its terminator has no more bytes than with it.
proof fn lemma_chomped_last_bytes(tokens: Seq<TokenView>)
    ensures
        line_bytes(chomped_last(tokens)) <= line_bytes(tokens),
{
    if tokens.len() > 0 {
        let n = tokens.len() as int;
        let text = tokens.last().text;
        lemma_bytes_before_agree(tokens, chomped_last(tokens), n - 1);
        assert(text_bytes(chomped(text)) <= text_bytes(text)) by {
            reveal_with_fuel(text_bytes, 3);
        }
    }
}

/// The matches before index `at` lie before line `lnum`, the others do not.
#[verifier::opaque]
pub open spec fn cursor_at(matches: Seq<LineMatch>, at: int, lnum: int) -> bool {
    &&& 0 <= at <= matches.len()
    &&& forall|i: int| 0 <= i < at ==> (#[trigger] matches[i]).line_number < lnum
    &&& forall|i: int| at <= i < matches.len() ==> (#[trigger] matches[i]).line_number >= lnum
}

/// No match lies on a line between two chunks.
proof fn lemma_cursor_skips(
    chunks: Seq<(u64, u64)>,
    matches: Seq<LineMatch>,
    k: int,
    at: int,
    lnum: int,
)
    requires
        chunks_apart(chunks),
        matches_covered(matches, chunks),
        0 <= k < chunks.len(),
        lnum < chunks[k].0,
        k > 0 ==> chunks[k - 1].1 < lnum,
        cursor_at(matches, at, lnum),
    ensures
        cursor_at(matches, at, lnum + 1),
{
    reveal(cursor_at);
    assert forall|i: int| at <= i < matches.len() implies (#[trigger] matches[i]).line_number
        >= lnum + 1 by {
        if matches[i].line_number == lnum {
            assert(in_some_chunk(chunks, matches[i].line_number));
            let j = choose|j: int|
                0 <= j < chunks.len() && (#[trigger] chunks[j]).0 <= lnum <= chunks[j].1;
            if j < k {
                if j < k - 1 {
                    lemma_chunks_in_order(chunks, j, k - 1);
                }
            } else if j > k {
                lemma_chunks_in_order(chunks, k, j);
            }
        }
    }
}

/// The match of a line, if it has one, is the one that the cursor is at.
proof fn lemma_cursor_finds(matches: Seq<LineMatch>, at: int, lnum: int)
    requires
        matches_ascend(matches),
        cursor_at(matches, at, lnum),
    ensures
        at < matches.len() && matches[at].line_number == lnum ==> region_at(matches, lnum) == Some(
            Region { range: matches[at].range },
        ) && cursor_at(matches, at + 1, lnum + 1),
        !(at < matches.len() && matches[at].line_number == lnum) ==> region_at(matches, lnum)
            is None && cursor_at(matches, at, lnum + 1),
{
    reveal(cursor_at);
    if at < matches.len() && matches[at].line_number == lnum {
        let i = choose|i: int| 0 <= i < matches.len() && (#[trigger] matches[i]).line_number == lnum;
        if i < at {
            assert(matches[i].line_number < lnum);
        } else if i > at {
            assert(matches[at].line_number < matches[i].line_number);
        }
        assert forall|j: int| at + 1 <= j < matches.len() implies (
        #[trigger] matches[j]).line_number >= lnum + 1 by {
            assert(matches[at].line_number < matches[j].line_number);
        }
    } else {
        assert forall|j: int| at <= j < matches.len() implies (#[trigger] matches[j]).line_number
            >= lnum + 1 by {
            if j > at {
                assert(matches[at].line_number < matches[j].line_number);
            }
        }
    }
}

/// The number of a line of a chunk fits in a gutter that is wide enough
/// for the chunks.
proof fn lemma_number_fits(chunks: Seq<(u64, u64)>, k: int, lnum: u64, lnum_width: u16)
    requires
        chunks_apart(chunks),
        0 <= k < chunks.len(),
        lnum <= chunks[k].1,
        lnum_width >= lnum_width_for(chunks),
    ensures
        decimal(lnum as nat).len() <= lnum_width,
        chunks.len() > 1 ==> lnum_width >= 3,
{
    if k + 1 < chunks.len() {
        lemma_chunks_in_order(chunks, k, chunks.len() - 1);
    }
    lemma_decimal_len_grows(lnum as nat, last_line(chunks) as nat);
}

/// A body that is finished stays as it is, whatever lines follow.
proof fn lemma_body_done_stays(
    frame: Frame,
    paint: Paint,
    matches: Seq<LineMatch>,
    chunks: Seq<(u64, u64)>,
    lines: Seq<Seq<TokenView>>,
    m: int,
    n: int,
    pen: Pen,
)
    requires
        0 <= m <= n,
        frame.body_after(paint, matches, chunks, lines, m, pen).done,
    ensures
        frame.body_after(paint, matches, chunks, lines, n, pen) == frame.body_after(
            paint,
            matches,
            chunks,
            lines,
            m,
            pen,
        ),
    decreases n - m,
{
    if m < n {
        lemma_body_done_stays(frame, paint, matches, chunks, lines, m, n - 1, pen);
    }
}

/// Where the body stands after a line has passed: the chunk and the match
/// that come next, and whether the body is finished.
struct Passed {
    chunk: usize,
    matched: usize,
    done: bool,
}

/// Draws one file on its canvas.
pub struct Drawer {
    pub frame: Frame,
    pub canvas: Canvas,
}

impl Drawer {
    /// The drawer's frame is well-formed.
    pub open spec fn wf(&self) -> bool {
        self.frame.wf()
    }

    /// A drawer that appends to `out`, for a file with these chunks.
    pub fn new(out: Vec<char>, opts: &PrinterOptions, theme: &ThemeColors, chunks: &Vec<(u64, u64)>) -> (drawer:
        Drawer)
        requires
            fits(opts.term_width, opts.grid, chunks@),
        ensures
            drawer.wf(),
            drawer.frame == frame_for(*opts, *theme, chunks@),
            drawer.canvas.paint == paint_for(*opts, *theme),
            drawer.canvas@ == (Pen { out: out@, fg: None, bg: None }),
    {
        let last_lnum = if chunks.len() > 0 {
            chunks[chunks.len() - 1].1
        } else {
            0
        };
        let mut lnum_width = num_digits(last_lnum);
        if chunks.len() > 1 && lnum_width < 3 {
            lnum_width = 3;  // room for `...` in the gutter
        }
        let gutter_color = match theme.gutter_foreground {
            Some(c) => c,
            None => Color { r: 128, g: 128, b: 128, a: 255 },
        };
        let (region_fg, region_bg) = if let Some(bg) = theme.find_highlight {
            (theme.find_highlight_foreground, Some(bg))
        } else {
            (None, theme.selection)
        };
        let canvas = Canvas {
            out,
            paint: Paint {
                tab_width: opts.tab_width,
                true_color: opts.color_support == TermColorSupport::True,
                has_background: opts.background_color,
                wrap: opts.text_wrap == TextWrapMode::Char,
                background: theme.background,
                match_bg: if theme.line_highlight.is_some() {
                    theme.line_highlight
                } else {
                    theme.background
                },
                region_fg,
                region_bg,
            },
            current_fg: None,
            current_bg: None,
        };
        let chars = if opts.ascii_lines {
            LineChars::ascii()
        } else {
            LineChars::unicode()
        };
        Drawer {
            frame: Frame {
                foreground: theme.foreground,
                grid: opts.grid,
                term_width: opts.term_width,
                lnum_width,
                background: opts.background_color,
                first_only: opts.first_only,
                gutter_color,
                chars,
            },
            canvas,
        }
    }

    /// Whether the terminal of the options is wide enough for a file with
    /// these chunks.
    pub fn fits(opts: &PrinterOptions, chunks: &Vec<(u64, u64)>) -> (ok: bool)
        ensures
            ok == fits(opts.term_width, opts.grid, chunks@),
    {
        let last_lnum = if chunks.len() > 0 {
            chunks[chunks.len() - 1].1
        } else {
            0
        };
        let mut lnum_width = num_digits(last_lnum);
        if chunks.len() > 1 && lnum_width < 3 {
            lnum_width = 3;
        }
        let gutter_width = if opts.grid {
            lnum_width + 4
        } else {
            lnum_width + 2
        };
        opts.term_width >= 10 && opts.term_width >= gutter_width
    }

    /// Whether the rows beside the gutter have room for the lines of the
    /// chunks of `file`, on a terminal that is wide enough for the gutter.
    pub fn rows_hold(opts: &PrinterOptions, file: &File) -> (ok: bool)
        requires
            fits(opts.term_width, opts.grid, file.chunks@),
            file.contents.len() < usize::MAX,
        ensures
            ok == rows_hold(
                opts.text_wrap == TextWrapMode::Char,
                body_width_for(opts.term_width, opts.grid, file.chunks@),
                file.chunks@,
                texts_of(file.contents@),
            ),
    {
        let chunks = &file.chunks;
        let last_lnum = if chunks.len() > 0 {
            chunks[chunks.len() - 1].1
        } else {
            0
        };
        let mut lnum_width = num_digits(last_lnum);
        if chunks.len() > 1 && lnum_width < 3 {
            lnum_width = 3;
        }
        let gutter_width = if opts.grid {
            lnum_width + 4
        } else {
            lnum_width + 2
        };
        let body_width = (opts.term_width - gutter_width) as usize;
        let ghost texts = texts_of(file.contents@);
        if !(opts.text_wrap == TextWrapMode::Char) || body_width >= 3 {
            // No character is wider than three columns.
            return true;
        }
        let mut lines = LinesInclusive::new(file.contents.as_slice());
        let ghost mut seen: int = 0;
        loop
            invariant
                lines.wf(),
                lines.buffer() == file.contents@,
                lines.next_lnum() == seen + 1,
                0 <= seen <= texts.len(),
                texts == texts_of(file.contents@),
                opts.text_wrap == TextWrapMode::Char,
                body_width as nat == body_width_for(opts.term_width, opts.grid, file.chunks@),
                forall|i: int|
                    0 <= i < seen && in_some_chunk(file.chunks@, (i + 1) as u64) ==> text_holds(
                        #[trigger] texts[i],
                        body_width as nat,
                    ),
            ensures
                seen == texts.len(),
            decreases lines_of(file.contents@).len() + 1 - lines.next_lnum(),
        {
            match lines.next() {
                None => {
                    break ;
                },
                Some(Line(bytes, lnum)) => {
                    if file.covers(lnum) {
                        let text = lossy_text(bytes);
                        let chars = chars_of(text.as_str());
                        assert(chars@ == texts[seen]);
                        let mut j: usize = 0;
                        while j < chars.len()
                            invariant
                                j <= chars.len(),
                                0 <= seen < texts.len(),
                                chars@ == texts[seen],
                                texts == texts_of(file.contents@),
                                lnum == seen + 1,
                                in_some_chunk(file.chunks@, lnum),
                                opts.text_wrap == TextWrapMode::Char,
                                body_width as nat == body_width_for(
                                    opts.term_width,
                                    opts.grid,
                                    file.chunks@,
                                ),
                                forall|x: int| 0 <= x < j ==> columns(#[trigger] chars@[x])
                                    <= body_width,
                            decreases chars.len() - j,
                        {
                            if char_columns(chars[j]) > body_width {
                                assert(columns(texts[seen][j as int]) > body_width);
                                assert(!text_holds(texts[seen], body_width as nat));
                                assert(in_some_chunk(file.chunks@, (seen + 1) as u64));
                                return false;
                            }
                            j = j + 1;
                        }
                        assert(text_holds(texts[seen], body_width as nat));
                    }
                    proof {
                        seen = seen + 1;
                    }
                },
            }
        }
        true
    }

    /// Columns of the gutter.
    pub fn gutter_width(&self) -> (width: u16)
        requires
            self.frame.lnum_width <= 20,
        ensures
            width as nat == self.frame.gutter(),
    {
        if self.frame.grid {
            self.frame.lnum_width + 4
        } else {
            self.frame.lnum_width + 2
        }
    }

    fn draw_repeated(&mut self, c: char, n: u16)
        ensures
            final(self).frame == old(self).frame,
            final(self).canvas.paint == old(self).canvas.paint,
            final(self).canvas@ == pen_put(old(self).canvas@, repeated(c, n as nat)),
    {
        let mut i: u16 = 0;
        while i < n
            invariant
                i <= n,
                self.frame == old(self).frame,
                self.canvas.paint == old(self).canvas.paint,
                self.canvas.current_fg == old(self).canvas.current_fg,
                self.canvas.current_bg == old(self).canvas.current_bg,
                self.canvas.out@ == old(self).canvas.out@ + repeated(c, i as nat),
            decreases n - i,
        {
            self.canvas.out.push(c);
            i = i + 1;
            assert(self.canvas.out@ =~= old(self).canvas.out@ + repeated(c, i as nat));
        }
    }

    /// Draws a border line across the terminal, with `sep` where the
    /// gutter ends.
    pub fn draw_horizontal_line(&mut self, sep: char)
        requires
            old(self).wf(),
        ensures
            final(self).frame == old(self).frame,
            final(self).canvas.paint == old(self).canvas.paint,
            final(self).canvas@ == old(self).frame.horizontal_line(
                old(self).canvas.paint,
                old(self).canvas@,
                sep,
            ),
    {
        self.canvas.set_fg(self.frame.gutter_color);
        self.canvas.set_default_bg();
        let ghost p = self.canvas@;
        let gutter_width = self.gutter_width();
        self.draw_repeated(self.frame.chars.horizontal, gutter_width - 2);
        self.canvas.out.push(sep);
        self.draw_repeated(self.frame.chars.horizontal, self.frame.term_width - gutter_width + 1);
        assert(self.canvas.out@ =~= p.out + (repeated(
            self.frame.chars.horizontal,
            (self.frame.gutter() - 2) as nat,
        ) + seq![sep] + repeated(
            self.frame.chars.horizontal,
            (self.frame.term_width - self.frame.gutter() + 1) as nat,
        )));
        self.canvas.draw_newline()
    }

    /// Draws the gutter of a line's first row. The number of a matched
    /// line is in the theme's foreground, which has to be there.
    pub fn draw_line_number(&mut self, lnum: u64, matched: bool)
        requires
            old(self).wf(),
            decimal(lnum as nat).len() <= old(self).frame.lnum_width,
            matched ==> old(self).frame.foreground is Some,
        ensures
            final(self).frame == old(self).frame,
            final(self).canvas.paint == old(self).canvas.paint,
            final(self).canvas@ == old(self).frame.line_number(
                old(self).canvas.paint,
                old(self).canvas@,
                lnum,
                matched,
            ),
    {
        let fg = match self.frame.foreground {
            Some(fg) if matched => fg,
            _ => self.frame.gutter_color,
        };
        self.canvas.set_fg(fg);
        self.canvas.set_default_bg();
        let width = num_digits(lnum);
        self.canvas.draw_spaces((self.frame.lnum_width - width) as usize);
        let ghost p = self.canvas@;
        self.canvas.out.push(' ');
        push_decimal(&mut self.canvas.out, lnum);
        assert(self.canvas.out@ =~= p.out + (seq![' '] + decimal(lnum as nat)));
        if self.frame.grid {
            if matched {
                self.canvas.set_fg(self.frame.gutter_color);
            }
            let ghost q = self.canvas@;
            self.canvas.out.push(' ');
            self.canvas.out.push(self.frame.chars.vertical);
            assert(self.canvas.out@ =~= q.out + seq![' ', self.frame.chars.vertical]);
        }
        self.canvas.set_default_bg();
        let ghost q = self.canvas@;
        self.canvas.out.push(' ');
        assert(self.canvas.out@ =~= q.out + seq![' ']);
        // No reset of the colors: the text of the line follows.
    }

    /// Draws the gutter of a row that continues a line.
    pub fn draw_wrapping_gutter(&mut self)
        requires
            old(self).wf(),
        ensures
            final(self).frame == old(self).frame,
            final(self).canvas.paint == old(self).canvas.paint,
            final(self).canvas@ == old(self).frame.wrapping_gutter(
                old(self).canvas.paint,
                old(self).canvas@,
            ),
    {
        self.canvas.set_fg(self.frame.gutter_color);
        self.canvas.set_default_bg();
        self.canvas.draw_spaces(self.frame.lnum_width as usize + 2);
        if self.frame.grid {
            let ghost q = self.canvas@;
            self.canvas.out.push(self.frame.chars.vertical);
            self.canvas.out.push(' ');
            assert(self.canvas.out@ =~= q.out + seq![self.frame.chars.vertical, ' ']);
        }
    }

    /// Draws the line that sets two chunks apart.
    pub fn draw_separator_line(&mut self)
        requires
            old(self).wf(),
            old(self).frame.lnum_width >= 2,
        ensures
            final(self).frame == old(self).frame,
            final(self).canvas.paint == old(self).canvas.paint,
            final(self).canvas@ == old(self).frame.separator_line(
                old(self).canvas.paint,
                old(self).canvas@,
            ),
    {
        self.canvas.set_fg(self.frame.gutter_color);
        self.canvas.set_default_bg();
        // One more for the left margin, three less for the dots.
        let left_margin = self.frame.lnum_width + 1 - 3;
        self.canvas.draw_spaces(left_margin as usize);
        let ghost q = self.canvas@;
        self.canvas.out.push('.');
        self.canvas.out.push('.');
        self.canvas.out.push('.');
        let w: u16 = if self.frame.grid {
            self.canvas.out.push(' ');
            self.canvas.out.push(self.frame.chars.vertical_and_right);
            assert(self.canvas.out@ =~= q.out + seq![
                '.',
                '.',
                '.',
                ' ',
                self.frame.chars.vertical_and_right,
            ]);
            5
        } else {
            assert(self.canvas.out@ =~= q.out + seq!['.', '.', '.']);
            3
        };
        self.canvas.set_default_bg();
        let body_width = self.frame.term_width - left_margin - w;
        self.draw_repeated(self.frame.chars.dashed_horizontal, body_width);
        self.canvas.draw_newline()
    }

    /// Draws the foot of the file.
    pub fn draw_footer(&mut self)
        requires
            old(self).wf(),
        ensures
            final(self).frame == old(self).frame,
            final(self).canvas.paint == old(self).canvas.paint,
            final(self).canvas@ == old(self).frame.footer(old(self).canvas.paint, old(self).canvas@),
    {
        if self.frame.grid {
            self.draw_horizontal_line(self.frame.chars.up_and_horizontal);
        }
    }
    /// Draws one line of the file: its number, then its text, on as many
    /// rows as it takes. Where text is broken at the margin, a row has to
    /// have room for any one character of the line.
    pub fn draw_line(&mut self, tokens: Vec<Token>, lnum: u64, region: Option<Region>)
        requires
            old(self).wf(),
            line_bytes(token_views(tokens@)) <= usize::MAX,
            decimal(lnum as nat).len() <= old(self).frame.lnum_width,
            region is Some ==> old(self).frame.foreground is Some,
            old(self).canvas.paint.wrap ==> tokens_hold(
                token_views(tokens@),
                old(self).frame.body_width(),
            ),
        ensures
            final(self).frame == old(self).frame,
            final(self).canvas.paint == old(self).canvas.paint,
            final(self).canvas@ == old(self).frame.line(
                old(self).canvas.paint,
                token_views(tokens@),
                lnum,
                region,
                old(self).canvas@,
            ),
    {
        let ghost given = token_views(tokens@);
        let mut tokens = tokens;
        // Highlighting wants the line terminator; drawing does not: a row
        // is filled up and its colors are reset before the line is ended.
        if tokens.len() > 0 {
            let mut last = tokens.pop().unwrap();
            last.chomp();
            tokens.push(last);
        }
        proof {
            assert(token_views(tokens@) =~= chomped_last(given));
            lemma_chomped_last_bytes(given);
            if self.canvas.paint.wrap {
                lemma_chomped_last_holds(given, self.frame.body_width());
            }
        }
        let body_width = (self.frame.term_width - self.gutter_width()) as usize;
        self.draw_line_number(lnum, region.is_some());
        let mut region = region;
        let ghost goal = self.frame.rows(
            self.canvas.paint,
            token_views(tokens@),
            region,
            self.canvas@,
        );
        loop
            invariant_except_break
                self.wf(),
                body_width as nat == self.frame.body_width(),
                line_bytes(token_views(tokens@)) <= usize::MAX,
                self.canvas.paint.wrap ==> tokens_hold(
                    token_views(tokens@),
                    self.frame.body_width(),
                ),
                self.frame.rows(self.canvas.paint, token_views(tokens@), region, self.canvas@)
                    == goal,
            invariant
                self.frame == old(self).frame,
                self.canvas.paint == old(self).canvas.paint,
            ensures
                self.frame == old(self).frame,
                self.canvas.paint == old(self).canvas.paint,
                pen_newline(self.canvas@) == goal,
            decreases line_chars(token_views(tokens@)),
        {
            proof {
                lemma_row_sound(
                    self.canvas.paint,
                    token_views(tokens@),
                    region,
                    body_width as nat,
                    self.canvas@,
                );
            }
            let ghost views = token_views(tokens@);
            match self.canvas.draw(&tokens, &region, body_width) {
                None => {
                    break ;
                },
                Some(wrapping) => {
                    proof {
                        lemma_uneaten_shrinks(views, wrapping@);
                        if self.canvas.paint.wrap {
                            lemma_uneaten_holds(views, wrapping@, body_width as nat);
                        }
                    }
                    region =
                    match region {
                        Some(r) => {
                            let mut r = r;
                            wrapping.slide_region(&mut r);
                            Some(r)
                        },
                        None => None,
                    };
                    self.canvas.draw_newline();
                    self.draw_wrapping_gutter();
                    tokens = wrapping.eat_written_tokens(tokens);
                },
            }
        }
        self.canvas.draw_newline()
    }

    /// Draws the head of the file.
    pub fn draw_header(&mut self, path: &str)
        requires
            old(self).wf(),
        ensures
            final(self).frame == old(self).frame,
            final(self).canvas.paint == old(self).canvas.paint,
            final(self).canvas@ == old(self).frame.header(
                old(self).canvas.paint,
                old(self).canvas@,
                path@,
            ),
    {
        self.draw_horizontal_line(self.frame.chars.horizontal);
        self.canvas.set_default_bg();
        self.canvas.set_bold();
        let mut chars = chars_of(path);
        let width = str_width_cjk(path);
        let ghost q = self.canvas@;
        self.canvas.out.push(' ');
        self.canvas.out.append(&mut chars);
        assert(self.canvas.out@ =~= q.out + (seq![' '] + path@));
        if self.frame.background {
            let written = if width == usize::MAX {
                width
            } else {
                width + 1
            };
            self.canvas.fill_spaces(written, self.frame.term_width as usize);
        }
        self.canvas.draw_newline();
        if self.frame.grid {
            self.draw_horizontal_line(self.frame.chars.down_and_horizontal);
        }
    }
    /// Lets line `lnum` of the file pass: draws it if it lies in chunk `k`,
    /// and says which chunk and which match come next, and whether the
    /// body is finished.
    fn pass_line(
        &mut self,
        file: &File,
        hl: &mut LineHighlighter<'_>,
        k: usize,
        matched: usize,
        text: &str,
        lnum: u64,
    ) -> (next: Passed)
        requires
            old(self).wf(),
            file.wf(),
            old(hl).wf(),
            old(self).frame.lnum_width >= lnum_width_for(file.chunks@),
            file.line_matches.len() > 0 ==> old(self).frame.foreground is Some,
            old(self).canvas.paint.wrap && in_some_chunk(file.chunks@, lnum) ==> text_holds(
                text@,
                old(self).frame.body_width(),
            ),
            k < file.chunks.len(),
            lnum <= file.chunks@[k as int].1,
            k > 0 ==> file.chunks@[k - 1].1 < lnum,
            cursor_at(file.line_matches@, matched as int, lnum as int),
        ensures
            final(self).frame == old(self).frame,
            final(self).canvas.paint == old(self).canvas.paint,
            final(hl).wf(),
            final(hl).state() == advanced(old(hl).state(), text@, old(hl).syntaxes()),
            final(hl).syntaxes() == old(hl).syntaxes(),
            final(hl).plain() == old(hl).plain(),
            old(self).frame.body_step(
                old(self).canvas.paint,
                file.line_matches@,
                file.chunks@,
                BodyState { chunk: k as int, pen: old(self).canvas@, done: false },
                lnum as int,
                runs_for(old(hl).state(), old(hl).syntaxes(), old(hl).plain(), text@),
            ) == (BodyState { chunk: next.chunk as int, pen: final(self).canvas@, done: next.done }),
            cursor_at(file.line_matches@, next.matched as int, lnum + 1),
            !next.done ==> {
                &&& next.chunk < file.chunks.len()
                &&& lnum + 1 <= file.chunks@[next.chunk as int].1
                &&& next.chunk > 0 ==> file.chunks@[next.chunk - 1].1 < lnum + 1
            },
    {
        let ghost matches = file.line_matches@;
        let ghost chunks = file.chunks@;
        let (start, end) = file.chunks[k];
        if lnum < start {
            hl.skip_line(text);
            proof {
                lemma_cursor_skips(chunks, matches, k as int, matched as int, lnum as int);
            }
            return Passed { chunk: k, matched, done: false };
        }
        proof {
            lemma_cursor_finds(matches, matched as int, lnum as int);
            lemma_number_fits(chunks, k as int, lnum, self.frame.lnum_width);
        }
        let (region, matched) = if matched < file.line_matches.len()
            && file.line_matches[matched].line_number == lnum {
            (Some(Region { range: file.line_matches[matched].range }), matched + 1)
        } else {
            (None, matched)
        };
        let tokens = hl.highlight(text);
        proof {
            assert(chunks[k as int].0 <= lnum <= chunks[k as int].1);
            if self.canvas.paint.wrap {
                lemma_joined_holds(token_views(tokens@), self.frame.body_width());
            }
        }
        self.draw_line(tokens, lnum, region);
        if lnum == end {
            if self.frame.first_only {
                return Passed { chunk: k, matched, done: true };
            }
            if k + 1 < file.chunks.len() {
                proof {
                    lemma_chunks_in_order(chunks, k as int, k + 1);
                }
                self.draw_separator_line();
                return Passed { chunk: k + 1, matched, done: false };
            }
            return Passed { chunk: k, matched, done: true };
        }
        Passed { chunk: k, matched, done: false }
    }

    /// Draws the chunks of `file`: the lines of the contents pass through
    /// the highlighter one after the other, from the first one on, and
    /// those that lie in a chunk are drawn, until the last chunk that is
    /// asked for is drawn or the contents end. Where text is broken at the
    /// margin, a row has to have room for any one character of a line
    /// that lies in a chunk.
    pub fn draw_body(&mut self, file: &File, hl: LineHighlighter<'_>)
        requires
            old(self).wf(),
            file.wf(),
            file.chunks.len() > 0,
            file.contents.len() < usize::MAX,
            file.line_matches.len() > 0 ==> old(self).frame.foreground is Some,
            rows_hold(
                old(self).canvas.paint.wrap,
                old(self).frame.body_width(),
                file.chunks@,
                texts_of(file.contents@),
            ),
            hl.wf(),
            old(self).frame.lnum_width >= lnum_width_for(file.chunks@),
        ensures
            final(self).frame == old(self).frame,
            final(self).canvas.paint == old(self).canvas.paint,
            final(self).canvas@ == old(self).frame.body(
                old(self).canvas.paint,
                file.line_matches@,
                file.chunks@,
                runs_of(hl.state(), hl.syntaxes(), hl.plain(), texts_of(file.contents@)),
                old(self).canvas@,
            ),
    {
        let ghost start_state = hl.state();
        let ghost syntaxes = hl.syntaxes();
        let ghost plain = hl.plain();
        let ghost texts = texts_of(file.contents@);
        let ghost all = runs_of(start_state, syntaxes, plain, texts);
        let mut hl = hl;
        let mut lines = LinesInclusive::new(file.contents.as_slice());
        let mut matched: usize = 0;
        let mut k: usize = 0;
        let ghost start_pen = self.canvas@;
        let ghost mut seen: int = 0;
        let ghost paint = self.canvas.paint;
        let ghost matches = file.line_matches@;
        let ghost chunks = file.chunks@;
        proof {
            reveal(cursor_at);
            assert(file.chunks@[0].0 >= 1);
        }
        loop
            invariant_except_break
                k < chunks.len(),
                self.frame.body_after(paint, matches, chunks, all, seen, start_pen) == (BodyState {
                    chunk: k as int,
                    pen: self.canvas@,
                    done: false,
                }),
                lines.next_lnum() <= chunks[k as int].1,
                k > 0 ==> chunks[k - 1].1 < lines.next_lnum(),
            invariant
                self.wf(),
                file.wf(),
                file.line_matches.len() > 0 ==> self.frame.foreground is Some,
                rows_hold(paint.wrap, self.frame.body_width(), chunks, texts),
                hl.wf(),
                hl.state() == state_behind(start_state, syntaxes, texts, seen),
                hl.syntaxes() == syntaxes,
                hl.plain() == plain,
                texts == texts_of(file.contents@),
                all == runs_of(start_state, syntaxes, plain, texts),
                lines.wf(),
                lines.buffer() == file.contents@,
                lines.next_lnum() == seen + 1,
                0 <= seen <= texts.len(),
                self.frame == old(self).frame,
                self.canvas.paint == old(self).canvas.paint,
                self.frame.lnum_width >= lnum_width_for(chunks),
                paint == self.canvas.paint,
                matches == file.line_matches@,
                chunks == file.chunks@,
                cursor_at(matches, matched as int, lines.next_lnum() as int),
            ensures
                self.canvas@ == self.frame.body(paint, matches, chunks, all, start_pen),
            decreases lines_of(file.contents@).len() + 1 - lines.next_lnum(),
        {
            match lines.next() {
                None => {
                    break ;
                },
                Some(Line(bytes, lnum)) => {
                    let text = lossy_text(bytes);
                    assert(text@ == texts[seen]);
                    let next = self.pass_line(file, &mut hl, k, matched, text.as_str(), lnum);
                    proof {
                        assert(all[seen] == runs_for(
                            state_behind(start_state, syntaxes, texts, seen),
                            syntaxes,
                            plain,
                            texts[seen],
                        ));
                        seen = seen + 1;
                        if next.done {
                            lemma_body_done_stays(
                                self.frame,
                                paint,
                                matches,
                                chunks,
                                all,
                                seen,
                                all.len() as int,
                                start_pen,
                            );
                        }
                    }
                    k = next.chunk;
                    matched = next.matched;
                    if next.done {
                        break ;
                    }
                },
            }
        }
    }
}

} // verus!
