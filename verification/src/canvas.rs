//! The canvas: a writer of text and SGR sequences that remembers the colors
//! it last set, expands tabs, and breaks text at the right margin.

use vstd::prelude::*;
use crate::pen::{
    capped, color_sgr, font_off, font_on, pen_bg, pen_boundary, pen_default_bg, pen_fg, pen_fill,
    pen_match_bg, pen_newline, pen_put, pen_region, spaces, Paint, Pen,
};
use crate::region::{slid_left, Region, RegionBoundaries, RegionBoundary};
use crate::rows::{
    broken_row, bytes_before, lemma_break_leaves_suffix, lemma_bytes_before_grows, line_bytes,
    matched_row, matched_row_from, plain_row_from, row, text_from, uneaten, unwrapped_from,
    unwrapped_text, wrapped_text, LineDrawView, WrappingView,
};
use crate::style::{token_views, Color, FontStyle, Token};
use crate::text::{
    char_columns, char_len_utf8, decimal, digit_char, lemma_text_bytes_take, lemma_utf8_len,
    suffix, text_bytes, text_len_utf8, ZWJ,
};

verus! {

/// The canvas: what is written, the paint, and the colors last set.
pub struct Canvas {
    pub out: Vec<char>,
    pub paint: Paint,
    pub current_fg: Option<Color>,
    pub current_bg: Option<Color>,
}

impl View for Canvas {
    type V = Pen;

    open spec fn view(&self) -> Pen {
        Pen { out: self.out@, fg: self.current_fg, bg: self.current_bg }
    }
}

/// How the drawing of a text within a row ended.
pub enum LineDrawState {
    /// All of it was drawn, in this many columns.
    Continue(usize),
    /// The row is full: this text is left for the next row.
    Break(Vec<char>),
}

impl View for LineDrawState {
    type V = LineDrawView;

    open spec fn view(&self) -> LineDrawView {
        match self {
            LineDrawState::Continue(w) => LineDrawView::Continue(*w as nat),
            LineDrawState::Break(rest) => LineDrawView::Break(rest@),
        }
    }
}

/// Where a row was broken.
pub struct Wrapping {
    /// Bytes of the line that the row has drawn or dropped.
    pub consumed_bytes: usize,
    /// What is left of the token at which the row broke.
    pub remaining_text: Vec<char>,
    /// The index of that token.
    pub last_token_idx: usize,
}

impl View for Wrapping {
    type V = WrappingView;

    open spec fn view(&self) -> WrappingView {
        WrappingView {
            consumed_bytes: self.consumed_bytes as nat,
            remaining_text: self.remaining_text@,
            last_token_idx: self.last_token_idx as nat,
        }
    }
}

/// The view of a break, if the row broke.
pub open spec fn wrapping_view(wrapping: Option<Wrapping>) -> Option<WrappingView> {
    match wrapping {
        Some(w) => Some(w@),
        None => None,
    }
}

impl Wrapping {
    /// A break behind `consumed_bytes` bytes of the line, at the token
    /// of index `last_token_idx`, of which `remaining_text` is left.
    pub fn new(consumed_bytes: usize, remaining_text: Vec<char>, last_token_idx: usize) -> (wrapping:
        Self)
        ensures
            wrapping.consumed_bytes == consumed_bytes,
            wrapping.remaining_text == remaining_text,
            wrapping.last_token_idx == last_token_idx,
    {
        Wrapping { consumed_bytes, remaining_text, last_token_idx }
    }

    /// Moves `region` left by what the broken row consumed.
    pub fn slide_region(&self, region: &mut Region)
        ensures
            final(region).range == slid_left(old(region).range, self.consumed_bytes as nat),
    {
        region.slide_left(self.consumed_bytes);
    }

    /// Drops from `tokens` what the broken row has drawn.
    pub fn eat_written_tokens(self, tokens: Vec<Token>) -> (rest: Vec<Token>)
        requires
            self.last_token_idx < tokens.len(),
        ensures
            token_views(rest@) == uneaten(token_views(tokens@), self@),
    {
        let ghost before = token_views(tokens@);
        let ghost eaten = self@;
        let mut tokens = tokens;
        if self.remaining_text.len() == 0 {
            let rest = tokens.split_off(self.last_token_idx + 1);
            assert(token_views(rest@) =~= uneaten(before, eaten));
            rest
        } else {
            let mut rest = tokens.split_off(self.last_token_idx);
            let style = rest[0].style;
            rest.set(0, Token { style, text: self.remaining_text });
            assert(token_views(rest@) =~= uneaten(before, eaten));
            rest
        }
    }
}

/// Appends the decimal numeral of `n`.
pub fn push_decimal(out: &mut Vec<char>, n: u64)
    ensures
        final(out)@ == old(out)@ + decimal(n as nat),
    decreases n,
{
    if n >= 10 {
        push_decimal(out, n / 10);
    }
    let d: u8 = (n % 10) as u8;
    out.push((48u8 + d) as char);
    proof {
        assert((48u8 + d) as char == digit_char((n % 10) as nat));
        assert(final(out)@ =~= old(out)@ + decimal(n as nat));
    }
}

impl Canvas {
    /// Writes `num` spaces.
    pub fn draw_spaces(&mut self, num: usize)
        ensures
            final(self)@ == pen_put(old(self)@, spaces(num as nat)),
            final(self).paint == old(self).paint,
    {
        let mut i: usize = 0;
        while i < num
            invariant
                i <= num,
                self.out@ == old(self).out@ + spaces(i as nat),
                self.paint == old(self).paint,
                self.current_fg == old(self).current_fg,
                self.current_bg == old(self).current_bg,
            decreases num - i,
        {
            self.out.push(' ');
            i = i + 1;
            assert(self.out@ =~= old(self).out@ + spaces(i as nat));
        }
    }

    /// Ends the row: resets all attributes, writes a line feed and forgets
    /// the colors, so that the next row sets its own.
    pub fn draw_newline(&mut self)
        ensures
            final(self)@ == pen_newline(old(self)@),
            final(self).paint == old(self).paint,
    {
        self.out.push('\x1b');
        self.out.push('[');
        self.out.push('0');
        self.out.push('m');
        self.out.push('\n');
        self.current_fg = None;
        self.current_bg = None;
        assert(self.out@ =~= old(self).out@ + seq!['\x1b', '[', '0', 'm', '\n']);
    }

    fn set_color(&mut self, base: u8, c: Color)
        requires
            base <= 200,
        ensures
            final(self).out@ == old(self).out@ + color_sgr(
                base as nat,
                c,
                old(self).paint.true_color,
            ),
            final(self).paint == old(self).paint,
            final(self).current_fg == old(self).current_fg,
            final(self).current_bg == old(self).current_bg,
    {
        if c.a == 1 {
            assert(self.out@ =~= old(self).out@ + color_sgr(base as nat, c, self.paint.true_color));
            return ;
        }
        self.out.push('\x1b');
        self.out.push('[');
        if c.a == 0 && c.r <= 7 {
            push_decimal(&mut self.out, (c.r + base) as u64);
        } else if c.a == 0 {
            push_decimal(&mut self.out, (base + 8) as u64);
            self.out.push(';');
            self.out.push('5');
            self.out.push(';');
            push_decimal(&mut self.out, c.r as u64);
        } else if self.paint.true_color {
            push_decimal(&mut self.out, (base + 8) as u64);
            self.out.push(';');
            self.out.push('2');
            self.out.push(';');
            push_decimal(&mut self.out, c.r as u64);
            self.out.push(';');
            push_decimal(&mut self.out, c.g as u64);
            self.out.push(';');
            push_decimal(&mut self.out, c.b as u64);
        } else {
            push_decimal(&mut self.out, (base + 8) as u64);
            self.out.push(';');
            self.out.push('5');
            self.out.push(';');
            push_decimal(&mut self.out, rgb2ansi256::rgb_to_ansi256(c.r, c.g, c.b) as u64);
        }
        self.out.push('m');
        assert(self.out@ =~= old(self).out@ + color_sgr(base as nat, c, self.paint.true_color));
    }

    /// Sets the background color, unless the terminal is already in it.
    pub fn set_bg(&mut self, c: Color)
        ensures
            final(self)@ == pen_bg(old(self).paint, old(self)@, c),
            final(self).paint == old(self).paint,
    {
        let same = match self.current_bg {
            Some(cur) => cur == c,
            None => false,
        };
        if !same {
            self.set_color(40, c);
            self.current_bg = Some(c);
        }
    }

    /// Sets the foreground color, unless the terminal is already in it.
    pub fn set_fg(&mut self, c: Color)
        ensures
            final(self)@ == pen_fg(old(self).paint, old(self)@, c),
            final(self).paint == old(self).paint,
    {
        let same = match self.current_fg {
            Some(cur) => cur == c,
            None => false,
        };
        if !same {
            self.set_color(30, c);
            self.current_fg = Some(c);
        }
    }

    /// Sets the theme's background, where backgrounds are painted and the
    /// theme has one.
    pub fn set_default_bg(&mut self)
        ensures
            final(self)@ == pen_default_bg(old(self).paint, old(self)@),
            final(self).paint == old(self).paint,
    {
        if self.paint.has_background {
            if let Some(bg) = self.paint.background {
                self.set_bg(bg);
            }
        }
    }
    /// Switches bold on.
    pub fn set_bold(&mut self)
        ensures
            final(self)@ == pen_put(old(self)@, seq!['\x1b', '[', '1', 'm']),
            final(self).paint == old(self).paint,
    {
        self.out.push('\x1b');
        self.out.push('[');
        self.out.push('1');
        self.out.push('m');
        assert(self.out@ =~= old(self).out@ + seq!['\x1b', '[', '1', 'm']);
    }

    /// Switches underline on.
    pub fn set_underline(&mut self)
        ensures
            final(self)@ == pen_put(old(self)@, seq!['\x1b', '[', '4', 'm']),
            final(self).paint == old(self).paint,
    {
        self.out.push('\x1b');
        self.out.push('[');
        self.out.push('4');
        self.out.push('m');
        assert(self.out@ =~= old(self).out@ + seq!['\x1b', '[', '4', 'm']);
    }

    /// Switches on what `style` asks for: bold, underline, or both.
    pub fn set_font_style(&mut self, style: FontStyle)
        ensures
            final(self)@ == pen_put(old(self)@, font_on(style)),
            final(self).paint == old(self).paint,
    {
        if style.bold {
            self.set_bold();
        }
        if style.underline {
            self.set_underline();
        }
        assert(self.out@ =~= old(self).out@ + font_on(style));
    }

    /// Switches off what `set_font_style` switched on for `style`.
    pub fn unset_font_style(&mut self, style: FontStyle)
        ensures
            final(self)@ == pen_put(old(self)@, font_off(style)),
            final(self).paint == old(self).paint,
    {
        if style.bold {
            self.out.push('\x1b');
            self.out.push('[');
            self.out.push('2');
            self.out.push('2');
            self.out.push('m');
        }
        if style.underline {
            self.out.push('\x1b');
            self.out.push('[');
            self.out.push('2');
            self.out.push('4');
            self.out.push('m');
        }
        assert(self.out@ =~= old(self).out@ + font_off(style));
    }

    /// Sets the background of a matched line, if the theme has one.
    pub fn set_match_bg_color(&mut self)
        ensures
            final(self)@ == pen_match_bg(old(self).paint, old(self)@),
            final(self).paint == old(self).paint,
    {
        if let Some(bg) = self.paint.match_bg {
            self.set_bg(bg);
        }
    }

    /// Sets the colors of the match region, as far as the theme has them.
    pub fn set_region_color(&mut self)
        ensures
            final(self)@ == pen_region(old(self).paint, old(self)@),
            final(self).paint == old(self).paint,
    {
        if let Some(c) = self.paint.region_fg {
            self.set_fg(c);
        }
        if let Some(c) = self.paint.region_bg {
            self.set_bg(c);
        }
    }

    /// Sets the colors that change at `boundary`: those of the region at
    /// its start, the foreground of the token and the background of the
    /// matched line at its end.
    pub fn set_boundary_color(&mut self, boundary: RegionBoundary)
        ensures
            final(self)@ == pen_boundary(old(self).paint, old(self)@, boundary),
            final(self).paint == old(self).paint,
    {
        match boundary {
            RegionBoundary::Start => self.set_region_color(),
            RegionBoundary::End(fg) => {
                self.set_fg(fg);
                self.set_match_bg_color()
            },
            RegionBoundary::Neither => {},
        }
    }

    /// Draws `text` into a row that has `limit` columns left, and stops
    /// where the row is full.
    pub fn draw_text(
        &mut self,
        text: &Vec<char>,
        limit: usize,
        boundaries: Option<RegionBoundaries>,
    ) -> (state: LineDrawState)
        requires
            text_bytes(text@) <= usize::MAX,
            boundaries matches Some(b) ==> b.offset + text_bytes(text@) <= usize::MAX,
        ensures
            final(self).paint == old(self).paint,
            final(self)@ == wrapped_text(
                old(self).paint,
                boundaries,
                text@,
                limit as nat,
                old(self)@,
            ).pen,
            state@ == wrapped_text(
                old(self).paint,
                boundaries,
                text@,
                limit as nat,
                old(self)@,
            ).state,
    {
        let mut i: usize = 0;
        let mut byte: usize = 0;
        let mut width: usize = 0;
        let mut saw_zwj = false;
        while i < text.len()
            invariant
                i <= text.len(),
                width <= limit,
                byte as nat == text_bytes(text@.take(i as int)),
                text_bytes(text@) <= usize::MAX,
                boundaries matches Some(b) ==> b.offset + text_bytes(text@) <= usize::MAX,
                self.paint == old(self).paint,
                text_from(
                    self.paint,
                    boundaries,
                    text@,
                    limit as nat,
                    i as int,
                    byte as nat,
                    width as nat,
                    saw_zwj,
                    self@,
                ) == wrapped_text(old(self).paint, boundaries, text@, limit as nat, old(self)@),
            decreases text.len() - i,
        {
            let c = text[i];
            proof {
                lemma_text_bytes_take(text@, i as int);
                lemma_utf8_len(c);
            }
            if let Some(b) = &boundaries {
                let boundary = b.boundary_at(byte);
                self.set_boundary_color(boundary);
            }
            if c == '\t' && self.paint.tab_width > 0 {
                let w = self.paint.tab_width;
                if w > limit - width {
                    self.draw_spaces(limit - width);
                    let rest = suffix(text, i + 1);
                    return LineDrawState::Break(rest);
                }
                self.draw_spaces(w);
                width = width + w;
                byte = byte + 1;
            } else {
                let w = if c == ZWJ {
                    0
                } else if saw_zwj {
                    0
                } else {
                    char_columns(c)
                };
                if w > limit - width {
                    self.draw_spaces(limit - width);
                    let rest = suffix(text, i);
                    return LineDrawState::Break(rest);
                }
                let ghost before = self@;
                self.out.push(c);
                assert(self@ == pen_put(before, seq![c])) by {
                    assert(self.out@ =~= before.out + seq![c]);
                }
                saw_zwj = c == ZWJ;
                width = width + w;
                byte = byte + char_len_utf8(c);
            }
            i = i + 1;
        }
        LineDrawState::Continue(width)
    }
    fn draw_unwrapped(&mut self, text: &Vec<char>, boundaries: Option<RegionBoundaries>) -> (width:
        usize)
        requires
            text_bytes(text@) <= usize::MAX,
            boundaries matches Some(b) ==> b.offset + text_bytes(text@) <= usize::MAX,
        ensures
            final(self).paint == old(self).paint,
            final(self)@ == unwrapped_text(old(self).paint, boundaries, text@, old(self)@).pen,
            width == capped(unwrapped_text(old(self).paint, boundaries, text@, old(self)@).width),
    {
        let mut i: usize = 0;
        let mut byte: usize = 0;
        let mut width: usize = 0;
        let mut saw_zwj = false;
        let ghost mut full: nat = 0;
        while i < text.len()
            invariant
                i <= text.len(),
                width == capped(full),
                byte as nat == text_bytes(text@.take(i as int)),
                text_bytes(text@) <= usize::MAX,
                boundaries matches Some(b) ==> b.offset + text_bytes(text@) <= usize::MAX,
                self.paint == old(self).paint,
                unwrapped_from(
                    self.paint,
                    boundaries,
                    text@,
                    i as int,
                    byte as nat,
                    full,
                    saw_zwj,
                    self@,
                ) == unwrapped_text(old(self).paint, boundaries, text@, old(self)@),
            decreases text.len() - i,
        {
            let c = text[i];
            proof {
                lemma_text_bytes_take(text@, i as int);
                lemma_utf8_len(c);
            }
            if let Some(b) = &boundaries {
                let boundary = b.boundary_at(byte);
                self.set_boundary_color(boundary);
            }
            let w = if c == '\t' && self.paint.tab_width > 0 {
                self.draw_spaces(self.paint.tab_width);
                self.paint.tab_width
            } else {
                let ghost before = self@;
                self.out.push(c);
                assert(self@ == pen_put(before, seq![c])) by {
                    assert(self.out@ =~= before.out + seq![c]);
                }
                let w = if c == ZWJ || saw_zwj {
                    0
                } else {
                    char_columns(c)
                };
                saw_zwj = c == ZWJ;
                w
            };
            width = if w > usize::MAX - width {
                usize::MAX
            } else {
                width + w
            };
            proof {
                full = full + w as nat;
            }
            byte = byte + char_len_utf8(c);
            i = i + 1;
        }
        width
    }

    /// Draws `text` without regard to the margin and returns the columns it
    /// took, or the largest number where they are more than that.
    pub fn draw_text_no_wrap(&mut self, text: &Vec<char>) -> (width: usize)
        requires
            text_bytes(text@) <= usize::MAX,
        ensures
            final(self).paint == old(self).paint,
            final(self)@ == unwrapped_text(old(self).paint, None, text@, old(self)@).pen,
            width == capped(unwrapped_text(old(self).paint, None, text@, old(self)@).width),
    {
        self.draw_unwrapped(text, None)
    }

    /// Draws `text` without regard to the margin, changing colors where the
    /// match region starts and ends.
    pub fn draw_text_no_wrap_with_region(
        &mut self,
        text: &Vec<char>,
        boundaries: RegionBoundaries,
    ) -> (width: usize)
        requires
            boundaries.offset + text_bytes(text@) <= usize::MAX,
        ensures
            final(self).paint == old(self).paint,
            final(self)@ == unwrapped_text(
                old(self).paint,
                Some(boundaries),
                text@,
                old(self)@,
            ).pen,
            width == capped(
                unwrapped_text(old(self).paint, Some(boundaries), text@, old(self)@).width,
            ),
    {
        self.draw_unwrapped(text, Some(boundaries))
    }

    /// Fills the row with spaces from column `written_width` to `max_width`.
    pub fn fill_spaces(&mut self, written_width: usize, max_width: usize)
        ensures
            final(self)@ == pen_fill(old(self)@, written_width as nat, max_width as nat),
            final(self).paint == old(self).paint,
    {
        if written_width < max_width {
            self.draw_spaces(max_width - written_width);
        }
    }
    /// Draws one row of a matched line: all of `tokens`, or as much of them
    /// as the row holds.
    pub fn draw_matched(&mut self, region: &Region, tokens: &Vec<Token>, max_width: usize) -> (wrapping:
        Option<Wrapping>)
        requires
            line_bytes(token_views(tokens@)) <= usize::MAX,
        ensures
            final(self).paint == old(self).paint,
            final(self)@ == matched_row(
                old(self).paint,
                *region,
                token_views(tokens@),
                max_width as nat,
                old(self)@,
            ).pen,
            wrapping_view(wrapping) == matched_row(
                old(self).paint,
                *region,
                token_views(tokens@),
                max_width as nat,
                old(self)@,
            ).wrapping,
    {
        self.set_match_bg_color();
        let ghost views = token_views(tokens@);
        let ghost mut full: nat = 0;
        let mut start_offset: usize = 0;
        let mut width: usize = 0;
        let mut idx: usize = 0;
        while idx < tokens.len()
            invariant
                idx <= tokens.len(),
                views == token_views(tokens@),
                line_bytes(views) <= usize::MAX,
                start_offset as nat == bytes_before(views, idx as int),
                width == capped(full),
                self.paint.wrap ==> full <= max_width,
                self.paint == old(self).paint,
                matched_row_from(
                    self.paint,
                    *region,
                    views,
                    max_width as nat,
                    idx as int,
                    start_offset as nat,
                    full,
                    self@,
                ) == matched_row(old(self).paint, *region, views, max_width as nat, old(self)@),
            decreases tokens.len() - idx,
        {
            let tok = &tokens[idx];
            proof {
                lemma_bytes_before_grows(views, idx + 1, tokens.len() as int);
                assert(views[idx as int] == tok@);
            }
            let len = text_len_utf8(&tok.text);
            let end_offset = start_offset + len;
            let ghost start_pen = self@;
            let ghost start_full = full;
            // In the region the colors are those of the region, but the
            // font style is the token's own.
            if !region.contains(start_offset) {
                self.set_fg(tok.style.foreground);
            }
            self.set_font_style(tok.style.font_style);
            let boundaries = region.boundaries(start_offset, end_offset, tok.style.foreground);
            assert(self@ == pen_put(
                if !region.holds(start_offset as nat) {
                    pen_fg(self.paint, start_pen, tok@.style.foreground)
                } else {
                    start_pen
                },
                font_on(tok@.style.font_style),
            ));
            if self.paint.wrap {
                proof {
                    lemma_break_leaves_suffix(
                        self.paint,
                        boundaries,
                        tok.text@,
                        (max_width - width) as nat,
                        0,
                        0,
                        0,
                        false,
                        self@,
                    );
                }
                match self.draw_text(&tok.text, max_width - width, boundaries) {
                    LineDrawState::Continue(w) => {
                        width = width + w;
                        proof {
                            full = full + w as nat;
                        }
                    },
                    LineDrawState::Break(rest) => {
                        let bytes = end_offset - text_len_utf8(&rest);
                        assert(matched_row_from(
                            self.paint,
                            *region,
                            views,
                            max_width as nat,
                            idx as int,
                            start_offset as nat,
                            start_full,
                            start_pen,
                        ) == broken_row(
                            views,
                            max_width as nat,
                            idx as int,
                            start_offset as nat,
                            self@,
                            rest@,
                        ));
                        let wrapping = Wrapping::new(bytes, rest, idx);
                        assert(wrapping@ == WrappingView {
                            consumed_bytes: bytes as nat,
                            remaining_text: rest@,
                            last_token_idx: idx as nat,
                        });
                        return Some(wrapping);
                    },
                }
            } else {
                let ghost before = self@;
                let w = if let Some(b) = boundaries {
                    self.draw_text_no_wrap_with_region(&tok.text, b)
                } else {
                    self.draw_text_no_wrap(&tok.text)
                };
                width = if w > usize::MAX - width {
                    usize::MAX
                } else {
                    width + w
                };
                proof {
                    full = full + unwrapped_text(self.paint, boundaries, tok.text@, before).width;
                }
            }
            self.unset_font_style(tok.style.font_style);
            assert(matched_row_from(
                self.paint,
                *region,
                views,
                max_width as nat,
                idx as int,
                start_offset as nat,
                start_full,
                start_pen,
            ) == matched_row_from(
                self.paint,
                *region,
                views,
                max_width as nat,
                idx + 1,
                end_offset as nat,
                full,
                self@,
            ));
            start_offset = end_offset;
            idx = idx + 1;
        }
        // The region may reach to the end of the line: back to the line's background.
        self.set_match_bg_color();
        self.fill_spaces(width, max_width);
        None
    }

    /// Draws one row of a line: all of `tokens`, or as much of them as the
    /// row holds. With a region the line is drawn as a matched one.
    pub fn draw(&mut self, tokens: &Vec<Token>, region: &Option<Region>, max_width: usize) -> (wrapping:
        Option<Wrapping>)
        requires
            line_bytes(token_views(tokens@)) <= usize::MAX,
        ensures
            final(self).paint == old(self).paint,
            final(self)@ == row(
                old(self).paint,
                token_views(tokens@),
                *region,
                max_width as nat,
                old(self)@,
            ).pen,
            wrapping_view(wrapping) == row(
                old(self).paint,
                token_views(tokens@),
                *region,
                max_width as nat,
                old(self)@,
            ).wrapping,
    {
        if let Some(region) = region {
            return self.draw_matched(region, tokens, max_width);
        }
        let ghost views = token_views(tokens@);
        let ghost mut full: nat = 0;
        let mut byte_offset: usize = 0;
        let mut width: usize = 0;
        let mut idx: usize = 0;
        while idx < tokens.len()
            invariant
                idx <= tokens.len(),
                views == token_views(tokens@),
                line_bytes(views) <= usize::MAX,
                *region is None,
                byte_offset as nat == bytes_before(views, idx as int),
                width == capped(full),
                self.paint.wrap ==> full <= max_width,
                self.paint == old(self).paint,
                plain_row_from(
                    self.paint,
                    views,
                    max_width as nat,
                    idx as int,
                    byte_offset as nat,
                    full,
                    self@,
                ) == plain_row_from(old(self).paint, views, max_width as nat, 0, 0, 0, old(self)@),
            decreases tokens.len() - idx,
        {
            let tok = &tokens[idx];
            proof {
                lemma_bytes_before_grows(views, idx + 1, tokens.len() as int);
                assert(views[idx as int] == tok@);
            }
            let len = text_len_utf8(&tok.text);
            let ghost start_pen = self@;
            let ghost start_full = full;
            if self.paint.has_background {
                self.set_bg(tok.style.background);
            }
            self.set_fg(tok.style.foreground);
            self.set_font_style(tok.style.font_style);
            let ghost text_pen = self@;
            assert(text_pen == pen_put(
                pen_fg(
                    self.paint,
                    if self.paint.has_background {
                        pen_bg(self.paint, start_pen, tok@.style.background)
                    } else {
                        start_pen
                    },
                    tok@.style.foreground,
                ),
                font_on(tok@.style.font_style),
            ));
            if self.paint.wrap {
                proof {
                    lemma_break_leaves_suffix(
                        self.paint,
                        None,
                        tok.text@,
                        (max_width - width) as nat,
                        0,
                        0,
                        0,
                        false,
                        self@,
                    );
                }
                match self.draw_text(&tok.text, max_width - width, None) {
                    LineDrawState::Continue(w) => {
                        width = width + w;
                        proof {
                            full = full + w as nat;
                        }
                    },
                    LineDrawState::Break(rest) => {
                        let bytes = byte_offset + len - text_len_utf8(&rest);
                        assert(plain_row_from(
                            self.paint,
                            views,
                            max_width as nat,
                            idx as int,
                            byte_offset as nat,
                            start_full,
                            start_pen,
                        ) == broken_row(
                            views,
                            max_width as nat,
                            idx as int,
                            byte_offset as nat,
                            self@,
                            rest@,
                        ));
                        let wrapping = Wrapping::new(bytes, rest, idx);
                        assert(wrapping@ == WrappingView {
                            consumed_bytes: bytes as nat,
                            remaining_text: rest@,
                            last_token_idx: idx as nat,
                        });
                        return Some(wrapping);
                    },
                }
            } else {
                let ghost before = self@;
                let w = self.draw_text_no_wrap(&tok.text);
                width = if w > usize::MAX - width {
                    usize::MAX
                } else {
                    width + w
                };
                proof {
                    full = full + unwrapped_text(self.paint, None, tok.text@, before).width;
                }
            }
            self.unset_font_style(tok.style.font_style);
            assert(plain_row_from(
                self.paint,
                views,
                max_width as nat,
                idx as int,
                byte_offset as nat,
                start_full,
                start_pen,
            ) == plain_row_from(
                self.paint,
                views,
                max_width as nat,
                idx + 1,
                (byte_offset + len) as nat,
                full,
                self@,
            ));
            byte_offset = byte_offset + len;
            idx = idx + 1;
        }
        if width == 0 {
            self.set_default_bg();
        }
        if self.paint.has_background {
            self.fill_spaces(width, max_width);
        }
        None
    }
}

} // verus!
