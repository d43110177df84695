//! Laws of drawing: what holds of every text, every color and every line.

use vstd::prelude::*;
use crate::pen::{
    color_sgr, font_off, font_on, pen_bg, pen_fg, pen_newline, pen_put, spaces, Paint, Pen,
};
use crate::region::{slid_left, Region};
use crate::rows::{
    plain_row_from, row, text_from, uneaten, unwrapped_from, unwrapped_text, wrapped_text,
    LineDrawView, TextResult,
};
use crate::frame::{slid_region, Frame};
use crate::reflow::{
    lemma_row_sound, lemma_uneaten_holds, lemma_uneaten_shrinks, lemma_unwrapped_width, line_chars,
    tokens_hold,
};
use crate::style::{Color, TokenView};
use crate::chunk::{chunks_apart, lemma_chunks_in_order, File, LineMatch};
use crate::syntect_printer::{LockableWrite, SyntectPrinter};
use crate::text::{
    columns_from, decimal, digit_char, glyph_columns, text_bytes, text_columns, utf8_len, ZWJ,
};

verus! {

/// Setting a color that is set already writes nothing: of two calls with
/// the same color only the first one writes its sequence.
pub proof fn lemma_same_color_is_set_once(paint: Paint, pen: Pen, c: Color)
    ensures
        pen_fg(paint, pen_fg(paint, pen, c), c) == pen_fg(paint, pen, c),
        pen_bg(paint, pen_bg(paint, pen, c), c) == pen_bg(paint, pen, c),
        pen.fg != Some(c) ==> pen_fg(paint, pen_fg(paint, pen, c), c).out == pen.out + color_sgr(
            30,
            c,
            paint.true_color,
        ),
        pen.bg != Some(c) ==> pen_bg(paint, pen_bg(paint, pen, c), c).out == pen.out + color_sgr(
            40,
            c,
            paint.true_color,
        ),
        pen.fg == Some(c) ==> pen_fg(paint, pen, c).out == pen.out,
        pen.bg == Some(c) ==> pen_bg(paint, pen, c).out == pen.out,
{
}

/// After the end of a row every color is set anew.
pub proof fn lemma_newline_forgets_colors(paint: Paint, pen: Pen, c: Color)
    ensures
        pen_fg(paint, pen_newline(pen), c).out == pen_newline(pen).out + color_sgr(
            30,
            c,
            paint.true_color,
        ),
        pen_bg(paint, pen_newline(pen), c).out == pen_newline(pen).out + color_sgr(
            40,
            c,
            paint.true_color,
        ),
{
}

/// `text` with each tab replaced by as many spaces as a tab is wide; with
/// a tab width of 0 tabs stay.
pub open spec fn expanded(paint: Paint, text: Seq<char>) -> Seq<char>
    decreases text.len(),
{
    if text.len() == 0 {
        Seq::empty()
    } else if text[0] == '\t' && paint.tab_width > 0 {
        spaces(paint.tab_width as nat) + expanded(paint, text.drop_first())
    } else {
        seq![text[0]] + expanded(paint, text.drop_first())
    }
}

/// Drawn without regard to the margin and with no region in view, a text
/// is written as it is, but for its tabs, each of which becomes exactly as
/// many spaces as a tab is wide: no escape sequence comes between two of
/// its characters, and the colors stay as they are.
pub proof fn lemma_unwrapped_is_expanded(
    paint: Paint,
    text: Seq<char>,
    i: int,
    byte: nat,
    width: nat,
    after_zwj: bool,
    pen: Pen,
)
    requires
        0 <= i <= text.len(),
    ensures
        unwrapped_from(paint, None, text, i, byte, width, after_zwj, pen).pen == pen_put(
            pen,
            expanded(paint, text.skip(i)),
        ),
    decreases text.len() - i,
{
    if i < text.len() {
        let c = text[i];
        let rest = text.skip(i);
        assert(rest.drop_first() =~= text.skip(i + 1));
        assert(rest[0] == c);
        let piece = if c == '\t' && paint.tab_width > 0 {
            spaces(paint.tab_width as nat)
        } else {
            seq![c]
        };
        let w = if c == '\t' && paint.tab_width > 0 {
            paint.tab_width as nat
        } else {
            glyph_columns(c, after_zwj)
        };
        let z = if c == '\t' && paint.tab_width > 0 {
            after_zwj
        } else {
            c == ZWJ
        };
        lemma_unwrapped_is_expanded(
            paint,
            text,
            i + 1,
            byte + utf8_len(c),
            width + w,
            z,
            pen_put(pen, piece),
        );
        assert(pen.out + piece + expanded(paint, text.skip(i + 1)) =~= pen.out + (piece
            + expanded(paint, text.skip(i + 1))));
    } else {
        assert(text.skip(i) =~= Seq::<char>::empty());
        assert(pen.out + Seq::<char>::empty() =~= pen.out);
    }
}

/// A text that fits in its row is drawn as it is drawn without regard to
/// the margin: with no region in view, as it is, but for its tabs.
pub proof fn lemma_fitting_text_is_expanded(
    paint: Paint,
    text: Seq<char>,
    limit: nat,
    i: int,
    byte: nat,
    width: nat,
    after_zwj: bool,
    pen: Pen,
)
    requires
        0 <= i <= text.len(),
        text_from(paint, None, text, limit, i, byte, width, after_zwj, pen).state
            is Continue,
    ensures
        text_from(paint, None, text, limit, i, byte, width, after_zwj, pen).pen == pen_put(
            pen,
            expanded(paint, text.skip(i)),
        ),
        text_from(paint, None, text, limit, i, byte, width, after_zwj, pen).state
            == LineDrawView::Continue(
            unwrapped_from(paint, None, text, i, byte, width, after_zwj, pen).width,
        ),
    decreases text.len() - i,
{
    lemma_unwrapped_is_expanded(paint, text, i, byte, width, after_zwj, pen);
    if i < text.len() {
        let c = text[i];
        if c == '\t' && paint.tab_width > 0 {
            lemma_fitting_text_is_expanded(
                paint,
                text,
                limit,
                i + 1,
                byte + utf8_len(c),
                width + paint.tab_width as nat,
                after_zwj,
                pen_put(pen, spaces(paint.tab_width as nat)),
            );
            lemma_unwrapped_is_expanded(
                paint,
                text,
                i + 1,
                byte + utf8_len(c),
                width + paint.tab_width as nat,
                after_zwj,
                pen_put(pen, spaces(paint.tab_width as nat)),
            );
        } else {
            lemma_fitting_text_is_expanded(
                paint,
                text,
                limit,
                i + 1,
                byte + utf8_len(c),
                width + glyph_columns(c, after_zwj),
                c == ZWJ,
                pen_put(pen, seq![c]),
            );
            lemma_unwrapped_is_expanded(
                paint,
                text,
                i + 1,
                byte + utf8_len(c),
                width + glyph_columns(c, after_zwj),
                c == ZWJ,
                pen_put(pen, seq![c]),
            );
        }
    }
}

/// A tab that would cross the margin is cut off at the margin: the row is
/// filled up with spaces, and the next row starts behind the tab.
pub proof fn lemma_tab_at_margin(
    paint: Paint,
    text: Seq<char>,
    limit: nat,
    i: int,
    byte: nat,
    width: nat,
    after_zwj: bool,
    pen: Pen,
)
    requires
        0 <= i < text.len(),
        text[i] == '\t',
        paint.tab_width > 0,
        width <= limit < width + paint.tab_width,
    ensures
        text_from(paint, None, text, limit, i, byte, width, after_zwj, pen) == (TextResult {
            pen: pen_put(pen, spaces((limit - width) as nat)),
            state: LineDrawView::Break(text.skip(i + 1)),
        }),
{
}

/// A tab that does not cross the margin becomes exactly as many spaces as
/// a tab is wide.
pub proof fn lemma_tab_within_margin(
    paint: Paint,
    text: Seq<char>,
    limit: nat,
    i: int,
    byte: nat,
    width: nat,
    after_zwj: bool,
    pen: Pen,
)
    requires
        0 <= i < text.len(),
        text[i] == '\t',
        paint.tab_width > 0,
        width + paint.tab_width <= limit,
    ensures
        text_from(paint, None, text, limit, i, byte, width, after_zwj, pen) == text_from(
            paint,
            None,
            text,
            limit,
            i + 1,
            byte + utf8_len('\t'),
            width + paint.tab_width as nat,
            after_zwj,
            pen_put(pen, spaces(paint.tab_width as nat)),
        ),
{
}

/// A character that is joined to another takes no columns of its own: `a`
/// with `b` joined to it is as wide as `a` alone, and so is `a` with `b`
/// and `c` joined to it. This holds of every `b` and `c` but a tab that is
/// expanded, which is as wide as ever.
pub proof fn lemma_joined_take_no_columns(tab_width: usize, a: char, b: char, c: char)
    requires
        tab_width == 0 || (b != '\t' && c != '\t'),
    ensures
        text_columns(tab_width, seq![a, ZWJ, b]) == text_columns(tab_width, seq![a]),
        text_columns(tab_width, seq![a, ZWJ, b, ZWJ, c]) == text_columns(tab_width, seq![a]),
{
    let one = seq![a];
    let three = seq![a, ZWJ, b];
    let five = seq![a, ZWJ, b, ZWJ, c];
    assert(columns_from(tab_width, one, 1, a == ZWJ) == 0);
    assert(columns_from(tab_width, one, 1, false) == 0);
    assert(columns_from(tab_width, three, 3, b == ZWJ) == 0);
    assert(columns_from(tab_width, three, 2, true) == 0);
    assert(columns_from(tab_width, three, 1, a == ZWJ) == 0);
    assert(columns_from(tab_width, three, 1, false) == 0);
    assert(columns_from(tab_width, five, 5, c == ZWJ) == 0);
    assert(columns_from(tab_width, five, 4, true) == 0);
    assert(columns_from(tab_width, five, 3, b == ZWJ) == 0);
    assert(columns_from(tab_width, five, 2, true) == 0);
    assert(columns_from(tab_width, five, 1, a == ZWJ) == 0);
    assert(columns_from(tab_width, five, 1, false) == 0);
}

/// What is drawn without regard to the margin takes the columns of its
/// text: those of `a` alone for `a` with `b` and `c` joined to it.
pub proof fn lemma_joined_are_drawn_as_wide_as_first(
    paint: Paint,
    a: char,
    b: char,
    c: char,
    pen: Pen,
)
    requires
        paint.tab_width == 0 || (b != '\t' && c != '\t'),
    ensures
        unwrapped_text(paint, None, seq![a, ZWJ, b], pen).width == text_columns(
            paint.tab_width,
            seq![a],
        ),
        unwrapped_text(paint, None, seq![a, ZWJ, b, ZWJ, c], pen).width == text_columns(
            paint.tab_width,
            seq![a],
        ),
{
    lemma_joined_take_no_columns(paint.tab_width, a, b, c);
    lemma_unwrapped_width(paint, None, seq![a, ZWJ, b], 0, 0, 0, false, pen);
    lemma_unwrapped_width(paint, None, seq![a, ZWJ, b, ZWJ, c], 0, 0, 0, false, pen);
}

/// A text that is no wider than what its row has left is drawn to its
/// end, in as many columns as without regard to the margin.
pub proof fn lemma_fits_when_wide_enough(
    paint: Paint,
    text: Seq<char>,
    limit: nat,
    i: int,
    byte: nat,
    width: nat,
    after_zwj: bool,
    pen: Pen,
)
    requires
        0 <= i <= text.len(),
        unwrapped_from(paint, None, text, i, byte, width, after_zwj, pen).width <= limit,
    ensures
        text_from(paint, None, text, limit, i, byte, width, after_zwj, pen).state
            == LineDrawView::Continue(
            unwrapped_from(paint, None, text, i, byte, width, after_zwj, pen).width,
        ),
    decreases text.len() - i,
{
    lemma_unwrapped_width(paint, None, text, i, byte, width, after_zwj, pen);
    if i < text.len() {
        let c = text[i];
        if c == '\t' && paint.tab_width > 0 {
            let p = pen_put(pen, spaces(paint.tab_width as nat));
            let w = width + paint.tab_width as nat;
            lemma_unwrapped_width(paint, None, text, i + 1, byte + utf8_len(c), w, after_zwj, p);
            lemma_fits_when_wide_enough(
                paint,
                text,
                limit,
                i + 1,
                byte + utf8_len(c),
                w,
                after_zwj,
                p,
            );
        } else {
            let p = pen_put(pen, seq![c]);
            let w = width + glyph_columns(c, after_zwj);
            lemma_unwrapped_width(paint, None, text, i + 1, byte + utf8_len(c), w, c == ZWJ, p);
            lemma_fits_when_wide_enough(
                paint,
                text,
                limit,
                i + 1,
                byte + utf8_len(c),
                w,
                c == ZWJ,
                p,
            );
        }
    }
}

/// Joined characters take no columns where text is broken at the margin
/// either: if `a` fits in the row, so does all that is joined to it.
pub proof fn lemma_joined_fit_with_first(
    paint: Paint,
    a: char,
    b: char,
    c: char,
    limit: nat,
    pen: Pen,
)
    requires
        paint.tab_width == 0 || (b != '\t' && c != '\t'),
        text_columns(paint.tab_width, seq![a]) <= limit,
    ensures
        wrapped_text(paint, None, seq![a, ZWJ, b], limit, pen).state == LineDrawView::Continue(
            text_columns(paint.tab_width, seq![a]),
        ),
        wrapped_text(paint, None, seq![a, ZWJ, b, ZWJ, c], limit, pen).state
            == LineDrawView::Continue(text_columns(paint.tab_width, seq![a])),
{
    lemma_joined_are_drawn_as_wide_as_first(paint, a, b, c, pen);
    lemma_fits_when_wide_enough(paint, seq![a, ZWJ, b], limit, 0, 0, 0, false, pen);
    lemma_fits_when_wide_enough(paint, seq![a, ZWJ, b, ZWJ, c], limit, 0, 0, 0, false, pen);
}

/// A token in the colors that are set already, neither bold nor
/// underlined, is drawn as its text and nothing else: between the last
/// character of the token before it and its first character no escape
/// sequence is written. This holds where the token is drawn to its end.
pub proof fn lemma_same_style_writes_text_only(
    paint: Paint,
    tokens: Seq<TokenView>,
    max_width: nat,
    idx: int,
    start: nat,
    width: nat,
    pen: Pen,
)
    requires
        0 <= idx < tokens.len(),
        pen.fg == Some(tokens[idx].style.foreground),
        paint.has_background ==> pen.bg == Some(tokens[idx].style.background),
        !tokens[idx].style.font_style.bold,
        !tokens[idx].style.font_style.underline,
        paint.wrap ==> width <= max_width && wrapped_text(
            paint,
            None,
            tokens[idx].text,
            (max_width - width) as nat,
            pen,
        ).state is Continue,
    ensures
        plain_row_from(paint, tokens, max_width, idx, start, width, pen) == plain_row_from(
            paint,
            tokens,
            max_width,
            idx + 1,
            start + text_bytes(tokens[idx].text),
            width + text_columns(paint.tab_width, tokens[idx].text),
            pen_put(pen, expanded(paint, tokens[idx].text)),
        ),
{
    let tok = tokens[idx];
    let empty = Seq::<char>::empty();
    assert(font_on(tok.style.font_style) =~= empty);
    assert(font_off(tok.style.font_style) =~= empty);
    assert(pen_put(pen, empty) == pen) by {
        assert(pen.out + empty =~= pen.out);
    }
    let drawn = pen_put(pen, expanded(paint, tok.text));
    assert(pen_put(drawn, empty) == drawn) by {
        assert(drawn.out + empty =~= drawn.out);
    }
    assert(tok.text.skip(0) =~= tok.text);
    lemma_unwrapped_is_expanded(paint, tok.text, 0, 0, 0, false, pen);
    lemma_unwrapped_width(paint, None, tok.text, 0, 0, 0, false, pen);
    if paint.wrap {
        lemma_fitting_text_is_expanded(
            paint,
            tok.text,
            (max_width - width) as nat,
            0,
            0,
            0,
            false,
            pen,
        );
    }
}

/// A row of three columns has room for any character.
pub proof fn lemma_three_columns_hold(tokens: Seq<TokenView>, width: nat)
    requires
        width >= 3,
    ensures
        tokens_hold(tokens, width),
{
}

/// The columns of the rows that a line takes, row by row. The rows are
/// those of `Frame::rows`.
pub open spec fn row_widths(
    frame: Frame,
    paint: Paint,
    tokens: Seq<TokenView>,
    region: Option<Region>,
    pen: Pen,
) -> Seq<nat>
    decreases line_chars(tokens),
    when frame.wf() && (paint.wrap ==> tokens_hold(tokens, frame.body_width()))
{
    let r = row(paint, tokens, region, frame.body_width(), pen);
    match r.wrapping {
        None => seq![r.width],
        Some(w) => {
            proof {
                lemma_row_sound(paint, tokens, region, frame.body_width(), pen);
                lemma_uneaten_shrinks(tokens, w);
            }
            seq![r.width] + row_widths(
                frame,
                paint,
                uneaten(tokens, w),
                slid_region(region, w.consumed_bytes),
                frame.wrapping_gutter(paint, pen_newline(r.pen)),
            )
        },
    }
}

/// Where text is broken at the margin, no row of a line is wider than the
/// body, every row before the last takes all of the body's columns, and so
/// does the last if the line is matched or backgrounds are painted: such a
/// line is painted from the gutter to the margin.
pub proof fn lemma_rows_fill_body(
    frame: Frame,
    paint: Paint,
    tokens: Seq<TokenView>,
    region: Option<Region>,
    pen: Pen,
)
    requires
        frame.wf(),
        paint.wrap,
        tokens_hold(tokens, frame.body_width()),
    ensures
        ({
            let widths = row_widths(frame, paint, tokens, region, pen);
            &&& widths.len() >= 1
            &&& forall|i: int| 0 <= i < widths.len() ==> #[trigger] widths[i] <= frame.body_width()
            &&& forall|i: int|
                0 <= i < widths.len() - 1 ==> #[trigger] widths[i] == frame.body_width()
            &&& region is Some || paint.has_background ==> widths.last() == frame.body_width()
        }),
    decreases line_chars(tokens),
{
    let r = row(paint, tokens, region, frame.body_width(), pen);
    lemma_row_sound(paint, tokens, region, frame.body_width(), pen);
    match r.wrapping {
        None => {},
        Some(w) => {
            lemma_uneaten_shrinks(tokens, w);
            lemma_uneaten_holds(tokens, w, frame.body_width());
            let rest = uneaten(tokens, w);
            let p = frame.wrapping_gutter(paint, pen_newline(r.pen));
            let next = slid_region(region, w.consumed_bytes);
            lemma_rows_fill_body(frame, paint, rest, next, p);
            let tail = row_widths(frame, paint, rest, next, p);
            let widths = row_widths(frame, paint, tokens, region, pen);
            assert(widths =~= seq![r.width] + tail);
            assert forall|i: int| 0 <= i < widths.len() implies #[trigger] widths[i]
                <= frame.body_width() by {
                if i > 0 {
                    assert(widths[i] == tail[i - 1]);
                }
            }
            assert forall|i: int| 0 <= i < widths.len() - 1 implies #[trigger] widths[i]
                == frame.body_width() by {
                if i > 0 {
                    assert(widths[i] == tail[i - 1]);
                }
            }
            assert(widths.last() == tail.last());
        },
    }
}

/// Without breaks a matched line, and every line where backgrounds are
/// painted, still takes at least the body's columns: it is filled up
/// where it is short, and left as it is where it is long.
pub proof fn lemma_unbroken_row_fills_body(
    frame: Frame,
    paint: Paint,
    tokens: Seq<TokenView>,
    region: Option<Region>,
    pen: Pen,
)
    requires
        frame.wf(),
        !paint.wrap,
        region is Some || paint.has_background,
    ensures
        row_widths(frame, paint, tokens, region, pen).len() == 1,
        row_widths(frame, paint, tokens, region, pen)[0] >= frame.body_width(),
{
    lemma_row_sound(paint, tokens, region, frame.body_width(), pen);
}

/// Where the body stands after `m` lines of a file whose chunks are in
/// order and apart, if every chunk is asked for: before the end of the
/// last chunk it is at the chunk that ends next and has drawn one
/// separator for each chunk before that one; from the end of the last
/// chunk on it is finished.
pub open spec fn body_on_course(
    frame: Frame,
    paint: Paint,
    matches: Seq<LineMatch>,
    chunks: Seq<(u64, u64)>,
    lines: Seq<Seq<TokenView>>,
    m: int,
    pen: Pen,
) -> bool {
    let st = frame.body_after(paint, matches, chunks, lines, m, pen);
    let k = chunks.len() as int;
    &&& 0 <= st.chunk < k
    &&& frame.separators_after(paint, matches, chunks, lines, m, pen) == st.chunk
    &&& if m < chunks[k - 1].1 {
        &&& !st.done
        &&& m < chunks[st.chunk].1
        &&& st.chunk > 0 ==> chunks[st.chunk - 1].1 <= m
    } else {
        st.done && st.chunk == k - 1
    }
}

/// The body stays on course, line by line.
proof fn lemma_body_on_course(
    frame: Frame,
    paint: Paint,
    matches: Seq<LineMatch>,
    chunks: Seq<(u64, u64)>,
    lines: Seq<Seq<TokenView>>,
    m: int,
    pen: Pen,
)
    requires
        chunks_apart(chunks),
        chunks.len() >= 1,
        !frame.first_only,
        0 <= m,
    ensures
        body_on_course(frame, paint, matches, chunks, lines, m, pen),
    decreases m,
{
    let k = chunks.len() as int;
    assert(1 <= chunks[0].0 <= chunks[0].1);
    assert(1 <= chunks[k - 1].0 <= chunks[k - 1].1);
    if m > 0 {
        lemma_body_on_course(frame, paint, matches, chunks, lines, m - 1, pen);
        let before = frame.body_after(paint, matches, chunks, lines, m - 1, pen);
        let j = before.chunk;
        assert(1 <= chunks[j].0 <= chunks[j].1);
        if !before.done {
            if j + 1 < k {
                lemma_chunks_in_order(chunks, j, j + 1);
                lemma_chunks_in_order(chunks, j, k - 1);
                assert(1 <= chunks[j + 1].0 <= chunks[j + 1].1);
            }
        }
    }
}

/// Between the chunks of a file stand separators, one less than there are
/// chunks: where every chunk is asked for and the contents reach to the
/// end of the last chunk, the body is finished at its last chunk and
/// holds one separator for each chunk but the first. A separator is drawn
/// only where the body moves on to the next chunk (`Frame::body_step`).
pub proof fn lemma_separators_between_chunks(
    frame: Frame,
    paint: Paint,
    matches: Seq<LineMatch>,
    chunks: Seq<(u64, u64)>,
    lines: Seq<Seq<TokenView>>,
    pen: Pen,
)
    requires
        chunks_apart(chunks),
        chunks.len() >= 1,
        !frame.first_only,
        lines.len() >= chunks.last().1,
    ensures
        frame.separators_after(paint, matches, chunks, lines, lines.len() as int, pen)
            == chunks.len() - 1,
        frame.body_after(paint, matches, chunks, lines, lines.len() as int, pen).done,
{
    lemma_body_on_course(frame, paint, matches, chunks, lines, lines.len() as int, pen);
}

/// With only the first chunk asked for, no separator is drawn.
pub proof fn lemma_first_chunk_has_no_separator(
    frame: Frame,
    paint: Paint,
    matches: Seq<LineMatch>,
    chunks: Seq<(u64, u64)>,
    lines: Seq<Seq<TokenView>>,
    m: int,
    pen: Pen,
)
    requires
        frame.first_only,
        0 <= m,
    ensures
        frame.separators_after(paint, matches, chunks, lines, m, pen) == 0,
        frame.body_after(paint, matches, chunks, lines, m, pen).chunk == 0,
    decreases m,
{
    if m > 0 {
        lemma_first_chunk_has_no_separator(frame, paint, matches, chunks, lines, m - 1, pen);
    }
}

/// Moving the region left keeps it on the same bytes of the line: a byte
/// of what is left to draw lies in the moved region exactly if it lay in
/// the region before `bytes` bytes of the line were consumed. So on every
/// row of a line the region covers the bytes that it covered on the first.
pub proof fn lemma_moved_region_covers_the_same_bytes(region: Region, bytes: nat, offset: nat)
    ensures
        (Region { range: slid_left(region.range, bytes) }).holds(offset) == region.holds(
            offset + bytes,
        ),
{
}

/// A color of the sixteen is selected by the short sequence: `ESC [ 3 n m`
/// for the foreground and `ESC [ 4 n m` for the background, whatever
/// colors the terminal shows.
pub proof fn lemma_sixteen_colors_are_short(c: Color, true_color: bool)
    requires
        c.a == 0,
        c.r <= 7,
    ensures
        color_sgr(30, c, true_color) == seq!['\x1b', '[', '3', digit_char(c.r as nat), 'm'],
        color_sgr(40, c, true_color) == seq!['\x1b', '[', '4', digit_char(c.r as nat), 'm'],
{
    reveal_with_fuel(decimal, 3);
    let r = c.r as nat;
    assert((30 + r) / 10 == 3 && (30 + r) % 10 == r);
    assert((40 + r) / 10 == 4 && (40 + r) % 10 == r);
    assert(digit_char(3) == '3' && digit_char(4) == '4');
    assert(decimal(30 + r) =~= seq!['3', digit_char(r)]);
    assert(decimal(40 + r) =~= seq!['4', digit_char(r)]);
    assert(color_sgr(30, c, true_color) =~= seq!['\x1b', '[', '3', digit_char(r), 'm']);
    assert(color_sgr(40, c, true_color) =~= seq!['\x1b', '[', '4', digit_char(r), 'm']);
}

/// What a printer prints of a file is determined by the printer and by
/// what the file holds: of two files with the same path, the same matches,
/// the same chunks and the same contents it prints the same page,
/// character for character, and refuses the one if it refuses the other.
pub proof fn lemma_same_file_same_page<W: LockableWrite>(
    printer: SyntectPrinter<'_, W>,
    one: File,
    other: File,
)
    requires
        one.path@ == other.path@,
        one.line_matches@ == other.line_matches@,
        one.chunks@ == other.chunks@,
        one.contents@ == other.contents@,
    ensures
        printer.refusal(one) == printer.refusal(other),
        printer.page_of(one) == printer.page_of(other),
{
}

} // verus!
