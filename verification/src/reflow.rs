//! Facts about rows that break: the row is full, and what is left over for
//! the next row is less than what there was.

use vstd::prelude::*;
use crate::pen::{
    font_off, font_on, pen_bg, pen_boundary, pen_fg, pen_match_bg, pen_put, spaces, Paint, Pen,
};
use crate::region::{Region, RegionBoundaries};
use crate::rows::{
    bytes_before, lemma_break_leaves_suffix, line_bytes, matched_row_from, plain_row_from, row,
    uneaten, unwrapped_from, unwrapped_text, wrapped_text, LineDrawView, RowResult, WrappingView,
};
use crate::style::TokenView;
use crate::text::{columns_from, glyph_columns, text_bytes, text_holds, utf8_len, ZWJ};

verus! {

/// Characters of the first `idx` tokens.
pub open spec fn chars_before(tokens: Seq<TokenView>, idx: int) -> nat
    decreases idx,
{
    if idx <= 0 {
        0
    } else {
        chars_before(tokens, idx - 1) + tokens[idx - 1].text.len()
    }
}

/// Characters of all the tokens of a line.
pub open spec fn line_chars(tokens: Seq<TokenView>) -> nat {
    chars_before(tokens, tokens.len() as int)
}

/// No character of `tokens` is wider than `width` columns: a row of that
/// width has room for any one of them.
pub open spec fn tokens_hold(tokens: Seq<TokenView>, width: nat) -> bool {
    forall|i: int| 0 <= i < tokens.len() ==> text_holds((#[trigger] tokens[i]).text, width)
}

/// What holds of a break at which a row of `tokens` ended: it is at one of
/// the tokens, it leaves a suffix of that token's text, the row has drawn at
/// least one character, and it has consumed the bytes before what it leaves.
pub open spec fn sound_break(tokens: Seq<TokenView>, idx: int, w: WrappingView) -> bool {
    let k = w.last_token_idx as int;
    &&& idx <= k < tokens.len()
    &&& exists|j: int|
        0 <= j <= tokens[k].text.len() && w.remaining_text == #[trigger] tokens[k].text.skip(j)
    &&& w.remaining_text.len() <= tokens[k].text.len()
    &&& text_bytes(w.remaining_text) <= text_bytes(tokens[k].text)
    &&& chars_before(tokens, k) > 0 || w.remaining_text.len() < tokens[k].text.len()
    &&& w.consumed_bytes == bytes_before(tokens, k) + text_bytes(tokens[k].text) - text_bytes(
        w.remaining_text,
    )
}

/// A row ends as a row should: where text is broken at the margin the row
/// takes no more than its columns, and takes all of them if it broke or was
/// filled up; and a break is sound.
pub open spec fn sound_row(
    paint: Paint,
    tokens: Seq<TokenView>,
    max_width: nat,
    idx: int,
    filled: bool,
    r: RowResult,
) -> bool {
    &&& paint.wrap ==> r.width <= max_width
    &&& paint.wrap && (filled || r.wrapping is Some) ==> r.width == max_width
    &&& !paint.wrap ==> r.wrapping is None
    &&& filled ==> r.width >= max_width
    &&& r.wrapping matches Some(w) ==> sound_break(tokens, idx, w)
}

/// Rows of an unmatched line are sound, where a row has room for any one
/// of the line's characters.
pub proof fn lemma_plain_row_sound(
    paint: Paint,
    tokens: Seq<TokenView>,
    max_width: nat,
    idx: int,
    start: nat,
    width: nat,
    pen: Pen,
)
    requires
        0 <= idx <= tokens.len(),
        paint.wrap ==> tokens_hold(tokens, max_width),
        paint.wrap ==> width <= max_width,
        start == bytes_before(tokens, idx),
        width > 0 ==> chars_before(tokens, idx) > 0,
    ensures
        sound_row(
            paint,
            tokens,
            max_width,
            idx,
            paint.has_background,
            plain_row_from(paint, tokens, max_width, idx, start, width, pen),
        ),
    decreases tokens.len() - idx,
{
    if idx < tokens.len() {
        let tok = tokens[idx];
        let p1 = if paint.has_background {
            pen_bg(paint, pen, tok.style.background)
        } else {
            pen
        };
        let p2 = pen_put(pen_fg(paint, p1, tok.style.foreground), font_on(tok.style.font_style));
        let end = start + text_bytes(tok.text);
        if paint.wrap {
            let limit = (max_width - width) as nat;
            let r = wrapped_text(paint, None, tok.text, limit, p2);
            lemma_break_leaves_suffix(paint, None, tok.text, limit, 0, 0, 0, false, p2);
            match r.state {
                LineDrawView::Continue(w) => {
                    lemma_plain_row_sound(
                        paint,
                        tokens,
                        max_width,
                        idx + 1,
                        end,
                        width + w,
                        pen_put(r.pen, font_off(tok.style.font_style)),
                    );
                },
                LineDrawView::Break(rest) => {},
            }
        } else {
            let r = unwrapped_text(paint, None, tok.text, p2);
            lemma_unwrapped_width(paint, None, tok.text, 0, 0, 0, false, p2);
            lemma_plain_row_sound(
                paint,
                tokens,
                max_width,
                idx + 1,
                end,
                width + r.width,
                pen_put(r.pen, font_off(tok.style.font_style)),
            );
        }
    }
}

/// A text that is drawn without regard to the margin takes the columns of
/// its characters.
pub proof fn lemma_unwrapped_width(
    paint: Paint,
    bounds: Option<RegionBoundaries>,
    text: Seq<char>,
    i: int,
    byte: nat,
    width: nat,
    after_zwj: bool,
    pen: Pen,
)
    requires
        0 <= i <= text.len(),
    ensures
        unwrapped_from(paint, bounds, text, i, byte, width, after_zwj, pen).width == width
            + columns_from(paint.tab_width, text, i, after_zwj),
        i == text.len() ==> columns_from(paint.tab_width, text, i, after_zwj) == 0,
    decreases text.len() - i,
{
    if i < text.len() {
        let c = text[i];
        let p = match bounds {
            Some(b) => pen_boundary(paint, pen, b.at(byte)),
            None => pen,
        };
        if c == '\t' && paint.tab_width > 0 {
            lemma_unwrapped_width(
                paint,
                bounds,
                text,
                i + 1,
                byte + utf8_len(c),
                width + paint.tab_width as nat,
                after_zwj,
                pen_put(p, spaces(paint.tab_width as nat)),
            );
        } else {
            lemma_unwrapped_width(
                paint,
                bounds,
                text,
                i + 1,
                byte + utf8_len(c),
                width + glyph_columns(c, after_zwj),
                c == ZWJ,
                pen_put(p, seq![c]),
            );
        }
    }
}

/// Rows of a matched line are sound, where a row has room for any one
/// of the line's characters.
pub proof fn lemma_matched_row_sound(
    paint: Paint,
    region: Region,
    tokens: Seq<TokenView>,
    max_width: nat,
    idx: int,
    start: nat,
    width: nat,
    pen: Pen,
)
    requires
        0 <= idx <= tokens.len(),
        paint.wrap ==> tokens_hold(tokens, max_width),
        paint.wrap ==> width <= max_width,
        start == bytes_before(tokens, idx),
        width > 0 ==> chars_before(tokens, idx) > 0,
    ensures
        sound_row(
            paint,
            tokens,
            max_width,
            idx,
            true,
            matched_row_from(paint, region, tokens, max_width, idx, start, width, pen),
        ),
    decreases tokens.len() - idx,
{
    if idx < tokens.len() {
        let tok = tokens[idx];
        let end = start + text_bytes(tok.text);
        let p1 = pen_put(
            if !region.holds(start) {
                pen_fg(paint, pen, tok.style.foreground)
            } else {
                pen
            },
            font_on(tok.style.font_style),
        );
        let bounds = region.bounds_within(start, end, tok.style.foreground);
        if paint.wrap {
            let limit = (max_width - width) as nat;
            let r = wrapped_text(paint, bounds, tok.text, limit, p1);
            lemma_break_leaves_suffix(paint, bounds, tok.text, limit, 0, 0, 0, false, p1);
            match r.state {
                LineDrawView::Continue(w) => {
                    lemma_matched_row_sound(
                        paint,
                        region,
                        tokens,
                        max_width,
                        idx + 1,
                        end,
                        width + w,
                        pen_put(r.pen, font_off(tok.style.font_style)),
                    );
                },
                LineDrawView::Break(rest) => {},
            }
        } else {
            let r = unwrapped_text(paint, bounds, tok.text, p1);
            lemma_unwrapped_width(paint, bounds, tok.text, 0, 0, 0, false, p1);
            lemma_matched_row_sound(
                paint,
                region,
                tokens,
                max_width,
                idx + 1,
                end,
                width + r.width,
                pen_put(r.pen, font_off(tok.style.font_style)),
            );
        }
    }
}

proof fn lemma_chars_skip(tokens: Seq<TokenView>, k: int, j: int)
    requires
        0 <= k,
        0 <= j,
        k + j <= tokens.len(),
    ensures
        chars_before(tokens, k + j) == chars_before(tokens, k) + chars_before(tokens.skip(k), j),
    decreases j,
{
    if j > 0 {
        lemma_chars_skip(tokens, k, j - 1);
        assert(tokens.skip(k)[j - 1] == tokens[k + j - 1]);
    }
}

proof fn lemma_bytes_skip(tokens: Seq<TokenView>, k: int, j: int)
    requires
        0 <= k,
        0 <= j,
        k + j <= tokens.len(),
    ensures
        bytes_before(tokens, k + j) == bytes_before(tokens, k) + bytes_before(tokens.skip(k), j),
    decreases j,
{
    if j > 0 {
        lemma_bytes_skip(tokens, k, j - 1);
        assert(tokens.skip(k)[j - 1] == tokens[k + j - 1]);
    }
}

proof fn lemma_chars_update_first(s: Seq<TokenView>, t: TokenView, j: int)
    requires
        1 <= j <= s.len(),
    ensures
        chars_before(s.update(0, t), j) + s[0].text.len() == chars_before(s, j) + t.text.len(),
    decreases j,
{
    if j > 1 {
        lemma_chars_update_first(s, t, j - 1);
        assert(s.update(0, t)[j - 1] == s[j - 1]);
    } else {
        assert(chars_before(s.update(0, t), 0) == 0);
        assert(chars_before(s, 0) == 0);
    }
}

proof fn lemma_bytes_update_first(s: Seq<TokenView>, t: TokenView, j: int)
    requires
        1 <= j <= s.len(),
    ensures
        bytes_before(s.update(0, t), j) + text_bytes(s[0].text) == bytes_before(s, j) + text_bytes(
            t.text,
        ),
    decreases j,
{
    if j > 1 {
        lemma_bytes_update_first(s, t, j - 1);
        assert(s.update(0, t)[j - 1] == s[j - 1]);
    } else {
        assert(bytes_before(s.update(0, t), 0) == 0);
        assert(bytes_before(s, 0) == 0);
    }
}

/// After a sound break fewer characters are left to draw than there were,
/// and no more bytes.
pub proof fn lemma_uneaten_shrinks(tokens: Seq<TokenView>, w: WrappingView)
    requires
        sound_break(tokens, 0, w),
    ensures
        line_chars(uneaten(tokens, w)) < line_chars(tokens),
        line_bytes(uneaten(tokens, w)) <= line_bytes(tokens),
{
    let k = w.last_token_idx as int;
    let n = tokens.len() as int;
    if w.remaining_text.len() == 0 {
        lemma_chars_skip(tokens, k + 1, n - k - 1);
        lemma_bytes_skip(tokens, k + 1, n - k - 1);
    } else {
        let t = TokenView { style: tokens[k].style, text: w.remaining_text };
        let s = tokens.skip(k);
        lemma_chars_skip(tokens, k, n - k);
        lemma_bytes_skip(tokens, k, n - k);
        lemma_chars_update_first(s, t, n - k);
        lemma_bytes_update_first(s, t, n - k);
    }
}

/// What is left after a sound break holds no character that was not there.
pub proof fn lemma_uneaten_holds(tokens: Seq<TokenView>, w: WrappingView, width: nat)
    requires
        sound_break(tokens, 0, w),
        tokens_hold(tokens, width),
    ensures
        tokens_hold(uneaten(tokens, w), width),
{
    let k = w.last_token_idx as int;
    let rest = uneaten(tokens, w);
    let j = choose|j: int|
        0 <= j <= tokens[k].text.len() && w.remaining_text == #[trigger] tokens[k].text.skip(j);
    assert forall|i: int| 0 <= i < rest.len() implies text_holds((#[trigger] rest[i]).text, width) by {
        if w.remaining_text.len() == 0 {
            assert(rest[i] == tokens[k + 1 + i]);
        } else if i > 0 {
            assert(rest[i] == tokens[k + i]);
        } else {
            assert(rest[0].text == tokens[k].text.skip(j));
            assert(text_holds(tokens[k].text, width));
            assert forall|x: int| 0 <= x < rest[0].text.len() implies crate::text::columns(
                #[trigger] rest[0].text[x],
            ) <= width by {
                assert(rest[0].text[x] == tokens[k].text[j + x]);
            }
        }
    }
}

/// A row is sound where it has room for any one of its characters: it takes no
/// more than its columns where text is broken at the margin, all of them
/// if it broke, and at least all of them if the line is matched or
/// backgrounds are painted; and its break is sound.
pub proof fn lemma_row_sound(
    paint: Paint,
    tokens: Seq<TokenView>,
    region: Option<Region>,
    max_width: nat,
    pen: Pen,
)
    requires
        paint.wrap ==> tokens_hold(tokens, max_width),
    ensures
        sound_row(
            paint,
            tokens,
            max_width,
            0,
            region is Some || paint.has_background,
            row(paint, tokens, region, max_width, pen),
        ),
{
    match region {
        Some(r) => lemma_matched_row_sound(
            paint,
            r,
            tokens,
            max_width,
            0,
            0,
            0,
            pen_match_bg(paint, pen),
        ),
        None => lemma_plain_row_sound(paint, tokens, max_width, 0, 0, 0, pen),
    }
}

} // verus!
