//! What drawing a text, and drawing a row of tokens, writes: how tabs are
//! expanded, where text breaks at the margin, and where the colors of the
//! match region are set.

use vstd::prelude::*;
use crate::pen::{
    font_off, font_on, pen_bg, pen_boundary, pen_default_bg, pen_fg, pen_fill, pen_match_bg,
    pen_put, spaces, Paint, Pen,
};
use crate::region::{Region, RegionBoundaries};
use crate::style::{joined, TokenView};
use crate::text::{
    glyph_columns, lemma_text_bytes_concat, lemma_text_bytes_take, text_bytes, utf8_len, ZWJ,
};

verus! {

/// How the drawing of a text within a row ended: all of it was drawn,
/// in so many columns, or the row is full and this text is left.
pub enum LineDrawView {
    Continue(nat),
    Break(Seq<char>),
}

/// The pen after a text was drawn, and how the drawing ended.
pub struct TextResult {
    pub pen: Pen,
    pub state: LineDrawView,
}

/// Drawing `text` from its character `i` on into a row of which `width` of
/// `limit` columns are taken. `byte` is the offset of character `i` in the
/// text and `after_zwj` tells whether character `i - 1` was a joiner.
///
/// Before each character the region's boundary at its offset is passed. A
/// tab is as wide as the tab width, any other character as `glyph_columns`
/// says. A character that fits is written, a tab as spaces. At the first
/// one that does not fit, the row is filled up with spaces and the drawing
/// stops: the text left over starts at that character, or behind it if it
/// is a tab.
pub open spec fn text_from(
    paint: Paint,
    bounds: Option<RegionBoundaries>,
    text: Seq<char>,
    limit: nat,
    i: int,
    byte: nat,
    width: nat,
    after_zwj: bool,
    pen: Pen,
) -> TextResult
    decreases text.len() - i,
{
    if i < 0 || i >= text.len() {
        TextResult { pen, state: LineDrawView::Continue(width) }
    } else {
        let c = text[i];
        let p = match bounds {
            Some(b) => pen_boundary(paint, pen, b.at(byte)),
            None => pen,
        };
        if c == '\t' && paint.tab_width > 0 {
            if width + paint.tab_width > limit {
                TextResult {
                    pen: pen_put(p, spaces((limit - width) as nat)),
                    state: LineDrawView::Break(text.skip(i + 1)),
                }
            } else {
                text_from(
                    paint,
                    bounds,
                    text,
                    limit,
                    i + 1,
                    byte + utf8_len(c),
                    width + paint.tab_width as nat,
                    after_zwj,
                    pen_put(p, spaces(paint.tab_width as nat)),
                )
            }
        } else {
            let w = glyph_columns(c, after_zwj);
            if width + w > limit {
                TextResult {
                    pen: pen_put(p, spaces((limit - width) as nat)),
                    state: LineDrawView::Break(text.skip(i)),
                }
            } else {
                text_from(
                    paint,
                    bounds,
                    text,
                    limit,
                    i + 1,
                    byte + utf8_len(c),
                    width + w,
                    c == ZWJ,
                    pen_put(p, seq![c]),
                )
            }
        }
    }
}

/// Drawing all of `text` into a row that has `limit` columns left.
pub open spec fn wrapped_text(
    paint: Paint,
    bounds: Option<RegionBoundaries>,
    text: Seq<char>,
    limit: nat,
    pen: Pen,
) -> TextResult {
    text_from(paint, bounds, text, limit, 0, 0, 0, false, pen)
}

/// What is left over of a text that was broken is one of its suffixes, and
/// a proper one where the row still had room for the first character, or
/// that character is a tab that is expanded.
pub proof fn lemma_break_leaves_suffix(
    paint: Paint,
    bounds: Option<RegionBoundaries>,
    text: Seq<char>,
    limit: nat,
    i: int,
    byte: nat,
    width: nat,
    after_zwj: bool,
    pen: Pen,
)
    requires
        0 <= i <= text.len(),
        width <= limit,
    ensures
        match text_from(paint, bounds, text, limit, i, byte, width, after_zwj, pen).state {
            LineDrawView::Continue(w) => width <= w <= limit,
            LineDrawView::Break(rest) => {
                &&& exists|k: int| i <= k <= text.len() && rest == #[trigger] text.skip(k)
                &&& rest.len() <= text.len() - i
                &&& i < text.len() && ((text[i] == '\t' && paint.tab_width > 0) || width
                    + glyph_columns(text[i], after_zwj) <= limit) ==> rest.len() < text.len() - i
                &&& text_bytes(rest) <= text_bytes(text)
            },
        },
    decreases text.len() - i,
{
    if i < text.len() {
        let c = text[i];
        let p = match bounds {
            Some(b) => pen_boundary(paint, pen, b.at(byte)),
            None => pen,
        };
        lemma_text_bytes_take(text, i);
        if c == '\t' && paint.tab_width > 0 {
            if width + paint.tab_width > limit {
                assert(text.skip(i + 1) == text.skip(i + 1));
                if i + 1 < text.len() {
                    lemma_text_bytes_take(text, i + 1);
                } else {
                    assert(text.skip(i + 1) =~= Seq::<char>::empty());
                }
            } else {
                lemma_break_leaves_suffix(
                    paint,
                    bounds,
                    text,
                    limit,
                    i + 1,
                    byte + utf8_len(c),
                    width + paint.tab_width as nat,
                    after_zwj,
                    pen_put(p, spaces(paint.tab_width as nat)),
                );
            }
        } else {
            let w = glyph_columns(c, after_zwj);
            if width + w > limit {
                assert(text.skip(i) == text.skip(i));
            } else {
                lemma_break_leaves_suffix(
                    paint,
                    bounds,
                    text,
                    limit,
                    i + 1,
                    byte + utf8_len(c),
                    width + w,
                    c == ZWJ,
                    pen_put(p, seq![c]),
                );
            }
        }
    }
}

/// The pen after a text was drawn without regard to the margin, and the
/// columns it took.
pub struct PlainResult {
    pub pen: Pen,
    pub width: nat,
}

/// Drawing `text` from its character `i` on without regard to the margin.
/// Boundaries, tabs and widths are as in `text_from`.
pub open spec fn unwrapped_from(
    paint: Paint,
    bounds: Option<RegionBoundaries>,
    text: Seq<char>,
    i: int,
    byte: nat,
    width: nat,
    after_zwj: bool,
    pen: Pen,
) -> PlainResult
    decreases text.len() - i,
{
    if i < 0 || i >= text.len() {
        PlainResult { pen, width }
    } else {
        let c = text[i];
        let p = match bounds {
            Some(b) => pen_boundary(paint, pen, b.at(byte)),
            None => pen,
        };
        if c == '\t' && paint.tab_width > 0 {
            unwrapped_from(
                paint,
                bounds,
                text,
                i + 1,
                byte + utf8_len(c),
                width + paint.tab_width as nat,
                after_zwj,
                pen_put(p, spaces(paint.tab_width as nat)),
            )
        } else {
            unwrapped_from(
                paint,
                bounds,
                text,
                i + 1,
                byte + utf8_len(c),
                width + glyph_columns(c, after_zwj),
                c == ZWJ,
                pen_put(p, seq![c]),
            )
        }
    }
}

/// Drawing all of `text` without regard to the margin.
pub open spec fn unwrapped_text(
    paint: Paint,
    bounds: Option<RegionBoundaries>,
    text: Seq<char>,
    pen: Pen,
) -> PlainResult {
    unwrapped_from(paint, bounds, text, 0, 0, 0, false, pen)
}

/// Where a row was broken: the bytes of the line that the row has drawn
/// or dropped, what is left of the token at which it broke, and the index
/// of that token.
pub struct WrappingView {
    pub consumed_bytes: nat,
    pub remaining_text: Seq<char>,
    pub last_token_idx: nat,
}

/// The tokens that are still to be drawn after a break: those behind the
/// token at which the row broke, and before them what is left of that
/// token, unless nothing is.
pub open spec fn uneaten(tokens: Seq<TokenView>, wrapping: WrappingView) -> Seq<TokenView> {
    if wrapping.remaining_text.len() == 0 {
        tokens.skip(wrapping.last_token_idx as int + 1)
    } else {
        tokens.skip(wrapping.last_token_idx as int).update(
            0,
            TokenView {
                style: tokens[wrapping.last_token_idx as int].style,
                text: wrapping.remaining_text,
            },
        )
    }
}

/// Bytes of the first `idx` tokens.
pub open spec fn bytes_before(tokens: Seq<TokenView>, idx: int) -> nat
    decreases idx,
{
    if idx <= 0 {
        0
    } else {
        bytes_before(tokens, idx - 1) + text_bytes(tokens[idx - 1].text)
    }
}

/// Bytes of all the tokens of a line.
pub open spec fn line_bytes(tokens: Seq<TokenView>) -> nat {
    bytes_before(tokens, tokens.len() as int)
}

/// The bytes before a token grow with its index.
pub proof fn lemma_bytes_before_grows(tokens: Seq<TokenView>, i: int, j: int)
    requires
        0 <= i <= j,
    ensures
        bytes_before(tokens, i) <= bytes_before(tokens, j),
    decreases j - i,
{
    if i < j {
        lemma_bytes_before_grows(tokens, i, j - 1);
    }
}

/// The bytes before a token depend on the tokens before it only.
pub proof fn lemma_bytes_before_agree(a: Seq<TokenView>, b: Seq<TokenView>, idx: int)
    requires
        0 <= idx <= a.len(),
        idx <= b.len(),
        forall|i: int| 0 <= i < idx ==> a[i] == b[i],
    ensures
        bytes_before(a, idx) == bytes_before(b, idx),
    decreases idx,
{
    if idx > 0 {
        lemma_bytes_before_agree(a, b, idx - 1);
    }
}

/// The bytes of a line's tokens are the bytes of their joined texts.
pub proof fn lemma_line_bytes_joined(tokens: Seq<TokenView>)
    ensures
        line_bytes(tokens) == text_bytes(joined(tokens)),
    decreases tokens.len(),
{
    if tokens.len() > 0 {
        let n = tokens.len() as int;
        lemma_line_bytes_joined(tokens.drop_last());
        lemma_text_bytes_concat(joined(tokens.drop_last()), tokens.last().text);
        lemma_bytes_before_agree(tokens, tokens.drop_last(), n - 1);
    }
}

/// The pen after one row was drawn, the columns that the row takes, and
/// where it broke, if it did.
pub struct RowResult {
    pub pen: Pen,
    pub width: nat,
    pub wrapping: Option<WrappingView>,
}

/// The result of a row that broke at token `idx`, which starts at byte
/// `start` of the line: the row is full.
pub open spec fn broken_row(
    tokens: Seq<TokenView>,
    max_width: nat,
    idx: int,
    start: nat,
    pen: Pen,
    rest: Seq<char>,
) -> RowResult {
    RowResult {
        pen,
        width: max_width,
        wrapping: Some(
            WrappingView {
                consumed_bytes: (start + text_bytes(tokens[idx].text) - text_bytes(rest)) as nat,
                remaining_text: rest,
                last_token_idx: idx as nat,
            },
        ),
    }
}

/// Drawing the tokens from `idx` on into a row of an unmatched line, of
/// which `width` columns are taken. `start` is the byte offset of token
/// `idx` in the line.
///
/// Each token sets its background, where backgrounds are painted, and its
/// foreground, switches its font style on, draws its text and switches the
/// font style off. Behind the last token an empty row gets the theme's
/// background, and the row is filled up where backgrounds are painted.
pub open spec fn plain_row_from(
    paint: Paint,
    tokens: Seq<TokenView>,
    max_width: nat,
    idx: int,
    start: nat,
    width: nat,
    pen: Pen,
) -> RowResult
    decreases tokens.len() - idx,
{
    if idx < 0 || idx >= tokens.len() {
        let p = if width == 0 {
            pen_default_bg(paint, pen)
        } else {
            pen
        };
        if paint.has_background {
            RowResult {
                pen: pen_fill(p, width, max_width),
                width: if width < max_width {
                    max_width
                } else {
                    width
                },
                wrapping: None,
            }
        } else {
            RowResult { pen: p, width, wrapping: None }
        }
    } else {
        let tok = tokens[idx];
        let p1 = if paint.has_background {
            pen_bg(paint, pen, tok.style.background)
        } else {
            pen
        };
        let p2 = pen_put(pen_fg(paint, p1, tok.style.foreground), font_on(tok.style.font_style));
        let end = start + text_bytes(tok.text);
        if paint.wrap {
            let r = wrapped_text(paint, None, tok.text, (max_width - width) as nat, p2);
            match r.state {
                LineDrawView::Continue(w) => plain_row_from(
                    paint,
                    tokens,
                    max_width,
                    idx + 1,
                    end,
                    width + w,
                    pen_put(r.pen, font_off(tok.style.font_style)),
                ),
                LineDrawView::Break(rest) => broken_row(tokens, max_width, idx, start, r.pen, rest),
            }
        } else {
            let r = unwrapped_text(paint, None, tok.text, p2);
            plain_row_from(
                paint,
                tokens,
                max_width,
                idx + 1,
                end,
                width + r.width,
                pen_put(r.pen, font_off(tok.style.font_style)),
            )
        }
    }
}

/// Drawing the tokens from `idx` on into a row of a matched line.
///
/// A token that starts outside the region sets its foreground; one that
/// starts inside keeps the region's colors. Either switches its font style
/// on. The text is drawn with the region's bounds in view, and the font
/// style is switched off. Behind the last token the matched line's background is set
/// again and the row is filled up.
pub open spec fn matched_row_from(
    paint: Paint,
    region: Region,
    tokens: Seq<TokenView>,
    max_width: nat,
    idx: int,
    start: nat,
    width: nat,
    pen: Pen,
) -> RowResult
    decreases tokens.len() - idx,
{
    if idx < 0 || idx >= tokens.len() {
        RowResult {
            pen: pen_fill(pen_match_bg(paint, pen), width, max_width),
            width: if width < max_width {
                max_width
            } else {
                width
            },
            wrapping: None,
        }
    } else {
        let tok = tokens[idx];
        let end = start + text_bytes(tok.text);
        let p1 = pen_put(
            if !region.holds(start) {
                pen_fg(paint, pen, tok.style.foreground)
            } else {
                pen
            },
            font_on(tok.style.font_style),
        );
        let bounds = region.bounds_within(start, end, tok.style.foreground);
        if paint.wrap {
            let r = wrapped_text(paint, bounds, tok.text, (max_width - width) as nat, p1);
            match r.state {
                LineDrawView::Continue(w) => matched_row_from(
                    paint,
                    region,
                    tokens,
                    max_width,
                    idx + 1,
                    end,
                    width + w,
                    pen_put(r.pen, font_off(tok.style.font_style)),
                ),
                LineDrawView::Break(rest) => broken_row(tokens, max_width, idx, start, r.pen, rest),
            }
        } else {
            let r = unwrapped_text(paint, bounds, tok.text, p1);
            matched_row_from(
                paint,
                region,
                tokens,
                max_width,
                idx + 1,
                end,
                width + r.width,
                pen_put(r.pen, font_off(tok.style.font_style)),
            )
        }
    }
}

/// One row of a matched line: the matched line's background is set, then
/// the tokens are drawn.
pub open spec fn matched_row(
    paint: Paint,
    region: Region,
    tokens: Seq<TokenView>,
    max_width: nat,
    pen: Pen,
) -> RowResult {
    matched_row_from(paint, region, tokens, max_width, 0, 0, 0, pen_match_bg(paint, pen))
}

/// One row of a line, matched with a region or not.
pub open spec fn row(
    paint: Paint,
    tokens: Seq<TokenView>,
    region: Option<Region>,
    max_width: nat,
    pen: Pen,
) -> RowResult {
    match region {
        Some(r) => matched_row(paint, r, tokens, max_width, pen),
        None => plain_row_from(paint, tokens, max_width, 0, 0, 0, pen),
    }
}

} // verus!
