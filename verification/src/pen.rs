//! The pen: what is written, and the colors that the terminal is in. The
//! functions here say what setting a color, a font style or a line end
//! writes.

use vstd::prelude::*;
use crate::bridge::ansi256_of_rgb;
use crate::region::RegionBoundary;
use crate::style::{Color, FontStyle};
use crate::text::decimal;

verus! {

/// The parameters of drawing that stay fixed while one file is drawn.
#[derive(Clone, Copy, Debug)]
pub struct Paint {
    /// Columns per tab; with 0 tabs are written as they are.
    pub tab_width: usize,
    pub true_color: bool,
    /// Whether the theme's background is painted across each row.
    pub has_background: bool,
    /// Whether text is broken at the right margin.
    pub wrap: bool,
    /// The theme's background.
    pub background: Option<Color>,
    /// Background of a matched line outside the match region.
    pub match_bg: Option<Color>,
    pub region_fg: Option<Color>,
    pub region_bg: Option<Color>,
}

/// What has been written so far, and the colors the terminal is known to be in.
pub struct Pen {
    pub out: Seq<char>,
    pub fg: Option<Color>,
    pub bg: Option<Color>,
}

/// `n` spaces.
pub open spec fn spaces(n: nat) -> Seq<char> {
    Seq::new(n, |i: int| ' ')
}

/// The escape sequence `ESC [ params m`.
pub open spec fn sgr(params: Seq<char>) -> Seq<char> {
    seq!['\x1b', '['] + params + seq!['m']
}

/// The escape sequence that selects color `c`; `base` is 30 for the
/// foreground and 40 for the background.
pub open spec fn color_sgr(base: nat, c: Color, true_color: bool) -> Seq<char> {
    if c.a == 0 && c.r <= 7 {
        sgr(decimal(base + c.r as nat))
    } else if c.a == 0 {
        sgr(decimal(base + 8) + seq![';', '5', ';'] + decimal(c.r as nat))
    } else if c.a == 1 {
        Seq::empty()
    } else if true_color {
        sgr(
            decimal(base + 8) + seq![';', '2', ';'] + decimal(c.r as nat) + seq![';'] + decimal(
                c.g as nat,
            ) + seq![';'] + decimal(c.b as nat),
        )
    } else {
        sgr(
            decimal(base + 8) + seq![';', '5', ';'] + decimal(
                ansi256_of_rgb(c.r, c.g, c.b) as nat,
            ),
        )
    }
}

/// The pen after `s` was written.
pub open spec fn pen_put(pen: Pen, s: Seq<char>) -> Pen {
    Pen { out: pen.out + s, fg: pen.fg, bg: pen.bg }
}

/// The pen after the foreground was set to `c`: nothing is written when the
/// terminal is already in that color.
pub open spec fn pen_fg(paint: Paint, pen: Pen, c: Color) -> Pen {
    if pen.fg == Some(c) {
        pen
    } else {
        Pen { out: pen.out + color_sgr(30, c, paint.true_color), fg: Some(c), bg: pen.bg }
    }
}

/// The pen after the background was set to `c`.
pub open spec fn pen_bg(paint: Paint, pen: Pen, c: Color) -> Pen {
    if pen.bg == Some(c) {
        pen
    } else {
        Pen { out: pen.out + color_sgr(40, c, paint.true_color), fg: pen.fg, bg: Some(c) }
    }
}

/// The pen after the theme's background was set, if backgrounds are painted.
pub open spec fn pen_default_bg(paint: Paint, pen: Pen) -> Pen {
    if paint.has_background && paint.background is Some {
        pen_bg(paint, pen, paint.background->0)
    } else {
        pen
    }
}

/// The pen after a row was ended: attributes are reset before the line
/// feed, and no color is known to be set any more.
pub open spec fn pen_newline(pen: Pen) -> Pen {
    Pen { out: pen.out + seq!['\x1b', '[', '0', 'm', '\n'], fg: None, bg: None }
}

/// The sequences that switch on the bold and underline of `style`.
pub open spec fn font_on(style: FontStyle) -> Seq<char> {
    (if style.bold {
        seq!['\x1b', '[', '1', 'm']
    } else {
        Seq::empty()
    }) + (if style.underline {
        seq!['\x1b', '[', '4', 'm']
    } else {
        Seq::empty()
    })
}

/// The sequences that switch off the bold and underline of `style`.
pub open spec fn font_off(style: FontStyle) -> Seq<char> {
    (if style.bold {
        seq!['\x1b', '[', '2', '2', 'm']
    } else {
        Seq::empty()
    }) + (if style.underline {
        seq!['\x1b', '[', '2', '4', 'm']
    } else {
        Seq::empty()
    })
}

/// The pen after the background of a matched line was set.
pub open spec fn pen_match_bg(paint: Paint, pen: Pen) -> Pen {
    match paint.match_bg {
        Some(bg) => pen_bg(paint, pen, bg),
        None => pen,
    }
}

/// The pen after the colors of the match region were set.
pub open spec fn pen_region(paint: Paint, pen: Pen) -> Pen {
    let p = match paint.region_fg {
        Some(c) => pen_fg(paint, pen, c),
        None => pen,
    };
    match paint.region_bg {
        Some(c) => pen_bg(paint, p, c),
        None => p,
    }
}

/// The pen after a boundary of the region was passed: into the region's
/// colors at its start, back to the token's foreground and the matched
/// line's background at its end.
pub open spec fn pen_boundary(paint: Paint, pen: Pen, boundary: RegionBoundary) -> Pen {
    match boundary {
        RegionBoundary::Start => pen_region(paint, pen),
        RegionBoundary::End(fg) => pen_match_bg(paint, pen_fg(paint, pen, fg)),
        RegionBoundary::Neither => pen,
    }
}

/// `n` as a machine number, the largest one where `n` does not fit.
pub open spec fn capped(n: nat) -> usize {
    if n > usize::MAX {
        usize::MAX
    } else {
        n as usize
    }
}

/// The pen after a row of `written` columns was filled up to `max_width`.
pub open spec fn pen_fill(pen: Pen, written: nat, max_width: nat) -> Pen {
    if written < max_width {
        pen_put(pen, spaces((max_width - written) as nat))
    } else {
        pen
    }
}

} // verus!
