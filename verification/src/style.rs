//! Colors, font styles and styled runs of text.

use vstd::prelude::*;

verus! {

/// A color as themes give it. The alpha channel selects the encoding: with
/// `a == 0` the red channel holds a palette index, with `a == 1` the color
/// means "leave the terminal's color alone", anything else is plain RGB.
#[derive(Clone, Copy, Debug, PartialEq, Eq, Structural)]
pub struct Color {
    pub r: u8,
    pub g: u8,
    pub b: u8,
    pub a: u8,
}

/// Which font styles a text is in.
#[derive(Clone, Copy, Debug, PartialEq, Eq, Structural)]
pub struct FontStyle {
    pub bold: bool,
    pub underline: bool,
    pub italic: bool,
}

/// The colors and the font style of a text.
#[derive(Clone, Copy, Debug, PartialEq, Eq, Structural)]
pub struct Style {
    pub foreground: Color,
    pub background: Color,
    pub font_style: FontStyle,
}

/// The colors of a theme that drawing reads.
#[derive(Clone, Copy, Debug, PartialEq, Eq, Structural)]
pub struct ThemeColors {
    pub foreground: Option<Color>,
    pub background: Option<Color>,
    pub gutter_foreground: Option<Color>,
    pub line_highlight: Option<Color>,
    pub selection: Option<Color>,
    pub find_highlight: Option<Color>,
    pub find_highlight_foreground: Option<Color>,
}

/// A run of text of one logical line, drawn in one style.
#[derive(Clone, Debug)]
pub struct Token {
    pub style: Style,
    pub text: Vec<char>,
}

/// What a `Token` is to a contract: its style and its characters.
pub struct TokenView {
    pub style: Style,
    pub text: Seq<char>,
}

impl View for Token {
    type V = TokenView;

    open spec fn view(&self) -> TokenView {
        TokenView { style: self.style, text: self.text@ }
    }
}

/// The views of a sequence of tokens, in order.
pub open spec fn token_views(tokens: Seq<Token>) -> Seq<TokenView> {
    Seq::new(tokens.len(), |i: int| tokens[i]@)
}

/// The texts of tokens, one after the other.
pub open spec fn joined(tokens: Seq<TokenView>) -> Seq<char>
    decreases tokens.len(),
{
    if tokens.len() == 0 {
        Seq::empty()
    } else {
        joined(tokens.drop_last()) + tokens.last().text
    }
}

/// `text` without one trailing line feed and, if one was there, without the
/// carriage return before it.
pub open spec fn chomped(text: Seq<char>) -> Seq<char> {
    if text.len() > 0 && text.last() == '\n' {
        let t = text.drop_last();
        if t.len() > 0 && t.last() == '\r' {
            t.drop_last()
        } else {
            t
        }
    } else {
        text
    }
}

impl Token {
    /// Strips the line terminator from the end of the token's text.
    pub fn chomp(&mut self)
        ensures
            final(self).style == old(self).style,
            final(self).text@ == chomped(old(self).text@),
    {
        let n = self.text.len();
        if n > 0 && self.text[n - 1] == '\n' {
            self.text.pop();
            let m = self.text.len();
            if m > 0 && self.text[m - 1] == '\r' {
                self.text.pop();
            }
        }
    }
}

} // verus!
