//! The highlighter: the styled runs of the lines of a file, one line
//! after the other.

use vstd::prelude::*;
use crate::bridge::{
    fresh_lines, highlight_line, line_outcome, new_highlight_lines, ready_for, syntax_in,
    theme_colors, theme_colors_of,
};
use crate::rows::{lemma_line_bytes_joined, line_bytes};
use crate::style::{joined, token_views, Color, FontStyle, Style, Token, TokenView};
use crate::text::{chars_of, lemma_text_bytes_is_encoding_len};
use ::syntect::easy::HighlightLines;
use ::syntect::highlighting::Theme;
use ::syntect::parsing::{SyntaxReference, SyntaxSet};

verus! {

/// The style of text that no rule of the theme matches: the theme's
/// foreground on its background, black on white where it names none.
pub open spec fn plain_style(foreground: Option<Color>, background: Option<Color>) -> Style {
    Style {
        foreground: match foreground {
            Some(c) => c,
            None => Color { r: 0, g: 0, b: 0, a: 255 },
        },
        background: match background {
            Some(c) => c,
            None => Color { r: 255, g: 255, b: 255, a: 255 },
        },
        font_style: FontStyle { bold: false, underline: false, italic: false },
    }
}

/// A line as one run of plain text.
pub open spec fn plain_run(plain: Style, line: Seq<char>) -> Seq<TokenView> {
    seq![TokenView { style: plain, text: line }]
}

/// The state of parser and highlighter behind `line`.
pub open spec fn advanced(
    state: HighlightLines<'_>,
    line: Seq<char>,
    syntaxes: SyntaxSet,
) -> HighlightLines<'_> {
    line_outcome(state, line, syntaxes).0
}

/// The styled runs of `line` for a highlighter in `state`: the pieces that
/// syntect makes of the line, if it makes any and they cover the line;
/// else the line as one run of plain text.
pub open spec fn runs_for(
    state: HighlightLines<'_>,
    syntaxes: SyntaxSet,
    plain: Style,
    line: Seq<char>,
) -> Seq<TokenView> {
    match line_outcome(state, line, syntaxes).1 {
        Some(runs) => if joined(runs) == line {
            runs
        } else {
            plain_run(plain, line)
        },
        None => plain_run(plain, line),
    }
}

/// The state behind the first `n` of `texts`.
pub open spec fn state_behind(
    state: HighlightLines<'_>,
    syntaxes: SyntaxSet,
    texts: Seq<Seq<char>>,
    n: int,
) -> HighlightLines<'_>
    decreases n,
{
    if n <= 0 {
        state
    } else {
        advanced(state_behind(state, syntaxes, texts, n - 1), texts[n - 1], syntaxes)
    }
}

/// The styled runs of `texts`, the lines of a file, for a highlighter that
/// starts in `state`: each line is highlighted in the state that the lines
/// before it have left.
pub open spec fn runs_of(
    state: HighlightLines<'_>,
    syntaxes: SyntaxSet,
    plain: Style,
    texts: Seq<Seq<char>>,
) -> Seq<Seq<TokenView>> {
    Seq::new(
        texts.len(),
        |i: int| runs_for(state_behind(state, syntaxes, texts, i), syntaxes, plain, texts[i]),
    )
}

/// A single run covers its own text.
pub proof fn lemma_plain_run_covers(plain: Style, line: Seq<char>)
    ensures
        joined(plain_run(plain, line)) == line,
{
    let run = plain_run(plain, line);
    assert(run.drop_last() =~= Seq::<TokenView>::empty());
    assert(joined(run) =~= line) by {
        reveal_with_fuel(joined, 2);
    }
}

/// The characters of all the tokens, one after the other.
fn joined_text(tokens: &Vec<Token>) -> (text: Vec<char>)
    ensures
        text@ == joined(token_views(tokens@)),
{
    let ghost views = token_views(tokens@);
    let mut text: Vec<char> = Vec::new();
    let mut i: usize = 0;
    while i < tokens.len()
        invariant
            i <= tokens.len(),
            views == token_views(tokens@),
            text@ == joined(views.take(i as int)),
        decreases tokens.len() - i,
    {
        let ghost before = text@;
        let token = &tokens[i];
        let mut j: usize = 0;
        while j < token.text.len()
            invariant
                j <= token.text.len(),
                text@ == before + token.text@.take(j as int),
            decreases token.text.len() - j,
        {
            text.push(token.text[j]);
            j = j + 1;
            assert(text@ =~= before + token.text@.take(j as int));
        }
        proof {
            assert(token.text@.take(j as int) =~= token.text@);
            assert(views.take(i + 1).drop_last() =~= views.take(i as int));
            assert(views.take(i + 1).last() == token@);
        }
        i = i + 1;
    }
    assert(views.take(i as int) =~= views);
    text
}

/// Whether two texts are the same.
fn same_text(a: &Vec<char>, b: &Vec<char>) -> (same: bool)
    ensures
        same == (a@ == b@),
{
    if a.len() != b.len() {
        return false;
    }
    let mut i: usize = 0;
    while i < a.len()
        invariant
            i <= a.len(),
            a.len() == b.len(),
            forall|j: int| 0 <= j < i ==> a@[j] == b@[j],
        decreases a.len() - i,
    {
        if a[i] != b[i] {
            return false;
        }
        i = i + 1;
    }
    assert(a@ =~= b@);
    true
}

/// Highlights the lines of one file, one after the other. The state of the
/// parser is carried from line to line, so every line of the file has to
/// pass through, drawn or not.
pub struct LineHighlighter<'a> {
    lines: HighlightLines<'a>,
    syntaxes: &'a SyntaxSet,
    plain: Style,
}

impl<'a> LineHighlighter<'a> {
    /// The highlighter parses with the set that its syntax is from.
    pub closed spec fn wf(&self) -> bool {
        ready_for(self.lines, *self.syntaxes)
    }

    /// The style of a line that the parser fails on.
    pub closed spec fn plain(&self) -> Style {
        self.plain
    }

    /// The state of parser and highlighter: what the lines that have
    /// passed have left.
    pub closed spec fn state(&self) -> HighlightLines<'a> {
        self.lines
    }

    /// The set of syntaxes that lines are parsed with.
    pub closed spec fn syntaxes(&self) -> SyntaxSet {
        *self.syntaxes
    }

    /// A highlighter for a file of `syntax`, in the colors of `theme`.
    /// `syntax` has to be one of `syntaxes`.
    pub fn new(syntax: &SyntaxReference, theme: &'a Theme, syntaxes: &'a SyntaxSet) -> (hl: Self)
        requires
            syntax_in(*syntax, *syntaxes),
        ensures
            hl.wf(),
            hl.state() == fresh_lines(*syntax, *theme),
            hl.syntaxes() == *syntaxes,
            hl.plain() == plain_style(
                theme_colors_of(*theme).foreground,
                theme_colors_of(*theme).background,
            ),
    {
        let colors = theme_colors(theme);
        let plain = Style {
            foreground: match colors.foreground {
                Some(c) => c,
                None => Color { r: 0, g: 0, b: 0, a: 255 },
            },
            background: match colors.background {
                Some(c) => c,
                None => Color { r: 255, g: 255, b: 255, a: 255 },
            },
            font_style: FontStyle { bold: false, underline: false, italic: false },
        };
        LineHighlighter { lines: new_highlight_lines(syntax, theme, syntaxes), syntaxes, plain }
    }

    /// Lets a line that is not drawn pass through the parser: the state
    /// is taken over the line as it is by `highlight`, so that the lines
    /// behind it are parsed as lines of the same file.
    pub fn skip_line(&mut self, line: &str)
        requires
            old(self).wf(),
        ensures
            final(self).wf(),
            final(self).state() == advanced(old(self).state(), line@, old(self).syntaxes()),
            final(self).syntaxes() == old(self).syntaxes(),
            final(self).plain() == old(self).plain(),
    {
        let _ = highlight_line(&mut self.lines, line, self.syntaxes);
    }

    /// The styled runs of `line`: the pieces that syntect makes of it in
    /// the state that the lines before have left. Where it fails on the
    /// line, or its pieces do not cover the line, the line is one run of
    /// plain text. The state is taken over the line.
    pub fn highlight(&mut self, line: &str) -> (tokens: Vec<Token>)
        requires
            old(self).wf(),
        ensures
            final(self).wf(),
            final(self).state() == advanced(old(self).state(), line@, old(self).syntaxes()),
            final(self).syntaxes() == old(self).syntaxes(),
            final(self).plain() == old(self).plain(),
            token_views(tokens@) == runs_for(
                old(self).state(),
                old(self).syntaxes(),
                old(self).plain(),
                line@,
            ),
            joined(token_views(tokens@)) == line@,
            line_bytes(token_views(tokens@)) <= usize::MAX,
    {
        let text = chars_of(line);
        let found = match highlight_line(&mut self.lines, line, self.syntaxes) {
            Some(tokens) => if same_text(&joined_text(&tokens), &text) {
                Some(tokens)
            } else {
                None
            },
            None => None,
        };
        let tokens = match found {
            Some(tokens) => tokens,
            None => {
                let mut tokens: Vec<Token> = Vec::new();
                tokens.push(Token { style: self.plain, text });
                proof {
                    lemma_plain_run_covers(self.plain, line@);
                    assert(token_views(tokens@) =~= plain_run(self.plain, line@));
                }
                tokens
            },
        };
        // The bytes of the line are the bytes of its runs, and a line has
        // no more bytes than a machine number says.
        let bytes = line.as_bytes();
        let _ = bytes.len();
        proof {
            lemma_line_bytes_joined(token_views(tokens@));
            lemma_text_bytes_is_encoding_len(line@);
        }
        tokens
    }
}

} // verus!
