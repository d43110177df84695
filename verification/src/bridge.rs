//! What this library takes on trust from the crates it calls.
//!
//! Every item here is believed, not proved: a wrong contract in this file is
//! a wrong theorem everywhere else.
//!
//! A `SyntaxSet` is taken to be one that syntect built, or loaded from a
//! dump that it made: the patterns of its contexts were compiled when it
//! was built. The patterns for first lines were not, and are tested here
//! before they are searched with.

use vstd::prelude::*;
use crate::style::{token_views, Color, FontStyle, Style, ThemeColors, Token, TokenView};
use ::syntect::easy::HighlightLines;
use ::syntect::highlighting::{Theme, ThemeSet};
use ::syntect::parsing::{SyntaxReference, SyntaxSet};

verus! {

/// The text that `String::from_utf8_lossy` makes of bytes: the text they
/// encode, U+FFFD standing for what is no valid UTF-8.
pub uninterp spec fn utf8_lossy(bytes: Seq<u8>) -> Seq<char>;

/// Calls `String::from_utf8_lossy`, whose result depends on the bytes
/// alone; the contract only gives it a name.
#[verifier::external_body]
pub(crate) fn lossy_text(bytes: &[u8]) -> (text: String)
    ensures
        text@ == utf8_lossy(bytes@),
{
    String::from_utf8_lossy(bytes).into_owned()
}

/// Collects characters into a `String` with `String::from_iter`, which
/// appends them in order.
#[verifier::external_body]
pub(crate) fn string_of(chars: &Vec<char>) -> (text: String)
    ensures
        text@ == chars@,
{
    String::from_iter(chars.iter())
}

/// The file name that `std::path::Path::file_name` finds in a path, if it
/// finds one that is text.
pub uninterp spec fn path_file_name(path: Seq<char>) -> Option<Seq<char>>;

/// Calls `Path::file_name` on the path, whose result depends on the path
/// alone; the contract only gives it a name.
#[verifier::external_body]
pub(crate) fn file_name_of(path: &str) -> (name: Option<String>)
    ensures
        match name {
            Some(n) => path_file_name(path@) == Some(n@),
            None => path_file_name(path@) is None,
        },
{
    std::path::Path::new(path).file_name().and_then(|n| n.to_str()).map(String::from)
}

/// The extension that `std::path::Path::extension` finds in a path, if it
/// finds one that is text.
pub uninterp spec fn path_extension(path: Seq<char>) -> Option<Seq<char>>;

/// Calls `Path::extension` on the path, whose result depends on the path
/// alone; the contract only gives it a name.
#[verifier::external_body]
pub(crate) fn extension_of(path: &str) -> (ext: Option<String>)
    ensures
        match ext {
            Some(e) => path_extension(path@) == Some(e@),
            None => path_extension(path@) is None,
        },
{
    std::path::Path::new(path).extension().and_then(|e| e.to_str()).map(String::from)
}

/// The palette index that `rgb2ansi256::rgb_to_ansi256` picks for an RGB color.
pub uninterp spec fn ansi256_of_rgb(r: u8, g: u8, b: u8) -> u8;

/// `rgb2ansi256::rgb_to_ansi256` is a pure function of the three channels
/// (table lookups and integer arithmetic on them, nothing else); the contract
/// only gives its result a name.
pub assume_specification[ rgb2ansi256::rgb_to_ansi256 ](r: u8, g: u8, b: u8) -> (index: u8)
    ensures
        index == ansi256_of_rgb(r, g, b),
;

/// `memchr::memchr` returns the index of the first occurrence of `needle` in
/// `haystack`, `None` if there is none, as its documentation says.
pub assume_specification[ memchr::memchr ](needle: u8, haystack: &[u8]) -> (found: Option<usize>)
    ensures
        match found {
            Some(i) => {
                &&& i < haystack@.len()
                &&& haystack@[i as int] == needle
                &&& forall|j: int| 0 <= j < i ==> haystack@[j] != needle
            },
            None => forall|j: int| 0 <= j < haystack@.len() ==> haystack@[j] != needle,
        },
;

/// The width in columns that `unicode_width::UnicodeWidthChar::width_cjk`
/// gives a character, `None` for a control character.
pub uninterp spec fn cjk_width(c: char) -> Option<usize>;

/// Calls `UnicodeWidthChar::width_cjk`, which looks the character up in the
/// crate's static tables; the contract only gives its result a name.
#[verifier::external_body]
pub(crate) fn char_width_cjk(c: char) -> (w: Option<usize>)
    ensures
        w == cjk_width(c),
{
    unicode_width::UnicodeWidthChar::width_cjk(c)
}

/// The width in columns that `unicode_width::UnicodeWidthStr::width_cjk`
/// gives a text.
pub uninterp spec fn cjk_text_width(text: Seq<char>) -> usize;

/// Calls `UnicodeWidthStr::width_cjk`, which goes through the characters
/// of the text with the crate's static tables; the contract only gives its
/// result a name.
#[verifier::external_body]
pub(crate) fn str_width_cjk(text: &str) -> (w: usize)
    ensures
        w == cjk_text_width(text@),
{
    unicode_width::UnicodeWidthStr::width_cjk(text)
}

/// `syntect::parsing::SyntaxSet`: a set of syntaxes.
#[verifier::external_type_specification]
#[verifier::external_body]
pub struct ExSyntaxSet(::syntect::parsing::SyntaxSet);

/// `syntect::parsing::SyntaxReference`: one syntax of a set.
#[verifier::external_type_specification]
#[verifier::external_body]
pub struct ExSyntaxReference(::syntect::parsing::SyntaxReference);

/// `syntect::highlighting::ThemeSet`: themes by name.
#[verifier::external_type_specification]
#[verifier::external_body]
pub struct ExThemeSet(::syntect::highlighting::ThemeSet);

/// `syntect::highlighting::Theme`: the colors and the rules of a theme.
#[verifier::external_type_specification]
#[verifier::external_body]
pub struct ExTheme(::syntect::highlighting::Theme);

/// `syntect::easy::HighlightLines`: the state of parser and highlighter
/// between two lines of a file.
#[verifier::external_type_specification]
#[verifier::external_body]
pub struct ExHighlightLines<'a>(::syntect::easy::HighlightLines<'a>);

/// `syntax` is one of the syntaxes of `syntaxes`.
pub uninterp spec fn syntax_in(syntax: SyntaxReference, syntaxes: SyntaxSet) -> bool;

/// The syntax that `SyntaxSet::find_syntax_by_name` finds for a name.
pub uninterp spec fn syntax_named(syntaxes: SyntaxSet, name: Seq<char>) -> Option<SyntaxReference>;

/// The syntax that `SyntaxSet::find_syntax_by_extension` finds for an
/// extension, or for a file name that stands for one.
pub uninterp spec fn syntax_for_extension(syntaxes: SyntaxSet, extension: Seq<char>) -> Option<
    SyntaxReference,
>;

/// The syntax that `SyntaxSet::find_syntax_by_first_line` finds for the
/// first line of a file.
pub uninterp spec fn syntax_for_first_line(syntaxes: SyntaxSet, line: Seq<char>) -> Option<
    SyntaxReference,
>;

/// The patterns for first lines that the syntaxes of a set hold, syntax by
/// syntax; `None` for a syntax without one.
pub uninterp spec fn first_line_patterns(syntaxes: SyntaxSet) -> Seq<Option<Seq<char>>>;

/// Whether `syntect::parsing::Regex::try_compile` finds a pattern good.
pub uninterp spec fn compiles(pattern: Seq<char>) -> bool;

/// Every pattern among `patterns` compiles.
pub open spec fn all_compile(patterns: Seq<Option<Seq<char>>>) -> bool {
    forall|i: int|
        0 <= i < patterns.len() ==> ((#[trigger] patterns[i]) matches Some(p) ==> compiles(p))
}

/// Reads the public field `first_line_match` of each syntax that
/// `SyntaxSet::syntaxes` hands out; the contract only gives what is read
/// a name.
#[verifier::external_body]
pub(crate) fn first_line_patterns_of(syntaxes: &SyntaxSet) -> (patterns: Vec<Option<String>>)
    ensures
        patterns.len() == first_line_patterns(*syntaxes).len(),
        forall|i: int|
            0 <= i < patterns.len() ==> match #[trigger] patterns[i] {
                Some(p) => first_line_patterns(*syntaxes)[i] == Some(p@),
                None => first_line_patterns(*syntaxes)[i] is None,
            },
{
    syntaxes.syntaxes().iter().map(|s| s.first_line_match.clone()).collect()
}

/// Calls `Regex::try_compile`, which compiles the pattern with the regex
/// engine that syntect searches with, and says whether that went well.
#[verifier::external_body]
pub(crate) fn pattern_compiles(pattern: &str) -> (good: bool)
    ensures
        good == compiles(pattern@),
{
    ::syntect::parsing::Regex::try_compile(pattern).is_none()
}

/// Calls `SyntaxSet::find_syntax_by_name`, which searches the set's own
/// syntaxes for the name: what it finds depends on the set and the name
/// alone, and is one of the set's syntaxes.
#[verifier::external_body]
pub(crate) fn find_syntax_by_name<'a>(syntaxes: &'a SyntaxSet, name: &str) -> (found: Option<
    &'a SyntaxReference,
>)
    ensures
        found matches Some(s) ==> syntax_in(*s, *syntaxes) && syntax_named(*syntaxes, name@)
            == Some(*s),
        found is None ==> syntax_named(*syntaxes, name@) is None,
{
    syntaxes.find_syntax_by_name(name)
}

/// Calls `SyntaxSet::find_syntax_by_extension`, which searches the set's
/// own syntaxes for the extension: what it finds depends on the set and
/// the extension alone, and is one of the set's syntaxes.
#[verifier::external_body]
pub(crate) fn find_syntax_by_extension<'a>(syntaxes: &'a SyntaxSet, extension: &str) -> (found:
    Option<&'a SyntaxReference>)
    ensures
        found matches Some(s) ==> syntax_in(*s, *syntaxes) && syntax_for_extension(
            *syntaxes,
            extension@,
        ) == Some(*s),
        found is None ==> syntax_for_extension(*syntaxes, extension@) is None,
{
    syntaxes.find_syntax_by_extension(extension)
}

/// Calls `SyntaxSet::find_syntax_by_first_line`, which tries the first
/// line patterns of the set's own syntaxes: what it finds depends on the
/// set and the line alone, and is one of the set's syntaxes.
///
/// syntect compiles those patterns at the first search and panics on one
/// that does not compile: the contract asks that all of them do.
#[verifier::external_body]
pub(crate) fn find_syntax_by_first_line<'a>(syntaxes: &'a SyntaxSet, line: &str) -> (found: Option<
    &'a SyntaxReference,
>)
    requires
        all_compile(first_line_patterns(*syntaxes)),
    ensures
        found matches Some(s) ==> syntax_in(*s, *syntaxes) && syntax_for_first_line(
            *syntaxes,
            line@,
        ) == Some(*s),
        found is None ==> syntax_for_first_line(*syntaxes, line@) is None,
{
    syntaxes.find_syntax_by_first_line(line)
}

/// The theme that the public map `ThemeSet::themes` holds under a name.
pub uninterp spec fn theme_named(themes: ThemeSet, name: Seq<char>) -> Option<Theme>;

/// Looks `name` up in the public map `ThemeSet::themes`: what is found
/// depends on the set and the name alone.
#[verifier::external_body]
pub(crate) fn find_theme<'a>(themes: &'a ThemeSet, name: &str) -> (found: Option<&'a Theme>)
    ensures
        match found {
            Some(theme) => theme_named(*themes, name@) == Some(*theme),
            None => theme_named(*themes, name@) is None,
        },
{
    themes.themes.get(name)
}

/// The colors of `theme` that drawing reads.
pub uninterp spec fn theme_colors_of(theme: Theme) -> ThemeColors;

/// Reads the public fields of `theme.settings` and copies each color
/// channel by channel; the contract only gives what is read a name.
#[verifier::external_body]
pub(crate) fn theme_colors(theme: &Theme) -> (colors: ThemeColors)
    ensures
        colors == theme_colors_of(*theme),
{
    let f = |c: Option<::syntect::highlighting::Color>| c.map(|c| Color { r: c.r, g: c.g, b: c.b, a: c.a });
    let s = &theme.settings;
    ThemeColors {
        foreground: f(s.foreground),
        background: f(s.background),
        gutter_foreground: f(s.gutter_foreground),
        line_highlight: f(s.line_highlight),
        selection: f(s.selection),
        find_highlight: f(s.find_highlight),
        find_highlight_foreground: f(s.find_highlight_foreground),
    }
}

/// Calls `ThemeSet::load_defaults`, which unpacks the themes that syntect
/// carries. Nothing is claimed of them.
#[verifier::external_body]
pub(crate) fn default_themes() -> ThemeSet {
    ThemeSet::load_defaults()
}

/// The state that `HighlightLines::new` makes for a syntax and a theme.
pub uninterp spec fn fresh_lines(syntax: SyntaxReference, theme: Theme) -> HighlightLines<'static>;

/// `lines` can be taken over a line with `syntaxes`: the contexts that
/// its parser is in are contexts of that set.
pub uninterp spec fn ready_for(lines: HighlightLines<'_>, syntaxes: SyntaxSet) -> bool;

/// Calls `HighlightLines::new`, which starts the parser in the first
/// context of `syntax`: what it makes depends on the syntax and the theme
/// alone. The parser refers to that context by its place in the set, so
/// the result is good for lines that are parsed with the set that the
/// syntax is one of; `syntaxes` is here to say for which set that is.
#[verifier::external_body]
pub(crate) fn new_highlight_lines<'a>(
    syntax: &SyntaxReference,
    theme: &'a Theme,
    syntaxes: &SyntaxSet,
) -> (lines: HighlightLines<'a>)
    requires
        syntax_in(*syntax, *syntaxes),
    ensures
        lines == fresh_lines(*syntax, *theme),
        ready_for(lines, *syntaxes),
{
    HighlightLines::new(syntax, theme)
}

/// What `HighlightLines::highlight_line` makes of a state, a line and a
/// set: the state behind the line, and the styled pieces of the line, or
/// `None` for the error that it returned.
pub uninterp spec fn line_outcome(
    lines: HighlightLines<'_>,
    line: Seq<char>,
    syntaxes: SyntaxSet,
) -> (HighlightLines<'_>, Option<Seq<TokenView>>);

/// Calls `HighlightLines::highlight_line` and copies each styled piece
/// into a token. The call takes the parser and the highlighter over the
/// line, whether it succeeds or not. The state that it leaves and the
/// pieces that it returns depend on the state before, the line and the
/// set alone; the contract gives them a name and claims nothing of what
/// they are.
///
/// The documentation of syntect asks that lines are parsed with the set
/// that holds the syntax that the parser was started with, and lets the
/// call panic else: the contract asks for a state that is good for the
/// set. The contexts that the parser moves to are contexts of the same
/// set.
#[verifier::external_body]
pub(crate) fn highlight_line(
    lines: &mut HighlightLines<'_>,
    line: &str,
    syntaxes: &SyntaxSet,
) -> (tokens: Option<Vec<Token>>)
    requires
        ready_for(*old(lines), *syntaxes),
    ensures
        ready_for(*final(lines), *syntaxes),
        *final(lines) == line_outcome(*old(lines), line@, *syntaxes).0,
        match tokens {
            Some(t) => line_outcome(*old(lines), line@, *syntaxes).1 == Some(token_views(t@)),
            None => line_outcome(*old(lines), line@, *syntaxes).1 is None,
        },
{
    let c = |c: ::syntect::highlighting::Color| Color { r: c.r, g: c.g, b: c.b, a: c.a };
    let f = |f: ::syntect::highlighting::FontStyle| FontStyle {
        bold: f.contains(::syntect::highlighting::FontStyle::BOLD),
        underline: f.contains(::syntect::highlighting::FontStyle::UNDERLINE),
        italic: f.contains(::syntect::highlighting::FontStyle::ITALIC),
    };
    let pieces = lines.highlight_line(line, syntaxes).ok()?;
    Some(pieces.into_iter().map(|(s, t)| Token {
        style: Style { foreground: c(s.foreground), background: c(s.background), font_style: f(s.font_style) },
        text: t.chars().collect(),
    }).collect())
}

} // verus!
