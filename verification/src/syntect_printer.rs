//! The printer that highlights with syntect: it draws a file and hands
//! what it has drawn to a sink, in one piece.

use vstd::prelude::*;
use vstd::utf8::encode_utf8;
use crate::bridge::{
    all_compile, compiles, default_themes, extension_of, file_name_of, find_syntax_by_extension,
    find_syntax_by_first_line, find_syntax_by_name, find_theme, first_line_patterns,
    first_line_patterns_of, fresh_lines, lossy_text, path_extension, path_file_name,
    pattern_compiles, string_of, syntax_for_extension, syntax_for_first_line, syntax_in,
    syntax_named, theme_colors, theme_colors_of, theme_named, utf8_lossy,
};
use crate::chunk::{lines_of, File, Line, LineMatch, LinesInclusive};
use crate::drawer::Drawer;
use crate::frame::{body_width_for, fits, frame_for, paint_for, rows_hold, texts_of};
use crate::highlighter::{plain_style, runs_of, LineHighlighter};
use crate::pen::Pen;
use crate::printer::{PrinterOptions, TermColorSupport, TextWrapMode};
use crate::style::{ThemeColors, TokenView};
use crate::text::chars_of;
use ::syntect::highlighting::{Theme, ThemeSet};
use ::syntect::parsing::{SyntaxReference, SyntaxSet};

verus! {

/// What went wrong before anything was written.
#[derive(Debug)]
pub struct PrintError {
    message: String,
}

impl View for PrintError {
    type V = Seq<char>;

    closed spec fn view(&self) -> Seq<char> {
        self.message@
    }
}

/// The words before the message of a `PrintError`.
pub open spec fn error_prefix() -> Seq<char> {
    "Error while printing output with syntect: "@
}

impl PrintError {
    /// An error with this message.
    pub fn new(msg: String) -> (err: Self)
        ensures
            err@ == msg@,
    {
        PrintError { message: msg }
    }

    /// What went wrong.
    pub fn message(&self) -> (msg: &str)
        ensures
            msg@ == self@,
    {
        self.message.as_str()
    }

    /// The error as a user reads it.
    pub fn to_text(&self) -> (text: String)
        ensures
            text@ == error_prefix() + self@,
    {
        let mut text = String::from_str("Error while printing output with syntect: ");
        text.append(self.message.as_str());
        text
    }
}

/// A sink that is written to under a lock, so that what is printed of one
/// file stays in one piece.
pub trait LockableWrite {
    type Error;

    /// Takes the lock, writes all of `buf`, flushes, and gives the lock up.
    fn write_locked(&self, buf: &[u8]) -> Result<(), Self::Error>;
}

/// Why a file was not printed: the printer could not draw it, or the sink
/// could not take it.
#[derive(Debug)]
pub enum PrintFailure<E> {
    Print(PrintError),
    Write(E),
}

/// The message for a theme that no set of themes has.
pub open spec fn unknown_theme(name: Seq<char>) -> Seq<char> {
    "Unknown theme '"@ + name + "'. See --list-themes output"@
}

/// The message for a theme that names no foreground.
pub open spec fn no_foreground(name: Seq<char>) -> Seq<char> {
    "Theme '"@ + name + "' has no foreground color"@
}

/// The message for a terminal of fewer than ten columns, or of fewer than
/// the line numbers take.
pub open spec fn too_narrow() -> Seq<char> {
    "Terminal is too narrow for the line numbers"@
}

/// The message for a line that holds a character for which no row has room.
pub open spec fn too_wide() -> Seq<char> {
    "A line holds a character that is wider than the rows of the terminal"@
}

/// The message for contents that are too large to count their lines.
pub open spec fn too_large() -> Seq<char> {
    "File is too large"@
}

/// The message for a set of syntaxes that lacks even plain text.
pub open spec fn no_plain_text() -> Seq<char> {
    "No syntax for plain text was found"@
}

fn unknown_theme_error(name: &str) -> (err: PrintError)
    ensures
        err@ == unknown_theme(name@),
{
    let mut msg = String::from_str("Unknown theme '");
    msg.append(name);
    msg.append("'. See --list-themes output");
    PrintError::new(msg)
}

fn no_foreground_error(name: &str) -> (err: PrintError)
    ensures
        err@ == no_foreground(name@),
{
    let mut msg = String::from_str("Theme '");
    msg.append(name);
    msg.append("' has no foreground color");
    PrintError::new(msg)
}

/// The name of the theme that the options ask for: the one they name, or
/// the default for the terminal's colors.
pub open spec fn theme_name(opts: PrinterOptions) -> Seq<char> {
    match opts.theme {
        Some(name) => name@,
        None => if opts.color_support == TermColorSupport::Ansi16 {
            "ansi"@
        } else {
            "Monokai Extended"@
        },
    }
}

/// The set of themes that has the theme called `name`: the curated set if
/// it has one of that name, else the default set if that has one.
pub fn pick_themes(name: &str, curated: ThemeSet, defaults: ThemeSet) -> (found: Result<
    ThemeSet,
    PrintError,
>)
    ensures
        if theme_named(curated, name@) is Some {
            found == Ok::<ThemeSet, PrintError>(curated)
        } else if theme_named(defaults, name@) is Some {
            found == Ok::<ThemeSet, PrintError>(defaults)
        } else {
            found matches Err(e) && e@ == unknown_theme(name@)
        },
{
    if find_theme(&curated, name).is_some() {
        Ok(curated)
    } else if find_theme(&defaults, name).is_some() {
        Ok(defaults)
    } else {
        Err(unknown_theme_error(name))
    }
}

/// The set of themes to print with: the curated set if no name is given or
/// it has the theme called `name`, else the set that syntect carries, if
/// that has the theme. The themes that syntect carries are unpacked only
/// where the curated set does not do.
pub fn load_themes(name: Option<&str>, curated: ThemeSet) -> (found: Result<ThemeSet, PrintError>)
    ensures
        match name {
            None => found == Ok::<ThemeSet, PrintError>(curated),
            Some(n) => if theme_named(curated, n@) is Some {
                found == Ok::<ThemeSet, PrintError>(curated)
            } else {
                match found {
                    Ok(themes) => theme_named(themes, n@) is Some,
                    Err(e) => e@ == unknown_theme(n@),
                }
            },
        },
{
    match name {
        None => Ok(curated),
        Some(name) => {
            if find_theme(&curated, name).is_some() {
                return Ok(curated);
            }
            pick_themes(name, curated, default_themes())
        },
    }
}

/// The name of the syntax that is taken for files of an extension,
/// whatever the set of syntaxes would pick.
pub open spec fn override_for(ext: Seq<char>) -> Option<Seq<char>> {
    if ext == seq!['f', 's'] {
        Some("F#"@)
    } else if ext == seq!['h'] {
        Some("C++"@)
    } else if ext == seq!['p', 'a', 'c'] {
        Some("JavaScript (Babel)"@)
    } else {
        None
    }
}

/// The name of the syntax that is taken for files of extension `ext`.
pub fn syntax_override(ext: &Vec<char>) -> (name: Option<&'static str>)
    ensures
        match name {
            Some(n) => override_for(ext@) == Some(n@),
            None => override_for(ext@) is None,
        },
{
    if ext.len() == 2 && ext[0] == 'f' && ext[1] == 's' {
        assert(ext@ =~= seq!['f', 's']);
        Some("F#")
    } else if ext.len() == 1 && ext[0] == 'h' {
        assert(ext@ =~= seq!['h']);
        Some("C++")
    } else if ext.len() == 3 && ext[0] == 'p' && ext[1] == 'a' && ext[2] == 'c' {
        assert(ext@ =~= seq!['p', 'a', 'c']);
        Some("JavaScript (Babel)")
    } else {
        assert(ext@ != seq!['f', 's']) by {
            if ext@ == seq!['f', 's'] {
                assert(ext@.len() == 2 && ext@[0] == 'f' && ext@[1] == 's');
            }
        }
        assert(ext@ != seq!['h']) by {
            if ext@ == seq!['h'] {
                assert(ext@.len() == 1 && ext@[0] == 'h');
            }
        }
        assert(ext@ != seq!['p', 'a', 'c']) by {
            if ext@ == seq!['p', 'a', 'c'] {
                assert(ext@.len() == 3 && ext@[0] == 'p' && ext@[1] == 'a' && ext@[2] == 'c');
            }
        }
        None
    }
}

/// The syntax for a file: the one that overrides the file's extension, if
/// the set has it, else the one for the file's name or for its extension,
/// else the one that knows its first line, else plain text. First lines
/// are tried only with a set whose patterns for first lines all compile.
pub open spec fn syntax_for(syntaxes: SyntaxSet, path: Seq<char>, first_line: Seq<char>) -> Option<
    SyntaxReference,
> {
    let overriding = match path_extension(path) {
        Some(ext) => match override_for(ext) {
            Some(name) => syntax_named(syntaxes, name),
            None => None,
        },
        None => None,
    };
    let name = match path_file_name(path) {
        Some(name) => name,
        None => Seq::empty(),
    };
    let ext = match path_extension(path) {
        Some(ext) => ext,
        None => Seq::empty(),
    };
    if overriding is Some {
        overriding
    } else if syntax_for_extension(syntaxes, name) is Some {
        syntax_for_extension(syntaxes, name)
    } else if syntax_for_extension(syntaxes, ext) is Some {
        syntax_for_extension(syntaxes, ext)
    } else if all_compile(first_line_patterns(syntaxes)) && syntax_for_first_line(
        syntaxes,
        first_line,
    ) is Some {
        syntax_for_first_line(syntaxes, first_line)
    } else {
        syntax_named(syntaxes, "Plain Text"@)
    }
}

/// Whether the patterns for first lines of all the syntaxes compile.
fn first_lines_compile(syntaxes: &SyntaxSet) -> (good: bool)
    ensures
        good == all_compile(first_line_patterns(*syntaxes)),
{
    let patterns = first_line_patterns_of(syntaxes);
    let mut i: usize = 0;
    while i < patterns.len()
        invariant
            i <= patterns.len(),
            patterns.len() == first_line_patterns(*syntaxes).len(),
            forall|j: int|
                0 <= j < patterns.len() ==> match #[trigger] patterns[j] {
                    Some(p) => first_line_patterns(*syntaxes)[j] == Some(p@),
                    None => first_line_patterns(*syntaxes)[j] is None,
                },
            forall|j: int|
                0 <= j < i ==> ((#[trigger] first_line_patterns(*syntaxes)[j]) matches Some(p)
                    ==> compiles(p)),
        decreases patterns.len() - i,
    {
        if let Some(pattern) = &patterns[i] {
            if !pattern_compiles(pattern.as_str()) {
                assert(first_line_patterns(*syntaxes)[i as int] == Some(pattern@));
                return false;
            }
        }
        i = i + 1;
    }
    true
}

/// The text of the first line of `contents`, empty where there is none.
pub open spec fn first_line_of(contents: Seq<u8>) -> Seq<char> {
    if lines_of(contents).len() > 0 {
        utf8_lossy(lines_of(contents)[0])
    } else {
        Seq::empty()
    }
}

/// What is printed of a file whose lines have the styled runs `lines`:
/// the header, the body and the footer, drawn as the options and the
/// theme's colors ask for.
pub open spec fn page(
    opts: PrinterOptions,
    colors: ThemeColors,
    path: Seq<char>,
    matches: Seq<LineMatch>,
    chunks: Seq<(u64, u64)>,
    lines: Seq<Seq<TokenView>>,
) -> Seq<char> {
    let frame = frame_for(opts, colors, chunks);
    let paint = paint_for(opts, colors);
    let start = Pen { out: Seq::empty(), fg: None, bg: None };
    frame.footer(
        paint,
        frame.body(paint, matches, chunks, lines, frame.header(paint, start, path)),
    ).out
}

/// Prints files, highlighted with syntect, to a sink.
pub struct SyntectPrinter<'main, W: LockableWrite> {
    writer: W,
    syntaxes: SyntaxSet,
    themes: ThemeSet,
    opts: PrinterOptions<'main>,
}

impl<'main, W: LockableWrite> SyntectPrinter<'main, W> {
    /// The sink.
    pub closed spec fn writer(&self) -> W {
        self.writer
    }

    /// The syntaxes that files are highlighted with.
    pub closed spec fn syntaxes(&self) -> SyntaxSet {
        self.syntaxes
    }

    /// The themes among which the options pick.
    pub closed spec fn themes(&self) -> ThemeSet {
        self.themes
    }

    /// The options.
    pub closed spec fn opts(&self) -> PrinterOptions<'main> {
        self.opts
    }

    /// Why the printer does not draw `file`, if it does not: the theme
    /// that the options ask for is not there or names no foreground, the
    /// terminal is too narrow, the contents are too large, a line in a
    /// chunk holds a character that is wider than a row, or no syntax is
    /// there for the file.
    pub open spec fn refusal(&self, file: File) -> Option<Seq<char>> {
        let name = theme_name(self.opts());
        match theme_named(self.themes(), name) {
            None => Some(unknown_theme(name)),
            Some(theme) => if theme_colors_of(theme).foreground is None {
                Some(no_foreground(name))
            } else if !fits(self.opts().term_width, self.opts().grid, file.chunks@) {
                Some(too_narrow())
            } else if file.contents@.len() >= usize::MAX {
                Some(too_large())
            } else if !rows_hold(
                self.opts().text_wrap == TextWrapMode::Char,
                body_width_for(self.opts().term_width, self.opts().grid, file.chunks@),
                file.chunks@,
                texts_of(file.contents@),
            ) {
                Some(too_wide())
            } else if syntax_for(self.syntaxes(), file.path@, first_line_of(file.contents@))
                is None {
                Some(no_plain_text())
            } else {
                None
            },
        }
    }

    /// What the printer prints of a file that it does not refuse: the
    /// page in the colors of the theme that the options ask for, its lines
    /// highlighted with the syntax for the file, from a fresh state on.
    pub open spec fn page_of(&self, file: File) -> Seq<char> {
        let theme = theme_named(self.themes(), theme_name(self.opts()))->0;
        let colors = theme_colors_of(theme);
        let syntax = syntax_for(self.syntaxes(), file.path@, first_line_of(file.contents@))->0;
        page(
            self.opts(),
            colors,
            file.path@,
            file.line_matches@,
            file.chunks@,
            runs_of(
                fresh_lines(syntax, theme),
                self.syntaxes(),
                plain_style(colors.foreground, colors.background),
                texts_of(file.contents@),
            ),
        )
    }

    /// A printer of these parts.
    pub fn with_assets(writer: W, syntaxes: SyntaxSet, themes: ThemeSet, opts: PrinterOptions<'main>) -> (printer:
        Self)
        ensures
            printer.writer() == writer,
            printer.syntaxes() == syntaxes,
            printer.themes() == themes,
            printer.opts() == opts,
    {
        SyntectPrinter { writer, syntaxes, themes, opts }
    }

    /// The sink, to write to or to replace.
    pub fn writer_mut(&mut self) -> (writer: &mut W)
        ensures
            *writer == old(self).writer(),
            final(self).writer() == *final(writer),
            final(self).syntaxes() == old(self).syntaxes(),
            final(self).themes() == old(self).themes(),
            final(self).opts() == old(self).opts(),
    {
        &mut self.writer
    }

    /// The name of the theme that the options ask for.
    pub fn theme_name(&self) -> (name: &str)
        ensures
            name@ == theme_name(self.opts()),
    {
        match self.opts.theme {
            Some(name) => name,
            None => if self.opts.color_support == TermColorSupport::Ansi16 {
                "ansi"
            } else {
                "Monokai Extended"
            },
        }
    }

    /// The theme that the options ask for, if the printer has it.
    pub fn theme(&self) -> (found: Result<&Theme, PrintError>)
        ensures
            match found {
                Ok(theme) => theme_named(self.themes(), theme_name(self.opts())) == Some(*theme),
                Err(e) => theme_named(self.themes(), theme_name(self.opts())) is None && e@
                    == unknown_theme(theme_name(self.opts())),
            },
    {
        let name = self.theme_name();
        match find_theme(&self.themes, name) {
            Some(theme) => Ok(theme),
            None => Err(unknown_theme_error(name)),
        }
    }

    /// The syntax for a file with this path and this first line, if the
    /// printer's set has any for it.
    pub fn find_syntax(&self, path: &str, first_line: &str) -> (found: Option<&SyntaxReference>)
        ensures
            found matches Some(s) ==> syntax_in(*s, self.syntaxes()) && syntax_for(
                self.syntaxes(),
                path@,
                first_line@,
            ) == Some(*s),
            found is None ==> syntax_for(self.syntaxes(), path@, first_line@) is None,
    {
        let ext = extension_of(path);
        if let Some(ext) = &ext {
            if let Some(name) = syntax_override(&chars_of(ext.as_str())) {
                if let Some(syntax) = find_syntax_by_name(&self.syntaxes, name) {
                    return Some(syntax);
                }
            }
        }
        let name = match file_name_of(path) {
            Some(name) => name,
            None => String::new(),
        };
        if let Some(syntax) = find_syntax_by_extension(&self.syntaxes, name.as_str()) {
            return Some(syntax);
        }
        let ext = match ext {
            Some(ext) => ext,
            None => String::new(),
        };
        if let Some(syntax) = find_syntax_by_extension(&self.syntaxes, ext.as_str()) {
            return Some(syntax);
        }
        if first_lines_compile(&self.syntaxes) {
            if let Some(syntax) = find_syntax_by_first_line(&self.syntaxes, first_line) {
                return Some(syntax);
            }
        }
        find_syntax_by_name(&self.syntaxes, "Plain Text")
    }

    /// Draws `file` as it is to be printed, in UTF-8.
    ///
    /// Nothing is drawn with a theme that the printer does not have or that
    /// names no foreground, on a terminal that is too narrow, of contents
    /// that are too large, of a line that holds a character for which no
    /// row has room, or where the set of syntaxes has no syntax for the
    /// file, not even plain text. Else the file is drawn, its lines
    /// highlighted as the syntax and the theme have it.
    pub fn render(&self, file: &File) -> (rendered: Result<Vec<u8>, PrintError>)
        requires
            file.wf(),
            file.chunks.len() > 0,
        ensures
            match self.refusal(*file) {
                Some(message) => rendered matches Err(e) && e@ == message,
                None => rendered matches Ok(bytes) && bytes@ == encode_utf8(self.page_of(*file)),
            },
    {
        let theme = match self.theme() {
            Ok(theme) => theme,
            Err(e) => {
                return Err(e);
            },
        };
        let colors = theme_colors(theme);
        if colors.foreground.is_none() {
            return Err(no_foreground_error(self.theme_name()));
        }
        if !Drawer::fits(&self.opts, &file.chunks) {
            return Err(
                PrintError::new(
                    String::from_str("Terminal is too narrow for the line numbers"),
                ),
            );
        }
        if file.contents.len() == usize::MAX {
            return Err(PrintError::new(String::from_str("File is too large")));
        }
        if !Drawer::rows_hold(&self.opts, file) {
            return Err(
                PrintError::new(
                    String::from_str(
                        "A line holds a character that is wider than the rows of the terminal",
                    ),
                ),
            );
        }
        let mut lines = LinesInclusive::new(file.contents.as_slice());
        let first_line = match lines.next() {
            Some(Line(bytes, _)) => lossy_text(bytes),
            None => String::new(),
        };
        match self.find_syntax(file.path.as_str(), first_line.as_str()) {
            Some(syntax) => Ok(self.draw_page(file, theme, &colors, syntax)),
            None => Err(PrintError::new(String::from_str("No syntax for plain text was found"))),
        }
    }

    /// Draws `file` with a theme and a syntax, in UTF-8.
    fn draw_page(
        &self,
        file: &File,
        theme: &Theme,
        colors: &ThemeColors,
        syntax: &SyntaxReference,
    ) -> (bytes: Vec<u8>)
        requires
            file.wf(),
            file.chunks.len() > 0,
            file.contents.len() < usize::MAX,
            *colors == theme_colors_of(*theme),
            colors.foreground is Some,
            fits(self.opts().term_width, self.opts().grid, file.chunks@),
            rows_hold(
                self.opts().text_wrap == TextWrapMode::Char,
                body_width_for(self.opts().term_width, self.opts().grid, file.chunks@),
                file.chunks@,
                texts_of(file.contents@),
            ),
            syntax_in(*syntax, self.syntaxes()),
        ensures
            bytes@ == encode_utf8(
                page(
                    self.opts(),
                    *colors,
                    file.path@,
                    file.line_matches@,
                    file.chunks@,
                    runs_of(
                        fresh_lines(*syntax, *theme),
                        self.syntaxes(),
                        plain_style(colors.foreground, colors.background),
                        texts_of(file.contents@),
                    ),
                ),
            ),
    {
        let mut drawer = Drawer::new(Vec::new(), &self.opts, colors, &file.chunks);
        drawer.draw_header(file.path.as_str());
        let hl = LineHighlighter::new(syntax, theme, &self.syntaxes);
        drawer.draw_body(file, hl);
        drawer.draw_footer();
        let text = string_of(&drawer.canvas.out);
        text.as_str().as_bytes_vec()
    }

    /// Prints `file`: draws it and writes it to the sink in one piece. A
    /// file without chunks or without matches prints as nothing.
    pub fn print(&self, file: File) -> (printed: Result<(), PrintFailure<W::Error>>)
        requires
            file.wf(),
        ensures
            file.chunks.len() == 0 || file.line_matches.len() == 0 ==> printed is Ok,
            file.chunks.len() > 0 && file.line_matches.len() > 0 ==> match self.refusal(file) {
                Some(message) => printed matches Err(PrintFailure::Print(e)) && e@ == message,
                None => printed is Ok || printed matches Err(PrintFailure::Write(_)),
            },
    {
        if file.chunks.len() == 0 || file.line_matches.len() == 0 {
            return Ok(());
        }
        let rendered = match self.render(&file) {
            Ok(bytes) => bytes,
            Err(e) => {
                return Err(PrintFailure::Print(e));
            },
        };
        // The lock is taken here, so that files are printed one after the other.
        match self.writer.write_locked(rendered.as_slice()) {
            Ok(()) => Ok(()),
            Err(e) => Err(PrintFailure::Write(e)),
        }
    }
}

} // verus!
