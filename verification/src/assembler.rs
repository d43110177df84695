//! The chunk assembler: groups the lines that grep found by file, widens
//! each match by its context into a chunk, merges chunks that touch, and
//! hands out one `File` for each file.

use vstd::prelude::*;
use crate::bridge::{lossy_text, utf8_lossy};
use crate::chunk::{
    chunks_apart, in_some_chunk, lemma_lines_of_concat, lemma_one_line, lines_of, File, LineMatch,
};
use crate::grep::{GrepLine, LineKind};

verus! {

/// The first line of the window around line `l`.
pub open spec fn window_start(l: u64, context: u64) -> u64 {
    if l > context {
        (l - context) as u64
    } else {
        1
    }
}

/// The last line of the window around line `l`.
pub open spec fn window_end(l: u64, context: u64) -> u64 {
    if l + context > u64::MAX {
        u64::MAX
    } else {
        (l + context) as u64
    }
}

/// The delivered lines as contracts speak of them: each with its number
/// and its bytes.
pub open spec fn line_views(lines: Seq<(u64, Vec<u8>)>) -> Seq<(u64, Seq<u8>)> {
    Seq::new(lines.len(), |i: int| (lines[i].0, lines[i].1@))
}

/// The numbers of the lines that were delivered.
pub open spec fn numbers(lines: Seq<(u64, Seq<u8>)>) -> Seq<u64> {
    Seq::new(lines.len(), |i: int| lines[i].0)
}

/// Every line between `from` and `to`, both left out, was delivered.
pub open spec fn all_delivered(delivered: Seq<u64>, from: int, to: int) -> bool {
    forall|l: int| from < l < to ==> #[trigger] delivered.contains(l as u64)
}

/// Whether the windows of two matches on lines `l1 < l2` become one chunk:
/// they do if the windows of least context touch or overlap, and also if
/// the windows of most context do and every line between the windows of
/// least context was delivered.
pub open spec fn merges(delivered: Seq<u64>, l1: u64, l2: u64, min_context: u64, max_context: u64) -> bool {
    ||| l2 - l1 <= 2 * min_context + 1
    ||| (l2 - l1 <= 2 * max_context && all_delivered(delivered, l1 + min_context, l2 - min_context))
}

/// The chunks for the first `n` matches: each match is widened by the
/// least context, and the window of a match that merges with the match
/// before it extends that one's chunk.
pub open spec fn chunks_upto(
    matches: Seq<u64>,
    delivered: Seq<u64>,
    min_context: u64,
    max_context: u64,
    n: int,
) -> Seq<(u64, u64)>
    decreases n,
{
    if n <= 0 {
        Seq::empty()
    } else if n == 1 {
        seq![(window_start(matches[0], min_context), window_end(matches[0], min_context))]
    } else {
        let before = chunks_upto(matches, delivered, min_context, max_context, n - 1);
        let l = matches[n - 1];
        if merges(delivered, matches[n - 2], l, min_context, max_context) {
            before.update(before.len() - 1, (before.last().0, window_end(l, min_context)))
        } else {
            before.push((window_start(l, min_context), window_end(l, min_context)))
        }
    }
}

/// The chunks for matches on the lines `matches`.
pub open spec fn chunks_for(
    matches: Seq<u64>,
    delivered: Seq<u64>,
    min_context: u64,
    max_context: u64,
) -> Seq<(u64, u64)> {
    chunks_upto(matches, delivered, min_context, max_context, matches.len() as int)
}

/// Line numbers start at 1 and ascend.
pub open spec fn ascending(numbers: Seq<u64>) -> bool {
    &&& forall|i: int| 0 <= i < numbers.len() ==> #[trigger] numbers[i] >= 1
    &&& forall|i: int, j: int|
        0 <= i < j < numbers.len() ==> #[trigger] numbers[i] < #[trigger] numbers[j]
}

/// What holds of the chunks for the first `n` matches: they are in order
/// and apart, the last of them holds the last match and ends with its
/// window, and every match lies in one of them.
pub open spec fn chunks_hold(chunks: Seq<(u64, u64)>, matches: Seq<u64>, context: u64, n: int) -> bool {
    &&& chunks.len() >= 1
    &&& chunks_apart(chunks)
    &&& chunks.last().0 <= matches[n - 1]
    &&& chunks.last().1 == window_end(matches[n - 1], context)
    &&& forall|i: int| 0 <= i < n ==> in_some_chunk(chunks, #[trigger] matches[i])
}

/// A chunk that is extended to the window of one more match still holds
/// what it held, and that match.
proof fn lemma_extended(before: Seq<(u64, u64)>, matches: Seq<u64>, context: u64, n: int)
    requires
        ascending(matches),
        2 <= n <= matches.len(),
        chunks_hold(before, matches, context, n - 1),
    ensures
        chunks_hold(
            before.update(before.len() - 1, (before.last().0, window_end(matches[n - 1], context))),
            matches,
            context,
            n,
        ),
{
    let l = matches[n - 1];
    let last = before.len() - 1;
    let chunks = before.update(last, (before.last().0, window_end(l, context)));
    assert(matches[n - 2] < l);
    assert(1 <= before[last].0 <= before[last].1);
    assert forall|i: int, j: int| 0 <= i < j < chunks.len() implies (#[trigger] chunks[i]).1 + 1
        < (#[trigger] chunks[j]).0 by {
        assert(before[i].1 + 1 < before[j].0);
    }
    assert forall|k: int| 0 <= k < chunks.len() implies 1 <= (#[trigger] chunks[k]).0
        <= chunks[k].1 by {
        assert(1 <= before[k].0 <= before[k].1);
    }
    assert forall|i: int| 0 <= i < n implies in_some_chunk(chunks, #[trigger] matches[i]) by {
        if i < n - 1 {
            assert(in_some_chunk(before, matches[i]));
            let k = choose|k: int|
                0 <= k < before.len() && (#[trigger] before[k]).0 <= matches[i] <= before[k].1;
            assert(chunks[k].0 <= matches[i] <= chunks[k].1);
        } else {
            assert(chunks[last].0 <= matches[i] <= chunks[last].1);
        }
    }
}

/// With a new chunk for a match whose window the last chunk does not
/// touch, the chunks still hold what they held, and that match.
proof fn lemma_appended(before: Seq<(u64, u64)>, matches: Seq<u64>, context: u64, n: int)
    requires
        ascending(matches),
        2 <= n <= matches.len(),
        chunks_hold(before, matches, context, n - 1),
        matches[n - 1] - matches[n - 2] > 2 * context + 1,
    ensures
        chunks_hold(
            before.push((window_start(matches[n - 1], context), window_end(matches[n - 1], context))),
            matches,
            context,
            n,
        ),
{
    let l = matches[n - 1];
    let last = before.len() - 1;
    let chunks = before.push((window_start(l, context), window_end(l, context)));
    assert forall|i: int, j: int| 0 <= i < j < chunks.len() implies (#[trigger] chunks[i]).1 + 1
        < (#[trigger] chunks[j]).0 by {
        if j <= last {
            assert(before[i].1 + 1 < before[j].0);
        } else if i < last {
            assert(before[i].1 + 1 < before[last].0);
            assert(before[last].0 <= before[last].1);
        }
    }
    assert forall|k: int| 0 <= k < chunks.len() implies 1 <= (#[trigger] chunks[k]).0
        <= chunks[k].1 by {
        if k <= last {
            assert(1 <= before[k].0 <= before[k].1);
        }
    }
    assert forall|i: int| 0 <= i < n implies in_some_chunk(chunks, #[trigger] matches[i]) by {
        if i < n - 1 {
            assert(in_some_chunk(before, matches[i]));
            let k = choose|k: int|
                0 <= k < before.len() && (#[trigger] before[k]).0 <= matches[i] <= before[k].1;
            assert(chunks[k].0 <= matches[i] <= chunks[k].1);
        } else {
            assert(chunks[last + 1].0 <= matches[i] <= chunks[last + 1].1);
        }
    }
}

/// The chunks for ascending matches are in order and apart, and every
/// match lies in one of them.
pub proof fn lemma_chunks_upto(
    matches: Seq<u64>,
    delivered: Seq<u64>,
    min_context: u64,
    max_context: u64,
    n: int,
)
    requires
        ascending(matches),
        1 <= n <= matches.len(),
    ensures
        chunks_hold(
            chunks_upto(matches, delivered, min_context, max_context, n),
            matches,
            min_context,
            n,
        ),
    decreases n,
{
    if n == 1 {
        let chunks = chunks_upto(matches, delivered, min_context, max_context, n);
        assert(chunks[0].0 <= matches[0] <= chunks[0].1);
    } else {
        lemma_chunks_upto(matches, delivered, min_context, max_context, n - 1);
        let before = chunks_upto(matches, delivered, min_context, max_context, n - 1);
        if merges(delivered, matches[n - 2], matches[n - 1], min_context, max_context) {
            lemma_extended(before, matches, min_context, n);
        } else {
            lemma_appended(before, matches, min_context, n);
        }
    }
}

/// Whether every line between `from` and `to` was delivered. The lines
/// are in order: those between `from` and `to` stand one behind the other.
fn delivered_between(lines: &Vec<(u64, Vec<u8>)>, from: u64, to: u64) -> (all: bool)
    requires
        ascending(numbers(line_views(lines@))),
    ensures
        all == all_delivered(numbers(line_views(lines@)), from as int, to as int),
{
    if from >= to {
        return true;
    }
    let ghost nums = numbers(line_views(lines@));
    let mut i: usize = 0;
    while i < lines.len() && lines[i].0 <= from
        invariant
            i <= lines.len(),
            nums == numbers(line_views(lines@)),
            forall|j: int| 0 <= j < i ==> nums[j] <= from,
        decreases lines.len() - i,
    {
        i = i + 1;
    }
    let mut l: u64 = from + 1;
    while l < to
        invariant
            from < l <= to,
            i <= lines.len(),
            nums == numbers(line_views(lines@)),
            ascending(nums),
            forall|j: int| 0 <= j < i ==> nums[j] < l,
            i < lines.len() ==> nums[i as int] >= l,
            forall|x: int| from < x < l ==> #[trigger] nums.contains(x as u64),
        decreases to - l,
    {
        if i < lines.len() && lines[i].0 == l {
            assert(nums[i as int] == l);
            proof {
                if i + 1 < lines.len() {
                    assert(nums[i as int] < nums[i + 1]);
                }
            }
            i = i + 1;
            l = l + 1;
        } else {
            proof {
                assert forall|j: int| 0 <= j < nums.len() implies nums[j] != l by {
                    if j > i {
                        assert(nums[i as int] < nums[j]);
                    }
                }
                assert(!nums.contains((l as int) as u64));
            }
            return false;
        }
    }
    true
}

/// The chunks for matches on the lines `matches`, of which `lines` were
/// delivered. Matches and lines are in the order of their numbers.
pub fn merge_chunks(
    matches: &Vec<u64>,
    lines: &Vec<(u64, Vec<u8>)>,
    min_context: u64,
    max_context: u64,
) -> (chunks: Vec<(u64, u64)>)
    requires
        ascending(matches@),
        ascending(numbers(line_views(lines@))),
    ensures
        chunks@ == chunks_for(matches@, numbers(line_views(lines@)), min_context, max_context),
        chunks_apart(chunks@),
        forall|i: int| 0 <= i < matches.len() ==> in_some_chunk(chunks@, #[trigger] matches@[i]),
{
    let ghost delivered = numbers(line_views(lines@));
    let mut chunks: Vec<(u64, u64)> = Vec::new();
    let mut n: usize = 0;
    while n < matches.len()
        invariant
            n <= matches.len(),
            ascending(matches@),
            ascending(delivered),
            delivered == numbers(line_views(lines@)),
            chunks@ == chunks_upto(matches@, delivered, min_context, max_context, n as int),
            n >= 1 ==> chunks.len() >= 1,
        decreases matches.len() - n,
    {
        let l = matches[n];
        let start = if l > min_context {
            l - min_context
        } else {
            1
        };
        let end = if l > u64::MAX - min_context {
            u64::MAX
        } else {
            l + min_context
        };
        if n == 0 {
            chunks.push((start, end));
            assert(chunks@ =~= chunks_upto(matches@, delivered, min_context, max_context, 1));
        } else {
            let l1 = matches[n - 1];
            assert(l1 < l);
            let gap = l - l1;
            let near = min_context <= (u64::MAX - 1) / 2 && gap <= 2 * min_context + 1
                || min_context > (u64::MAX - 1) / 2;
            let merge = near || ((max_context > u64::MAX / 2 || gap <= 2 * max_context)
                && delivered_between(lines, end_of(l1, min_context), start_of(l, min_context)));
            proof {
                lemma_chunks_upto(matches@, delivered, min_context, max_context, n as int);
                assert(merge == merges(delivered, l1, l, min_context, max_context)) by {
                    lemma_between(delivered, l1, l, min_context);
                }
            }
            if merge {
                let last = chunks.len() - 1;
                let first = chunks[last].0;
                chunks.set(last, (first, end));
            } else {
                chunks.push((start, end));
            }
        }
        n = n + 1;
    }
    proof {
        if matches.len() > 0 {
            lemma_chunks_upto(matches@, delivered, min_context, max_context, matches.len() as int);
        }
    }
    chunks
}

/// The last line of the window of least context around `l`, for the check
/// of the lines behind it.
fn end_of(l: u64, context: u64) -> (end: u64)
    ensures
        end == window_end(l, context),
{
    if l > u64::MAX - context {
        u64::MAX
    } else {
        l + context
    }
}

/// The first line of the window of least context around `l`, or 0 where
/// the window would start before line 1.
fn start_of(l: u64, context: u64) -> (start: u64)
    ensures
        start == if l >= context {
            l - context
        } else {
            0
        },
{
    if l >= context {
        l - context
    } else {
        0
    }
}

/// The lines between two windows are the same whether or not the windows
/// are cut off at the first and the last line that there can be.
proof fn lemma_between(delivered: Seq<u64>, l1: u64, l2: u64, context: u64)
    requires
        l1 < l2,
    ensures
        all_delivered(delivered, l1 + context, l2 - context) == all_delivered(
            delivered,
            window_end(l1, context) as int,
            (if l2 >= context {
                l2 - context
            } else {
                0
            }) as int,
        ),
{
}

/// `n` line feeds.
pub open spec fn newlines(n: nat) -> Seq<u8> {
    Seq::new(n, |i: int| 10u8)
}

/// The contents that stand for the first `n` delivered lines: each line at
/// its number, with a line feed behind it, and an empty line for each line
/// that was not delivered.
pub open spec fn contents_upto(lines: Seq<(u64, Seq<u8>)>, n: int) -> Seq<u8>
    decreases n,
{
    if n <= 0 {
        Seq::empty()
    } else {
        let before = if n >= 2 {
            lines[n - 2].0
        } else {
            0
        };
        contents_upto(lines, n - 1) + newlines((lines[n - 1].0 - before - 1) as nat) + lines[n
            - 1].1 + seq![10u8]
    }
}

/// The matches of a file, as grep reports them: lines without ranges.
pub open spec fn matches_of(numbers: Seq<u64>) -> Seq<LineMatch> {
    Seq::new(numbers.len(), |i: int| LineMatch { line_number: numbers[i], range: None })
}

/// What the assembler has gathered of the file that it is at.
pub struct Gathered {
    pub path: Seq<u8>,
    pub lines: Seq<(u64, Seq<u8>)>,
    pub matches: Seq<u64>,
}

impl Gathered {
    /// The lines ascend, and so do the matches.
    pub open spec fn wf(&self) -> bool {
        &&& ascending(numbers(self.lines))
        &&& ascending(self.matches)
        &&& self.matches.len() > 0 ==> self.lines.len() > 0 && self.matches.last()
            <= self.lines.last().0
    }

    /// Whether a line with this path and number belongs to what is
    /// gathered: it is of the same file and comes behind the last line.
    pub open spec fn takes(&self, path: Seq<u8>, number: u64) -> bool {
        self.lines.len() == 0 || (path == self.path && number > self.lines.last().0)
    }

    /// What is gathered after `line` was taken.
    pub open spec fn with(&self, line: crate::grep::GrepLineView) -> Gathered {
        Gathered {
            path: line.path,
            lines: self.lines.push((line.line_number, line.payload)),
            matches: if line.kind == LineKind::Match {
                self.matches.push(line.line_number)
            } else {
                self.matches
            },
        }
    }

    /// Nothing is gathered.
    pub open spec fn nothing() -> Gathered {
        Gathered { path: Seq::empty(), lines: Seq::empty(), matches: Seq::empty() }
    }

    /// `file` is the file that stands for what is gathered.
    pub open spec fn makes(&self, file: File, min_context: u64, max_context: u64) -> bool {
        &&& file.path@ == utf8_lossy(self.path)
        &&& file.line_matches@ == matches_of(self.matches)
        &&& file.chunks@ == chunks_for(
            self.matches,
            numbers(self.lines),
            min_context,
            max_context,
        )
        &&& file.contents@ == contents_upto(self.lines, self.lines.len() as int)
    }
}

/// Gathers the lines of grep's output file by file.
pub struct ChunkAssembler {
    min_context: u64,
    max_context: u64,
    path: Vec<u8>,
    lines: Vec<(u64, Vec<u8>)>,
    matches: Vec<u64>,
}

impl View for ChunkAssembler {
    type V = Gathered;

    closed spec fn view(&self) -> Gathered {
        Gathered { path: self.path@, lines: line_views(self.lines@), matches: self.matches@ }
    }
}

impl ChunkAssembler {
    /// The least context of a match, in lines.
    pub closed spec fn min_context(&self) -> u64 {
        self.min_context
    }

    /// The most context of a match, in lines.
    pub closed spec fn max_context(&self) -> u64 {
        self.max_context
    }

    /// An assembler that has gathered nothing. The most context is never
    /// less than the least.
    pub fn new(min_context: u64, max_context: u64) -> (assembler: Self)
        ensures
            assembler@ == Gathered::nothing(),
            assembler@.wf(),
            assembler.min_context() == min_context,
            assembler.max_context() == if max_context < min_context {
                min_context
            } else {
                max_context
            },
    {
        let assembler = ChunkAssembler {
            min_context,
            max_context: if max_context < min_context {
                min_context
            } else {
                max_context
            },
            path: Vec::new(),
            lines: Vec::new(),
            matches: Vec::new(),
        };
        assert(assembler@.lines =~= Seq::empty());
        assembler
    }

    /// The file that stands for what is gathered, if it has a match; the
    /// assembler starts anew.
    fn flush(&mut self) -> (file: Option<File>)
        requires
            old(self)@.wf(),
        ensures
            final(self)@ == Gathered::nothing(),
            final(self)@.wf(),
            final(self).min_context() == old(self).min_context(),
            final(self).max_context() == old(self).max_context(),
            match file {
                Some(f) => {
                    &&& old(self)@.matches.len() > 0
                    &&& old(self)@.makes(f, old(self).min_context(), old(self).max_context())
                    &&& f.wf()
                },
                None => old(self)@.matches.len() == 0,
            },
    {
        let ghost gathered = self@;
        let mut path: Vec<u8> = Vec::new();
        let mut lines: Vec<(u64, Vec<u8>)> = Vec::new();
        let mut matches: Vec<u64> = Vec::new();
        std::mem::swap(&mut self.path, &mut path);
        std::mem::swap(&mut self.lines, &mut lines);
        std::mem::swap(&mut self.matches, &mut matches);
        assert(self@.lines =~= Seq::empty());
        if matches.len() == 0 {
            return None;
        }
        let chunks = merge_chunks(&matches, &lines, self.min_context, self.max_context);
        let mut line_matches: Vec<LineMatch> = Vec::new();
        let mut i: usize = 0;
        while i < matches.len()
            invariant
                i <= matches.len(),
                line_matches@ == matches_of(matches@.take(i as int)),
            decreases matches.len() - i,
        {
            line_matches.push(LineMatch::lnum(matches[i]));
            i = i + 1;
            assert(line_matches@ =~= matches_of(matches@.take(i as int)));
        }
        assert(matches@.take(i as int) =~= matches@);
        let contents = contents_of(&lines);
        let file = File::new(lossy_text(path.as_slice()), line_matches, chunks, contents);
        proof {
            assert forall|a: int, b: int| 0 <= a < b < file.line_matches@.len() implies (
            #[trigger] file.line_matches@[a]).line_number < (
            #[trigger] file.line_matches@[b]).line_number by {
                assert(matches@[a] < matches@[b]);
            }
            assert forall|a: int| 0 <= a < file.line_matches@.len() implies in_some_chunk(
                file.chunks@,
                (#[trigger] file.line_matches@[a]).line_number,
            ) by {
                assert(in_some_chunk(chunks@, matches@[a]));
            }
        }
        Some(file)
    }

    /// Takes one line of grep's output. A line of another file than the
    /// one that is gathered, or one that does not come behind the last
    /// line, ends that file: it is handed out, if it has a match, and the
    /// line is the first of the next file. A line numbered 0 is no line
    /// and is passed over.
    pub fn push(&mut self, line: GrepLine) -> (file: Option<File>)
        requires
            old(self)@.wf(),
        ensures
            final(self)@.wf(),
            final(self).min_context() == old(self).min_context(),
            final(self).max_context() == old(self).max_context(),
            line.line_number == 0 ==> file is None && final(self)@ == old(self)@,
            line.line_number > 0 && old(self)@.takes(line.path@, line.line_number) ==> file is None
                && final(self)@ == old(self)@.with(line@),
            line.line_number > 0 && !old(self)@.takes(line.path@, line.line_number) ==> {
                &&& final(self)@ == Gathered::nothing().with(line@)
                &&& file is Some <==> old(self)@.matches.len() > 0
            },
            file matches Some(f) ==> f.wf() && old(self)@.makes(
                f,
                old(self).min_context(),
                old(self).max_context(),
            ),
    {
        if line.line_number == 0 {
            return None;
        }
        let takes = self.lines.len() == 0 || (same_bytes(&line.path, &self.path)
            && line.line_number > self.lines[self.lines.len() - 1].0);
        let file = if takes {
            None
        } else {
            self.flush()
        };
        let ghost before = self@;
        let GrepLine { path, line_number, kind, payload } = line;
        self.path = path;
        self.lines.push((line_number, payload));
        if kind == LineKind::Match {
            self.matches.push(line_number);
        }
        proof {
            assert(self@.lines =~= before.lines.push((line_number, payload@)));
            assert(numbers(self@.lines) =~= numbers(before.lines).push(line_number));
            assert(self@ == before.with(line@));
            lemma_pushed_ascends(numbers(before.lines), line_number);
            if before.matches.len() > 0 {
                assert(numbers(before.lines).last() == before.lines.last().0);
            }
            if kind == LineKind::Match {
                lemma_pushed_ascends(before.matches, line_number);
            }
        }
        file
    }

    /// Hands out the file that is gathered, if it has a match: for the
    /// end of grep's output.
    pub fn finish(&mut self) -> (file: Option<File>)
        requires
            old(self)@.wf(),
        ensures
            final(self)@ == Gathered::nothing(),
            final(self)@.wf(),
            file is Some <==> old(self)@.matches.len() > 0,
            file matches Some(f) ==> f.wf() && old(self)@.makes(
                f,
                old(self).min_context(),
                old(self).max_context(),
            ),
    {
        self.flush()
    }
}

/// Ascending numbers still ascend with one more that is above the last.
proof fn lemma_pushed_ascends(numbers: Seq<u64>, more: u64)
    requires
        ascending(numbers),
        more >= 1,
        numbers.len() > 0 ==> numbers.last() < more,
    ensures
        ascending(numbers.push(more)),
{
    let pushed = numbers.push(more);
    assert forall|i: int, j: int| 0 <= i < j < pushed.len() implies #[trigger] pushed[i]
        < #[trigger] pushed[j] by {
        if j == numbers.len() {
            if i < numbers.len() - 1 {
                assert(numbers[i] < numbers[numbers.len() - 1]);
            }
        } else {
            assert(numbers[i] < numbers[j]);
        }
    }
}

/// Whether two byte strings are the same.
fn same_bytes(a: &Vec<u8>, b: &Vec<u8>) -> (same: bool)
    ensures
        same == (a@ == b@),
{
    if a.len() != b.len() {
        return false;
    }
    let mut i: usize = 0;
    while i < a.len()
        invariant
            i <= a.len(),
            a.len() == b.len(),
            forall|j: int| 0 <= j < i ==> a@[j] == b@[j],
        decreases a.len() - i,
    {
        if a[i] != b[i] {
            return false;
        }
        i = i + 1;
    }
    assert(a@ =~= b@);
    true
}

/// The contents that stand for the delivered lines.
fn contents_of(lines: &Vec<(u64, Vec<u8>)>) -> (contents: Vec<u8>)
    requires
        ascending(numbers(line_views(lines@))),
    ensures
        contents@ == contents_upto(line_views(lines@), lines.len() as int),
{
    let ghost views = line_views(lines@);
    let mut contents: Vec<u8> = Vec::new();
    let mut before: u64 = 0;
    let mut n: usize = 0;
    while n < lines.len()
        invariant
            n <= lines.len(),
            views == line_views(lines@),
            ascending(numbers(views)),
            before == if n >= 1 {
                views[n - 1].0
            } else {
                0
            },
            contents@ == contents_upto(views, n as int),
        decreases lines.len() - n,
    {
        let number = lines[n].0;
        proof {
            assert(numbers(views)[n as int] == number);
            if n >= 1 {
                assert(numbers(views)[n - 1] < numbers(views)[n as int]);
            }
        }
        let gap = number - before - 1;
        let ghost start = contents@;
        let mut filled: u64 = 0;
        while filled < gap
            invariant
                filled <= gap,
                contents@ == start + newlines(filled as nat),
            decreases gap - filled,
        {
            contents.push(10u8);
            filled = filled + 1;
            assert(contents@ =~= start + newlines(filled as nat));
        }
        let payload = &lines[n].1;
        let ghost filled_up = contents@;
        let mut i: usize = 0;
        while i < payload.len()
            invariant
                i <= payload.len(),
                contents@ == filled_up + payload@.take(i as int),
            decreases payload.len() - i,
        {
            contents.push(payload[i]);
            i = i + 1;
            assert(contents@ =~= filled_up + payload@.take(i as int));
        }
        assert(payload@.take(i as int) =~= payload@);
        contents.push(10u8);
        assert(contents@ =~= contents_upto(views, n + 1)) by {
            assert(views[n as int].1 == payload@);
        }
        before = number;
        n = n + 1;
    }
    contents
}

/// No line feed is in the text of a delivered line.
pub open spec fn single_lines(lines: Seq<(u64, Seq<u8>)>) -> bool {
    forall|i: int, j: int|
        0 <= i < lines.len() && 0 <= j < lines[i].1.len() ==> #[trigger] lines[i].1[j] != 10
}

/// The line of the contents that stands for line `l`: the delivered line
/// of that number with its line feed, or an empty line if none was
/// delivered.
pub open spec fn line_for(lines: Seq<(u64, Seq<u8>)>, l: int) -> Seq<u8> {
    if delivered(lines, l) {
        lines[index_of(lines, l)].1 + seq![10u8]
    } else {
        seq![10u8]
    }
}

/// A line numbered `l` is among the delivered lines.
pub open spec fn delivered(lines: Seq<(u64, Seq<u8>)>, l: int) -> bool {
    exists|i: int| 0 <= i < lines.len() && (#[trigger] lines[i]).0 == l
}

/// The index of a delivered line numbered `l`.
pub open spec fn index_of(lines: Seq<(u64, Seq<u8>)>, l: int) -> int {
    choose|i: int| 0 <= i < lines.len() && (#[trigger] lines[i]).0 == l
}

/// Empty lines are lines.
proof fn lemma_newlines_are_lines(n: nat)
    ensures
        lines_of(newlines(n)) == Seq::new(n, |i: int| seq![10u8]),
    decreases n,
{
    if n == 0 {
        assert(lines_of(newlines(0)) =~= Seq::<Seq<u8>>::empty());
        assert(Seq::new(0nat, |i: int| seq![10u8]) =~= Seq::<Seq<u8>>::empty());
    } else {
        let before = newlines((n - 1) as nat);
        assert(newlines(n) =~= before + seq![10u8]);
        lemma_lines_of_concat(before, seq![10u8]);
        lemma_newlines_are_lines((n - 1) as nat);
        assert(Seq::<u8>::empty() + seq![10u8] =~= seq![10u8]);
        lemma_one_line(Seq::<u8>::empty());
        assert(Seq::new((n - 1) as nat, |i: int| seq![10u8]) + seq![seq![10u8]] =~= Seq::new(
            n,
            |i: int| seq![10u8],
        ));
    }
}

/// The contents that stand for delivered lines have as many lines as the
/// number of the last delivered line says, and each of their lines is the
/// line that was delivered under its number, or empty if none was: what
/// grep delivered is shown at the line where it was found.
pub proof fn lemma_contents_hold_the_lines(lines: Seq<(u64, Seq<u8>)>, n: int)
    requires
        ascending(numbers(lines)),
        single_lines(lines),
        0 <= n <= lines.len(),
    ensures
        ({
            let shown = lines_of(contents_upto(lines, n));
            let taken = lines.take(n);
            &&& shown.len() == if n == 0 {
                0
            } else {
                lines[n - 1].0 as int
            }
            &&& contents_upto(lines, n).len() == 0 || contents_upto(lines, n).last() == 10
            &&& forall|l: int| 1 <= l <= shown.len() ==> #[trigger] shown[l - 1] == line_for(taken, l)
        }),
    decreases n,
{
    if n == 0 {
        assert(lines_of(contents_upto(lines, 0)) =~= Seq::<Seq<u8>>::empty());
    } else {
        lemma_contents_hold_the_lines(lines, n - 1);
        let nums = numbers(lines);
        let before = contents_upto(lines, n - 1);
        let last = if n >= 2 {
            lines[n - 2].0
        } else {
            0
        };
        assert(nums[n - 1] == lines[n - 1].0);
        if n >= 2 {
            assert(nums[n - 2] == lines[n - 2].0);
            assert(nums[n - 2] < nums[n - 1]);
        }
        let number = lines[n - 1].0;
        let gap = (number - last - 1) as nat;
        let text = lines[n - 1].1;
        let filled = before + newlines(gap);
        let all = contents_upto(lines, n);
        assert(all =~= filled + (text + seq![10u8]));
        assert(filled.len() == 0 || filled.last() == 10);
        lemma_lines_of_concat(before, newlines(gap));
        lemma_newlines_are_lines(gap);
        lemma_lines_of_concat(filled, text + seq![10u8]);
        assert forall|i: int| 0 <= i < text.len() implies text[i] != 10 by {
            assert(lines[n - 1].1[i] != 10);
        }
        lemma_one_line(text);
        let shown = lines_of(all);
        let shown_before = lines_of(before);
        let taken = lines.take(n);
        let taken_before = lines.take(n - 1);
        assert(shown =~= shown_before + Seq::new(gap, |i: int| seq![10u8]) + seq![
            text + seq![10u8],
        ]);
        assert(shown_before.len() == last);
        assert forall|l: int| 1 <= l <= shown.len() implies #[trigger] shown[l - 1] == line_for(
            taken,
            l,
        ) by {
            // Every line that was taken before has a number of `last` at most.
            assert forall|i: int| 0 <= i < n - 1 implies (#[trigger] taken[i]).0 <= last by {
                assert(nums[i] == lines[i].0);
                if i < n - 2 {
                    assert(nums[i] < nums[n - 2]);
                }
            }
            assert(taken[n - 1] == lines[n - 1]);
            if l <= last {
                assert(shown[l - 1] == shown_before[l - 1]);
                assert(shown_before[l - 1] == line_for(taken_before, l));
                if delivered(taken, l) {
                    let i = index_of(taken, l);
                    assert(i < n - 1);
                    assert(taken_before[i] == taken[i]);
                    assert(taken_before[i].0 == l);
                    assert(delivered(taken_before, l));
                    let j = index_of(taken_before, l);
                    assert(taken[j] == taken_before[j]);
                    if i != j {
                        assert(nums[i] == lines[i].0 && nums[j] == lines[j].0);
                        if i < j {
                            assert(nums[i] < nums[j]);
                        } else {
                            assert(nums[j] < nums[i]);
                        }
                    }
                } else {
                    assert forall|j: int| 0 <= j < taken_before.len() implies (
                    #[trigger] taken_before[j]).0 != l by {
                        assert(taken[j] == taken_before[j]);
                    }
                }
            } else if l < number {
                assert(shown[l - 1] == seq![10u8]);
                assert forall|i: int| 0 <= i < taken.len() implies (#[trigger] taken[i]).0 != l by {
                    if i < n - 1 {
                        assert(taken[i].0 <= last);
                    }
                }
            } else {
                assert(l == number);
                assert(shown[l - 1] == text + seq![10u8]);
                assert(taken[n - 1].0 == l);
                assert(delivered(taken, l));
                let i = index_of(taken, l);
                if i < n - 1 {
                    assert(taken[i].0 <= last);
                }
                assert(i == n - 1);
            }
        }
    }
}

} // verus!
