//! Files with their matches and chunks, and the lines of a file's contents.

use vstd::prelude::*;

verus! {

/// A line that matched, with the byte range of the match within the line,
/// where the range is known.
#[derive(Clone, Copy, Debug, PartialEq, Eq)]
pub struct LineMatch {
    pub line_number: u64,
    pub range: Option<(usize, usize)>,
}

impl LineMatch {
    /// A match on line `line_number`, in the byte range `range` of the line.
    pub fn new(line_number: u64, range: Option<(usize, usize)>) -> (m: Self)
        ensures
            m.line_number == line_number,
            m.range == range,
    {
        LineMatch { line_number, range }
    }

    /// A match of which only the line is known.
    pub fn lnum(line_number: u64) -> (m: Self)
        ensures
            m.line_number == line_number,
            m.range is None,
    {
        LineMatch { line_number, range: None }
    }
}

/// Chunks are in order and set apart: each is a range of lines that starts
/// at line 1 or later and does not end before it starts, and between two
/// of them lies at least one line.
pub open spec fn chunks_apart(chunks: Seq<(u64, u64)>) -> bool {
    &&& forall|k: int| 0 <= k < chunks.len() ==> 1 <= (#[trigger] chunks[k]).0 <= chunks[k].1
    &&& forall|i: int, j: int|
        0 <= i < j < chunks.len() ==> (#[trigger] chunks[i]).1 + 1 < (#[trigger] chunks[j]).0
}

/// Matches are in the order of their lines, one for a line.
pub open spec fn matches_ascend(matches: Seq<LineMatch>) -> bool {
    forall|i: int, j: int|
        0 <= i < j < matches.len() ==> (#[trigger] matches[i]).line_number < (
        #[trigger] matches[j]).line_number
}

/// Line `lnum` lies in one of the chunks.
pub open spec fn in_some_chunk(chunks: Seq<(u64, u64)>, lnum: u64) -> bool {
    exists|k: int| 0 <= k < chunks.len() && (#[trigger] chunks[k]).0 <= lnum <= chunks[k].1
}

/// Every match lies in one of the chunks.
pub open spec fn matches_covered(matches: Seq<LineMatch>, chunks: Seq<(u64, u64)>) -> bool {
    forall|i: int|
        0 <= i < matches.len() ==> in_some_chunk(chunks, (#[trigger] matches[i]).line_number)
}

/// A file to print: its contents, the lines that matched, and the chunks
/// of lines to show.
#[derive(Clone, Debug)]
pub struct File {
    pub path: String,
    pub line_matches: Vec<LineMatch>,
    pub chunks: Vec<(u64, u64)>,
    pub contents: Vec<u8>,
}

impl File {
    /// The file keeps what a file must: its chunks are in order and apart,
    /// its matches are in order, and each of them lies in a chunk.
    pub open spec fn wf(&self) -> bool {
        &&& chunks_apart(self.chunks@)
        &&& matches_ascend(self.line_matches@)
        &&& matches_covered(self.line_matches@, self.chunks@)
    }

    /// A file of these parts. Whether it is well-formed is up to the parts.
    pub fn new(path: String, line_matches: Vec<LineMatch>, chunks: Vec<(u64, u64)>, contents: Vec<u8>) -> (file:
        Self)
        ensures
            file.path == path,
            file.line_matches == line_matches,
            file.chunks == chunks,
            file.contents == contents,
    {
        File { path, line_matches, chunks, contents }
    }

    /// Whether the file keeps what a file must.
    pub fn is_well_formed(&self) -> (ok: bool)
        ensures
            ok == self.wf(),
    {
        let mut k: usize = 0;
        while k < self.chunks.len()
            invariant
                k <= self.chunks.len(),
                forall|j: int| 0 <= j < k ==> 1 <= (#[trigger] self.chunks@[j]).0 <= self.chunks@[j].1,
                forall|i: int, j: int|
                    0 <= i < j < k ==> (#[trigger] self.chunks@[i]).1 + 1 < (
                    #[trigger] self.chunks@[j]).0,
            decreases self.chunks.len() - k,
        {
            let (s, e) = self.chunks[k];
            if s < 1 || s > e {
                return false;
            }
            if k > 0 {
                let prev_end = self.chunks[k - 1].1;
                if prev_end == u64::MAX || prev_end + 1 >= s {
                    assert(!(self.chunks@[k - 1].1 + 1 < self.chunks@[k as int].0));
                    return false;
                }
                assert forall|i: int| 0 <= i < k implies (#[trigger] self.chunks@[i]).1 + 1
                    < self.chunks@[k as int].0 by {
                    if i < k - 1 {
                        assert(self.chunks@[i].1 + 1 < self.chunks@[k - 1].0);
                    }
                }
            }
            k = k + 1;
        }
        let mut i: usize = 0;
        while i < self.line_matches.len()
            invariant
                i <= self.line_matches.len(),
                chunks_apart(self.chunks@),
                forall|a: int, b: int|
                    0 <= a < b < i ==> (#[trigger] self.line_matches@[a]).line_number < (
                    #[trigger] self.line_matches@[b]).line_number,
                forall|a: int|
                    0 <= a < i ==> in_some_chunk(
                        self.chunks@,
                        (#[trigger] self.line_matches@[a]).line_number,
                    ),
            decreases self.line_matches.len() - i,
        {
            let lnum = self.line_matches[i].line_number;
            if i > 0 && self.line_matches[i - 1].line_number >= lnum {
                return false;
            }
            if !self.covers(lnum) {
                return false;
            }
            i = i + 1;
        }
        true
    }

    /// Whether line `lnum` lies in one of the chunks.
    pub fn covers(&self, lnum: u64) -> (found: bool)
        ensures
            found == in_some_chunk(self.chunks@, lnum),
    {
        let mut k: usize = 0;
        while k < self.chunks.len()
            invariant
                k <= self.chunks.len(),
                forall|j: int|
                    0 <= j < k ==> !((#[trigger] self.chunks@[j]).0 <= lnum <= self.chunks@[j].1),
            decreases self.chunks.len() - k,
        {
            let (s, e) = self.chunks[k];
            if s <= lnum && lnum <= e {
                return true;
            }
            k = k + 1;
        }
        false
    }
}

/// The index behind the first line feed of `buf` at or after `from`, or the
/// length of `buf` if there is none: where the line that starts at `from`
/// ends.
pub open spec fn line_end(buf: Seq<u8>, from: int) -> int
    decreases buf.len() - from,
{
    if from < 0 || from >= buf.len() {
        buf.len() as int
    } else if buf[from] == 10 {
        from + 1
    } else {
        line_end(buf, from + 1)
    }
}

/// A line is not empty and does not reach beyond the buffer, and only its
/// last byte can be a line feed.
pub proof fn lemma_line_end(buf: Seq<u8>, from: int)
    requires
        0 <= from < buf.len(),
    ensures
        from < line_end(buf, from) <= buf.len(),
        forall|j: int| from <= j < line_end(buf, from) - 1 ==> buf[j] != 10,
        line_end(buf, from) < buf.len() ==> buf[line_end(buf, from) - 1] == 10,
    decreases buf.len() - from,
{
    if buf[from] != 10 {
        if from + 1 < buf.len() {
            lemma_line_end(buf, from + 1);
        } else {
            assert(line_end(buf, from + 1) == buf.len());
        }
    }
}

/// The lines of `buf` from index `from` on, each with its line feed; what
/// follows the last line feed is a line too, unless it is empty.
pub open spec fn lines_from(buf: Seq<u8>, from: int) -> Seq<Seq<u8>>
    decreases buf.len() - from,
{
    if from < 0 || from >= buf.len() {
        Seq::empty()
    } else {
        proof {
            lemma_line_end(buf, from);
        }
        seq![buf.subrange(from, line_end(buf, from))] + lines_from(buf, line_end(buf, from))
    }
}

/// The lines of `buf`.
pub open spec fn lines_of(buf: Seq<u8>) -> Seq<Seq<u8>> {
    lines_from(buf, 0)
}

/// A line of a file, with its terminator, and its number.
pub struct Line<'a>(pub &'a [u8], pub u64);

/// Walks the lines of a buffer, terminators included.
pub struct LinesInclusive<'a> {
    lnum: usize,
    prev: usize,
    buf: &'a [u8],
}

impl<'a> LinesInclusive<'a> {
    /// The buffer that is walked.
    pub closed spec fn buffer(&self) -> Seq<u8> {
        self.buf@
    }

    /// The number of the line that comes next.
    pub closed spec fn next_lnum(&self) -> nat {
        self.lnum as nat
    }

    /// The walk is at the start of a line, and has counted the lines before it.
    pub closed spec fn wf(&self) -> bool {
        &&& self.buf@.len() < usize::MAX
        &&& self.prev <= self.buf@.len()
        &&& 1 <= self.lnum <= self.prev + 1
        &&& self.lnum - 1 <= lines_of(self.buf@).len()
        &&& lines_from(self.buf@, self.prev as int) == lines_of(self.buf@).skip(self.lnum - 1)
    }

    /// A walk that starts at the first line of `buf`.
    pub fn new(buf: &'a [u8]) -> (lines: Self)
        requires
            buf@.len() < usize::MAX,
        ensures
            lines.wf(),
            lines.buffer() == buf@,
            lines.next_lnum() == 1,
    {
        proof {
            assert(lines_of(buf@).skip(0) =~= lines_of(buf@));
        }
        LinesInclusive { lnum: 1, prev: 0, buf }
    }

    /// The next line, if there is one.
    pub fn next(&mut self) -> (line: Option<Line<'a>>)
        requires
            old(self).wf(),
        ensures
            final(self).wf(),
            final(self).buffer() == old(self).buffer(),
            match line {
                Some(l) => {
                    &&& old(self).next_lnum() <= lines_of(old(self).buffer()).len()
                    &&& l.0@ == lines_of(old(self).buffer())[old(self).next_lnum() - 1]
                    &&& l.1 == old(self).next_lnum()
                    &&& final(self).next_lnum() == old(self).next_lnum() + 1
                },
                None => {
                    &&& old(self).next_lnum() == lines_of(old(self).buffer()).len() + 1
                    &&& final(self).next_lnum() == old(self).next_lnum()
                },
            },
    {
        let len = self.buf.len();
        if self.prev == len {
            proof {
                assert(lines_of(self.buf@).skip(self.lnum - 1).len() == 0);
            }
            return None;
        }
        let rest: &'a [u8] = &self.buf[self.prev..len];
        let end = match memchr::memchr(10u8, rest) {
            Some(idx) => self.prev + idx + 1,
            None => len,
        };
        proof {
            assert(rest@ == self.buf@.subrange(self.prev as int, len as int));
            assert forall|j: int| self.prev <= j < end - 1 implies self.buf@[j] != 10 by {
                assert(self.buf@[j] == rest@[j - self.prev]);
            }
            if end < len {
                assert(self.buf@[end - 1] == rest@[end - 1 - self.prev]);
            }
            lemma_line_end(self.buf@, self.prev as int);
            lemma_line_end_is(self.buf@, self.prev as int, end as int);
            let all = lines_of(self.buf@);
            let here = lines_from(self.buf@, self.prev as int);
            assert(here.len() >= 1);
            assert(here[0] == all[self.lnum - 1]);
            assert(lines_from(self.buf@, end as int) =~= here.skip(1));
            assert(here.skip(1) =~= all.skip(self.lnum - 1 + 1));
        }
        let line: &'a [u8] = &self.buf[self.prev..end];
        let lnum = self.lnum;
        self.prev = end;
        self.lnum = self.lnum + 1;
        Some(Line(line, lnum as u64))
    }
}

/// An index behind `from` is where the line ends if no line feed lies
/// before its last byte, and its last byte is one unless the buffer ends
/// there.
proof fn lemma_line_end_is(buf: Seq<u8>, from: int, end: int)
    requires
        0 <= from < end <= buf.len(),
        forall|j: int| from <= j < end - 1 ==> buf[j] != 10,
        end < buf.len() ==> buf[end - 1] == 10,
    ensures
        line_end(buf, from) == end,
    decreases end - from,
{
    if from + 1 < end {
        lemma_line_end_is(buf, from + 1, end);
    } else {
        if buf[from] != 10 {
            assert(end == buf.len());
            assert(line_end(buf, from + 1) == buf.len());
        }
    }
}

/// Of two chunks the earlier one ends before the later one does.
pub proof fn lemma_chunks_in_order(chunks: Seq<(u64, u64)>, i: int, j: int)
    requires
        chunks_apart(chunks),
        0 <= i < j < chunks.len(),
    ensures
        chunks[i].1 + 1 < chunks[j].0,
        chunks[i].1 < chunks[j].1,
{
}

/// Where a line ends does not depend on what follows it: in a buffer with
/// more behind its last line feed, a line that starts before that line
/// feed ends where it ended.
proof fn lemma_line_end_before(a: Seq<u8>, b: Seq<u8>, from: int)
    requires
        0 <= from < a.len(),
        a.last() == 10,
    ensures
        line_end(a + b, from) == line_end(a, from),
    decreases a.len() - from,
{
    assert((a + b)[from] == a[from]);
    if a[from] != 10 {
        assert(from + 1 < a.len());
        lemma_line_end_before(a, b, from + 1);
    }
}

/// Behind a buffer, lines end where they end without it.
proof fn lemma_line_end_behind(a: Seq<u8>, b: Seq<u8>, from: int)
    requires
        0 <= from <= b.len(),
    ensures
        line_end(a + b, a.len() + from) == a.len() + line_end(b, from),
    decreases b.len() - from,
{
    if from < b.len() {
        assert((a + b)[a.len() + from] == b[from]);
        if b[from] != 10 {
            lemma_line_end_behind(a, b, from + 1);
        }
    }
}

/// Behind a buffer, the lines are those of what stands behind it.
proof fn lemma_lines_behind(a: Seq<u8>, b: Seq<u8>, from: int)
    requires
        0 <= from <= b.len(),
    ensures
        lines_from(a + b, a.len() + from) == lines_from(b, from),
    decreases b.len() - from,
{
    if from < b.len() {
        lemma_line_end(b, from);
        lemma_line_end_behind(a, b, from);
        let end = line_end(b, from);
        lemma_lines_behind(a, b, end);
        assert((a + b).subrange(a.len() + from, a.len() + end) =~= b.subrange(from, end));
    }
}

/// The lines of a buffer that ends with a line feed, or is empty, and of
/// more behind it: those of the buffer, then those of what is behind it.
proof fn lemma_lines_from_concat(a: Seq<u8>, b: Seq<u8>, from: int)
    requires
        0 <= from <= a.len(),
        a.len() == 0 || a.last() == 10,
    ensures
        lines_from(a + b, from) == lines_from(a, from) + lines_of(b),
    decreases a.len() - from,
{
    if from < a.len() {
        lemma_line_end(a, from);
        lemma_line_end_before(a, b, from);
        let end = line_end(a, from);
        lemma_lines_from_concat(a, b, end);
        assert((a + b).subrange(from, end) =~= a.subrange(from, end));
        assert(seq![a.subrange(from, end)] + (lines_from(a, end) + lines_of(b)) =~= seq![
            a.subrange(from, end),
        ] + lines_from(a, end) + lines_of(b));
    } else {
        lemma_lines_behind(a, b, 0);
        assert(lines_from(a, from) + lines_of(b) =~= lines_of(b));
    }
}

/// The lines of a buffer that ends with a line feed, or is empty, and of
/// more behind it: those of the buffer, then those of what is behind it.
pub proof fn lemma_lines_of_concat(a: Seq<u8>, b: Seq<u8>)
    requires
        a.len() == 0 || a.last() == 10,
    ensures
        lines_of(a + b) == lines_of(a) + lines_of(b),
{
    lemma_lines_from_concat(a, b, 0);
}

/// A text without line feed, with one behind it, is one line.
pub proof fn lemma_one_line(text: Seq<u8>)
    requires
        forall|i: int| 0 <= i < text.len() ==> text[i] != 10,
    ensures
        lines_of(text + seq![10u8]) == seq![text + seq![10u8]],
{
    let buf = text + seq![10u8];
    lemma_line_end_is(buf, 0, buf.len() as int);
    assert(buf.subrange(0, buf.len() as int) =~= buf);
    assert(lines_from(buf, buf.len() as int) =~= Seq::<Seq<u8>>::empty());
    assert(lines_from(buf, 0) =~= seq![buf]);
}

} // verus!
