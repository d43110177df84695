//! Reading the output of `grep -nH`: `path:lineno:text` for a line that
//! matched, `path-lineno-text` for a line of context.

use vstd::prelude::*;

verus! {

/// Whether a line of grep's output is a match or context.
#[derive(Clone, Copy, Debug, PartialEq, Eq, Structural)]
pub enum LineKind {
    Match,
    Context,
}

/// One line of grep's output, taken apart.
#[derive(Clone, Debug)]
pub struct GrepLine {
    pub path: Vec<u8>,
    pub line_number: u64,
    pub kind: LineKind,
    pub payload: Vec<u8>,
}

/// What a `GrepLine` is to a contract.
pub struct GrepLineView {
    pub path: Seq<u8>,
    pub line_number: u64,
    pub kind: LineKind,
    pub payload: Seq<u8>,
}

impl View for GrepLine {
    type V = GrepLineView;

    open spec fn view(&self) -> GrepLineView {
        GrepLineView {
            path: self.path@,
            line_number: self.line_number,
            kind: self.kind,
            payload: self.payload@,
        }
    }
}

/// `b` is a decimal digit.
pub open spec fn is_digit(b: u8) -> bool {
    48 <= b <= 57
}

/// `b` is a colon, which stands around the number of a line that
/// matched, or a hyphen, which stands around that of a line of context.
pub open spec fn is_separator(b: u8) -> bool {
    b == 58 || b == 45
}

/// The number that decimal digits stand for.
pub open spec fn digits_value(digits: Seq<u8>) -> nat
    decreases digits.len(),
{
    if digits.len() == 0 {
        0
    } else {
        digits_value(digits.drop_last()) * 10 + (digits.last() - 48) as nat
    }
}

/// The first index at or after `from` at which `line` has no digit.
pub open spec fn digits_end(line: Seq<u8>, from: int) -> int
    decreases line.len() - from,
{
    if from < 0 || from >= line.len() || !is_digit(line[from]) {
        from
    } else {
        digits_end(line, from + 1)
    }
}

/// `line` splits at `i`: a separator stands there, a line number of 1 or
/// more that fits in 64 bits follows, and behind the number stands the same
/// separator again.
pub open spec fn splits_at(line: Seq<u8>, i: int) -> bool {
    let j = digits_end(line, i + 1);
    &&& 0 <= i < line.len()
    &&& is_separator(line[i])
    &&& i + 1 < j < line.len()
    &&& line[j] == line[i]
    &&& 1 <= digits_value(line.subrange(i + 1, j)) <= u64::MAX
}

/// The first index at or after `from` at which `line` splits, or its
/// length if it splits nowhere.
pub open spec fn first_split(line: Seq<u8>, from: int) -> int
    decreases line.len() - from,
{
    if from < 0 || from >= line.len() {
        line.len() as int
    } else if splits_at(line, from) {
        from
    } else {
        first_split(line, from + 1)
    }
}

/// A line of grep's output taken apart at the first place where it
/// splits: the path before it, the line number, and the text behind the
/// second separator. A path may hold separators; none of them is followed
/// by a number and the same separator again, or the line is read wrongly.
/// A line that splits nowhere is malformed.
pub open spec fn parsed(line: Seq<u8>) -> Option<GrepLineView> {
    let i = first_split(line, 0);
    if i >= line.len() {
        None
    } else {
        let j = digits_end(line, i + 1);
        Some(
            GrepLineView {
                path: line.take(i),
                line_number: digits_value(line.subrange(i + 1, j)) as u64,
                kind: if line[i] == 58 {
                    LineKind::Match
                } else {
                    LineKind::Context
                },
                payload: line.skip(j + 1),
            },
        )
    }
}

/// The digits from `from` on end at `end` if digits stand up to there and
/// none stands there.
proof fn lemma_digits_end_is(line: Seq<u8>, from: int, end: int)
    requires
        0 <= from <= end <= line.len(),
        forall|i: int| from <= i < end ==> is_digit(line[i]),
        end < line.len() ==> !is_digit(line[end]),
    ensures
        digits_end(line, from) == end,
    decreases end - from,
{
    if from < end {
        lemma_digits_end_is(line, from + 1, end);
    }
}

/// The line number that stands behind a separator at `i`, if the line
/// splits there, and where the text behind it starts.
fn split_at(line: &[u8], i: usize) -> (found: Option<(u64, usize)>)
    requires
        i < line@.len(),
        is_separator(line@[i as int]),
    ensures
        match found {
            Some((n, rest)) => {
                &&& splits_at(line@, i as int)
                &&& n == digits_value(line@.subrange(i + 1, digits_end(line@, i + 1)))
                &&& rest == digits_end(line@, i + 1) + 1
            },
            None => !splits_at(line@, i as int),
        },
{
    let n = line.len();
    let mut j: usize = i + 1;
    let mut value: u64 = 0;
    let mut fits = true;
    while j < line.len() && line[j] >= 48 && line[j] <= 57
        invariant
            i + 1 <= j <= line@.len(),
            forall|k: int| i + 1 <= k < j ==> is_digit(line@[k]),
            fits ==> value == digits_value(line@.subrange(i + 1, j as int)),
            !fits ==> digits_value(line@.subrange(i + 1, j as int)) > u64::MAX,
        decreases line@.len() - j,
    {
        let d = (line[j] - 48) as u64;
        proof {
            assert(line@.subrange(i + 1, j + 1).drop_last() =~= line@.subrange(i + 1, j as int));
        }
        if fits && value <= (u64::MAX - d) / 10 {
            value = value * 10 + d;
        } else {
            fits = false;
        }
        j = j + 1;
    }
    proof {
        lemma_digits_end_is(line@, i + 1, j as int);
    }
    if fits && value >= 1 && j > i + 1 && j < line.len() && line[j] == line[i] {
        Some((value, j + 1))
    } else {
        None
    }
}

/// Takes a line of grep's output apart. `None` says that the line is
/// malformed.
pub fn parse_grep_line(line: &[u8]) -> (found: Option<GrepLine>)
    ensures
        match found {
            Some(l) => parsed(line@) == Some(l@),
            None => parsed(line@) is None,
        },
{
    let mut i: usize = 0;
    while i < line.len()
        invariant
            i <= line@.len(),
            first_split(line@, 0) == first_split(line@, i as int),
        decreases line@.len() - i,
    {
        if line[i] == 58 || line[i] == 45 {
            if let Some((line_number, rest)) = split_at(line, i) {
                let kind = if line[i] == 58 {
                    LineKind::Match
                } else {
                    LineKind::Context
                };
                let path = copy_of(line, 0, i);
                let payload = copy_of(line, rest, line.len());
                proof {
                    assert(line@.subrange(0, i as int) =~= line@.take(i as int));
                    assert(line@.subrange(rest as int, line@.len() as int) =~= line@.skip(
                        rest as int,
                    ));
                }
                return Some(GrepLine { path, line_number, kind, payload });
            }
        }
        i = i + 1;
    }
    None
}

/// The bytes of `bytes` from `from` up to `to`.
pub fn copy_of(bytes: &[u8], from: usize, to: usize) -> (copy: Vec<u8>)
    requires
        from <= to <= bytes@.len(),
    ensures
        copy@ == bytes@.subrange(from as int, to as int),
{
    let mut copy: Vec<u8> = Vec::new();
    let mut i: usize = from;
    while i < to
        invariant
            from <= i <= to <= bytes@.len(),
            copy@ == bytes@.subrange(from as int, i as int),
        decreases to - i,
    {
        copy.push(bytes[i]);
        i = i + 1;
        assert(copy@ =~= bytes@.subrange(from as int, i as int));
    }
    copy
}

} // verus!
