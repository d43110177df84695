//! The match region of a matched line, and where it starts and ends.

use vstd::prelude::*;
use crate::style::Color;

verus! {

/// Where an offset of a matched line stands relative to the match region.
#[derive(Clone, Copy, Debug, PartialEq, Eq, Structural)]
pub enum RegionBoundary {
    Start,
    /// The end of the region, with the foreground to return to.
    End(Color),
    /// Neither end of the region.
    Neither,
}

/// The match region of a matched line: a range of byte offsets of the text
/// that is still to be drawn.
#[derive(Clone, Copy, Debug)]
pub struct Region {
    pub range: Option<(usize, usize)>,
}

/// The region's bounds, seen from a token that starts at byte `offset` of
/// the line and whose own foreground is `fg`.
#[derive(Clone, Copy, Debug)]
pub struct RegionBoundaries {
    pub offset: usize,
    pub range: (usize, usize),
    pub fg: Color,
}

impl RegionBoundaries {
    /// The boundary at byte `idx` of the token. Where the region starts
    /// and ends at one offset, that offset counts as its start.
    pub open spec fn at(&self, idx: nat) -> RegionBoundary {
        if self.range.0 == self.offset + idx {
            RegionBoundary::Start
        } else if self.range.1 == self.offset + idx {
            RegionBoundary::End(self.fg)
        } else {
            RegionBoundary::Neither
        }
    }

    /// The boundary at byte `idx_in_token` of the token.
    pub fn boundary_at(&self, idx_in_token: usize) -> (boundary: RegionBoundary)
        requires
            self.offset + idx_in_token <= usize::MAX,
        ensures
            boundary == self.at(idx_in_token as nat),
    {
        let offset = self.offset + idx_in_token;
        let (start, end) = self.range;
        if start == offset {
            RegionBoundary::Start
        } else if end == offset {
            RegionBoundary::End(self.fg)
        } else {
            RegionBoundary::Neither
        }
    }
}

/// `range` moved left by `bytes`, cut off at the start of the text; a range
/// that has become empty is no region any more.
pub open spec fn slid_left(range: Option<(usize, usize)>, bytes: nat) -> Option<(usize, usize)> {
    match range {
        Some((s, e)) => {
            let s2 = if s >= bytes {
                (s - bytes) as usize
            } else {
                0usize
            };
            let e2 = if e >= bytes {
                (e - bytes) as usize
            } else {
                0usize
            };
            if s2 != e2 {
                Some((s2, e2))
            } else {
                None
            }
        },
        None => None,
    }
}

impl Region {
    /// Whether `byte_offset` lies in the region: at its start or behind it,
    /// and before its end.
    pub open spec fn holds(&self, byte_offset: nat) -> bool {
        match self.range {
            Some((s, e)) => s <= byte_offset && byte_offset < e,
            None => false,
        }
    }

    /// The bounds to watch while a token from `token_start` to `token_end`
    /// is drawn: none if neither end of the region falls on the token.
    pub open spec fn bounds_within(&self, token_start: nat, token_end: nat, fg: Color) -> Option<
        RegionBoundaries,
    > {
        match self.range {
            Some((rs, re)) => {
                if (token_start <= rs && rs <= token_end) || (token_start <= re && re <= token_end) {
                    Some(RegionBoundaries { offset: token_start as usize, range: (rs, re), fg })
                } else {
                    None
                }
            },
            None => None,
        }
    }

    /// Moves the region left by the bytes that were drawn before a break.
    pub fn slide_left(&mut self, bytes: usize)
        ensures
            final(self).range == slid_left(old(self).range, bytes as nat),
    {
        if let Some((s, e)) = self.range {
            let s = if s >= bytes {
                s - bytes
            } else {
                0
            };
            let e = if e >= bytes {
                e - bytes
            } else {
                0
            };
            self.range = if s != e {
                Some((s, e))
            } else {
                None
            };
        }
    }

    /// The bounds to watch while a token from `token_start` to
    /// `token_end` is drawn, if an end of the region falls on the token.
    pub fn boundaries(&self, token_start: usize, token_end: usize, fg: Color) -> (found: Option<
        RegionBoundaries,
    >)
        ensures
            found == self.bounds_within(token_start as nat, token_end as nat, fg),
    {
        match self.range {
            Some((rs, re)) => {
                let include_start = token_start <= rs && rs <= token_end;
                let include_end = token_start <= re && re <= token_end;
                if include_start || include_end {
                    Some(RegionBoundaries { offset: token_start, range: (rs, re), fg })
                } else {
                    None
                }
            },
            None => None,
        }
    }

    /// Whether `byte_offset` lies in the region: at its start or behind it,
    /// and before its end.
    pub fn contains(&self, byte_offset: usize) -> (inside: bool)
        ensures
            inside == self.holds(byte_offset as nat),
    {
        if let Some((s, e)) = self.range {
            s <= byte_offset && byte_offset < e
        } else {
            false
        }
    }
}

} // verus!
