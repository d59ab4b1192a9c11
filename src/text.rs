//! Offsets and ranges in a text. Offsets count characters from the start.
use vstd::prelude::*;

verus! {

/// An offset into a text, counted in characters.
pub type TextUnit = usize;

/// The half-open range `start..end` of a text.
#[derive(Clone, Copy, Debug, PartialEq, Eq, Structural)]
pub struct TextRange {
    pub start: TextUnit,
    pub end: TextUnit,
}

impl TextRange {
    /// A range is well formed when it does not run backwards.
    pub open spec fn wf(self) -> bool {
        self.start <= self.end
    }

    pub open spec fn len_spec(self) -> int {
        self.end - self.start
    }

    /// The offset lies in the range or on either of its ends.
    pub open spec fn contains_inclusive_spec(self, offset: int) -> bool {
        self.start <= offset <= self.end
    }

    /// `other` lies wholly inside this range.
    pub open spec fn contains_range_spec(self, other: TextRange) -> bool {
        self.start <= other.start && other.end <= self.end
    }

    /// The two ranges share no character, and neither has a point strictly inside the other.
    pub open spec fn is_disjoint_spec(self, other: TextRange) -> bool {
        self.end <= other.start || other.end <= self.start
    }

    pub fn new(start: TextUnit, end: TextUnit) -> (r: TextRange)
        requires
            start <= end,
        ensures
            r.start == start,
            r.end == end,
            r.wf(),
    {
        TextRange { start, end }
    }

    /// The empty range at `offset`.
    pub fn empty_at(offset: TextUnit) -> (r: TextRange)
        ensures
            r.start == offset,
            r.end == offset,
            r.wf(),
    {
        TextRange { start: offset, end: offset }
    }

    pub fn len(&self) -> (r: usize)
        requires
            self.wf(),
        ensures
            r == self.len_spec(),
    {
        self.end - self.start
    }

    pub fn contains_inclusive(&self, offset: TextUnit) -> (r: bool)
        ensures
            r == self.contains_inclusive_spec(offset as int),
    {
        self.start <= offset && offset <= self.end
    }

    pub fn contains_range(&self, other: &TextRange) -> (r: bool)
        ensures
            r == self.contains_range_spec(*other),
    {
        self.start <= other.start && other.end <= self.end
    }

    pub fn is_disjoint(&self, other: &TextRange) -> (r: bool)
        ensures
            r == self.is_disjoint_spec(*other),
    {
        self.end <= other.start || other.end <= self.start
    }
}

} // verus!

verus! {

/// Relies on `str::chars` collected into a `Vec`: the characters of `s`, in order.
#[verifier::external_body]
pub(crate) fn chars_of(s: &str) -> (r: Vec<char>)
    ensures
        r@ == s@,
{
    s.chars().collect()
}

/// Relies on `String`'s `FromIterator<char>`: the string made of `cs`, in order.
#[verifier::external_body]
pub(crate) fn string_of(cs: &[char]) -> (r: String)
    ensures
        r@ == cs@,
{
    cs.iter().collect()
}

} // verus!
