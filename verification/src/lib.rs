//! A small expression-language front end: lexing with delimiter nesting,
//! precedence parsing into an abstract syntax tree, and tree-walking
//! evaluation over exact rational numbers.
//!
//! This root module holds the source-location bookkeeping shared by every
//! stage: a `Location` is a half-open range over the source text, and a
//! `LocatableContent` attaches one to a payload.
use vstd::prelude::*;

pub mod ast;
pub mod error;
pub mod number;
pub mod parse;
pub mod runtime;
pub mod tokenize;

verus! {

/// A half-open range over the source text: the characters at indices
/// `begin`, `begin + 1`, ..., `begin + len - 1`.
#[derive(Debug, Clone, Copy, PartialEq, Eq, Structural, Hash)]
pub struct Location {
    pub begin: usize,
    pub len: usize,
}

impl Location {
    /// The index of the first character covered.
    pub fn begin(&self) -> (r: usize)
        ensures
            r == self.begin,
    {
        self.begin
    }

    /// The number of characters covered.
    pub fn len(&self) -> (r: usize)
        ensures
            r == self.len,
    {
        self.len
    }

    /// The (exclusive) end of the location, as a mathematical integer.
    pub open spec fn spec_end(self) -> int {
        self.begin + self.len
    }

    /// The (exclusive) end of the location.
    pub fn end(&self) -> (r: usize)
        requires
            self.spec_end() <= usize::MAX,
        ensures
            r == self.spec_end(),
    {
        self.begin + self.len
    }

    /// The smallest location that covers both `self` and the whole of
    /// `other`, assuming `other` ends no earlier than `self` begins.
    pub open spec fn spec_through(self, other: Location) -> Location {
        Location { begin: self.begin, len: (other.begin + other.len - self.begin) as usize }
    }

    /// Total form of `spec_through`: where `other` would end before `self`
    /// begins, or beyond the address range — which cannot happen for
    /// locations that lie in one source text — it falls back to `self`.
    pub open spec fn spec_join(self, other: Location) -> Location {
        if other.begin + other.len <= usize::MAX && self.begin <= other.begin + other.len {
            self.spec_through(other)
        } else {
            self
        }
    }

    /// The smallest location covering `self` and `other`, for any two
    /// locations; used to combine a node's span from its first and last
    /// constituents, which always lie in order in one source text.
    pub fn join(&self, other: &Location) -> (r: Location)
        ensures
            r == self.spec_join(*other),
    {
        match other.begin.checked_add(other.len) {
            Some(e) => {
                if self.begin <= e {
                    Location { begin: self.begin, len: e - self.begin }
                } else {
                    *self
                }
            },
            None => *self,
        }
    }

    /// The smallest location covering `self` and `other`, for `other`
    /// ending at or after the begin of `self`; used to combine an opening
    /// delimiter's location with the closing one, or an identifier's with
    /// its argument block's.
    pub fn through(&self, other: &Location) -> (r: Location)
        requires
            self.begin <= other.spec_end(),
            other.spec_end() <= usize::MAX,
        ensures
            r == self.spec_through(*other),
    {
        Location { begin: self.begin, len: other.begin + other.len - self.begin }
    }
}

impl Default for Location {
    /// A one-character placeholder location at the start of the source.
    fn default() -> (r: Self)
        ensures
            r == (Location { begin: 0, len: 1 }),
    {
        Location { begin: 0, len: 1 }
    }
}

/// A payload of any type together with the source location it came from.
#[derive(Debug, Clone)]
pub struct LocatableContent<T> {
    pub location: Location,
    pub content: T,
}

impl<T> LocatableContent<T> {
    /// The source location of the content.
    pub fn location(&self) -> (r: &Location)
        ensures
            r == self.location,
    {
        &self.location
    }

    /// The located payload.
    pub fn content(&self) -> (r: &T)
        ensures
            r == self.content,
    {
        &self.content
    }

    pub fn new(content: T, location: Location) -> (r: Self)
        ensures
            r.location == location,
            r.content == content,
    {
        Self { content, location }
    }
}

} // verus!
