use vstd::prelude::*;

use crate::data::symbol::Symbol;

verus! {

/// Represents a single point in a source file.
#[derive(Clone, Copy, Debug, PartialEq, Eq, Structural, PartialOrd, Ord, Hash)]
pub struct Point {
    pub path: Option<Symbol>,
    pub index: u32,
    pub row: u16,
    pub column: u16,
}

impl Point {
    pub fn new(path: Symbol, index: usize, row: usize, column: usize) -> (point: Self)
        requires
            index <= u32::MAX,
            row <= u16::MAX,
            column <= u16::MAX,
        ensures
            point.path == Some(path),
            point.index == index,
            point.row == row,
            point.column == column,
    {
        Point { path: Some(path), index: index as u32, row: row as u16, column: column as u16 }
    }

    /// The start of an anonymous source: first row, first column.
    pub fn start() -> (point: Self)
        ensures
            point.path is None,
            point.index == 0,
            point.row == 1,
            point.column == 1,
    {
        Point { path: None, index: 0, row: 1, column: 1 }
    }

    pub fn index(&self) -> (index: usize)
        ensures
            index == self.index,
    {
        self.index as usize
    }

    /// Constructs the next point in the program.
    /// Assumes that the current character is ASCII.
    pub fn bump(&self) -> (next: Self)
        requires
            self.index < u32::MAX,
            self.column < u16::MAX,
        ensures
            next.path == self.path,
            next.index == self.index + 1,
            next.row == self.row,
            next.column == self.column + 1,
    {
        Point { path: self.path, index: self.index + 1, row: self.row, column: self.column + 1 }
    }
}

impl Default for Point {
    fn default() -> (point: Self)
        ensures
            point == Point::spec_start(),
    {
        Point::start()
    }
}

impl Point {
    pub open spec fn spec_start() -> Point {
        Point { path: None, index: 0, row: 1, column: 1 }
    }
}

/// Represents a span of text in a source file.
#[derive(Clone, Copy, Debug, PartialEq, Eq, Structural, PartialOrd, Ord, Hash)]
pub struct Span {
    pub lo: Point,
    pub hi: Point,
}

impl Span {
    pub fn new(lo: Point, hi: Point) -> (span: Self)
        ensures
            span.lo == lo,
            span.hi == hi,
    {
        Span { lo, hi }
    }

    /// The one-character span starting at `point`.
    pub fn from_point(point: Point) -> (span: Self)
        requires
            point.index < u32::MAX,
            point.column < u16::MAX,
        ensures
            span.lo == point,
            span.hi.path == point.path,
            span.hi.index == point.index + 1,
            span.hi.row == point.row,
            span.hi.column == point.column + 1,
    {
        Span { lo: point, hi: point.bump() }
    }

    /// Byte offset of the start of this span.
    pub fn start(&self) -> (start: usize)
        ensures
            start == self.lo.index,
    {
        self.lo.index()
    }

    /// Byte offset of the end of this span.
    pub fn end(&self) -> (end: usize)
        ensures
            end == self.hi.index,
    {
        self.hi.index()
    }

    /// The source file of this span: that of its start, else that of its end.
    pub fn source(&self) -> (source: Option<Symbol>)
        ensures
            source == (if self.lo.path is Some { self.lo.path } else { self.hi.path }),
    {
        match self.lo.path {
            Some(path) => Some(path),
            None => self.hi.path,
        }
    }
}

impl Default for Span {
    fn default() -> (span: Self)
        ensures
            span.lo == Point::spec_start(),
            span.hi == Point::spec_start(),
    {
        Span { lo: Point::start(), hi: Point::start() }
    }
}

} // verus!
