//! Line, column and character offset of a place in a text stream.
use vstd::prelude::*;

verus! {

/// A line and column within a text stream, together with the character offset of that place.
///
/// Lines and columns count from 1; the character offset counts from 0.
/// The character offset is kept beside the byte offset because error reporting
/// works in characters, not bytes.
#[derive(Debug, Clone, Copy, PartialEq, Eq, Structural, Hash)]
pub struct LineColumnChar {
    line: usize,
    column: usize,
    char_ofs: usize,
}

impl LineColumnChar {
    /// The line (from 1).
    pub closed spec fn line_spec(&self) -> usize {
        self.line
    }

    /// The column (from 1).
    pub closed spec fn column_spec(&self) -> usize {
        self.column
    }

    /// The character offset (from 0).
    pub closed spec fn char_ofs_spec(&self) -> usize {
        self.char_ofs
    }

    /// A place with the given line, column and character offset.
    pub fn new(line: usize, column: usize, char_ofs: usize) -> (r: Self)
        ensures
            r.line_spec() == line,
            r.column_spec() == column,
            r.char_ofs_spec() == char_ofs,
    {
        Self { line, column, char_ofs }
    }

    /// The character offset of this place in the stream.
    pub fn char_ofs(&self) -> (r: usize)
        ensures
            r == self.char_ofs_spec(),
    {
        self.char_ofs
    }

    /// The line of this place (from 1).
    pub fn line(&self) -> (r: usize)
        ensures
            r == self.line_spec(),
    {
        self.line
    }

    /// The column of this place (from 1).
    pub fn column(&self) -> (r: usize)
        ensures
            r == self.column_spec(),
    {
        self.column
    }

    /// The place after `num_chars` more characters on the same line.
    ///
    /// The byte count does not change the line, column or character offset.
    pub fn advance_cols(self, num_bytes: usize, num_chars: usize) -> (r: Self)
        requires
            self.char_ofs_spec() + num_chars <= usize::MAX,
            self.column_spec() + num_chars <= usize::MAX,
        ensures
            r.line_spec() == self.line_spec(),
            r.column_spec() == self.column_spec() + num_chars,
            r.char_ofs_spec() == self.char_ofs_spec() + num_chars,
    {
        Self { line: self.line, column: self.column + num_chars, char_ofs: self.char_ofs + num_chars }
    }

    /// The place after a newline character (`'\n'`, one byte): the start of the next line.
    pub fn advance_line(self, num_bytes: usize) -> (r: Self)
        requires
            num_bytes == 1,
            self.char_ofs_spec() + 1 <= usize::MAX,
            self.line_spec() + 1 <= usize::MAX,
        ensures
            r.line_spec() == self.line_spec() + 1,
            r.column_spec() == 1,
            r.char_ofs_spec() == self.char_ofs_spec() + 1,
    {
        Self { line: self.line + 1, column: 1, char_ofs: self.char_ofs + 1 }
    }
}

impl Default for LineColumnChar {
    /// The start of a stream: line 1, column 1, character 0.
    fn default() -> (r: Self)
        ensures
            r.line_spec() == 1,
            r.column_spec() == 1,
            r.char_ofs_spec() == 0,
    {
        Self { line: 1, column: 1, char_ofs: 0 }
    }
}

} // verus!
