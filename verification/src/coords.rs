use vstd::prelude::*;

verus! {

/// Width of a tab stop in visual columns.
pub const TAB_SIZE: u32 = 4;

/// A zero-based line number inside a document.
#[derive(Debug, Clone, Copy, PartialEq, Eq, Structural, PartialOrd, Ord, Hash, Default)]
pub struct DocLine(pub u32);

impl DocLine {
    pub fn new(value: u32) -> (r: Self)
        ensures
            r.0 == value,
    {
        DocLine(value)
    }

    pub fn get(self) -> (r: u32)
        ensures
            r == self.0,
    {
        self.0
    }

    pub fn saturating_add(self, rhs: u32) -> (r: Self)
        ensures
            r.0 == (if self.0 + rhs > u32::MAX { u32::MAX as int } else { self.0 + rhs }),
    {
        DocLine(self.0.saturating_add(rhs))
    }

    pub fn saturating_sub(self, rhs: u32) -> (r: Self)
        ensures
            r.0 == (if self.0 < rhs { 0 } else { self.0 - rhs }),
    {
        DocLine(self.0.saturating_sub(rhs))
    }
}

/// A zero-based visual column, counting tab stops as the columns they span.
#[derive(Debug, Clone, Copy, PartialEq, Eq, Structural, PartialOrd, Ord, Hash, Default)]
pub struct VisualCol(pub u32);

impl VisualCol {
    pub fn new(value: u32) -> (r: Self)
        ensures
            r.0 == value,
    {
        VisualCol(value)
    }

    pub fn get(self) -> (r: u32)
        ensures
            r == self.0,
    {
        self.0
    }

    pub fn saturating_add(self, rhs: u32) -> (r: Self)
        ensures
            r.0 == (if self.0 + rhs > u32::MAX { u32::MAX as int } else { self.0 + rhs }),
    {
        VisualCol(self.0.saturating_add(rhs))
    }

    pub fn saturating_sub(self, rhs: u32) -> (r: Self)
        ensures
            r.0 == (if self.0 < rhs { 0 } else { self.0 - rhs }),
    {
        VisualCol(self.0.saturating_sub(rhs))
    }
}

/// A byte offset inside a single document node.
#[derive(Debug, Clone, Copy, PartialEq, Eq, Structural, PartialOrd, Ord, Hash, Default)]
pub struct NodeByteOffset(pub u32);

impl NodeByteOffset {
    pub fn new(value: u32) -> (r: Self)
        ensures
            r.0 == value,
    {
        NodeByteOffset(value)
    }

    pub fn get(self) -> (r: u32)
        ensures
            r == self.0,
    {
        self.0
    }

    pub fn saturating_add(self, rhs: u32) -> (r: Self)
        ensures
            r.0 == (if self.0 + rhs > u32::MAX { u32::MAX as int } else { self.0 + rhs }),
    {
        NodeByteOffset(self.0.saturating_add(rhs))
    }

    pub fn saturating_sub(self, rhs: u32) -> (r: Self)
        ensures
            r.0 == (if self.0 < rhs { 0 } else { self.0 - rhs }),
    {
        NodeByteOffset(self.0.saturating_sub(rhs))
    }
}

/// A zero-based row on the terminal screen.
#[derive(Debug, Clone, Copy, PartialEq, Eq, Structural, PartialOrd, Ord, Hash, Default)]
pub struct ScreenRow(pub u32);

impl ScreenRow {
    pub fn new(value: u32) -> (r: Self)
        ensures
            r.0 == value,
    {
        ScreenRow(value)
    }

    pub fn get(self) -> (r: u32)
        ensures
            r == self.0,
    {
        self.0
    }

    pub fn saturating_add(self, rhs: u32) -> (r: Self)
        ensures
            r.0 == (if self.0 + rhs > u32::MAX { u32::MAX as int } else { self.0 + rhs }),
    {
        ScreenRow(self.0.saturating_add(rhs))
    }

    pub fn saturating_sub(self, rhs: u32) -> (r: Self)
        ensures
            r.0 == (if self.0 < rhs { 0 } else { self.0 - rhs }),
    {
        ScreenRow(self.0.saturating_sub(rhs))
    }
}

/// A zero-based byte offset inside a document.
#[derive(Debug, Clone, Copy, PartialEq, Eq, Structural, PartialOrd, Ord, Hash, Default)]
pub struct DocByte(pub u64);

impl DocByte {
    pub fn new(value: u64) -> (r: Self)
        ensures
            r.0 == value,
    {
        DocByte(value)
    }

    pub fn get(self) -> (r: u64)
        ensures
            r == self.0,
    {
        self.0
    }

    pub fn saturating_add(self, rhs: u64) -> (r: Self)
        ensures
            r.0 == (if self.0 + rhs > u64::MAX { u64::MAX as int } else { self.0 + rhs }),
    {
        DocByte(self.0.saturating_add(rhs))
    }

    pub fn saturating_sub(self, rhs: u64) -> (r: Self)
        ensures
            r.0 == (if self.0 < rhs { 0 } else { self.0 - rhs }),
    {
        DocByte(self.0.saturating_sub(rhs))
    }
}

/// Identifier of one document state in the undo history.
#[derive(Debug, Clone, Copy, PartialEq, Eq, Structural, PartialOrd, Ord, Hash, Default)]
pub struct StateId(pub u64);

impl StateId {
    pub fn new(value: u64) -> (r: Self)
        ensures
            r.0 == value,
    {
        StateId(value)
    }

    pub fn get(self) -> (r: u64)
        ensures
            r == self.0,
    {
        self.0
    }

    pub fn saturating_add(self, rhs: u64) -> (r: Self)
        ensures
            r.0 == (if self.0 + rhs > u64::MAX { u64::MAX as int } else { self.0 + rhs }),
    {
        StateId(self.0.saturating_add(rhs))
    }

    pub fn saturating_sub(self, rhs: u64) -> (r: Self)
        ensures
            r.0 == (if self.0 < rhs { 0 } else { self.0 - rhs }),
    {
        StateId(self.0.saturating_sub(rhs))
    }
}

/// Identifier of one asynchronous request.
#[derive(Debug, Clone, Copy, PartialEq, Eq, Structural, PartialOrd, Ord, Hash, Default)]
pub struct RequestId(pub u64);

impl RequestId {
    pub fn new(value: u64) -> (r: Self)
        ensures
            r.0 == value,
    {
        RequestId(value)
    }

    pub fn get(self) -> (r: u64)
        ensures
            r == self.0,
    {
        self.0
    }

    pub fn saturating_add(self, rhs: u64) -> (r: Self)
        ensures
            r.0 == (if self.0 + rhs > u64::MAX { u64::MAX as int } else { self.0 + rhs }),
    {
        RequestId(self.0.saturating_add(rhs))
    }

    pub fn saturating_sub(self, rhs: u64) -> (r: Self)
        ensures
            r.0 == (if self.0 < rhs { 0 } else { self.0 - rhs }),
    {
        RequestId(self.0.saturating_sub(rhs))
    }
}

/// A cursor location as a line and a visual column.
#[derive(Debug, Clone, Copy, PartialEq, Eq, Structural, Default)]
pub struct CursorPosition {
    pub line: DocLine,
    pub col: VisualCol,
}

impl CursorPosition {
    pub fn new(line: DocLine, col: VisualCol) -> (r: Self)
        ensures
            r.line == line,
            r.col == col,
    {
        CursorPosition { line, col }
    }
}

} // verus!
