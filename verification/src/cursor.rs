//! A text-cursor descriptor: a screen-cell position + shape that a host
//! realizes (pixel scanlines, or a future text-mode BIOS cursor). It is never
//! written into the cell buffer, so it never overwrites a glyph.
use vstd::prelude::*;

verus! {

#[derive(Debug, Clone, Copy, PartialEq, Eq, Structural)]
pub enum CursorShape {
    /// Thin underline at the bottom of the cell.
    Insert,
    /// Full-cell block (reverse video).
    Overtype,
}

#[derive(Debug, Clone, Copy, PartialEq, Eq, Structural)]
pub struct TextCursor {
    pub col: u16,
    pub row: u16,
    pub shape: CursorShape,
}

} // verus!
