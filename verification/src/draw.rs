//! A small drawing vocabulary shared by [`CellBuffer`] and [`Layer`].
//!
//! [`CellCanvas`] is the minimal surface a target must provide; [`CellDraw`]
//! is blanket-implemented on top of it, so both targets get every helper for
//! free. Text is CP437 bytes, not Unicode.
use vstd::prelude::*;

use crate::cell::{Cell, CellBuffer};
use crate::cp437::{fold, fold_char};
use crate::geom::{sat_add, Point, Rect, Size};
use crate::layer::{Layer, LayerCell};
use vstd::string::*;

verus! {

/// A surface that cells can be written to.
///
/// `put` is bounds-safe by contract — writing outside the surface is a no-op,
/// never a panic. That is what lets callers draw a panel that overhangs an
/// edge without pre-clipping.
pub trait CellCanvas: Sized {
    /// The surface is consistent, so that every write is legal.
    spec fn canvas_ok(&self) -> bool;

    /// Dimensions of this surface, in its own local coordinates.
    spec fn canvas_size(&self) -> Size;

    /// Where the surface sits on the screen. Drawing never moves it.
    spec fn canvas_origin(&self) -> Point;

    /// What position `(x, y)` holds: an opaque cell inside the surface,
    /// `Transparent` where a layer holds nothing, and outside the surface.
    spec fn content_at(&self, x: int, y: int) -> LayerCell;

    /// Dimensions of this surface, in its own local coordinates.
    fn size(&self) -> (s: Size)
        ensures
            s == self.canvas_size(),
    ;

    /// Write one cell. Out of bounds is a silent no-op.
    fn put(&mut self, x: u16, y: u16, cell: Cell)
        requires
            old(self).canvas_ok(),
        ensures
            final(self).canvas_ok(),
            final(self).canvas_size() == old(self).canvas_size(),
            final(self).canvas_origin() == old(self).canvas_origin(),
            forall|px: int, py: int|
                #![trigger final(self).content_at(px, py)]
                final(self).content_at(px, py) == if px == x && py == y && x
                    < old(self).canvas_size().w && y < old(self).canvas_size().h {
                    LayerCell::Opaque(cell)
                } else {
                    old(self).content_at(px, py)
                },
    ;
}

impl CellCanvas for CellBuffer {
    open spec fn canvas_ok(&self) -> bool {
        self.wf()
    }

    open spec fn canvas_size(&self) -> Size {
        Size { w: self.cols, h: self.rows }
    }

    open spec fn canvas_origin(&self) -> Point {
        Point { x: 0, y: 0 }
    }

    open spec fn content_at(&self, x: int, y: int) -> LayerCell {
        if 0 <= x < self.cols && 0 <= y < self.rows {
            LayerCell::Opaque(self.at(x, y))
        } else {
            LayerCell::Transparent
        }
    }

    fn size(&self) -> (s: Size) {
        Size::new(self.cols, self.rows)
    }

    fn put(&mut self, x: u16, y: u16, cell: Cell) {
        // CellBuffer::set panics out of bounds; guard it here.
        if x >= self.cols || y >= self.rows {
            return;
        }
        self.set(x, y, cell);
    }
}

impl CellCanvas for Layer {
    open spec fn canvas_ok(&self) -> bool {
        self.wf()
    }

    open spec fn canvas_size(&self) -> Size {
        self.size_of()
    }

    open spec fn canvas_origin(&self) -> Point {
        self.origin_of()
    }

    open spec fn content_at(&self, x: int, y: int) -> LayerCell {
        self.cell_at(x, y)
    }

    fn size(&self) -> (s: Size) {
        self.bounds().size
    }

    fn put(&mut self, x: u16, y: u16, cell: Cell) {
        // Layer::set is already bounds-safe.
        self.set(x, y, LayerCell::Opaque(cell));
    }
}

/// The CP437 glyphs that make up a box frame, including the tee junctions
/// used where an interior separator meets the frame.
#[derive(Debug, Clone, Copy, PartialEq, Eq, Structural)]
pub struct BoxChars {
    pub tl: u8,
    pub tr: u8,
    pub bl: u8,
    pub br: u8,
    pub h: u8,
    pub v: u8,
    /// Tee opening rightward from the left wall (`├`) — start of a
    /// horizontal separator inside a framed panel.
    pub tee_l: u8,
    /// Tee opening leftward from the right wall (`┤`) — end of a
    /// horizontal separator inside a framed panel.
    pub tee_r: u8,
    /// Tee opening downward from the top wall (`┬`).
    pub tee_t: u8,
    /// Tee opening upward from the bottom wall (`┴`).
    pub tee_b: u8,
}

impl BoxChars {
    /// CP437 single-line frame — CUA uses this for inner rules.
    pub open spec fn spec_single() -> BoxChars {
        BoxChars {
            tl: 0xDA,
            tr: 0xBF,
            bl: 0xC0,
            br: 0xD9,
            h: 0xC4,
            v: 0xB3,
            tee_l: 0xC3,
            tee_r: 0xB4,
            tee_t: 0xC2,
            tee_b: 0xC1,
        }
    }

    /// CP437 double-line frame — CUA uses this for dialog borders.
    pub open spec fn spec_double() -> BoxChars {
        BoxChars {
            tl: 0xC9,
            tr: 0xBB,
            bl: 0xC8,
            br: 0xBC,
            h: 0xCD,
            v: 0xBA,
            tee_l: 0xCC,
            tee_r: 0xB9,
            tee_t: 0xCB,
            tee_b: 0xCA,
        }
    }

    /// CP437 single-line frame — CUA uses this for inner rules.
    #[verifier::when_used_as_spec(spec_single)]
    pub fn single() -> (b: BoxChars)
        ensures
            b == BoxChars::spec_single(),
    {
        BoxChars {
            tl: 0xDA,
            tr: 0xBF,
            bl: 0xC0,
            br: 0xD9,
            h: 0xC4,
            v: 0xB3,
            tee_l: 0xC3,
            tee_r: 0xB4,
            tee_t: 0xC2,
            tee_b: 0xC1,
        }
    }

    /// CP437 double-line frame — CUA uses this for dialog borders.
    #[verifier::when_used_as_spec(spec_double)]
    pub fn double() -> (b: BoxChars)
        ensures
            b == BoxChars::spec_double(),
    {
        BoxChars {
            tl: 0xC9,
            tr: 0xBB,
            bl: 0xC8,
            br: 0xBC,
            h: 0xCD,
            v: 0xBA,
            tee_l: 0xCC,
            tee_r: 0xB9,
            tee_t: 0xCB,
            tee_b: 0xCA,
        }
    }
}

/// How many cells `write_str` writes: one per `char`, stopping at the right
/// edge, and none at all from below or right of the surface.
pub open spec fn write_count(size: Size, at: Point, len: nat) -> nat {
    if at.y >= size.h || at.x >= size.w {
        0
    } else if len <= size.w - at.x {
        len
    } else {
        (size.w - at.x) as nat
    }
}

/// The glyph `draw_box` leaves at `(x, y)` for the frame of `r`, if any.
///
/// Corners are drawn last, in the order top-left, top-right, bottom-left,
/// bottom-right, so on a degenerate rect the later corner wins.
pub open spec fn box_glyph(r: Rect, chars: BoxChars, x: int, y: int) -> Option<u8> {
    let x0 = r.origin.x as int;
    let y0 = r.origin.y as int;
    let x1 = sat_add(r.origin.x, r.size.w) - 1;
    let y1 = sat_add(r.origin.y, r.size.h) - 1;
    if r.size.w == 0 || r.size.h == 0 {
        None
    } else if x == x1 && y == y1 {
        Some(chars.br)
    } else if x == x0 && y == y1 {
        Some(chars.bl)
    } else if x == x1 && y == y0 {
        Some(chars.tr)
    } else if x == x0 && y == y0 {
        Some(chars.tl)
    } else if r.size.w > 2 && x0 + 1 <= x < x1 && (y == y0 || y == y1) && x0 < u16::MAX {
        Some(chars.h)
    } else if r.size.h > 2 && y0 + 1 <= y < y1 && (x == x0 || x == x1) && y0 < u16::MAX {
        Some(chars.v)
    } else {
        None
    }
}

/// Drawing helpers, blanket-implemented for every [`CellCanvas`].
pub trait CellDraw: CellCanvas {
    /// Write `s` starting at `at`, truncating at the right edge.
    ///
    /// Returns the number of cells actually written — one per `char`, so the
    /// count is the rendered width, not a byte length.
    ///
    /// Characters are folded to CP437 through [`crate::cp437::from_char`];
    /// anything CP437 cannot represent becomes `?`. One `char` always occupies
    /// exactly one cell, which is what lets callers reason about column
    /// alignment.
    fn write_str(&mut self, at: Point, s: &str, attr: u8) -> (n: u16)
        requires
            old(self).canvas_ok(),
        ensures
            final(self).canvas_ok(),
            final(self).canvas_size() == old(self).canvas_size(),
            final(self).canvas_origin() == old(self).canvas_origin(),
            n == write_count(old(self).canvas_size(), at, s@.len()),
            forall|px: int, py: int|
                #![trigger final(self).content_at(px, py)]
                final(self).content_at(px, py) == if py == at.y && at.x <= px < at.x + n {
                    LayerCell::Opaque(Cell { ch: fold_char(s@[px - at.x]), attr })
                } else {
                    old(self).content_at(px, py)
                },
    {
        let size = self.size();
        if at.y >= size.h {
            return 0;
        }
        let len = s.unicode_len();
        let mut x = at.x;
        let mut written: u16 = 0;
        let mut i: usize = 0;
        while i < len
            invariant_except_break
                i <= len,
                len == s@.len(),
                x == at.x + i,
                written == i,
                at.y < size.h,
                size == old(self).canvas_size(),
                x <= size.w || i == 0,
                self.canvas_ok(),
                self.canvas_size() == size,
                self.canvas_origin() == old(self).canvas_origin(),
                forall|px: int, py: int|
                    #![trigger self.content_at(px, py)]
                    self.content_at(px, py) == if py == at.y && at.x <= px < at.x + i {
                        LayerCell::Opaque(Cell { ch: fold_char(s@[px - at.x]), attr })
                    } else {
                        old(self).content_at(px, py)
                    },
            ensures
                written == write_count(size, at, len as nat),
                self.canvas_ok(),
                self.canvas_size() == size,
                self.canvas_origin() == old(self).canvas_origin(),
                forall|px: int, py: int|
                    #![trigger self.content_at(px, py)]
                    self.content_at(px, py) == if py == at.y && at.x <= px < at.x + written {
                        LayerCell::Opaque(Cell { ch: fold_char(s@[px - at.x]), attr })
                    } else {
                        old(self).content_at(px, py)
                    },
            decreases len - i,
        {
            if x >= size.w {
                break;
            }
            let ch = s.get_char(i);
            let byte = fold(ch);
            self.put(x, at.y, Cell { ch: byte, attr });
            x = x + 1;
            written = written + 1;
            i = i + 1;
        }
        written
    }

    /// Fill `r` with `cell`, clipped to the canvas.
    fn fill_rect(&mut self, r: Rect, cell: Cell)
        requires
            old(self).canvas_ok(),
        ensures
            final(self).canvas_ok(),
            final(self).canvas_size() == old(self).canvas_size(),
            final(self).canvas_origin() == old(self).canvas_origin(),
            forall|px: int, py: int|
                #![trigger final(self).content_at(px, py)]
                final(self).content_at(px, py) == if r.holds(px, py) && 0 <= px
                    < old(self).canvas_size().w && 0 <= py < old(self).canvas_size().h {
                    LayerCell::Opaque(cell)
                } else {
                    old(self).content_at(px, py)
                },
    {
        let size = self.size();
        let canvas = Rect::new(0, 0, size.w, size.h);
        let clip = match r.intersect(&canvas) {
            Some(clip) => clip,
            None => {
                proof {
                    assert forall|px: int, py: int|
                        !(r.holds(px, py) && 0 <= px < size.w && 0 <= py < size.h) by {
                        crate::geom::lemma_intersect_is_common_cells(r, canvas, px, py);
                    }
                }
                return;
            },
        };
        let ghost before = *self;
        let y0 = clip.top();
        let y1 = clip.bottom();
        let x0 = clip.left();
        let x1 = clip.right();
        let mut y = y0;
        while y < y1
            invariant
                y0 <= y <= y1,
                x0 <= x1,
                self.canvas_ok(),
                self.canvas_size() == size,
                self.canvas_origin() == old(self).canvas_origin(),
                size == before.canvas_size(),
                x1 <= size.w,
                y1 <= size.h,
                forall|px: int, py: int|
                    #![trigger self.content_at(px, py)]
                    self.content_at(px, py) == if x0 <= px < x1 && y0 <= py < y {
                        LayerCell::Opaque(cell)
                    } else {
                        before.content_at(px, py)
                    },
            decreases y1 - y,
        {
            let mut x = x0;
            while x < x1
                invariant
                    y0 <= y < y1,
                    x0 <= x <= x1,
                    self.canvas_ok(),
                    self.canvas_size() == size,
                    self.canvas_origin() == old(self).canvas_origin(),
                    x1 <= size.w,
                    y1 <= size.h,
                    forall|px: int, py: int|
                        #![trigger self.content_at(px, py)]
                        self.content_at(px, py) == if (x0 <= px < x1 && y0 <= py < y) || (x0 <= px
                            < x && py == y) {
                            LayerCell::Opaque(cell)
                        } else {
                            before.content_at(px, py)
                        },
                decreases x1 - x,
            {
                self.put(x, y, cell);
                x = x + 1;
            }
            y = y + 1;
        }
        proof {
            assert forall|px: int, py: int|
                #![trigger self.content_at(px, py)]
                self.content_at(px, py) == if r.holds(px, py) && 0 <= px < size.w && 0 <= py
                    < size.h {
                    LayerCell::Opaque(cell)
                } else {
                    before.content_at(px, py)
                } by {
                crate::geom::lemma_intersect_is_common_cells(r, canvas, px, py);
            }
        }
    }

    /// Draw a horizontal run of `ch`, clipped to the canvas.
    fn draw_hline(&mut self, at: Point, len: u16, ch: u8, attr: u8)
        requires
            old(self).canvas_ok(),
        ensures
            final(self).canvas_ok(),
            final(self).canvas_size() == old(self).canvas_size(),
            final(self).canvas_origin() == old(self).canvas_origin(),
            forall|px: int, py: int|
                #![trigger final(self).content_at(px, py)]
                final(self).content_at(px, py) == if py == at.y && at.x <= px < at.x + len && px
                    < old(self).canvas_size().w && py < old(self).canvas_size().h {
                    LayerCell::Opaque(Cell { ch, attr })
                } else {
                    old(self).content_at(px, py)
                },
    {
        let ghost size = self.canvas_size();
        let mut i: u16 = 0;
        while i < len
            invariant_except_break
                i <= len,
                self.canvas_ok(),
                self.canvas_size() == size,
                self.canvas_origin() == old(self).canvas_origin(),
                size == old(self).canvas_size(),
                forall|px: int, py: int|
                    #![trigger self.content_at(px, py)]
                    self.content_at(px, py) == if py == at.y && at.x <= px < at.x + i && px
                        < size.w && py < size.h {
                        LayerCell::Opaque(Cell { ch, attr })
                    } else {
                        old(self).content_at(px, py)
                    },
            ensures
                self.canvas_ok(),
                self.canvas_size() == size,
                self.canvas_origin() == old(self).canvas_origin(),
                forall|px: int, py: int|
                    #![trigger self.content_at(px, py)]
                    self.content_at(px, py) == if py == at.y && at.x <= px < at.x + len && px
                        < size.w && py < size.h {
                        LayerCell::Opaque(Cell { ch, attr })
                    } else {
                        old(self).content_at(px, py)
                    },
            decreases len - i,
        {
            let x = match at.x.checked_add(i) {
                Some(x) => x,
                None => {
                    break;
                },
            };
            self.put(x, at.y, Cell { ch, attr });
            i = i + 1;
        }
    }

    /// Draw a box frame around `r`. The interior is left untouched — call
    /// `fill_rect` first for a filled panel.
    ///
    /// Rects narrower or shorter than 2 collapse gracefully: corners are
    /// drawn last, so a 1x1 rect ends up as a single corner glyph rather
    /// than a panic.
    fn draw_box(&mut self, r: Rect, chars: BoxChars, attr: u8)
        requires
            old(self).canvas_ok(),
        ensures
            final(self).canvas_ok(),
            final(self).canvas_size() == old(self).canvas_size(),
            final(self).canvas_origin() == old(self).canvas_origin(),
            forall|px: int, py: int|
                #![trigger final(self).content_at(px, py)]
                final(self).content_at(px, py) == if 0 <= px < old(self).canvas_size().w && 0
                    <= py < old(self).canvas_size().h && box_glyph(r, chars, px, py) is Some {
                    LayerCell::Opaque(Cell { ch: box_glyph(r, chars, px, py)->0, attr })
                } else {
                    old(self).content_at(px, py)
                },
    {
        if r.size.is_empty() {
            return;
        }
        let ghost size = self.canvas_size();
        let ghost before = *self;
        let x0 = r.left();
        let y0 = r.top();
        let x1 = r.right() - 1;  // inclusive
        let y1 = r.bottom() - 1;
        if r.size.w > 2 {
            let mut x = x0.saturating_add(1);
            while x < x1
                invariant
                    r.size.w > 2,
                    x0 == r.origin.x,
                    y0 == r.origin.y,
                    x1 == sat_add(r.origin.x, r.size.w) - 1,
                    y1 == sat_add(r.origin.y, r.size.h) - 1,
                    sat_add(x0, 1) <= x <= x1 || (x == sat_add(x0, 1) && x >= x1),
                    self.canvas_ok(),
                    self.canvas_size() == size,
                    self.canvas_origin() == old(self).canvas_origin(),
                    before.canvas_size() == size,
                    forall|px: int, py: int|
                        #![trigger self.content_at(px, py)]
                        self.content_at(px, py) == if 0 <= px < size.w && 0 <= py < size.h && x0
                            < u16::MAX && x0 + 1 <= px < x && (py == y0 || py == y1) {
                            LayerCell::Opaque(Cell { ch: chars.h, attr })
                        } else {
                            before.content_at(px, py)
                        },
                decreases x1 - x,
            {
                self.put(x, y0, Cell { ch: chars.h, attr });
                self.put(x, y1, Cell { ch: chars.h, attr });
                x = x + 1;
            }
        }
        let ghost mid = *self;
        if r.size.h > 2 {
            let mut y = y0.saturating_add(1);
            while y < y1
                invariant
                    r.size.h > 2,
                    x0 == r.origin.x,
                    y0 == r.origin.y,
                    x1 == sat_add(r.origin.x, r.size.w) - 1,
                    y1 == sat_add(r.origin.y, r.size.h) - 1,
                    sat_add(y0, 1) <= y <= y1 || (y == sat_add(y0, 1) && y >= y1),
                    self.canvas_ok(),
                    self.canvas_size() == size,
                    self.canvas_origin() == old(self).canvas_origin(),
                    forall|px: int, py: int|
                        #![trigger self.content_at(px, py)]
                        self.content_at(px, py) == if 0 <= px < size.w && 0 <= py < size.h && y0
                            < u16::MAX && y0 + 1 <= py < y && (px == x0 || px == x1) {
                            LayerCell::Opaque(Cell { ch: chars.v, attr })
                        } else {
                            mid.content_at(px, py)
                        },
                decreases y1 - y,
            {
                self.put(x0, y, Cell { ch: chars.v, attr });
                self.put(x1, y, Cell { ch: chars.v, attr });
                y = y + 1;
            }
        }
        // Corners last so they win on degenerate rects.
        self.put(x0, y0, Cell { ch: chars.tl, attr });
        self.put(x1, y0, Cell { ch: chars.tr, attr });
        self.put(x0, y1, Cell { ch: chars.bl, attr });
        self.put(x1, y1, Cell { ch: chars.br, attr });
    }
}

impl<T: CellCanvas> CellDraw for T {

}

} // verus!
