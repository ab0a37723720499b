//! Rectangular layers stacked over a base [`CellBuffer`].
//!
//! This is Turbo Vision's view model: each layer is a rectangle at an origin,
//! and the stack is flattened onto the base at display time. The scroll owns
//! the base buffer and shifts rows out of it, so anything drawn directly there
//! is destroyed — layers are how an overlay survives.
use vstd::prelude::*;

use crate::cell::{grid_index, lemma_grid_index_bounds, lemma_grid_index_injective, lemma_grid_fits, Cell, CellBuffer};
use crate::geom::{Point, Rect, Size};
use vstd::std_specs::iter::IteratorSpec;

verus! {

broadcast use vstd::std_specs::slice::axiom_spec_slice_iter;

/// The attribute a [`LayerCell::Shade`] forces onto the cell beneath it:
/// dark grey (8) on black (0), no blink. This is what Turbo Vision's drop
/// shadow did.
pub const SHADE_ATTR: u8 = 0x08;

/// One cell of a layer.
#[derive(Debug, Clone, Copy, PartialEq, Eq, Structural, Default)]
pub enum LayerCell {
    /// The underlying cell shows through unchanged.
    #[default]
    Transparent,
    /// Replaces the underlying cell entirely.
    Opaque(Cell),
    /// Keeps the underlying character but forces [`SHADE_ATTR`].
    ///
    /// Needed because a drop shadow is L-shaped: a panel's bounding rect,
    /// once grown to include its shadow, holds cells that are neither.
    Shade,
}

/// What a layer cell makes of the cell beneath it.
pub open spec fn apply_layer_cell(lc: LayerCell, below: Cell) -> Cell {
    match lc {
        LayerCell::Transparent => below,
        LayerCell::Opaque(c) => c,
        LayerCell::Shade => Cell { ch: below.ch, attr: SHADE_ATTR },
    }
}

/// A rectangular region of [`LayerCell`]s at an origin on the base grid.
#[derive(Debug, Clone)]
pub struct Layer {
    /// Position of this layer's top-left cell on the base grid.
    pub origin: Point,
    size: Size,
    cells: Vec<LayerCell>,
}

impl Layer {
    /// The layer holds exactly one cell per position of its size.
    pub closed spec fn wf(&self) -> bool {
        self.cells@.len() == self.size.w * self.size.h
    }

    /// The layer's position on the base grid.
    pub closed spec fn origin_of(&self) -> Point {
        self.origin
    }

    /// The layer's size.
    pub closed spec fn size_of(&self) -> Size {
        self.size
    }

    /// The cell at layer-local `(x, y)`; `Transparent` outside the layer.
    pub closed spec fn cell_at(&self, x: int, y: int) -> LayerCell {
        if 0 <= x < self.size.w && 0 <= y < self.size.h && grid_index(self.size.w, x, y)
            < self.cells@.len() {
            self.cells@[grid_index(self.size.w, x, y)]
        } else {
            LayerCell::Transparent
        }
    }

    /// The cell this layer holds over base-grid position `(x, y)`: its cell
    /// at the layer-local position.
    pub open spec fn cell_over(&self, x: int, y: int) -> LayerCell {
        self.cell_at(x - self.origin_of().x, y - self.origin_of().y)
    }

    /// Outside `0..w × 0..h` a layer holds nothing: every position there
    /// reads as `Transparent`.
    pub proof fn lemma_outside_is_transparent(&self, x: int, y: int)
        ensures
            !(0 <= x < self.size_of().w && 0 <= y < self.size_of().h) ==> self.cell_at(x, y)
                == LayerCell::Transparent,
    {
    }

    /// Only a cell inside the layer's footprint on the base grid can be
    /// anything but transparent.
    pub proof fn lemma_cell_over_in_footprint(&self, x: int, y: int)
        ensures
            self.cell_over(x, y) != LayerCell::Transparent ==> self.origin_of().x <= x
                < self.origin_of().x + self.size_of().w && self.origin_of().y <= y
                < self.origin_of().y + self.size_of().h,
    {
    }

    proof fn lemma_uniform(&self, c: LayerCell)
        requires
            self.wf(),
            forall|i: int| 0 <= i < self.cells@.len() ==> self.cells@[i] == c,
        ensures
            forall|x: int, y: int|
                #![trigger self.cell_at(x, y)]
                self.cell_at(x, y) == if 0 <= x < self.size.w && 0 <= y < self.size.h {
                    c
                } else {
                    LayerCell::Transparent
                },
    {
        assert forall|x: int, y: int|
            #![trigger self.cell_at(x, y)]
            self.cell_at(x, y) == if 0 <= x < self.size.w && 0 <= y < self.size.h {
                c
            } else {
                LayerCell::Transparent
            } by {
            if 0 <= x < self.size.w && 0 <= y < self.size.h {
                lemma_grid_index_bounds(self.size.w, self.size.h, x, y);
            }
        }
    }

    fn uniform(origin: Point, size: Size, c: LayerCell) -> (l: Self)
        ensures
            l.wf(),
            l.origin_of() == origin,
            l.size_of() == size,
            forall|x: int, y: int|
                #![trigger l.cell_at(x, y)]
                l.cell_at(x, y) == if 0 <= x < size.w && 0 <= y < size.h {
                    c
                } else {
                    LayerCell::Transparent
                },
    {
        proof {
            lemma_grid_fits(size.w, size.h);
        }
        let n = size.w as usize * size.h as usize;
        let mut cells: Vec<LayerCell> = Vec::new();
        let mut i: usize = 0;
        while i < n
            invariant
                i <= n,
                cells@.len() == i,
                forall|j: int| 0 <= j < i ==> cells@[j] == c,
            decreases n - i,
        {
            cells.push(c);
            i = i + 1;
        }
        let l = Self { origin, size, cells };
        proof {
            l.lemma_uniform(c);
        }
        l
    }

    /// This layer's rect on the base grid.
    pub open spec fn spec_bounds(&self) -> Rect {
        Rect { origin: self.origin_of(), size: self.size_of() }
    }

    /// A fully transparent layer.
    pub fn new(origin: Point, size: Size) -> (l: Self)
        ensures
            l.wf(),
            l.origin_of() == origin,
            l.size_of() == size,
            forall|x: int, y: int| #[trigger] l.cell_at(x, y) == LayerCell::Transparent,
    {
        Self::uniform(origin, size, LayerCell::Transparent)
    }

    /// A layer filled entirely with one opaque cell.
    pub fn filled(origin: Point, size: Size, cell: Cell) -> (l: Self)
        ensures
            l.wf(),
            l.origin_of() == origin,
            l.size_of() == size,
            forall|x: int, y: int|
                #![trigger l.cell_at(x, y)]
                l.cell_at(x, y) == if 0 <= x < size.w && 0 <= y < size.h {
                    LayerCell::Opaque(cell)
                } else {
                    LayerCell::Transparent
                },
    {
        Self::uniform(origin, size, LayerCell::Opaque(cell))
    }

    pub fn size(&self) -> (s: Size)
        ensures
            s == self.size_of(),
    {
        self.size
    }

    /// This layer's rect on the base grid, in SCREEN coordinates (`origin`
    /// included). To fill or draw into the layer itself, use
    /// [`Layer::local_bounds`] instead.
    #[verifier::when_used_as_spec(spec_bounds)]
    pub fn bounds(&self) -> (r: Rect)
        ensures
            r == (Rect { origin: self.origin_of(), size: self.size_of() }),
    {
        Rect { origin: self.origin, size: self.size }
    }

    /// This layer's rect in its OWN local coordinates, origin at (0, 0).
    pub fn local_bounds(&self) -> (r: Rect)
        ensures
            r == Rect::mk(0, 0, self.size_of().w, self.size_of().h),
    {
        Rect::new(0, 0, self.size.w, self.size.h)
    }

    /// Read a cell in layer-local coordinates. Out of bounds reads as
    /// `Transparent` rather than panicking.
    pub fn get(&self, x: u16, y: u16) -> (c: LayerCell)
        ensures
            c == self.cell_at(x as int, y as int),
            x >= self.size_of().w || y >= self.size_of().h ==> c == LayerCell::Transparent,
    {
        if x >= self.size.w || y >= self.size.h {
            return LayerCell::Transparent;
        }
        proof {
            lemma_grid_index_bounds(self.size.w, self.size.h, x as int, y as int);
            lemma_grid_fits(self.size.w, self.size.h);
        }
        let i = y as usize * self.size.w as usize + x as usize;
        if i >= self.cells.len() {
            return LayerCell::Transparent;
        }
        self.cells[i]
    }

    /// Write a cell in layer-local coordinates. Out of bounds is a no-op.
    pub fn set(&mut self, x: u16, y: u16, c: LayerCell)
        requires
            old(self).wf(),
        ensures
            final(self).wf(),
            final(self).origin_of() == old(self).origin_of(),
            final(self).size_of() == old(self).size_of(),
            forall|px: int, py: int|
                #![trigger final(self).cell_at(px, py)]
                final(self).cell_at(px, py) == if px == x && py == y && x < old(self).size_of().w
                    && y < old(self).size_of().h {
                    c
                } else {
                    old(self).cell_at(px, py)
                },
    {
        if x >= self.size.w || y >= self.size.h {
            return;
        }
        proof {
            lemma_grid_index_bounds(self.size.w, self.size.h, x as int, y as int);
            lemma_grid_fits(self.size.w, self.size.h);
        }
        let i = y as usize * self.size.w as usize + x as usize;
        self.cells.set(i, c);
        proof {
            assert forall|px: int, py: int|
                #![trigger self.cell_at(px, py)]
                self.cell_at(px, py) == if px == x && py == y && x < old(self).size.w && y
                    < old(self).size.h {
                    c
                } else {
                    old(self).cell_at(px, py)
                } by {
                if 0 <= px < self.size.w && 0 <= py < self.size.h {
                    lemma_grid_index_bounds(self.size.w, self.size.h, px, py);
                    if grid_index(self.size.w, px, py) == i {
                        lemma_grid_index_injective(self.size.w, px, py, x as int, y as int);
                    }
                }
            }
        }
    }

    /// Fill a layer-local region with any [`LayerCell`], clipped to this
    /// layer's bounds.
    ///
    /// `CellDraw::fill_rect` can only write `Opaque` cells; this is how a
    /// caller paints `Shade` (drop shadows) or punches a region back to
    /// `Transparent`.
    pub fn fill(&mut self, r: Rect, c: LayerCell)
        requires
            old(self).wf(),
        ensures
            final(self).wf(),
            final(self).origin_of() == old(self).origin_of(),
            final(self).size_of() == old(self).size_of(),
            forall|px: int, py: int|
                #![trigger final(self).cell_at(px, py)]
                final(self).cell_at(px, py) == if r.holds(px, py) && 0 <= px
                    < old(self).size_of().w && 0 <= py < old(self).size_of().h {
                    c
                } else {
                    old(self).cell_at(px, py)
                },
    {
        let local = Rect::new(0, 0, self.size.w, self.size.h);
        let clip = match r.intersect(&local) {
            Some(clip) => clip,
            None => {
                return;
            },
        };
        let ghost before = *self;
        let y0 = clip.top();
        let y1 = clip.bottom();
        let x0 = clip.left();
        let x1 = clip.right();
        let mut y = y0;
        while y < y1
            invariant
                y0 <= y <= y1,
                self.wf(),
                self.origin == before.origin,
                self.size_of() == before.size_of(),
                before.wf(),
                before == *old(self),
                clip == r.spec_intersect(&local).unwrap(),
                local == Rect::mk(0, 0, before.size_of().w, before.size_of().h),
                x0 == clip.spec_left(),
                x1 == clip.spec_right(),
                y0 == clip.spec_top(),
                y1 == clip.spec_bottom(),
                x1 <= before.size_of().w,
                y1 <= before.size_of().h,
                forall|px: int, py: int|
                    #![trigger self.cell_at(px, py)]
                    self.cell_at(px, py) == if x0 <= px < x1 && y0 <= py < y {
                        c
                    } else {
                        before.cell_at(px, py)
                    },
            decreases y1 - y,
        {
            let mut x = x0;
            while x < x1
                invariant
                    y0 <= y < y1,
                    x0 <= x <= x1,
                    self.wf(),
                    self.origin == before.origin,
                    self.size_of() == before.size_of(),
                    before.wf(),
                    clip == r.spec_intersect(&local).unwrap(),
                    local == Rect::mk(0, 0, before.size_of().w, before.size_of().h),
                    x0 == clip.spec_left(),
                    x1 == clip.spec_right(),
                    y0 == clip.spec_top(),
                    y1 == clip.spec_bottom(),
                    x1 <= before.size_of().w,
                    y1 <= before.size_of().h,
                    forall|px: int, py: int|
                        #![trigger self.cell_at(px, py)]
                        self.cell_at(px, py) == if (x0 <= px < x1 && y0 <= py < y) || (x0 <= px
                            < x && py == y) {
                            c
                        } else {
                            before.cell_at(px, py)
                        },
                decreases x1 - x,
            {
                self.set(x, y, c);
                x = x + 1;
            }
            y = y + 1;
        }
        proof {
            assert forall|px: int, py: int|
                #![trigger self.cell_at(px, py)]
                self.cell_at(px, py) == if r.holds(px, py) && 0 <= px < before.size.w && 0 <= py
                    < before.size.h {
                    c
                } else {
                    before.cell_at(px, py)
                } by {
                crate::geom::lemma_intersect_is_common_cells(r, local, px, py);
            }
        }
    }
}

/// Popping right after a push hands back the layer just pushed and leaves
/// the stack as it was before: in terms of [`LayerStack::push`] and
/// [`LayerStack::pop`], the pushed stack is non-empty, its top is `layer`,
/// and dropping that top restores `layers`.
pub proof fn lemma_pop_undoes_push(layers: Seq<Layer>, layer: Layer)
    ensures
        layers.push(layer).len() > 0,
        layers.push(layer).last() == layer,
        layers.push(layer).drop_last() == layers,
{
    assert(layers.push(layer).drop_last() =~= layers);
}

/// The stack's layers after pushing each of `pushed`, first to last, onto
/// `below`: what [`LayerStack::push`] does, once per layer.
pub open spec fn push_all(below: Seq<Layer>, pushed: Seq<Layer>) -> Seq<Layer>
    decreases pushed.len(),
{
    if pushed.len() == 0 {
        below
    } else {
        push_all(below, pushed.drop_last()).push(pushed.last())
    }
}

/// Pushing layers one by one onto an empty stack leaves them in the order
/// pushed, the first at the bottom: index `i` (what [`LayerStack::get`]
/// reads, and the `i`th layer [`LayerStack::iter`] yields) is the `i`th
/// layer pushed, and the length (what [`LayerStack::len`] reports) is the
/// number pushed.
pub proof fn lemma_pushes_read_back(pushed: Seq<Layer>)
    ensures
        push_all(Seq::empty(), pushed) == pushed,
        push_all(Seq::empty(), pushed).len() == pushed.len(),
        forall|i: int| 0 <= i < pushed.len() ==> #[trigger] push_all(Seq::empty(), pushed)[i] == pushed[i],
    decreases pushed.len(),
{
    if pushed.len() > 0 {
        lemma_pushes_read_back(pushed.drop_last());
        assert(pushed.drop_last().push(pushed.last()) =~= pushed);
    }
}

/// The cell shown at base-grid position `(x, y)` once `layers` are applied,
/// bottom to top, over `base`.
pub open spec fn composite_cell(layers: Seq<Layer>, base: Cell, x: int, y: int) -> Cell
    decreases layers.len(),
{
    if layers.len() == 0 {
        base
    } else {
        apply_layer_cell(
            layers.last().cell_over(x, y),
            composite_cell(layers.drop_last(), base, x, y),
        )
    }
}

/// An opaque cell hides everything below it: where layer `k` is opaque and
/// every layer above it is transparent, the composite shows layer `k`'s cell,
/// whatever the base and the layers under it hold.
pub proof fn lemma_opaque_hides_below(layers: Seq<Layer>, base: Cell, x: int, y: int, k: int)
    requires
        0 <= k < layers.len(),
        layers[k].cell_over(x, y) is Opaque,
        forall|j: int| k < j < layers.len() ==> #[trigger] layers[j].cell_over(x, y) is Transparent,
    ensures
        composite_cell(layers, base, x, y) == layers[k].cell_over(x, y)->Opaque_0,
    decreases layers.len(),
{
    if k < layers.len() - 1 {
        let below = layers.drop_last();
        assert forall|j: int| k < j < below.len() implies #[trigger] below[j].cell_over(x, y) is Transparent by {
            assert(below[j] == layers[j]);
        }
        assert(layers[layers.len() - 1].cell_over(x, y) is Transparent);
        lemma_opaque_hides_below(below, base, x, y, k);
    }
}

/// A bottom-to-top stack of layers, flattened onto a base buffer.
#[derive(Debug, Clone, Default)]
pub struct LayerStack {
    layers: Vec<Layer>,
}

impl LayerStack {
    /// The layers, bottom to top.
    pub closed spec fn layers_of(&self) -> Seq<Layer> {
        self.layers@
    }

    pub fn new() -> (s: Self)
        ensures
            s.layers_of() == Seq::<Layer>::empty(),
    {
        LayerStack { layers: Vec::new() }
    }

    /// Push a layer on top of the stack.
    pub fn push(&mut self, layer: Layer)
        ensures
            final(self).layers_of() == old(self).layers_of().push(layer),
    {
        self.layers.push(layer);
    }

    /// Remove and return the topmost layer.
    pub fn pop(&mut self) -> (r: Option<Layer>)
        ensures
            old(self).layers_of().len() == 0 ==> r is None && final(self).layers_of()
                == old(self).layers_of(),
            old(self).layers_of().len() > 0 ==> r == Some(old(self).layers_of().last())
                && final(self).layers_of() == old(self).layers_of().drop_last(),
    {
        self.layers.pop()
    }

    /// Mutable access to the topmost layer.
    pub fn top_mut(&mut self) -> (r: Option<&mut Layer>)
        ensures
            old(self).layers_of().len() == 0 ==> r is None && final(self).layers_of()
                == old(self).layers_of(),
            old(self).layers_of().len() > 0 ==> r is Some && *r.unwrap() == old(
                self,
            ).layers_of().last() && final(self).layers_of() == old(self).layers_of().update(
                old(self).layers_of().len() - 1,
                *final(r.unwrap()),
            ),
    {
        self.layers.last_mut()
    }

    /// Mutable access by index, 0 being the bottom layer.
    pub fn get_mut(&mut self, index: usize) -> (r: Option<&mut Layer>)
        ensures
            index >= old(self).layers_of().len() ==> r is None && final(self).layers_of()
                == old(self).layers_of(),
            index < old(self).layers_of().len() ==> r is Some && *r.unwrap() == old(
                self,
            ).layers_of()[index as int] && final(self).layers_of() == old(
                self,
            ).layers_of().update(index as int, *final(r.unwrap())),
    {
        if index < self.layers.len() {
            Some(&mut self.layers[index])
        } else {
            None
        }
    }

    /// Read-only access by index, 0 being the bottom layer.
    pub fn get(&self, index: usize) -> (r: Option<&Layer>)
        ensures
            index >= self.layers_of().len() ==> r is None,
            index < self.layers_of().len() ==> r == Some(&self.layers_of()[index as int]),
    {
        if index < self.layers.len() {
            Some(&self.layers[index])
        } else {
            None
        }
    }

    /// Iterate layers bottom-to-top.
    pub fn iter(&self) -> (it: std::slice::Iter<'_, Layer>)
        ensures
            IteratorSpec::remaining(&it) == self.layers_of().as_ref(),
    {
        self.layers.as_slice().iter()
    }

    pub fn len(&self) -> (n: usize)
        ensures
            n == self.layers_of().len(),
    {
        self.layers.len()
    }

    pub fn is_empty(&self) -> (b: bool)
        ensures
            b == (self.layers_of().len() == 0),
    {
        self.layers.len() == 0
    }

    pub fn clear(&mut self)
        ensures
            final(self).layers_of() == Seq::<Layer>::empty(),
    {
        self.layers.clear();
    }

    /// Flatten `base` plus every layer into `out`.
    ///
    /// `out` is resized to match `base` when their dimensions differ. Layers
    /// are applied bottom-to-top, each clipped to the base's bounds, so an
    /// oversized or offscreen layer is truncated rather than panicking.
    pub fn composite(&self, base: &CellBuffer, out: &mut CellBuffer)
        requires
            base.wf(),
            old(out).cols != base.cols || old(out).rows != base.rows || old(out).wf(),
        ensures
            final(out).wf(),
            final(out).cols == base.cols,
            final(out).rows == base.rows,
            forall|x: int, y: int|
                #![trigger final(out).at(x, y)]
                0 <= x < base.cols && 0 <= y < base.rows ==> final(out).at(x, y)
                    == composite_cell(self.layers_of(), base.at(x, y), x, y),
    {
        if out.cols != base.cols || out.rows != base.rows {
            out.resize(base.cols, base.rows);
        }
        let n = base.cells.len();
        let mut i: usize = 0;
        while i < n
            invariant
                i <= n,
                n == base.cells@.len(),
                out.cells@.len() == n,
                out.wf(),
                out.cols == base.cols,
                out.rows == base.rows,
                forall|j: int| 0 <= j < i ==> out.cells@[j] == base.cells@[j],
            decreases n - i,
        {
            out.cells.set(i, base.cells[i]);
            i = i + 1;
        }
        assert(out.cells@ =~= base.cells@);
        let screen = Rect::new(0, 0, base.cols, base.rows);
        let count = self.layers.len();
        let mut k: usize = 0;
        while k < count
            invariant
                k <= count,
                count == self.layers@.len(),
                out.wf(),
                out.cols == base.cols,
                out.rows == base.rows,
                base.wf(),
                screen == Rect::mk(0, 0, base.cols, base.rows),
                forall|x: int, y: int|
                    #![trigger out.at(x, y)]
                    0 <= x < base.cols && 0 <= y < base.rows ==> out.at(x, y) == composite_cell(
                        self.layers@.take(k as int),
                        base.at(x, y),
                        x,
                        y,
                    ),
            decreases count - k,
        {
            let layer = &self.layers[k];
            proof {
                assert(self.layers@.take(k + 1).drop_last() =~= self.layers@.take(k as int));
                assert(self.layers@.take(k + 1).last() == self.layers@[k as int]);
            }
            let ghost prev = *out;
            match layer.bounds().intersect(&screen) {
                None => {
                    proof {
                        assert forall|x: int, y: int|
                            0 <= x < base.cols && 0 <= y < base.rows implies #[trigger] out.at(x, y)
                                == composite_cell(self.layers@.take(k + 1), base.at(x, y), x, y) by {
                            layer.lemma_cell_over_in_footprint(x, y);
                            crate::geom::lemma_intersect_is_common_cells(layer.bounds(), screen, x, y);
                        }
                    }
                },
                Some(clip) => {
                    let y0 = clip.top();
                    let y1 = clip.bottom();
                    let x0 = clip.left();
                    let x1 = clip.right();
                    let ox = layer.origin.x;
                    let oy = layer.origin.y;
                    proof {
                        assert(x0 < x1 && y0 < y1);
                        assert forall|x: int, y: int|
                            0 <= x < base.cols && 0 <= y < base.rows implies #[trigger] prev.at(x, y)
                                == composite_cell(self.layers@.take(k as int), base.at(x, y), x, y) by {
                        }
                        assert forall|x: int, y: int|
                            0 <= x < base.cols && 0 <= y < base.rows && !(x0 <= x < x1 && y0 <= y
                                < y1) implies #[trigger] layer.cell_over(x, y)
                                == LayerCell::Transparent by {
                            layer.lemma_cell_over_in_footprint(x, y);
                            crate::geom::lemma_intersect_is_common_cells(layer.bounds(), screen, x, y);
                        }
                    }
                    let mut y = y0;
                    while y < y1
                        invariant
                            y0 <= y <= y1,
                            y1 <= base.rows,
                            x1 <= base.cols,
                            ox <= x0,
                            oy <= y0,
                            ox == layer.origin_of().x,
                            oy == layer.origin_of().y,
                            out.wf(),
                            out.cols == base.cols,
                            out.rows == base.rows,
                            prev.wf(),
                            prev.cols == base.cols,
                            prev.rows == base.rows,
                            x0 < x1,
                            forall|x: int, y: int|
                                #![trigger prev.at(x, y)]
                                0 <= x < base.cols && 0 <= y < base.rows ==> prev.at(x, y)
                                    == composite_cell(self.layers@.take(k as int), base.at(x, y), x, y),
                            forall|x: int, y: int|
                                0 <= x < base.cols && 0 <= y < base.rows && !(x0 <= x < x1 && y0
                                    <= y < y1) ==> #[trigger] layer.cell_over(x, y)
                                    == LayerCell::Transparent,
                            forall|px: int, py: int|
                                #![trigger out.at(px, py)]
                                0 <= px < base.cols && 0 <= py < base.rows ==> out.at(px, py)
                                    == if x0 <= px < x1 && y0 <= py < y {
                                    apply_layer_cell(layer.cell_over(px, py), prev.at(px, py))
                                } else {
                                    prev.at(px, py)
                                },
                        decreases y1 - y,
                    {
                        let mut x = x0;
                        while x < x1
                            invariant
                                y0 <= y < y1,
                                x0 <= x <= x1,
                                y1 <= base.rows,
                                x1 <= base.cols,
                                ox <= x0,
                                oy <= y0,
                                ox == layer.origin_of().x,
                                oy == layer.origin_of().y,
                                out.wf(),
                                out.cols == base.cols,
                                out.rows == base.rows,
                                prev.wf(),
                                prev.cols == base.cols,
                                prev.rows == base.rows,
                                forall|px: int, py: int|
                                    #![trigger out.at(px, py)]
                                    0 <= px < base.cols && 0 <= py < base.rows ==> out.at(px, py)
                                        == if (x0 <= px < x1 && y0 <= py < y) || (x0 <= px < x
                                        && py == y) {
                                        apply_layer_cell(layer.cell_over(px, py), prev.at(px, py))
                                    } else {
                                        prev.at(px, py)
                                    },
                            decreases x1 - x,
                        {
                            let lx = x - ox;
                            let ly = y - oy;
                            let lc = layer.get(lx, ly);
                            assert(lc == layer.cell_over(x as int, y as int));
                            match lc {
                                LayerCell::Transparent => {},
                                LayerCell::Opaque(c) => {
                                    out.set(x, y, c);
                                },
                                LayerCell::Shade => {
                                    let mut c = out.get(x, y);
                                    c.attr = SHADE_ATTR;
                                    out.set(x, y, c);
                                },
                            }
                            x = x + 1;
                        }
                        y = y + 1;
                    }
                    proof {
                        assert forall|x: int, y: int|
                            0 <= x < base.cols && 0 <= y < base.rows implies #[trigger] out.at(x, y)
                                == composite_cell(self.layers@.take(k + 1), base.at(x, y), x, y) by {
                            if !(x0 <= x < x1 && y0 <= y < y1) {
                                assert(layer.cell_over(x, y) == LayerCell::Transparent);
                            }
                        }
                    }
                },
            }
            k = k + 1;
        }
        assert(self.layers@.take(count as int) =~= self.layers@);
    }
}

} // verus!
