//! The grid container: construction, bounds-checked point access, and
//! sequential whole-grid traversal and transformation.

use crate::coords::{
    flat_offset, lemma_coords_of_flat_offset, lemma_flat_offset_in_range,
    lemma_flat_offset_of_coords, offset_x, offset_y,
};
use crate::text::{out_of_bounds_message, out_of_bounds_text};
use vstd::prelude::*;

verus! {

/// A dense two-dimensional container storing one element per `(x, y)` cell in
/// a single contiguous vector, row-major: the cell at `(x, y)` lives at flat
/// offset `y * width + x`.
pub struct Grid<T> {
    pub(crate) width: u16,
    pub(crate) height: u16,
    pub(crate) tiles: Vec<T>,
}

/// Whether `s` could be the result of filling `s.len()` cells with duplicates
/// of one value produced by `T::default()`.
pub open spec fn default_filled<T: Default + Clone>(s: Seq<T>) -> bool {
    exists|d: T|
        #[trigger] call_ensures(T::default, (), d) && forall|i: int|
            0 <= i < s.len() ==> cloned(d, #[trigger] s[i])
}

/// Whether `s` could be the result of filling `s.len()` cells with
/// independent duplicates of `v`.
pub open spec fn filled_with<T: Clone>(s: Seq<T>, v: T) -> bool {
    forall|i: int| 0 <= i < s.len() ==> cloned(v, #[trigger] s[i])
}

/// Whether calling `f` on the cell at flat offset `i` of a grid `w` cells
/// wide with contents `src` satisfies `f`'s precondition.
pub open spec fn cell_call_allowed<T, R, F: Fn(u16, u16, &T) -> R>(
    f: F,
    w: u16,
    src: Seq<T>,
    i: int,
) -> bool {
    call_requires(
        f,
        (offset_x(w as int, i) as u16, offset_y(w as int, i) as u16, &src[i]),
    )
}

/// Whether `out[i]` is a possible result of calling `f` on the cell at flat
/// offset `i` of a grid `w` cells wide with contents `src`.
pub open spec fn cell_call_result<T, R, F: Fn(u16, u16, &T) -> R>(
    f: F,
    w: u16,
    src: Seq<T>,
    out: Seq<R>,
    i: int,
) -> bool {
    call_ensures(
        f,
        (offset_x(w as int, i) as u16, offset_y(w as int, i) as u16, &src[i]),
        out[i],
    )
}

/// The shared postcondition of the sequential and the parallel whole-grid
/// transformations: `out` has one entry per cell of `src`, and each entry is
/// a possible result of `f` applied to that cell's coordinates and content.
pub open spec fn maps_cells<T, R, F: Fn(u16, u16, &T) -> R>(
    f: F,
    w: u16,
    src: Seq<T>,
    out: Seq<R>,
) -> bool {
    &&& out.len() == src.len()
    &&& forall|i: int| 0 <= i < src.len() ==> #[trigger] cell_call_result(f, w, src, out, i)
}

impl<T> Grid<T> {
    /// The contents of the backing buffer, row-major.
    pub closed spec fn cells(&self) -> Seq<T> {
        self.tiles@
    }

    /// The grid's width.
    pub closed spec fn spec_width(&self) -> u16 {
        self.width
    }

    /// The grid's height.
    pub closed spec fn spec_height(&self) -> u16 {
        self.height
    }

    /// Well-formedness: the backing buffer holds exactly `width * height`
    /// cells. Constructors establish this and every method preserves it.
    pub open spec fn wf(&self) -> bool {
        self.cells().len() == self.spec_width() * self.spec_height()
    }

    /// Whether `(x, y)` lies inside the grid's coordinate domain.
    pub open spec fn in_bounds(&self, x: u16, y: u16) -> bool {
        x < self.spec_width() && y < self.spec_height()
    }

    /// The content of the cell at `(x, y)` (meaningful for in-bounds
    /// coordinates of a well-formed grid).
    pub open spec fn cell(&self, x: u16, y: u16) -> T {
        self.cells()[flat_offset(self.spec_width() as int, x as int, y as int)]
    }

    /// Converts `(x, y)` coordinates to the flat row-major offset.
    fn index(&self, x: u16, y: u16) -> (i: usize)
        requires
            self.wf(),
            self.in_bounds(x, y),
        ensures
            i == flat_offset(self.spec_width() as int, x as int, y as int),
            i < self.cells().len(),
    {
        proof {
            lemma_flat_offset_in_range(
                self.width as int,
                self.height as int,
                x as int,
                y as int,
            );
            assert((y as int) * (self.width as int) + (x as int) < 4294967296)
                by (nonlinear_arith)
                requires
                    y <= 65535,
                    self.width <= 65535,
                    x <= 65535,
            ;
        }
        (y as usize) * (self.width as usize) + (x as usize)
    }

    /// Converts a flat offset back to `(x, y)` coordinates.
    fn coords(&self, i: usize) -> (p: (u16, u16))
        requires
            self.wf(),
            i < self.cells().len(),
        ensures
            p.0 as int == offset_x(self.spec_width() as int, i as int),
            p.1 as int == offset_y(self.spec_width() as int, i as int),
            self.in_bounds(p.0, p.1),
            flat_offset(self.spec_width() as int, p.0 as int, p.1 as int) == i,
    {
        proof {
            if self.width == 0 {
                assert(self.cells().len() == 0) by (nonlinear_arith)
                    requires
                        self.cells().len() == self.spec_width() * self.spec_height(),
                        self.spec_width() == 0,
                ;
            }
            lemma_flat_offset_of_coords(
                self.width as int,
                self.height as int,
                i as int,
            );
        }
        let x = (i % self.width as usize) as u16;
        let y = (i / self.width as usize) as u16;
        (x, y)
    }

    /// Returns the total area (`width * height`) of the grid.
    pub fn area(&self) -> (a: u32)
        ensures
            a == self.spec_width() * self.spec_height(),
    {
        proof {
            assert((self.spec_width() as int) * (self.spec_height() as int) <= 65535 * 65535)
                by (nonlinear_arith)
                requires
                    self.spec_width() <= 65535,
                    self.spec_height() <= 65535,
            ;
        }
        (self.width as u32) * (self.height as u32)
    }

    /// Returns the width of the grid.
    pub fn width(&self) -> (w: u16)
        ensures
            w == self.spec_width(),
    {
        self.width
    }

    /// Returns the height of the grid.
    pub fn height(&self) -> (h: u16)
        ensures
            h == self.spec_height(),
    {
        self.height
    }

    /// Gets an immutable reference to the element at `(x, y)`, or `None` if
    /// the coordinates are out of bounds.
    pub fn get(&self, x: u16, y: u16) -> (r: Option<&T>)
        requires
            self.wf(),
        ensures
            self.in_bounds(x, y) ==> r.is_some() && *r.unwrap() == self.cell(x, y),
            !self.in_bounds(x, y) ==> r.is_none(),
    {
        if x < self.width && y < self.height {
            let i = self.index(x, y);
            Some(&self.tiles[i])
        } else {
            None
        }
    }

    /// Gets an exclusive reference to the element at `(x, y)`, or `None` if
    /// the coordinates are out of bounds. Writing through the returned
    /// reference changes that cell and no other.
    pub fn get_mut(&mut self, x: u16, y: u16) -> (r: Option<&mut T>)
        requires
            old(self).wf(),
        ensures
            old(self).in_bounds(x, y) ==> r.is_some() && *r.unwrap() == old(self).cell(x, y)
                && final(self).cells() == old(self).cells().update(
                flat_offset(old(self).spec_width() as int, x as int, y as int),
                *final(r.unwrap()),
            ) && final(self).spec_width() == old(self).spec_width()
                && final(self).spec_height() == old(self).spec_height() && final(self).wf(),
            !old(self).in_bounds(x, y) ==> r.is_none() && *final(self) == *old(self),
    {
        if x < self.width && y < self.height {
            let i = self.index(x, y);
            Some(&mut self.tiles[i])
        } else {
            None
        }
    }

    /// Sets the element at `(x, y)` to `tile`. Returns `Ok(())` on success;
    /// for out-of-bounds coordinates the grid is unchanged and the error
    /// message names the requested coordinates and the grid's extent.
    pub fn set(&mut self, x: u16, y: u16, tile: T) -> (r: Result<(), String>)
        requires
            old(self).wf(),
        ensures
            final(self).wf(),
            final(self).spec_width() == old(self).spec_width(),
            final(self).spec_height() == old(self).spec_height(),
            old(self).in_bounds(x, y) ==> r.is_ok() && final(self).cells() == old(
                self,
            ).cells().update(
                flat_offset(old(self).spec_width() as int, x as int, y as int),
                tile,
            ),
            !old(self).in_bounds(x, y) ==> *final(self) == *old(self) && (r matches Err(m)
                && m@ == out_of_bounds_text(
                x,
                y,
                old(self).spec_width(),
                old(self).spec_height(),
            )),
    {
        if x < self.width && y < self.height {
            let i = self.index(x, y);
            self.tiles[i] = tile;
            Ok(())
        } else {
            Err(out_of_bounds_message(x, y, self.width, self.height))
        }
    }

    /// Returns the backing buffer as a contiguous read-only slice, row-major.
    pub fn as_slice(&self) -> (s: &[T])
        ensures
            s@ == self.cells(),
    {
        self.tiles.as_slice()
    }

    /// Returns the backing buffer as a contiguous exclusive slice, row-major.
    /// Mutations through the slice become the grid's new contents; the
    /// dimensions cannot change.
    pub fn as_mut_slice(&mut self) -> (s: &mut [T])
        ensures
            s@ == old(self).cells(),
            final(self).cells() == final(s)@,
            final(self).spec_width() == old(self).spec_width(),
            final(self).spec_height() == old(self).spec_height(),
    {
        self.tiles.as_mut_slice()
    }

    /// Returns every cell paired with its coordinates, in row-major order:
    /// all cells of row `y == 0` left to right, then row `y == 1`, and so on.
    pub fn iter(&self) -> (items: Vec<(u16, u16, &T)>)
        requires
            self.wf(),
        ensures
            items@.len() == self.cells().len(),
            forall|i: int| #![trigger items@[i]]
                0 <= i < items@.len() ==> items@[i].0 as int == offset_x(
                    self.spec_width() as int,
                    i,
                ) && items@[i].1 as int == offset_y(self.spec_width() as int, i)
                    && *items@[i].2 == self.cells()[i],
    {
        let n = self.tiles.len();
        let mut items: Vec<(u16, u16, &T)> = Vec::new();
        let mut i: usize = 0;
        while i < n
            invariant
                self.wf(),
                n == self.cells().len(),
                i <= n,
                items@.len() == i,
                forall|j: int| #![trigger items@[j]]
                    0 <= j < i ==> items@[j].0 as int == offset_x(
                        self.spec_width() as int,
                        j,
                    ) && items@[j].1 as int == offset_y(self.spec_width() as int, j)
                        && *items@[j].2 == self.cells()[j],
            decreases n - i,
        {
            let (x, y) = self.coords(i);
            items.push((x, y, &self.tiles[i]));
            i += 1;
        }
        items
    }
}

impl<T: Default + Clone> Grid<T> {
    /// Creates a new grid with the given dimensions, every cell filled with a
    /// duplicate of the element type's default value.
    pub fn new(width: u16, height: u16) -> (g: Grid<T>)
        ensures
            g.wf(),
            g.spec_width() == width,
            g.spec_height() == height,
            default_filled(g.cells()),
    {
        proof {
            assert((width as int) * (height as int) <= 65535 * 65535) by (nonlinear_arith)
                requires
                    width <= 65535,
                    height <= 65535,
            ;
        }
        let capacity = (width as usize) * (height as usize);
        let d = T::default();
        let tiles = vec![d; capacity];
        Grid { width, height, tiles }
    }

    /// Creates a new grid with the given dimensions, every cell filled with
    /// an independent duplicate of `value`.
    pub fn with_value(width: u16, height: u16, value: T) -> (g: Grid<T>)
        ensures
            g.wf(),
            g.spec_width() == width,
            g.spec_height() == height,
            filled_with(g.cells(), value),
    {
        proof {
            assert((width as int) * (height as int) <= 65535 * 65535) by (nonlinear_arith)
                requires
                    width <= 65535,
                    height <= 65535,
            ;
        }
        let capacity = (width as usize) * (height as usize);
        let tiles = vec![value; capacity];
        Grid { width, height, tiles }
    }

    /// Generates a new grid of the same dimensions whose cell at `(x, y)` is
    /// `f(x, y, c)` for the source cell content `c`. The source grid is not
    /// changed; `f` is applied to every cell exactly once, in row-major
    /// order.
    pub fn map<F, R>(&self, f: F) -> (r: Grid<R>) where
        F: Fn(u16, u16, &T) -> R,
        R: Default + Clone,

        requires
            self.wf(),
            forall|i: int|
                0 <= i < self.cells().len() ==> #[trigger] cell_call_allowed(
                    f,
                    self.spec_width(),
                    self.cells(),
                    i,
                ),
        ensures
            r.wf(),
            r.spec_width() == self.spec_width(),
            r.spec_height() == self.spec_height(),
            maps_cells(f, self.spec_width(), self.cells(), r.cells()),
    {
        let n = self.tiles.len();
        let mut tiles: Vec<R> = Vec::new();
        let mut i: usize = 0;
        while i < n
            invariant
                self.wf(),
                n == self.cells().len(),
                i <= n,
                tiles@.len() == i,
                forall|j: int|
                    0 <= j < n ==> #[trigger] cell_call_allowed(
                        f,
                        self.spec_width(),
                        self.cells(),
                        j,
                    ),
                forall|j: int|
                    0 <= j < i ==> #[trigger] cell_call_result(
                        f,
                        self.spec_width(),
                        self.cells(),
                        tiles@,
                        j,
                    ),
            decreases n - i,
        {
            let (x, y) = self.coords(i);
            proof {
                assert(cell_call_allowed(f, self.spec_width(), self.cells(), i as int));
            }
            let ghost prev = tiles@;
            let v = f(x, y, &self.tiles[i]);
            tiles.push(v);
            proof {
                let w = self.spec_width();
                assert forall|j: int| 0 <= j < i + 1 implies #[trigger] cell_call_result(
                    f,
                    w,
                    self.cells(),
                    tiles@,
                    j,
                ) by {
                    if j < i {
                        assert(cell_call_result(f, w, self.cells(), prev, j));
                        assert(tiles@[j] == prev[j]);
                    } else {
                        assert(tiles@[j] == v);
                        assert(x as int == offset_x(w as int, j));
                        assert(y as int == offset_y(w as int, j));
                    }
                }
            }
            i += 1;
        }
        Grid { width: self.width, height: self.height, tiles }
    }

    /// Replaces every cell's content with `f(x, y, c)` for that cell's
    /// coordinates and previous content `c`, preserving the dimensions. `f`
    /// is applied to every cell exactly once, in row-major order.
    pub fn map_inplace<F>(&mut self, f: F) where F: Fn(u16, u16, &T) -> T,
        requires
            old(self).wf(),
            forall|i: int|
                0 <= i < old(self).cells().len() ==> #[trigger] cell_call_allowed(
                    f,
                    old(self).spec_width(),
                    old(self).cells(),
                    i,
                ),
        ensures
            final(self).wf(),
            final(self).spec_width() == old(self).spec_width(),
            final(self).spec_height() == old(self).spec_height(),
            maps_cells(f, old(self).spec_width(), old(self).cells(), final(self).cells()),
    {
        let n = self.tiles.len();
        let mut i: usize = 0;
        while i < n
            invariant
                self.spec_width() == old(self).spec_width(),
                self.spec_height() == old(self).spec_height(),
                self.wf(),
                n == self.cells().len(),
                i <= n,
                forall|j: int| i <= j < n ==> self.cells()[j] == old(self).cells()[j],
                forall|j: int|
                    0 <= j < n ==> #[trigger] cell_call_allowed(
                        f,
                        old(self).spec_width(),
                        old(self).cells(),
                        j,
                    ),
                forall|j: int|
                    0 <= j < i ==> #[trigger] cell_call_result(
                        f,
                        old(self).spec_width(),
                        old(self).cells(),
                        self.cells(),
                        j,
                    ),
            decreases n - i,
        {
            let (x, y) = self.coords(i);
            proof {
                assert(self.cells()[i as int] == old(self).cells()[i as int]);
                assert(cell_call_allowed(f, old(self).spec_width(), old(self).cells(), i as int));
            }
            let ghost prev = self.tiles@;
            let v = f(x, y, &self.tiles[i]);
            self.tiles[i] = v;
            proof {
                let w = old(self).spec_width();
                assert forall|j: int| 0 <= j < i + 1 implies #[trigger] cell_call_result(
                    f,
                    w,
                    old(self).cells(),
                    self.cells(),
                    j,
                ) by {
                    if j < i {
                        assert(cell_call_result(f, w, old(self).cells(), prev, j));
                        assert(self.cells()[j] == prev[j]);
                    } else {
                        assert(self.cells()[j] == v);
                        assert(x as int == offset_x(w as int, j));
                        assert(y as int == offset_y(w as int, j));
                    }
                }
            }
            i += 1;
        }
    }

    /// Visits every cell in row-major order with exclusive access: each
    /// cell's content is replaced by what `f` returns for its coordinates
    /// and previous content. This is the mutable counterpart of
    /// [`Grid::iter`].
    pub fn iter_mut<F>(&mut self, f: F) where F: Fn(u16, u16, &T) -> T,
        requires
            old(self).wf(),
            forall|i: int|
                0 <= i < old(self).cells().len() ==> #[trigger] cell_call_allowed(
                    f,
                    old(self).spec_width(),
                    old(self).cells(),
                    i,
                ),
        ensures
            final(self).wf(),
            final(self).spec_width() == old(self).spec_width(),
            final(self).spec_height() == old(self).spec_height(),
            maps_cells(f, old(self).spec_width(), old(self).cells(), final(self).cells()),
    {
        self.map_inplace(f)
    }
}

/// Ties the public spec view to the backing fields, for the proofs of the
/// sibling module that implements the parallel transformations.
pub(crate) proof fn lemma_grid_repr<T>(g: &Grid<T>)
    ensures
        g.cells() == g.tiles@,
        g.spec_width() == g.width,
        g.spec_height() == g.height,
{
}

/// Updating one cell is local: after replacing the cell at `(x, y)` of a
/// well-formed grid (the relation that `set` and a write through `get_mut`
/// establish), that cell holds the new value and every other in-bounds cell
/// is unchanged.
pub proof fn lemma_point_update_is_local<T>(
    before: Grid<T>,
    after: Grid<T>,
    x: u16,
    y: u16,
    v: T,
)
    requires
        before.wf(),
        before.in_bounds(x, y),
        after.spec_width() == before.spec_width(),
        after.spec_height() == before.spec_height(),
        after.cells() == before.cells().update(
            flat_offset(before.spec_width() as int, x as int, y as int),
            v,
        ),
    ensures
        after.cell(x, y) == v,
        forall|a: u16, b: u16|
            after.in_bounds(a, b) && !(a == x && b == y) ==> after.cell(a, b) == before.cell(
                a,
                b,
            ),
{
    let w = before.spec_width() as int;
    let h = before.spec_height() as int;
    lemma_flat_offset_in_range(w, h, x as int, y as int);
    assert forall|a: u16, b: u16|
        after.in_bounds(a, b) && !(a == x && b == y) implies after.cell(a, b) == before.cell(
        a,
        b,
    ) by {
        lemma_flat_offset_in_range(w, h, a as int, b as int);
        lemma_coords_of_flat_offset(w, a as int, b as int);
        lemma_coords_of_flat_offset(w, x as int, y as int);
    }
}

/// Mapping with a function whose contract forces it to hand each cell back
/// unchanged produces contents equal to the source: the identity law for
/// `map`, `map_inplace` and their parallel counterparts.
pub proof fn lemma_map_identity<T, F: Fn(u16, u16, &T) -> T>(
    f: F,
    w: u16,
    src: Seq<T>,
    out: Seq<T>,
)
    requires
        maps_cells(f, w, src, out),
        forall|x: u16, y: u16, t: T, r: T| call_ensures(f, (x, y, &t), r) ==> r == t,
    ensures
        out =~= src,
{
    assert forall|i: int| 0 <= i < src.len() implies out[i] == src[i] by {
        assert(cell_call_result(f, w, src, out, i));
    }
}

/// For a per-cell function whose contract determines its result from the
/// cell's coordinates and content alone, any two outputs that satisfy the
/// transformation postcondition agree cell for cell: the sequential and the
/// parallel transformations produce identical contents.
pub proof fn lemma_deterministic_map_agrees<T, R, F: Fn(u16, u16, &T) -> R>(
    f: F,
    w: u16,
    src: Seq<T>,
    out1: Seq<R>,
    out2: Seq<R>,
)
    requires
        maps_cells(f, w, src, out1),
        maps_cells(f, w, src, out2),
        forall|x: u16, y: u16, t: T, r1: R, r2: R|
            call_ensures(f, (x, y, &t), r1) && call_ensures(f, (x, y, &t), r2) ==> r1 == r2,
    ensures
        out1 =~= out2,
{
    assert forall|i: int| 0 <= i < src.len() implies out1[i] == out2[i] by {
        assert(cell_call_result(f, w, src, out1, i));
        assert(cell_call_result(f, w, src, out2, i));
    }
}

} // verus!
