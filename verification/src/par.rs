//! Data-parallel whole-grid transformation. The per-cell work is fanned out
//! over disjoint sub-ranges of the backing buffer by rayon's work-stealing
//! scheduler; each call returns only after every sub-task has completed, and
//! the result satisfies exactly the postcondition of the sequential
//! counterpart.

use crate::coords::{offset_x, offset_y};
use crate::grid::{cell_call_allowed, cell_call_result, lemma_grid_repr, maps_cells, Grid};
use rayon::iter::{IndexedParallelIterator, IntoParallelRefIterator, ParallelIterator};
use vstd::prelude::*;

verus! {

/// Relies on rayon's `par_iter`, `enumerate`, `map` and `collect`: collecting
/// an indexed parallel iterator into a `Vec` yields exactly one result of
/// `f(i, &tiles[i])` per input element, at the input's position `i`.
#[verifier::external_body]
fn par_map_slice<T: Sync, R: Send, F: Fn(usize, &T) -> R + Send + Sync>(
    tiles: &Vec<T>,
    f: F,
) -> (out: Vec<R>)
    requires
        forall|i: int| 0 <= i < tiles@.len() ==> call_requires(f, (i as usize, &tiles@[i])),
    ensures
        out@.len() == tiles@.len(),
        forall|i: int|
            0 <= i < tiles@.len() ==> call_ensures(f, (i as usize, &tiles@[i]), #[trigger] out@[i]),
{
    tiles.par_iter().enumerate().map(|(i, t)| f(i, t)).collect()
}

impl<T: Default + Clone + Send + Sync> Grid<T> {
    /// Generates a new grid of the same dimensions whose cell at `(x, y)` is
    /// `f(x, y, c)` for the source cell content `c`, computing the cells in
    /// concurrently executing tasks over disjoint sub-ranges of the backing
    /// buffer. The result satisfies the same contract as [`Grid::map`]; for
    /// a per-cell function whose contract pins its result down, the two
    /// produce equal contents (see
    /// [`crate::grid::lemma_deterministic_map_agrees`]).
    pub fn par_map<F, R>(&self, f: F) -> (r: Grid<R>) where
        F: Fn(u16, u16, &T) -> R + Send + Sync,
        R: Default + Clone + Send,

        requires
            self.wf(),
            forall|i: int|
                0 <= i < self.cells().len() ==> #[trigger] cell_call_allowed(
                    f,
                    self.spec_width(),
                    self.cells(),
                    i,
                ),
        ensures
            r.wf(),
            r.spec_width() == self.spec_width(),
            r.spec_height() == self.spec_height(),
            maps_cells(f, self.spec_width(), self.cells(), r.cells()),
    {
        let w = self.width;
        let fg: Ghost<F> = Ghost(f);
        let fr = &f;
        let g = |i: usize, t: &T| -> (out: R)
            requires
                0 < w,
                call_requires(
                    fg@,
                    (offset_x(w as int, i as int) as u16, offset_y(w as int, i as int) as u16, t),
                ),
            ensures
                call_ensures(
                    fg@,
                    (offset_x(w as int, i as int) as u16, offset_y(w as int, i as int) as u16, t),
                    out,
                ),
            {
                let x = (i % (w as usize)) as u16;
                let y = (i / (w as usize)) as u16;
                fr(x, y, t)
            };
        proof {
            lemma_grid_repr(self);
            let gw = self.spec_width();
            let gh = self.spec_height();
            let n = self.cells().len() as int;
            assert(n <= 65535 * 65535) by (nonlinear_arith)
                requires
                    n == gw * gh,
                    gw <= 65535,
                    gh <= 65535,
            ;
            assert forall|i: int| 0 <= i < self.tiles@.len() implies call_requires(
                g,
                (i as usize, &self.tiles@[i]),
            ) by {
                assert((i as usize) as int == i);
                assert(0 < w) by (nonlinear_arith)
                    requires
                        n == gw * gh,
                        0 <= i < n,
                        w == gw,
                ;
                assert(cell_call_allowed(f, self.spec_width(), self.cells(), i));
            }
        }
        let tiles = par_map_slice(&self.tiles, g);
        proof {
            let gw = self.spec_width();
            let gh = self.spec_height();
            let n = self.cells().len() as int;
            assert(n <= 65535 * 65535) by (nonlinear_arith)
                requires
                    n == gw * gh,
                    gw <= 65535,
                    gh <= 65535,
            ;
            assert forall|i: int| 0 <= i < self.cells().len() implies #[trigger] cell_call_result(
                f,
                self.spec_width(),
                self.cells(),
                tiles@,
                i,
            ) by {
                assert((i as usize) as int == i);
                assert(call_ensures(g, (i as usize, &self.cells()[i]), tiles@[i]));
                assert(cell_call_allowed(f, self.spec_width(), self.cells(), i));
            }
        }
        let r = Grid { width: self.width, height: self.height, tiles };
        proof {
            lemma_grid_repr(&r);
        }
        r
    }

    /// Replaces every cell's content with `f(x, y, c)` for that cell's
    /// coordinates and previous content `c`, computing the new contents in
    /// concurrently executing tasks; the final contents satisfy the same
    /// contract as [`Grid::map_inplace`].
    pub fn par_map_inplace<F>(&mut self, f: F) where F: Fn(u16, u16, &T) -> T + Send + Sync,
        requires
            old(self).wf(),
            forall|i: int|
                0 <= i < old(self).cells().len() ==> #[trigger] cell_call_allowed(
                    f,
                    old(self).spec_width(),
                    old(self).cells(),
                    i,
                ),
        ensures
            final(self).wf(),
            final(self).spec_width() == old(self).spec_width(),
            final(self).spec_height() == old(self).spec_height(),
            maps_cells(f, old(self).spec_width(), old(self).cells(), final(self).cells()),
    {
        let w = self.width;
        let fg: Ghost<F> = Ghost(f);
        let fr = &f;
        let g = |i: usize, t: &T| -> (out: T)
            requires
                0 < w,
                call_requires(
                    fg@,
                    (offset_x(w as int, i as int) as u16, offset_y(w as int, i as int) as u16, t),
                ),
            ensures
                call_ensures(
                    fg@,
                    (offset_x(w as int, i as int) as u16, offset_y(w as int, i as int) as u16, t),
                    out,
                ),
            {
                let x = (i % (w as usize)) as u16;
                let y = (i / (w as usize)) as u16;
                fr(x, y, t)
            };
        proof {
            lemma_grid_repr(self);
            let gw = old(self).spec_width();
            let gh = old(self).spec_height();
            let n = old(self).cells().len() as int;
            assert(n <= 65535 * 65535) by (nonlinear_arith)
                requires
                    n == gw * gh,
                    gw <= 65535,
                    gh <= 65535,
            ;
            assert forall|i: int| 0 <= i < self.tiles@.len() implies call_requires(
                g,
                (i as usize, &self.tiles@[i]),
            ) by {
                assert((i as usize) as int == i);
                assert(0 < w) by (nonlinear_arith)
                    requires
                        n == gw * gh,
                        0 <= i < n,
                        w == gw,
                ;
                assert(cell_call_allowed(f, old(self).spec_width(), old(self).cells(), i));
            }
        }
        let tiles = par_map_slice(&self.tiles, g);
        proof {
            let gw = old(self).spec_width();
            let gh = old(self).spec_height();
            let n = old(self).cells().len() as int;
            assert(n <= 65535 * 65535) by (nonlinear_arith)
                requires
                    n == gw * gh,
                    gw <= 65535,
                    gh <= 65535,
            ;
            assert forall|i: int| 0 <= i < old(self).cells().len() implies
                #[trigger] cell_call_result(
                f,
                old(self).spec_width(),
                old(self).cells(),
                tiles@,
                i,
            ) by {
                assert((i as usize) as int == i);
                assert(call_ensures(g, (i as usize, &old(self).cells()[i]), tiles@[i]));
                assert(cell_call_allowed(f, old(self).spec_width(), old(self).cells(), i));
            }
        }
        self.tiles = tiles;
        proof {
            lemma_grid_repr(self);
        }
    }
}

} // verus!
