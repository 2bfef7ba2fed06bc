//! The toroidal board of encrypted cells and its generation update.
//!
//! An update partitions the flat index space into one work item per cell,
//! computes every next-state ciphertext from the immutable current-generation
//! buffer alone, and only then replaces the whole state, so no reader ever
//! observes a half-updated grid.  The work items are dispatched to a worker
//! pool; any execution order yields the same next generation, which the
//! per-cell contract of [`step_cell`] makes precise.

use vstd::prelude::*;
use vstd::arithmetic::div_mod::lemma_fundamental_div_mod;
use vstd::arithmetic::mul::lemma_mul_inequality;
use rayon::iter::{IntoParallelRefIterator, ParallelIterator};
use crate::LifeError;
use crate::fhe::{Cell, EvalContext};
use crate::rule::{
    cell_at, lemma_index_in_grid, lemma_index_round_trip, life_iter, life_step, neighbor_count,
    rule_next, wrap_dec, wrap_inc, wrap_next, wrap_prev,
};
use crate::strategy::{is_alive, Strategy};

verus! {

/// The plaintext view of a sequence of encrypted cells.
pub open spec fn cells_grid(s: Seq<Cell>) -> Seq<nat> {
    s.map_values(|c: Cell| c.value())
}

/// The flat positions of the eight toroidally wrapped neighbors of `(i, j)`,
/// row by row: both row indices and both column indices wrap around the
/// board's edges, so every cell has exactly eight neighbors.
pub fn neighbor_positions(rows: usize, cols: usize, i: usize, j: usize) -> (r: Vec<usize>)
    requires
        1 <= rows,
        1 <= cols,
        rows * cols <= usize::MAX,
        i < rows,
        j < cols,
    ensures
        r@.len() == 8,
        ({
            let im = wrap_dec(i as int, rows as int);
            let ip = wrap_inc(i as int, rows as int);
            let jm = wrap_dec(j as int, cols as int);
            let jp = wrap_inc(j as int, cols as int);
            &&& r@[0] == im * cols + jm
            &&& r@[1] == im * cols + j
            &&& r@[2] == im * cols + jp
            &&& r@[3] == i as int * cols as int + jm
            &&& r@[4] == i as int * cols as int + jp
            &&& r@[5] == ip * cols + jm
            &&& r@[6] == ip * cols + j
            &&& r@[7] == ip * cols + jp
        }),
        forall|k: int| 0 <= k < 8 ==> r@[k] < rows * cols,
{
    let im = wrap_prev(i, rows);
    let ip = wrap_next(i, rows);
    let jm = wrap_prev(j, cols);
    let jp = wrap_next(j, cols);
    proof {
        lemma_index_in_grid(im as int, jm as int, rows as int, cols as int);
        lemma_index_in_grid(im as int, j as int, rows as int, cols as int);
        lemma_index_in_grid(im as int, jp as int, rows as int, cols as int);
        lemma_index_in_grid(i as int, jm as int, rows as int, cols as int);
        lemma_index_in_grid(i as int, jp as int, rows as int, cols as int);
        lemma_index_in_grid(ip as int, jm as int, rows as int, cols as int);
        lemma_index_in_grid(ip as int, j as int, rows as int, cols as int);
        lemma_index_in_grid(ip as int, jp as int, rows as int, cols as int);
    }
    let mut r: Vec<usize> = Vec::new();
    r.push(im * cols + jm);
    r.push(im * cols + j);
    r.push(im * cols + jp);
    r.push(i * cols + jm);
    r.push(i * cols + jp);
    r.push(ip * cols + jm);
    r.push(ip * cols + j);
    r.push(ip * cols + jp);
    r
}

/// Compute the next state of the cell at `(i, j)` from the current
/// generation: gather the eight toroidally wrapped neighbors and evaluate the
/// selected strategy on them.
pub fn step_cell(
    ctx: &EvalContext,
    strat: Strategy,
    cells: &Vec<Cell>,
    rows: usize,
    cols: usize,
    i: usize,
    j: usize,
) -> (r: Cell)
    requires
        1 <= rows,
        1 <= cols,
        cells@.len() == rows * cols,
        forall|k: int|
            0 <= k < cells@.len() ==> (#[trigger] cells@[k]).value() <= 1 && cells@[k].key()
                == ctx.key(),
        i < rows,
        j < cols,
        strat.valid_for(ctx.spec_message_modulus(), ctx.spec_carry_modulus()),
    ensures
        r.key() == ctx.key(),
        r.value() <= 1,
        r.value() == rule_next(
            cell_at(cells_grid(cells@), cols as int, i as int, j as int),
            neighbor_count(cells_grid(cells@), rows as int, cols as int, i as int, j as int),
        ),
{
    let total = cells.len();
    proof {
        assert(total == rows * cols);
        lemma_index_in_grid(i as int, j as int, rows as int, cols as int);
    }
    let pos = neighbor_positions(rows, cols, i, j);
    let r = is_alive(
        ctx,
        strat,
        &cells[i * cols + j],
        &cells[pos[0]],
        &cells[pos[1]],
        &cells[pos[2]],
        &cells[pos[3]],
        &cells[pos[4]],
        &cells[pos[5]],
        &cells[pos[6]],
        &cells[pos[7]],
    );
    proof {
        let g = cells_grid(cells@);
        let im = wrap_dec(i as int, rows as int);
        let ip = wrap_inc(i as int, rows as int);
        let jm = wrap_dec(j as int, cols as int);
        let jp = wrap_inc(j as int, cols as int);
        assert(g[i as int * cols as int + j as int] == cells@[i as int * cols as int
            + j as int].value());
        assert(g[im * cols as int + jm] == cells@[im * cols as int + jm].value());
        assert(g[im * cols as int + j as int] == cells@[im * cols as int + j as int].value());
        assert(g[im * cols as int + jp] == cells@[im * cols as int + jp].value());
        assert(g[i as int * cols as int + jm] == cells@[i as int * cols as int + jm].value());
        assert(g[i as int * cols as int + jp] == cells@[i as int * cols as int + jp].value());
        assert(g[ip * cols as int + jm] == cells@[ip * cols as int + jm].value());
        assert(g[ip * cols as int + j as int] == cells@[ip * cols as int + j as int].value());
        assert(g[ip * cols as int + jp] == cells@[ip * cols as int + jp].value());
    }
    r
}

/// Relies on rayon's `par_iter`, `map` and `collect`: the collected vector
/// holds, in index order, one element per work item, each produced by the
/// mapped closure on that item; the closure only calls the verified
/// [`step_cell`].
#[verifier::external_body]
fn par_step_cells(
    ctx: &EvalContext,
    strat: Strategy,
    cells: &Vec<Cell>,
    rows: usize,
    cols: usize,
    indices: &Vec<(usize, usize)>,
) -> (r: Vec<Cell>)
    requires
        forall|k: int|
            0 <= k < indices@.len() ==> call_requires(
                step_cell,
                (ctx, strat, cells, rows, cols, indices@[k].0, indices@[k].1),
            ),
    ensures
        r@.len() == indices@.len(),
        forall|k: int|
            0 <= k < indices@.len() ==> call_ensures(
                step_cell,
                (ctx, strat, cells, rows, cols, indices@[k].0, indices@[k].1),
                #[trigger] r@[k],
            ),
{
    indices.par_iter().map(|&(i, j)| step_cell(ctx, strat, cells, rows, cols, i, j)).collect()
}

/// The toroidal board: dimensions, the row-major grid of ciphertexts, and
/// the precomputed work items of the parallel scheduler.
pub struct Board {
    rows: usize,
    cols: usize,
    cells: Vec<Cell>,
    indices: Vec<(usize, usize)>,
    key: Ghost<nat>,
}

impl Board {
    pub closed spec fn spec_rows(self) -> usize {
        self.rows
    }

    pub closed spec fn spec_cols(self) -> usize {
        self.cols
    }

    /// The plaintext grid this board decrypts to.
    pub closed spec fn grid(self) -> Seq<nat> {
        cells_grid(self.cells@)
    }

    /// The ghost tag of the key pair all the board's ciphertexts belong to.
    pub closed spec fn key(self) -> nat {
        self.key@
    }

    /// The board's invariant: a full rectangle of boolean cells of one key
    /// pair, and one work item per cell, carrying its coordinates.
    pub closed spec fn wf(self) -> bool {
        &&& 1 <= self.cols
        &&& self.cells@.len() == self.rows * self.cols
        &&& self.indices@.len() == self.rows * self.cols
        &&& (forall|k: int|
            0 <= k < self.cells@.len() ==> (#[trigger] self.cells@[k]).value() <= 1
                && self.cells@[k].key() == self.key@)
        &&& (forall|k: int|
            0 <= k < self.indices@.len() ==> {
                let p = #[trigger] self.indices@[k];
                &&& (p.0 as int) < self.rows as int
                &&& (p.1 as int) < self.cols as int
                &&& p.0 as int == k / (self.cols as int)
                &&& p.1 as int == k % (self.cols as int)
            })
    }

    /// Build a board of the given width from a row-major sequence of
    /// encrypted cells.  A sequence whose length does not fill whole rows is
    /// rejected with `DimensionMismatch`; the caller decides whether to
    /// truncate and retry.
    pub fn new(n_cols: usize, states: Vec<Cell>) -> (r: Result<Board, LifeError>)
        requires
            forall|k: int| 0 <= k < states@.len() ==> (#[trigger] states@[k]).value() <= 1,
            forall|j: int, k: int|
                0 <= j < states@.len() && 0 <= k < states@.len() ==> states@[j].key()
                    == states@[k].key(),
        ensures
            match r {
                Ok(b) => {
                    &&& n_cols >= 1
                    &&& states@.len() as int % n_cols as int == 0
                    &&& b.wf()
                    &&& b.spec_cols() == n_cols
                    &&& b.spec_rows() as int == states@.len() as int / n_cols as int
                    &&& b.grid() =~= cells_grid(states@)
                    &&& (states@.len() > 0 ==> b.key() == states@[0].key())
                },
                Err(e) => {
                    &&& e == LifeError::DimensionMismatch
                    &&& (n_cols == 0 || states@.len() as int % n_cols as int != 0)
                },
            },
    {
        if n_cols == 0 {
            return Err(LifeError::DimensionMismatch);
        }
        let len = states.len();
        if len % n_cols != 0 {
            return Err(LifeError::DimensionMismatch);
        }
        let n_rows = len / n_cols;
        proof {
            lemma_fundamental_div_mod(len as int, n_cols as int);
            assert(n_rows * n_cols == len) by (nonlinear_arith)
                requires
                    len as int == (n_cols as int) * (n_rows as int) + 0,
            ;
        }
        let mut indices: Vec<(usize, usize)> = Vec::new();
        let mut i: usize = 0;
        while i < n_rows
            invariant
                n_cols >= 1,
                n_rows * n_cols == len,
                len <= usize::MAX,
                i <= n_rows,
                indices@.len() == i * n_cols,
                forall|k: int|
                    0 <= k < indices@.len() ==> {
                        let p = #[trigger] indices@[k];
                        &&& (p.0 as int) < n_rows as int
                        &&& (p.1 as int) < n_cols as int
                        &&& p.0 as int == k / (n_cols as int)
                        &&& p.1 as int == k % (n_cols as int)
                    },
            decreases n_rows - i,
        {
            let mut j: usize = 0;
            proof {
                lemma_mul_inequality(i as int + 1, n_rows as int, n_cols as int);
                assert((i + 1) * n_cols == i * n_cols + n_cols) by (nonlinear_arith);
            }
            while j < n_cols
                invariant
                    n_cols >= 1,
                    n_rows * n_cols == len,
                    len <= usize::MAX,
                    i < n_rows,
                    j <= n_cols,
                    i * n_cols + n_cols <= len,
                    indices@.len() == i * n_cols + j,
                    forall|k: int|
                        0 <= k < indices@.len() ==> {
                            let p = #[trigger] indices@[k];
                            &&& (p.0 as int) < n_rows as int
                            &&& (p.1 as int) < n_cols as int
                            &&& p.0 as int == k / (n_cols as int)
                            &&& p.1 as int == k % (n_cols as int)
                        },
                decreases n_cols - j,
            {
                proof {
                    lemma_index_round_trip(i as int, j as int, n_cols as int);
                }
                indices.push((i, j));
                j += 1;
            }
            i += 1;
            proof {
                assert((i - 1) * n_cols + n_cols == i * n_cols) by (nonlinear_arith);
            }
        }
        let ghost key0: nat = if states@.len() > 0 {
            states@[0].key()
        } else {
            arbitrary()
        };
        let board = Board { rows: n_rows, cols: n_cols, cells: states, indices, key: Ghost(key0) };
        Ok(board)
    }

    pub fn rows(&self) -> (r: usize)
        ensures
            r == self.spec_rows(),
    {
        self.rows
    }

    pub fn cols(&self) -> (r: usize)
        ensures
            r == self.spec_cols(),
    {
        self.cols
    }

    /// Borrow the ciphertext of the cell at `(i, j)`, for the decryption
    /// boundary to inspect a generation.
    pub fn cell(&self, i: usize, j: usize) -> (r: &Cell)
        requires
            self.wf(),
            i < self.spec_rows(),
            j < self.spec_cols(),
        ensures
            r.value() == self.grid()[i as int * self.spec_cols() as int + j as int],
            r.value() <= 1,
            r.key() == self.key(),
    {
        let total = self.cells.len();
        proof {
            lemma_index_in_grid(i as int, j as int, self.rows as int, self.cols as int);
            assert(self.grid()[i as int * self.cols as int + j as int] == self.cells@[i as int
                * self.cols as int + j as int].value());
        }
        &self.cells[i * self.cols + j]
    }

    /// Compute the next generation and atomically replace the board's state.
    /// Every cell of the new generation is derived from the previous
    /// generation alone; the replacement happens only after all work items
    /// complete.
    pub fn update(&mut self, ctx: &EvalContext, strat: Strategy)
        requires
            old(self).wf(),
            old(self).grid().len() == 0 || old(self).key() == ctx.key(),
            strat.valid_for(ctx.spec_message_modulus(), ctx.spec_carry_modulus()),
        ensures
            final(self).wf(),
            final(self).spec_rows() == old(self).spec_rows(),
            final(self).spec_cols() == old(self).spec_cols(),
            final(self).key() == old(self).key(),
            final(self).grid() =~= life_step(
                old(self).grid(),
                old(self).spec_rows() as int,
                old(self).spec_cols() as int,
            ),
    {
        proof {
            assert forall|k: int| 0 <= k < self.indices@.len() implies call_requires(
                step_cell,
                (
                    ctx,
                    strat,
                    &self.cells,
                    self.rows,
                    self.cols,
                    self.indices@[k].0,
                    self.indices@[k].1,
                ),
            ) by {
                assert(self.cells@.len() > 0);
                assert(self.rows >= 1) by (nonlinear_arith)
                    requires
                        (self.rows as int) * (self.cols as int) > 0,
                ;
            }
        }
        let new_cells = par_step_cells(ctx, strat, &self.cells, self.rows, self.cols, &self.indices);
        proof {
            let g = cells_grid(self.cells@);
            let step = life_step(g, self.rows as int, self.cols as int);
            assert forall|k: int| 0 <= k < new_cells@.len() implies {
                &&& (#[trigger] new_cells@[k]).value() == step[k]
                &&& new_cells@[k].value() <= 1
                &&& new_cells@[k].key() == ctx.key()
            } by {
                let p = self.indices@[k];
                lemma_fundamental_div_mod(k, self.cols as int);
                assert(p.0 as int * self.cols as int + p.1 as int == k) by (nonlinear_arith)
                    requires
                        k == (self.cols as int) * (k / (self.cols as int)) + k % (
                        self.cols as int),
                        p.0 as int == k / (self.cols as int),
                        p.1 as int == k % (self.cols as int),
                ;
                assert(cell_at(g, self.cols as int, p.0 as int, p.1 as int) == g[k]);
            }
        }
        self.cells = new_cells;
        proof {
            assert(self.grid() =~= life_step(
                old(self).grid(),
                old(self).spec_rows() as int,
                old(self).spec_cols() as int,
            ));
        }
    }

    /// Advance the board by `n` generations.  Whatever strategy drives the
    /// update, the result decrypts to the same iterated plaintext grid.
    pub fn run(&mut self, ctx: &EvalContext, strat: Strategy, n: usize)
        requires
            old(self).wf(),
            old(self).grid().len() == 0 || old(self).key() == ctx.key(),
            strat.valid_for(ctx.spec_message_modulus(), ctx.spec_carry_modulus()),
        ensures
            final(self).wf(),
            final(self).spec_rows() == old(self).spec_rows(),
            final(self).spec_cols() == old(self).spec_cols(),
            final(self).key() == old(self).key(),
            final(self).grid() =~= life_iter(
                old(self).grid(),
                old(self).spec_rows() as int,
                old(self).spec_cols() as int,
                n as nat,
            ),
    {
        let mut t: usize = 0;
        while t < n
            invariant
                self.wf(),
                self.spec_rows() == old(self).spec_rows(),
                self.spec_cols() == old(self).spec_cols(),
                self.key() == old(self).key(),
                old(self).grid().len() == 0 || old(self).key() == ctx.key(),
                old(self).grid().len() == old(self).spec_rows() * old(self).spec_cols(),
                self.grid().len() == old(self).grid().len(),
                strat.valid_for(ctx.spec_message_modulus(), ctx.spec_carry_modulus()),
                t <= n,
                self.grid() =~= life_iter(
                    old(self).grid(),
                    old(self).spec_rows() as int,
                    old(self).spec_cols() as int,
                    t as nat,
                ),
            decreases n - t,
        {
            self.update(ctx, strat);
            t += 1;
            proof {
                assert(life_iter(
                    old(self).grid(),
                    old(self).spec_rows() as int,
                    old(self).spec_cols() as int,
                    t as nat,
                ) == life_step(
                    life_iter(
                        old(self).grid(),
                        old(self).spec_rows() as int,
                        old(self).spec_cols() as int,
                        (t - 1) as nat,
                    ),
                    old(self).spec_rows() as int,
                    old(self).spec_cols() as int,
                ));
            }
        }
    }
}

} // verus!
