//! The plaintext model: the survival rule, toroidal indexing, and one
//! generation of a row-major grid.  Every encrypted component is specified
//! against the functions of this module.

use vstd::prelude::*;
use vstd::arithmetic::div_mod::{
    lemma_div_pos_is_pos, lemma_fundamental_div_mod_converse_div,
    lemma_fundamental_div_mod_converse_mod, lemma_mod_bound, lemma_multiply_divide_lt,
};
use vstd::arithmetic::mul::{lemma_mul_inequality, lemma_mul_is_commutative};

verus! {

/// Next state of one cell under the standard rule: a cell is alive in the
/// next generation exactly when it has three live neighbors, or it is alive
/// now and has two live neighbors.
pub open spec fn rule_next(cell: nat, count: nat) -> nat {
    if count == 3 || (cell == 1 && count == 2) {
        1
    } else {
        0
    }
}

/// Toroidal predecessor of coordinate `x` on an axis of length `n`.
pub open spec fn wrap_dec(x: int, n: int) -> int {
    if x == 0 {
        n - 1
    } else {
        x - 1
    }
}

/// Toroidal successor of coordinate `x` on an axis of length `n`.
pub open spec fn wrap_inc(x: int, n: int) -> int {
    if x == n - 1 {
        0
    } else {
        x + 1
    }
}

/// The value of a row-major grid at row `i`, column `j`.
pub open spec fn cell_at(g: Seq<nat>, cols: int, i: int, j: int) -> nat {
    g[i * cols + j]
}

/// How many of the eight toroidally wrapped neighbors of `(i, j)` are alive.
pub open spec fn neighbor_count(g: Seq<nat>, rows: int, cols: int, i: int, j: int) -> nat {
    let im = wrap_dec(i, rows);
    let ip = wrap_inc(i, rows);
    let jm = wrap_dec(j, cols);
    let jp = wrap_inc(j, cols);
    (cell_at(g, cols, im, jm) + cell_at(g, cols, im, j) + cell_at(g, cols, im, jp) + cell_at(
        g,
        cols,
        i,
        jm,
    ) + cell_at(g, cols, i, jp) + cell_at(g, cols, ip, jm) + cell_at(g, cols, ip, j) + cell_at(
        g,
        cols,
        ip,
        jp,
    )) as nat
}

/// A grid is a row-major sequence of `rows * cols` cells, each 0 or 1.
pub open spec fn grid_ok(g: Seq<nat>, rows: int, cols: int) -> bool {
    &&& rows >= 1
    &&& cols >= 1
    &&& g.len() == rows * cols
    &&& forall|k: int| 0 <= k < g.len() ==> g[k] <= 1
}

/// One full generation: every cell of the result is derived from the previous
/// grid alone.
pub open spec fn life_step(g: Seq<nat>, rows: int, cols: int) -> Seq<nat> {
    Seq::new(
        (rows * cols) as nat,
        |k: int| rule_next(g[k], neighbor_count(g, rows, cols, k / cols, k % cols)),
    )
}

/// `n` generations.
pub open spec fn life_iter(g: Seq<nat>, rows: int, cols: int, n: nat) -> Seq<nat>
    decreases n,
{
    if n == 0 {
        g
    } else {
        life_step(life_iter(g, rows, cols, (n - 1) as nat), rows, cols)
    }
}

/// A flat row-major index stays inside the grid.
pub proof fn lemma_index_in_grid(i: int, j: int, rows: int, cols: int)
    requires
        0 <= i < rows,
        0 <= j < cols,
    ensures
        0 <= i * cols + j < rows * cols,
{
    lemma_mul_inequality(i + 1, rows, cols);
    assert((i + 1) * cols == i * cols + cols) by (nonlinear_arith);
    assert(i * cols >= 0) by (nonlinear_arith)
        requires
            i >= 0,
            cols >= 0,
    ;
}

/// Row `i`, column `j` is recovered from the flat index `i * cols + j`.
pub proof fn lemma_index_round_trip(i: int, j: int, cols: int)
    requires
        0 <= i,
        0 <= j < cols,
    ensures
        (i * cols + j) / cols == i,
        (i * cols + j) % cols == j,
{
    lemma_fundamental_div_mod_converse_div(i * cols + j, cols, i, j);
    lemma_fundamental_div_mod_converse_mod(i * cols + j, cols, i, j);
}

/// Plaintext reference for one cell: the rule as executable code.
pub fn next_cell(cell: u64, count: u64) -> (r: u64)
    ensures
        r as nat == rule_next(cell as nat, count as nat),
{
    if count == 3 || (cell == 1 && count == 2) {
        1
    } else {
        0
    }
}

/// Toroidal predecessor, executable.
pub fn wrap_prev(x: usize, n: usize) -> (r: usize)
    requires
        1 <= n,
        x < n,
    ensures
        r as int == wrap_dec(x as int, n as int),
        r < n,
{
    if x == 0 {
        n - 1
    } else {
        x - 1
    }
}

/// Toroidal successor, executable.
pub fn wrap_next(x: usize, n: usize) -> (r: usize)
    requires
        1 <= n,
        x < n,
    ensures
        r as int == wrap_inc(x as int, n as int),
        r < n,
{
    if x == n - 1 {
        0
    } else {
        x + 1
    }
}

/// The plaintext view of a grid of small integers.
pub open spec fn as_grid(g: Seq<u64>) -> Seq<nat> {
    g.map_values(|v: u64| v as nat)
}

/// A flat index decomposes into a row below `rows` and a column below `cols`.
pub proof fn lemma_flat_coords(k: int, rows: int, cols: int)
    requires
        0 <= k < rows * cols,
        1 <= cols,
    ensures
        0 <= k / cols < rows,
        0 <= k % cols < cols,
{
    lemma_div_pos_is_pos(k, cols);
    lemma_mod_bound(k, cols);
    lemma_mul_is_commutative(rows, cols);
    lemma_multiply_divide_lt(k, cols, rows);
}

/// Idempotence on extinction, one step: an all-dead grid has no live
/// neighbors anywhere, so the whole next generation is dead too.
pub proof fn lemma_extinction_step(g: Seq<nat>, rows: int, cols: int)
    requires
        grid_ok(g, rows, cols),
        forall|k: int| 0 <= k < g.len() ==> g[k] == 0,
    ensures
        life_step(g, rows, cols) =~= g,
{
    assert forall|k: int| 0 <= k < rows * cols implies life_step(g, rows, cols)[k] == g[k] by {
        lemma_flat_coords(k, rows, cols);
        let i = k / cols;
        let j = k % cols;
        let im = wrap_dec(i, rows);
        let ip = wrap_inc(i, rows);
        let jm = wrap_dec(j, cols);
        let jp = wrap_inc(j, cols);
        lemma_index_in_grid(im, jm, rows, cols);
        lemma_index_in_grid(im, j, rows, cols);
        lemma_index_in_grid(im, jp, rows, cols);
        lemma_index_in_grid(i, jm, rows, cols);
        lemma_index_in_grid(i, jp, rows, cols);
        lemma_index_in_grid(ip, jm, rows, cols);
        lemma_index_in_grid(ip, j, rows, cols);
        lemma_index_in_grid(ip, jp, rows, cols);
        assert(neighbor_count(g, rows, cols, i, j) == 0);
    }
}

/// Idempotence on extinction: an all-dead board stays all-dead for any
/// number of generations.
pub proof fn lemma_extinction(g: Seq<nat>, rows: int, cols: int, n: nat)
    requires
        grid_ok(g, rows, cols),
        forall|k: int| 0 <= k < g.len() ==> g[k] == 0,
    ensures
        life_iter(g, rows, cols, n) =~= g,
    decreases n,
{
    if n > 0 {
        lemma_extinction(g, rows, cols, (n - 1) as nat);
        assert(life_iter(g, rows, cols, (n - 1) as nat) =~= g);
        lemma_extinction_step(g, rows, cols);
    }
}

/// Toroidal wraparound: the neighborhood of the corner cell `(0, 0)` wraps
/// to the opposite corner `(rows - 1, cols - 1)`, so that cell's value is
/// counted among the corner's neighbors.
pub proof fn lemma_corner_wraparound(g: Seq<nat>, rows: int, cols: int)
    requires
        grid_ok(g, rows, cols),
    ensures
        neighbor_count(g, rows, cols, 0, 0) >= g[(rows - 1) * cols + (cols - 1)],
{
    assert(wrap_dec(0, rows) == rows - 1);
    assert(wrap_dec(0, cols) == cols - 1);
}

/// Toroidal wraparound, sharpened: if the opposite corner is the only live
/// cell of the board, the corner cell `(0, 0)` counts exactly one live
/// neighbor.
pub proof fn lemma_corner_single_neighbor(g: Seq<nat>, rows: int, cols: int)
    requires
        grid_ok(g, rows, cols),
        3 <= rows,
        3 <= cols,
        g[(rows - 1) * cols + (cols - 1)] == 1,
        forall|k: int|
            0 <= k < g.len() && k != (rows - 1) * cols + (cols - 1) ==> g[k] == 0,
    ensures
        neighbor_count(g, rows, cols, 0, 0) == 1,
{
    let im = wrap_dec(0, rows);
    let ip = wrap_inc(0, rows);
    let jm = wrap_dec(0, cols);
    let jp = wrap_inc(0, cols);
    assert(im == rows - 1 && ip == 1 && jm == cols - 1 && jp == 1);
    lemma_index_in_grid(rows - 1, cols - 1, rows, cols);
    lemma_index_round_trip(rows - 1, cols - 1, cols);
    lemma_index_in_grid(rows - 1, 0, rows, cols);
    lemma_index_round_trip(rows - 1, 0, cols);
    lemma_index_in_grid(rows - 1, 1, rows, cols);
    lemma_index_round_trip(rows - 1, 1, cols);
    lemma_index_in_grid(0, cols - 1, rows, cols);
    lemma_index_round_trip(0, cols - 1, cols);
    lemma_index_in_grid(0, 1, rows, cols);
    lemma_index_round_trip(0, 1, cols);
    lemma_index_in_grid(1, cols - 1, rows, cols);
    lemma_index_round_trip(1, cols - 1, cols);
    lemma_index_in_grid(1, 0, rows, cols);
    lemma_index_round_trip(1, 0, cols);
    lemma_index_in_grid(1, 1, rows, cols);
    lemma_index_round_trip(1, 1, cols);
}

/// Is `(i, j)` one of the four cells of the two-by-two block anchored at
/// `(r, c)`?
pub open spec fn in_block(i: int, j: int, r: int, c: int) -> bool {
    (i == r || i == r + 1) && (j == c || j == c + 1)
}

/// The grid whose live cells are exactly the two-by-two block at `(r, c)`.
pub open spec fn block_grid(rows: int, cols: int, r: int, c: int) -> Seq<nat> {
    Seq::new(
        (rows * cols) as nat,
        |k: int|
            if in_block(k / cols, k % cols, r, c) {
                1nat
            } else {
                0nat
            },
    )
}

/// One cell of the block still life: with the block away from every edge,
/// each block cell keeps exactly three live neighbors and every other cell
/// sees too few or none, so the cell's next state equals its current one.
#[verifier::rlimit(60)]
pub proof fn lemma_block_cell(rows: int, cols: int, r: int, c: int, i: int, j: int)
    requires
        4 <= rows,
        4 <= cols,
        1 <= r && r + 2 <= rows - 1,
        1 <= c && c + 2 <= cols - 1,
        0 <= i < rows,
        0 <= j < cols,
    ensures
        ({
            let g = block_grid(rows, cols, r, c);
            rule_next(g[i * cols + j], neighbor_count(g, rows, cols, i, j)) == g[i * cols + j]
        }),
{
    let g = block_grid(rows, cols, r, c);
    let im = wrap_dec(i, rows);
    let ip = wrap_inc(i, rows);
    let jm = wrap_dec(j, cols);
    let jp = wrap_inc(j, cols);
    lemma_index_in_grid(i, j, rows, cols);
    lemma_index_round_trip(i, j, cols);
    lemma_index_in_grid(im, jm, rows, cols);
    lemma_index_round_trip(im, jm, cols);
    lemma_index_in_grid(im, j, rows, cols);
    lemma_index_round_trip(im, j, cols);
    lemma_index_in_grid(im, jp, rows, cols);
    lemma_index_round_trip(im, jp, cols);
    lemma_index_in_grid(i, jm, rows, cols);
    lemma_index_round_trip(i, jm, cols);
    lemma_index_in_grid(i, jp, rows, cols);
    lemma_index_round_trip(i, jp, cols);
    lemma_index_in_grid(ip, jm, rows, cols);
    lemma_index_round_trip(ip, jm, cols);
    lemma_index_in_grid(ip, j, rows, cols);
    lemma_index_round_trip(ip, j, cols);
    lemma_index_in_grid(ip, jp, rows, cols);
    lemma_index_round_trip(ip, jp, cols);
    assert(g[im * cols + jm] == (if in_block(im, jm, r, c) { 1nat } else { 0nat }));
    assert(g[im * cols + j] == (if in_block(im, j, r, c) { 1nat } else { 0nat }));
    assert(g[im * cols + jp] == (if in_block(im, jp, r, c) { 1nat } else { 0nat }));
    assert(g[i * cols + jm] == (if in_block(i, jm, r, c) { 1nat } else { 0nat }));
    assert(g[i * cols + jp] == (if in_block(i, jp, r, c) { 1nat } else { 0nat }));
    assert(g[ip * cols + jm] == (if in_block(ip, jm, r, c) { 1nat } else { 0nat }));
    assert(g[ip * cols + j] == (if in_block(ip, j, r, c) { 1nat } else { 0nat }));
    assert(g[ip * cols + jp] == (if in_block(ip, jp, r, c) { 1nat } else { 0nat }));
    assert(g[i * cols + j] == (if in_block(i, j, r, c) { 1nat } else { 0nat }));
}

/// Stability of a two-by-two block: fully alive and embedded with a dead
/// margin on every side, it is a still life; one generation leaves the grid
/// unchanged.
pub proof fn lemma_block_still_life(rows: int, cols: int, r: int, c: int)
    requires
        4 <= rows,
        4 <= cols,
        1 <= r && r + 2 <= rows - 1,
        1 <= c && c + 2 <= cols - 1,
    ensures
        life_step(block_grid(rows, cols, r, c), rows, cols) =~= block_grid(rows, cols, r, c),
{
    let g = block_grid(rows, cols, r, c);
    assert forall|k: int| 0 <= k < rows * cols implies life_step(g, rows, cols)[k] == g[k] by {
        lemma_flat_coords(k, rows, cols);
        let i = k / cols;
        let j = k % cols;
        lemma_index_round_trip(i, j, cols);
        vstd::arithmetic::div_mod::lemma_fundamental_div_mod(k, cols);
        assert(i * cols + j == k) by (nonlinear_arith)
            requires
                k == cols * (k / cols) + k % cols,
                i == k / cols,
                j == k % cols,
        ;
        lemma_block_cell(rows, cols, r, c, i, j);
    }
}

/// Every raw value of a well-formed grid is 0 or 1.
pub proof fn lemma_grid_values(g: Seq<u64>, rows: int, cols: int)
    requires
        grid_ok(as_grid(g), rows, cols),
    ensures
        forall|k: int| 0 <= k < g.len() ==> g[k] <= 1,
        g.len() == rows * cols,
{
    assert forall|k: int| 0 <= k < g.len() implies g[k] <= 1 by {
        assert(as_grid(g)[k] == g[k] as nat);
    }
}

/// Plaintext reference for the neighbor count of `(i, j)`.
pub fn plain_neighbor_count(g: &Vec<u64>, rows: usize, cols: usize, i: usize, j: usize) -> (r: u64)
    requires
        grid_ok(as_grid(g@), rows as int, cols as int),
        i < rows,
        j < cols,
    ensures
        r as nat == neighbor_count(as_grid(g@), rows as int, cols as int, i as int, j as int),
        r <= 8,
{
    let total = g.len();
    proof {
        lemma_grid_values(g@, rows as int, cols as int);
        assert(total == rows * cols);
    }
    let im = wrap_prev(i, rows);
    let ip = wrap_next(i, rows);
    let jm = wrap_prev(j, cols);
    let jp = wrap_next(j, cols);
    proof {
        lemma_index_in_grid(im as int, jm as int, rows as int, cols as int);
        lemma_index_in_grid(im as int, j as int, rows as int, cols as int);
        lemma_index_in_grid(im as int, jp as int, rows as int, cols as int);
        lemma_index_in_grid(i as int, jm as int, rows as int, cols as int);
        lemma_index_in_grid(i as int, jp as int, rows as int, cols as int);
        lemma_index_in_grid(ip as int, jm as int, rows as int, cols as int);
        lemma_index_in_grid(ip as int, j as int, rows as int, cols as int);
        lemma_index_in_grid(ip as int, jp as int, rows as int, cols as int);
    }
    let r = g[im * cols + jm] + g[im * cols + j] + g[im * cols + jp] + g[i * cols + jm] + g[i * cols
        + jp] + g[ip * cols + jm] + g[ip * cols + j] + g[ip * cols + jp];
    r
}

/// Plaintext reference for one full generation of the grid.
pub fn plain_step(g: &Vec<u64>, rows: usize, cols: usize) -> (r: Vec<u64>)
    requires
        grid_ok(as_grid(g@), rows as int, cols as int),
    ensures
        as_grid(r@) =~= life_step(as_grid(g@), rows as int, cols as int),
        grid_ok(as_grid(r@), rows as int, cols as int),
{
    let total = g.len();
    proof {
        assert(total == rows * cols);
    }
    let mut out: Vec<u64> = Vec::new();
    let mut i: usize = 0;
    while i < rows
        invariant
            grid_ok(as_grid(g@), rows as int, cols as int),
            i <= rows,
            out@.len() == i * cols,
            forall|k: int|
                0 <= k < out@.len() ==> as_grid(out@)[k] == life_step(
                    as_grid(g@),
                    rows as int,
                    cols as int,
                )[k],
            forall|k: int| 0 <= k < out@.len() ==> out@[k] <= 1,
        decreases rows - i,
    {
        let mut j: usize = 0;
        proof {
            lemma_mul_inequality(i as int + 1, rows as int, cols as int);
            assert((i + 1) * cols == i * cols + cols) by (nonlinear_arith);
        }
        while j < cols
            invariant
                grid_ok(as_grid(g@), rows as int, cols as int),
                i < rows,
                j <= cols,
                out@.len() == i * cols + j,
                forall|k: int|
                    0 <= k < out@.len() ==> as_grid(out@)[k] == life_step(
                        as_grid(g@),
                        rows as int,
                        cols as int,
                    )[k],
                forall|k: int| 0 <= k < out@.len() ==> out@[k] <= 1,
            decreases cols - j,
        {
            let count = plain_neighbor_count(g, rows, cols, i, j);
            let total = g.len();
            proof {
                lemma_grid_values(g@, rows as int, cols as int);
                assert(total == rows * cols);
                lemma_index_in_grid(i as int, j as int, rows as int, cols as int);
                lemma_index_round_trip(i as int, j as int, cols as int);
            }
            let ghost pre = out@;
            let alive = next_cell(g[i * cols + j], count);
            out.push(alive);
            proof {
                let kk = i as int * (cols as int) + j as int;
                let step = life_step(as_grid(g@), rows as int, cols as int);
                assert(as_grid(g@)[kk] == g@[kk] as nat);
                assert(step[kk] == rule_next(
                    as_grid(g@)[kk],
                    neighbor_count(as_grid(g@), rows as int, cols as int, i as int, j as int),
                ));
                assert forall|m: int| 0 <= m < out@.len() implies as_grid(out@)[m] == step[m] by {
                    if m < pre.len() {
                        assert(out@[m] == pre[m]);
                        assert(as_grid(pre)[m] == step[m]);
                    } else {
                        assert(m == kk);
                        assert(as_grid(out@)[kk] == alive as nat);
                    }
                }
            }
            j += 1;
        }
        i += 1;
        proof {
            assert((i - 1) * cols + cols == i * cols) by (nonlinear_arith);
        }
    }
    proof {
        assert(out@.len() == rows * cols);
    }
    out
}

} // verus!
