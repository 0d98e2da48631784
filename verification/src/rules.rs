use vstd::prelude::*;
use crate::cell::Cell;

verus! {

/// Row-major index of a grid position.
pub open spec fn idx_spec(w: int, col: int, row: int) -> int {
    row * w + col
}

/// A coordinate moved by one step with toroidal wrap-around.
pub open spec fn wrap_spec(x: int, d: int, m: int) -> int
    recommends
        0 <= x < m,
        -1 <= d <= 1,
        m >= 1,
{
    (x + d + m) % m
}

/// 1 if the neighbor at offset `(dc, dr)` is alive, else 0.
pub open spec fn nbr_alive(cells: Seq<Cell>, w: int, h: int, col: int, row: int, dc: int, dr: int) -> int {
    if cells[idx_spec(w, wrap_spec(col, dc, w), wrap_spec(row, dr, h))].alive {
        1
    } else {
        0
    }
}

/// The number of live cells among the 8 toroidal neighbors.
pub open spec fn live_neighbors(cells: Seq<Cell>, w: int, h: int, col: int, row: int) -> int {
    nbr_alive(cells, w, h, col, row, -1, -1) + nbr_alive(cells, w, h, col, row, 0, -1)
        + nbr_alive(cells, w, h, col, row, 1, -1) + nbr_alive(cells, w, h, col, row, -1, 0)
        + nbr_alive(cells, w, h, col, row, 1, 0) + nbr_alive(cells, w, h, col, row, -1, 1)
        + nbr_alive(cells, w, h, col, row, 0, 1) + nbr_alive(cells, w, h, col, row, 1, 1)
}

/// The red channel of the neighbor at offset `(dc, dr)` if it is alive, else 0.
pub open spec fn nbr_r(cells: Seq<Cell>, w: int, h: int, col: int, row: int, dc: int, dr: int) -> int {
    let c = cells[idx_spec(w, wrap_spec(col, dc, w), wrap_spec(row, dr, h))];
    if c.alive {
        c.r as int
    } else {
        0
    }
}

pub open spec fn nbr_g(cells: Seq<Cell>, w: int, h: int, col: int, row: int, dc: int, dr: int) -> int {
    let c = cells[idx_spec(w, wrap_spec(col, dc, w), wrap_spec(row, dr, h))];
    if c.alive {
        c.g as int
    } else {
        0
    }
}

pub open spec fn nbr_b(cells: Seq<Cell>, w: int, h: int, col: int, row: int, dc: int, dr: int) -> int {
    let c = cells[idx_spec(w, wrap_spec(col, dc, w), wrap_spec(row, dr, h))];
    if c.alive {
        c.b as int
    } else {
        0
    }
}

/// Sum of the red channels of the live neighbors.
pub open spec fn sum_r(cells: Seq<Cell>, w: int, h: int, col: int, row: int) -> int {
    nbr_r(cells, w, h, col, row, -1, -1) + nbr_r(cells, w, h, col, row, 0, -1)
        + nbr_r(cells, w, h, col, row, 1, -1) + nbr_r(cells, w, h, col, row, -1, 0)
        + nbr_r(cells, w, h, col, row, 1, 0) + nbr_r(cells, w, h, col, row, -1, 1)
        + nbr_r(cells, w, h, col, row, 0, 1) + nbr_r(cells, w, h, col, row, 1, 1)
}

pub open spec fn sum_g(cells: Seq<Cell>, w: int, h: int, col: int, row: int) -> int {
    nbr_g(cells, w, h, col, row, -1, -1) + nbr_g(cells, w, h, col, row, 0, -1)
        + nbr_g(cells, w, h, col, row, 1, -1) + nbr_g(cells, w, h, col, row, -1, 0)
        + nbr_g(cells, w, h, col, row, 1, 0) + nbr_g(cells, w, h, col, row, -1, 1)
        + nbr_g(cells, w, h, col, row, 0, 1) + nbr_g(cells, w, h, col, row, 1, 1)
}

pub open spec fn sum_b(cells: Seq<Cell>, w: int, h: int, col: int, row: int) -> int {
    nbr_b(cells, w, h, col, row, -1, -1) + nbr_b(cells, w, h, col, row, 0, -1)
        + nbr_b(cells, w, h, col, row, 1, -1) + nbr_b(cells, w, h, col, row, -1, 0)
        + nbr_b(cells, w, h, col, row, 1, 0) + nbr_b(cells, w, h, col, row, -1, 1)
        + nbr_b(cells, w, h, col, row, 0, 1) + nbr_b(cells, w, h, col, row, 1, 1)
}

/// The color a newborn cell takes: the channel-wise truncated mean over all
/// live neighbors, or white in the defensive zero-neighbor case.
pub open spec fn blend_spec(cells: Seq<Cell>, w: int, h: int, col: int, row: int) -> Cell {
    let n = live_neighbors(cells, w, h, col, row);
    if n == 0 {
        Cell { alive: true, r: 255, g: 255, b: 255 }
    } else {
        Cell {
            alive: true,
            r: (sum_r(cells, w, h, col, row) / n) as u8,
            g: (sum_g(cells, w, h, col, row) / n) as u8,
            b: (sum_b(cells, w, h, col, row) / n) as u8,
        }
    }
}

/// The life rule at one position: survival on 2 or 3 neighbors, birth with
/// the blended color on exactly 3, death otherwise.
pub open spec fn step_cell(cells: Seq<Cell>, w: int, h: int, col: int, row: int) -> Cell {
    let c = cells[idx_spec(w, col, row)];
    let n = live_neighbors(cells, w, h, col, row);
    if c.alive && (n == 2 || n == 3) {
        c
    } else if !c.alive && n == 3 {
        blend_spec(cells, w, h, col, row)
    } else {
        Cell::dead_spec()
    }
}

/// One full synchronous generation: every cell is recomputed from the same
/// snapshot of the grid.
pub open spec fn life_step(cells: Seq<Cell>, w: int, h: int) -> Seq<Cell> {
    Seq::new((w * h) as nat, |i: int| step_cell(cells, w, h, i % w, i / w))
}

/// Recovering a position from its row-major index.
pub proof fn lemma_idx_inverse(w: int, col: int, row: int)
    requires
        w >= 1,
        0 <= col < w,
        row >= 0,
    ensures
        idx_spec(w, col, row) % w == col,
        idx_spec(w, col, row) / w == row,
{
    vstd::arithmetic::div_mod::lemma_fundamental_div_mod_converse(row * w + col, w, row, col);
}

/// A row-major index is within the grid buffer.
pub proof fn lemma_idx_bound(w: int, h: int, col: int, row: int)
    requires
        w >= 1,
        h >= 1,
        0 <= col < w,
        0 <= row < h,
    ensures
        0 <= idx_spec(w, col, row) < w * h,
{
    assert(row * w + col < w * h) by (nonlinear_arith)
        requires
            0 <= col < w,
            0 <= row < h,
    ;
    assert(row * w >= 0) by (nonlinear_arith)
        requires
            row >= 0,
            w >= 1,
    ;
}

/// The wrap of an in-range coordinate stays in range, and a unit step from
/// the low edge lands on the high edge.
pub proof fn lemma_wrap_bounds(x: int, d: int, m: int)
    requires
        0 <= x < m,
        -1 <= d <= 1,
        m >= 1,
    ensures
        0 <= wrap_spec(x, d, m) < m,
        0 <= x + d < m ==> wrap_spec(x, d, m) == x + d,
        x + d == -1 ==> wrap_spec(x, d, m) == m - 1,
        x + d == m ==> wrap_spec(x, d, m) == 0,
{
    vstd::arithmetic::div_mod::lemma_mod_bound(x + d + m, m);
    if 0 <= x + d < m {
        vstd::arithmetic::div_mod::lemma_mod_sub_multiples_vanish(x + d + m, m);
        vstd::arithmetic::div_mod::lemma_small_mod((x + d) as nat, m as nat);
    }
    if x + d == -1 {
        vstd::arithmetic::div_mod::lemma_small_mod((m - 1) as nat, m as nat);
    }
    if x + d == m {
        vstd::arithmetic::div_mod::lemma_mod_sub_multiples_vanish(2 * m, m);
        vstd::arithmetic::div_mod::lemma_mod_self_0(m);
    }
}

/// Decomposing an in-range buffer index into its column and row.
pub proof fn lemma_index_decompose(w: int, h: int, j: int)
    requires
        w >= 1,
        h >= 1,
        0 <= j < w * h,
    ensures
        0 <= j % w < w,
        0 <= j / w < h,
        idx_spec(w, j % w, j / w) == j,
{
    vstd::arithmetic::div_mod::lemma_mod_bound(j, w);
    vstd::arithmetic::div_mod::lemma_fundamental_div_mod(j, w);
    assert((j / w) * w == w * (j / w)) by (nonlinear_arith);
    assert(j / w >= 0) by (nonlinear_arith)
        requires
            j >= 0,
            w >= 1,
    ;
    assert(j / w < h) by (nonlinear_arith)
        requires
            w >= 1,
            h >= 1,
            j < w * h,
            j == w * (j / w) + j % w,
            j % w >= 0,
    ;
}

/// Toroidal wrap: the cell diagonally opposite across the corner counts as
/// a neighbor of the origin.
pub proof fn lemma_toroidal_wrap(cells: Seq<Cell>, w: int, h: int)
    requires
        w >= 2,
        h >= 2,
        cells.len() == w * h,
        cells[idx_spec(w, w - 1, h - 1)].alive,
    ensures
        live_neighbors(cells, w, h, 0, 0) >= 1,
{
    lemma_wrap_bounds(0, -1, w);
    lemma_wrap_bounds(0, -1, h);
    assert(nbr_alive(cells, w, h, 0, 0, -1, -1) == 1);
    lemma_live_neighbors_range(cells, w, h, 0, 0);
}

/// The neighbor count is one of 0..=8.
pub proof fn lemma_live_neighbors_range(cells: Seq<Cell>, w: int, h: int, col: int, row: int)
    ensures
        0 <= live_neighbors(cells, w, h, col, row) <= 8,
{
}

/// Stasis: a live cell with exactly 2 or 3 live neighbors survives one
/// generation with its color unchanged.
pub proof fn lemma_stasis(cells: Seq<Cell>, w: int, h: int, col: int, row: int)
    requires
        w >= 1,
        h >= 1,
        0 <= col < w,
        0 <= row < h,
        cells.len() == w * h,
        cells[idx_spec(w, col, row)].alive,
        live_neighbors(cells, w, h, col, row) == 2 || live_neighbors(cells, w, h, col, row) == 3,
    ensures
        life_step(cells, w, h)[idx_spec(w, col, row)] == cells[idx_spec(w, col, row)],
{
    lemma_idx_inverse(w, col, row);
    lemma_idx_bound(w, h, col, row);
}

/// Birth color: a dead cell with exactly 3 live neighbors comes alive with
/// the channel-wise truncated mean of those neighbors' colors.
pub proof fn lemma_birth_color(cells: Seq<Cell>, w: int, h: int, col: int, row: int)
    requires
        w >= 1,
        h >= 1,
        0 <= col < w,
        0 <= row < h,
        cells.len() == w * h,
        !cells[idx_spec(w, col, row)].alive,
        live_neighbors(cells, w, h, col, row) == 3,
    ensures
        life_step(cells, w, h)[idx_spec(w, col, row)] == (Cell {
            alive: true,
            r: (sum_r(cells, w, h, col, row) / 3) as u8,
            g: (sum_g(cells, w, h, col, row) / 3) as u8,
            b: (sum_b(cells, w, h, col, row) / 3) as u8,
        }),
        life_step(cells, w, h)[idx_spec(w, col, row)].alive,
{
    lemma_idx_inverse(w, col, row);
    lemma_idx_bound(w, h, col, row);
}

/// Death: a live cell with fewer than 2 or more than 3 live neighbors dies,
/// and a dead cell without exactly 3 live neighbors stays dead, both with
/// color cleared.
pub proof fn lemma_death(cells: Seq<Cell>, w: int, h: int, col: int, row: int)
    requires
        w >= 1,
        h >= 1,
        0 <= col < w,
        0 <= row < h,
        cells.len() == w * h,
        cells[idx_spec(w, col, row)].alive ==> live_neighbors(cells, w, h, col, row) < 2
            || live_neighbors(cells, w, h, col, row) >= 4,
        !cells[idx_spec(w, col, row)].alive ==> live_neighbors(cells, w, h, col, row) != 3,
    ensures
        life_step(cells, w, h)[idx_spec(w, col, row)] == Cell::dead_spec(),
{
    lemma_idx_inverse(w, col, row);
    lemma_idx_bound(w, h, col, row);
}

/// Moves a coordinate by one step with toroidal wrap-around.
fn wrap_u32(x: u32, d: i32, m: u32) -> (r: u32)
    requires
        x < m,
        -1 <= d <= 1,
        1 <= m <= 0x3FFF_FFFF,
    ensures
        r == wrap_spec(x as int, d as int, m as int),
        r < m,
{
    proof {
        lemma_wrap_bounds(x as int, d as int, m as int);
    }
    let shifted: u64 = (x as u64) + (m as u64) + ((d + 1) as u64) - 1;
    (shifted % (m as u64)) as u32
}

/// Fetches the neighbor at unit offset `(dc, dr)` with wrap-around.
fn neighbor_at(cells: &Vec<Cell>, w: u32, h: u32, col: u32, row: u32, dc: i32, dr: i32) -> (c:
    Cell)
    requires
        cells@.len() == w * h,
        1 <= w <= 0x3FFF_FFFF,
        1 <= h <= 0x3FFF_FFFF,
        col < w,
        row < h,
        -1 <= dc <= 1,
        -1 <= dr <= 1,
    ensures
        c == cells@[idx_spec(
            w as int,
            wrap_spec(col as int, dc as int, w as int),
            wrap_spec(row as int, dr as int, h as int),
        )],
{
    let nc = wrap_u32(col, dc, w);
    let nr = wrap_u32(row, dr, h);
    let l: usize = cells.len();
    proof {
        lemma_idx_bound(w as int, h as int, nc as int, nr as int);
        assert((nr as int) * (w as int) + (nc as int) < l as int);
    }
    let i: usize = (nr as usize) * (w as usize) + (nc as usize);
    cells[i]
}

/// A live cell's unit contribution to the neighbor count.
fn count_of(c: Cell) -> (r: u32)
    ensures
        r == if c.alive {
            1int
        } else {
            0int
        },
{
    if c.alive {
        1
    } else {
        0
    }
}

/// A live cell's red contribution to the blend sum.
fn red_of(c: Cell) -> (r: u32)
    ensures
        r == if c.alive {
            c.r as int
        } else {
            0int
        },
{
    if c.alive {
        c.r as u32
    } else {
        0
    }
}

fn green_of(c: Cell) -> (r: u32)
    ensures
        r == if c.alive {
            c.g as int
        } else {
            0int
        },
{
    if c.alive {
        c.g as u32
    } else {
        0
    }
}

fn blue_of(c: Cell) -> (r: u32)
    ensures
        r == if c.alive {
            c.b as int
        } else {
            0int
        },
{
    if c.alive {
        c.b as u32
    } else {
        0
    }
}

/// Gathers the neighborhood of one position: the live-neighbor count and
/// the channel sums over the live neighbors.
#[verifier::spinoff_prover]
#[verifier::rlimit(100)]
fn gather_neighbors(cells: &Vec<Cell>, w: u32, h: u32, col: u32, row: u32) -> (t: (u32, u32, u32, u32))
    requires
        cells@.len() == w * h,
        1 <= w <= 0x3FFF_FFFF,
        1 <= h <= 0x3FFF_FFFF,
        col < w,
        row < h,
    ensures
        t.0 as int == live_neighbors(cells@, w as int, h as int, col as int, row as int),
        t.1 as int == sum_r(cells@, w as int, h as int, col as int, row as int),
        t.2 as int == sum_g(cells@, w as int, h as int, col as int, row as int),
        t.3 as int == sum_b(cells@, w as int, h as int, col as int, row as int),
        t.1 <= 255 * t.0 && t.2 <= 255 * t.0 && t.3 <= 255 * t.0,
{
    let n0 = neighbor_at(cells, w, h, col, row, -1, -1);
    let n1 = neighbor_at(cells, w, h, col, row, 0, -1);
    let n2 = neighbor_at(cells, w, h, col, row, 1, -1);
    let n3 = neighbor_at(cells, w, h, col, row, -1, 0);
    let n4 = neighbor_at(cells, w, h, col, row, 1, 0);
    let n5 = neighbor_at(cells, w, h, col, row, -1, 1);
    let n6 = neighbor_at(cells, w, h, col, row, 0, 1);
    let n7 = neighbor_at(cells, w, h, col, row, 1, 1);
    let cnt: u32 = count_of(n0) + count_of(n1) + count_of(n2) + count_of(n3) + count_of(n4)
        + count_of(n5) + count_of(n6) + count_of(n7);
    let sr: u32 = red_of(n0) + red_of(n1) + red_of(n2) + red_of(n3) + red_of(n4) + red_of(n5)
        + red_of(n6) + red_of(n7);
    let sg: u32 = green_of(n0) + green_of(n1) + green_of(n2) + green_of(n3) + green_of(n4)
        + green_of(n5) + green_of(n6) + green_of(n7);
    let sb: u32 = blue_of(n0) + blue_of(n1) + blue_of(n2) + blue_of(n3) + blue_of(n4) + blue_of(n5)
        + blue_of(n6) + blue_of(n7);
    (cnt, sr, sg, sb)
}

/// Computes the life rule at one position: exactly `step_cell` of the
/// current snapshot.
pub fn step_cell_at(cells: &Vec<Cell>, w: u32, h: u32, col: u32, row: u32) -> (c: Cell)
    requires
        cells@.len() == w * h,
        1 <= w <= 0x3FFF_FFFF,
        1 <= h <= 0x3FFF_FFFF,
        col < w,
        row < h,
    ensures
        c == step_cell(cells@, w as int, h as int, col as int, row as int),
{
    let (cnt, sr, sg, sb) = gather_neighbors(cells, w, h, col, row);
    proof {
        lemma_idx_bound(w as int, h as int, col as int, row as int);
    }
    let l: usize = cells.len();
    proof {
        assert((row as int) * (w as int) + (col as int) < l as int);
    }
    let i: usize = (row as usize) * (w as usize) + (col as usize);
    let me = cells[i];
    if me.alive && (cnt == 2 || cnt == 3) {
        me
    } else if !me.alive && cnt == 3 {
        proof {
            assert(sr / cnt <= 255 && sg / cnt <= 255 && sb / cnt <= 255);
        }
        Cell::with_color((sr / cnt) as u8, (sg / cnt) as u8, (sb / cnt) as u8)
    } else {
        Cell::new()
    }
}

} // verus!
