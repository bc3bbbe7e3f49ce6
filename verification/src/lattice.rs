//! Toroidal index arithmetic for a square, row-major lattice.
//!
//! A linear index `pos` in `[0, size*size)` names the cell at column
//! `pos % size` and row `pos / size`. Every neighbor index is produced by
//! modular arithmetic, so it is in bounds by construction: cells on an edge
//! wrap around to the opposite edge of the same row or column.

use vstd::arithmetic::div_mod::lemma_add_mod_noop_right;
use vstd::arithmetic::div_mod::lemma_fundamental_div_mod;
use vstd::arithmetic::div_mod::lemma_fundamental_div_mod_converse;
use vstd::arithmetic::div_mod::lemma_mod_add_multiples_vanish;
use vstd::arithmetic::div_mod::lemma_mod_bound;
use vstd::arithmetic::div_mod::lemma_mod_self_0;
use vstd::arithmetic::div_mod::lemma_multiply_divide_lt;
use vstd::arithmetic::div_mod::lemma_small_mod;
use vstd::arithmetic::mul::lemma_mul_is_commutative;
use vstd::prelude::*;

verus! {

/// Column (x coordinate) of the cell with linear index `pos`.
pub open spec fn col_of(size: nat, pos: nat) -> nat {
    pos % size
}

/// Row (y coordinate) of the cell with linear index `pos`.
pub open spec fn row_of(size: nat, pos: nat) -> nat {
    pos / size
}

/// Linear index of the cell at column `x`, row `y`.
pub open spec fn index_of(size: nat, x: nat, y: nat) -> nat {
    x + y * size
}

/// Index of the toroidal left neighbor: one column back, wrapping.
pub open spec fn left_of(size: nat, pos: nat) -> nat {
    index_of(size, ((col_of(size, pos) + size - 1) % (size as int)) as nat, row_of(size, pos))
}

/// Index of the toroidal right neighbor: one column forward, wrapping.
pub open spec fn right_of(size: nat, pos: nat) -> nat {
    index_of(size, (col_of(size, pos) + 1) % size, row_of(size, pos))
}

/// Index of the toroidal upper neighbor: one row back, wrapping.
pub open spec fn up_of(size: nat, pos: nat) -> nat {
    index_of(size, col_of(size, pos), ((row_of(size, pos) + size - 1) % (size as int)) as nat)
}

/// Index of the toroidal lower neighbor: one row forward, wrapping.
pub open spec fn down_of(size: nat, pos: nat) -> nat {
    index_of(size, col_of(size, pos), (row_of(size, pos) + 1) % size)
}

/// Law: every neighbor index of a cell of the lattice is itself a cell of
/// the lattice. Toroidal wrap-around never escapes the grid.
pub proof fn lemma_neighbors_in_bounds(size: nat, pos: nat)
    requires
        size > 0,
        pos < size * size,
    ensures
        left_of(size, pos) < size * size,
        right_of(size, pos) < size * size,
        up_of(size, pos) < size * size,
        down_of(size, pos) < size * size,
{
    let x = col_of(size, pos);
    let y = row_of(size, pos);
    lemma_mod_bound(pos as int, size as int);
    lemma_multiply_divide_lt(pos as int, size as int, size as int);
    assert(x < size);
    assert(y < size);
    lemma_mod_bound((x + size - 1) as int, size as int);
    lemma_mod_bound((x + 1) as int, size as int);
    lemma_mod_bound((y + size - 1) as int, size as int);
    lemma_mod_bound((y + 1) as int, size as int);
    assert forall|a: nat, b: nat| a < size && b < size implies index_of(size, a, b)
        < size * size by {
        assert(a + b * size < size * size) by (nonlinear_arith)
            requires
                a < size,
                b < size,
                size > 0,
        ;
    }
}

/// The cell at column `x`, row `y` has column `x`, row `y`, and lies on
/// the lattice.
pub proof fn lemma_coords(size: nat, x: nat, y: nat)
    requires
        size > 0,
        x < size,
        y < size,
    ensures
        col_of(size, index_of(size, x, y)) == x,
        row_of(size, index_of(size, x, y)) == y,
        index_of(size, x, y) < size * size,
{
    lemma_fundamental_div_mod_converse(
        index_of(size, x, y) as int,
        size as int,
        y as int,
        x as int,
    );
    assert(x + y * size < size * size) by (nonlinear_arith)
        requires
            x < size,
            y < size,
    ;
}

/// Every cell is the cell at its own column and row.
pub proof fn lemma_pos_decompose(size: nat, pos: nat)
    requires
        size > 0,
        pos < size * size,
    ensures
        index_of(size, col_of(size, pos), row_of(size, pos)) == pos,
        col_of(size, pos) < size,
        row_of(size, pos) < size,
{
    lemma_fundamental_div_mod(pos as int, size as int);
    lemma_mod_bound(pos as int, size as int);
    lemma_multiply_divide_lt(pos as int, size as int, size as int);
    lemma_mul_is_commutative(size as int, pos as int / size as int);
}

/// Stepping a coordinate one back (wrapping) and one forward (wrapping)
/// are mutually inverse.
proof fn lemma_wrap_inverse(size: nat, v: nat)
    requires
        size > 0,
        v < size,
    ensures
        ((v + size - 1) % (size as int) + 1) % (size as int) == v,
        ((v + 1) % size + size - 1) % (size as int) == v,
{
    let m = size as int;
    let a = v as int;
    lemma_add_mod_noop_right(1, a + m - 1, m);
    lemma_add_mod_noop_right(m - 1, a + 1, m);
    lemma_mod_add_multiples_vanish(a, m);
    lemma_small_mod(v, size);
}

/// On a lattice of side at least two, stepping a coordinate back or
/// forward (wrapping) lands on a different value.
proof fn lemma_wrap_moves(size: nat, v: nat)
    requires
        size >= 2,
        v < size,
    ensures
        (v + 1) % size != v,
        (v + size - 1) % (size as int) != v,
{
    let m = size as int;
    let a = v as int;
    if v + 1 < size {
        lemma_small_mod((v + 1) as nat, size);
    } else {
        lemma_mod_self_0(m);
    }
    if v == 0 {
        lemma_small_mod((size - 1) as nat, size);
    } else {
        lemma_mod_add_multiples_vanish(a - 1, m);
        lemma_small_mod((v - 1) as nat, size);
    }
}

/// Law: the four toroidal neighbor relations are mutually inverse: the
/// right neighbor of the left neighbor is the cell itself, and likewise
/// down-of-up; so every cell is the left neighbor of exactly one cell and
/// the upper neighbor of exactly one cell.
pub proof fn lemma_neighbors_inverse(size: nat, pos: nat)
    requires
        size > 0,
        pos < size * size,
    ensures
        right_of(size, left_of(size, pos)) == pos,
        left_of(size, right_of(size, pos)) == pos,
        down_of(size, up_of(size, pos)) == pos,
        up_of(size, down_of(size, pos)) == pos,
{
    let m = size as int;
    let x = col_of(size, pos);
    let y = row_of(size, pos);
    lemma_pos_decompose(size, pos);
    lemma_wrap_inverse(size, x);
    lemma_wrap_inverse(size, y);
    let xd = ((x + size - 1) % m) as nat;
    let xi = (x + 1) % size;
    let yd = ((y + size - 1) % m) as nat;
    let yi = (y + 1) % size;
    lemma_mod_bound((x + size - 1) as int, m);
    lemma_mod_bound((x + 1) as int, m);
    lemma_mod_bound((y + size - 1) as int, m);
    lemma_mod_bound((y + 1) as int, m);
    lemma_coords(size, xd, y);
    lemma_coords(size, xi, y);
    lemma_coords(size, x, yd);
    lemma_coords(size, x, yi);
}

/// On a lattice of side at least two, a cell, its left neighbor and its
/// upper neighbor are three different cells.
pub proof fn lemma_neighbors_distinct(size: nat, pos: nat)
    requires
        size >= 2,
        pos < size * size,
    ensures
        left_of(size, pos) != pos,
        up_of(size, pos) != pos,
        left_of(size, pos) != up_of(size, pos),
        right_of(size, pos) != pos,
        down_of(size, pos) != pos,
{
    let m = size as int;
    let x = col_of(size, pos);
    let y = row_of(size, pos);
    lemma_pos_decompose(size, pos);
    lemma_wrap_moves(size, x);
    lemma_wrap_moves(size, y);
    let xd = ((x + size - 1) % m) as nat;
    let xi = (x + 1) % size;
    let yd = ((y + size - 1) % m) as nat;
    let yi = (y + 1) % size;
    lemma_mod_bound((x + size - 1) as int, m);
    lemma_mod_bound((x + 1) as int, m);
    lemma_mod_bound((y + size - 1) as int, m);
    lemma_mod_bound((y + 1) as int, m);
    lemma_coords(size, xd, y);
    lemma_coords(size, xi, y);
    lemma_coords(size, x, yd);
    lemma_coords(size, x, yi);
}

/// Law: on the degenerate one-cell lattice every one of the four toroidal
/// neighbors of the single cell is that cell itself (self-wrap).
pub proof fn lemma_unit_lattice_self_neighbors(pos: nat)
    requires
        pos < 1,
    ensures
        left_of(1, pos) == pos,
        right_of(1, pos) == pos,
        up_of(1, pos) == pos,
        down_of(1, pos) == pos,
{
    assert(pos == 0);
}

} // verus!
