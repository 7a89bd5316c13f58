//! The position hash: an XOR fold of one 64-bit key per (piece, cell)
//! pair over the occupied cells of the grid, together with the lemmas
//! that justify updating it incrementally when one cell changes.

use vstd::prelude::*;
use crate::chess::{ChessId, spec_chess_idx};

verus! {

/// Number of cells on the board.
pub open spec fn board_cells() -> int {
    63
}

/// Number of entries of the key table: one key per (piece index, cell).
pub open spec fn table_size() -> int {
    (16 * 63) as int
}

/// Key contributed by cell `i`: the key of the piece standing there, or
/// zero for an empty cell.
pub open spec fn key_at(grid: Seq<Option<ChessId>>, tbl: Seq<u64>, i: int) -> u64 {
    match grid[i] {
        None => 0u64,
        Some(p) => tbl[spec_chess_idx(p) * 63 + i],
    }
}

/// XOR of the keys of the first `n` cells.
pub open spec fn hash_upto(grid: Seq<Option<ChessId>>, tbl: Seq<u64>, n: int) -> u64
    decreases n,
{
    if n <= 0 {
        0u64
    } else {
        hash_upto(grid, tbl, n - 1) ^ key_at(grid, tbl, n - 1)
    }
}

/// The position hash of a whole grid.
pub open spec fn grid_hash(grid: Seq<Option<ChessId>>, tbl: Seq<u64>) -> u64 {
    hash_upto(grid, tbl, board_cells())
}

/// Two grids that agree on the first `n` cells fold to the same hash.
pub proof fn lemma_hash_congruence(
    g1: Seq<Option<ChessId>>,
    g2: Seq<Option<ChessId>>,
    tbl: Seq<u64>,
    n: int,
)
    requires
        forall|i: int| 0 <= i < n ==> g1[i] == g2[i],
    ensures
        hash_upto(g1, tbl, n) == hash_upto(g2, tbl, n),
    decreases n,
{
    if n > 0 {
        lemma_hash_congruence(g1, g2, tbl, n - 1);
    }
}

/// Changing one cell changes the fold by XOR-ing out the old key of that
/// cell and XOR-ing in the new one.
pub proof fn lemma_hash_update(
    g: Seq<Option<ChessId>>,
    tbl: Seq<u64>,
    j: int,
    v: Option<ChessId>,
    n: int,
)
    requires
        0 <= j < n,
        n <= g.len(),
    ensures
        hash_upto(g.update(j, v), tbl, n) == (hash_upto(g, tbl, n) ^ key_at(g, tbl, j)) ^ key_at(
            g.update(j, v),
            tbl,
            j,
        ),
    decreases n,
{
    let g2 = g.update(j, v);
    let kold = key_at(g, tbl, j);
    let knew = key_at(g2, tbl, j);
    if n == j + 1 {
        lemma_hash_congruence(g2, g, tbl, j);
        let h = hash_upto(g, tbl, j);
        let k = key_at(g, tbl, j);
        assert(hash_upto(g, tbl, n) == h ^ k);
        assert(hash_upto(g2, tbl, n) == h ^ knew);
        assert(h ^ knew == ((h ^ k) ^ k) ^ knew) by (bit_vector);
    } else {
        lemma_hash_update(g, tbl, j, v, n - 1);
        let h = hash_upto(g, tbl, n - 1);
        let k = key_at(g, tbl, n - 1);
        assert(key_at(g2, tbl, n - 1) == k);
        assert(((h ^ kold) ^ knew) ^ k == ((h ^ k) ^ kold) ^ knew) by (bit_vector);
    }
}

} // verus!
