//! Movement rules as specification functions over the grid: board
//! geometry (water, traps, dens, river banks), the capture-rank rule with
//! its water and trap exceptions, orthogonal steps and bank-to-bank jumps.

use vstd::prelude::*;
use crate::chess::{ChessId, ChessKind, RoleType, spec_kind_idx};

verus! {

pub open spec fn in_bounds(r: int, c: int) -> bool {
    0 <= r < 9 && 0 <= c < 7
}

/// Index of cell (r, c) in the row-major grid sequence.
pub open spec fn cell_idx(r: int, c: int) -> int {
    r * 7 + c
}

pub open spec fn grid_at(grid: Seq<Option<ChessId>>, r: int, c: int) -> Option<ChessId> {
    grid[cell_idx(r, c)]
}

/// The two 3 x 2 water areas in the middle of the board.
pub open spec fn is_water(r: int, c: int) -> bool {
    3 <= r <= 5 && c % 3 != 0
}

/// The den cell of a role.
pub open spec fn is_den(role: RoleType, r: int, c: int) -> bool {
    match role {
        RoleType::RED => r == 8 && c == 3,
        RoleType::BLACK => r == 0 && c == 3,
    }
}

/// The six trap cells, three around each den.
pub open spec fn is_trap(r: int, c: int) -> bool {
    ||| (r == 0 && (c == 2 || c == 4))
    ||| (r == 1 && c == 3)
    ||| (r == 8 && (c == 2 || c == 4))
    ||| (r == 7 && c == 3)
}

/// Cells from which a tiger or lion may start a jump across the water:
/// the cells directly above and below the water columns, and the
/// non-water columns of the water rows.
pub open spec fn at_bank(r: int, c: int) -> bool {
    ||| ((r == 2 || r == 6) && c % 3 != 0)
    ||| (3 <= r <= 5 && c % 3 == 0)
}

/// The piece on (r, c) stands in a trap controlled by its opponent, so it
/// has lost its rank advantage.
pub open spec fn occupied_trapped(grid: Seq<Option<ChessId>>, r: int, c: int) -> bool {
    is_trap(r, c) && match grid_at(grid, r, c) {
        None => false,
        Some(p) => if p.role == RoleType::RED {
            r <= 1
        } else {
            r >= 7
        },
    }
}

/// The bare rank rule for a capture, given whether the attacker stands in
/// water: equal or lower rank may be taken, except that the rat takes the
/// elephant only from the water, and the elephant never takes the rat.
pub open spec fn rank_ok(s: ChessKind, d: ChessKind, attacker_in_water: bool) -> bool {
    if s == ChessKind::RAT && d == ChessKind::ELEPHANT {
        attacker_in_water
    } else if s == ChessKind::ELEPHANT && d == ChessKind::RAT {
        false
    } else {
        spec_kind_idx(s) <= spec_kind_idx(d)
    }
}

/// The piece on the source cell may land on the destination cell: never
/// its own den; an empty cell always; an opponent piece if it is trapped
/// or the rank rule allows the capture.
pub open spec fn movable(grid: Seq<Option<ChessId>>, sr: int, sc: int, dr: int, dc: int) -> bool {
    match grid_at(grid, sr, sc) {
        None => false,
        Some(sp) => !is_den(sp.role, dr, dc) && match grid_at(grid, dr, dc) {
            None => true,
            Some(dp) => sp.role != dp.role && (occupied_trapped(grid, dr, dc) || rank_ok(
                sp.kind,
                dp.kind,
                is_water(sr, sc),
            )),
        },
    }
}

/// Source and destination are orthogonally adjacent.
pub open spec fn step_shape(sr: int, sc: int, dr: int, dc: int) -> bool {
    ||| (dr == sr + 1 && dc == sc)
    ||| (dr == sr - 1 && dc == sc)
    ||| (dr == sr && dc == sc + 1)
    ||| (dr == sr && dc == sc - 1)
}

/// Source and destination are the two bank cells facing each other across
/// a water area, on the same row or column.
pub open spec fn jump_shape(sr: int, sc: int, dr: int, dc: int) -> bool {
    ||| (((sr == 2 && dr == 6) || (sr == 6 && dr == 2)) && dc == sc && sc % 3 != 0)
    ||| (3 <= sr <= 5 && dr == sr && (((sc == 0 || sc == 6) && dc == 3) || (sc == 3 && (dc == 0
        || dc == 6))))
}

/// A rat stands on (r, c).
pub open spec fn rat_at(grid: Seq<Option<ChessId>>, r: int, c: int) -> bool {
    match grid_at(grid, r, c) {
        None => false,
        Some(p) => p.kind == ChessKind::RAT,
    }
}

/// No rat occupies any cell strictly between source and destination of a
/// jump; such a rat (it is always in the water there) blocks the jump.
pub open spec fn jump_clear(grid: Seq<Option<ChessId>>, sr: int, sc: int, dr: int, dc: int) -> bool {
    if sc == dc {
        forall|r: int|
            (if sr < dr {
                sr < r < dr
            } else {
                dr < r < sr
            }) ==> !rat_at(grid, r, sc)
    } else {
        forall|c: int|
            (if sc < dc {
                sc < c < dc
            } else {
                dc < c < sc
            }) ==> !rat_at(grid, sr, c)
    }
}

/// A legal one-cell step: the mover belongs to `role`, the destination is
/// reachable under `movable`, and only the rat may end on a water cell.
pub open spec fn legal_step(
    grid: Seq<Option<ChessId>>,
    role: RoleType,
    sr: int,
    sc: int,
    dr: int,
    dc: int,
) -> bool {
    &&& in_bounds(sr, sc)
    &&& in_bounds(dr, dc)
    &&& match grid_at(grid, sr, sc) {
        None => false,
        Some(p) => p.role == role && (!is_water(dr, dc) || p.kind == ChessKind::RAT),
    }
    &&& step_shape(sr, sc, dr, dc)
    &&& movable(grid, sr, sc, dr, dc)
}

/// A legal bank-to-bank jump of a tiger or lion.
pub open spec fn legal_jump(
    grid: Seq<Option<ChessId>>,
    role: RoleType,
    sr: int,
    sc: int,
    dr: int,
    dc: int,
) -> bool {
    &&& in_bounds(sr, sc)
    &&& in_bounds(dr, dc)
    &&& match grid_at(grid, sr, sc) {
        None => false,
        Some(p) => p.role == role && (p.kind == ChessKind::TIGER || p.kind == ChessKind::LION),
    }
    &&& at_bank(sr, sc)
    &&& jump_shape(sr, sc, dr, dc)
    &&& jump_clear(grid, sr, sc, dr, dc)
    &&& movable(grid, sr, sc, dr, dc)
}

/// A legal move of `role` from (sr, sc) to (dr, dc): a step or a jump.
pub open spec fn legal_from(
    grid: Seq<Option<ChessId>>,
    role: RoleType,
    sr: int,
    sc: int,
    dr: int,
    dc: int,
) -> bool {
    legal_step(grid, role, sr, sc, dr, dc) || legal_jump(grid, role, sr, sc, dr, dc)
}

/// Only the rat may end a (non-jump) step on a water cell.
/// A jump never ends on water: its destination is a bank cell.
pub proof fn lemma_water_entry(
    grid: Seq<Option<ChessId>>,
    role: RoleType,
    sr: int,
    sc: int,
    dr: int,
    dc: int,
)
    requires
        legal_from(grid, role, sr, sc, dr, dc),
        is_water(dr, dc),
    ensures
        legal_step(grid, role, sr, sc, dr, dc),
        grid_at(grid, sr, sc) matches Some(p) && p.kind == ChessKind::RAT,
{
    assert(!jump_shape(sr, sc, dr, dc));
}

/// A trapped piece is capturable by any adjacent opposing piece,
/// regardless of rank, provided the destination is not the attacker's own
/// den and the attacker may stand there.
pub proof fn lemma_trapped_capturable(
    grid: Seq<Option<ChessId>>,
    sr: int,
    sc: int,
    dr: int,
    dc: int,
)
    requires
        grid_at(grid, sr, sc) matches Some(sp) && grid_at(grid, dr, dc) matches Some(dp)
            && sp.role != dp.role,
        occupied_trapped(grid, dr, dc),
        grid_at(grid, sr, sc) matches Some(sp) && !is_den(sp.role, dr, dc),
    ensures
        movable(grid, sr, sc, dr, dc),
{
}

/// A weaker piece may not capture a stronger one unless the victim is
/// trapped or the attacker is a rat taking the elephant from the water.
pub proof fn lemma_no_upward_capture(
    grid: Seq<Option<ChessId>>,
    sr: int,
    sc: int,
    dr: int,
    dc: int,
)
    requires
        movable(grid, sr, sc, dr, dc),
        grid_at(grid, sr, sc) matches Some(sp) && grid_at(grid, dr, dc) matches Some(dp)
            && spec_kind_idx(sp.kind) > spec_kind_idx(dp.kind),
        !occupied_trapped(grid, dr, dc),
    ensures
        grid_at(grid, sr, sc) matches Some(sp) && grid_at(grid, dr, dc) matches Some(dp) && (
        sp.kind == ChessKind::RAT && dp.kind == ChessKind::ELEPHANT && is_water(sr, sc)),
{
}

} // verus!
