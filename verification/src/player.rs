//! The player contract: produce one committed move for the shared
//! board. The searcher may mutate the board during its deliberation but
//! must hand it back exactly as it was, and the move it commits to must
//! be legal in that position.

use vstd::prelude::*;
use crate::board::{Board, MOVE, has_any_move, legal_mv, spec_check_win};

pub mod alpha_beta;
pub mod mcts;

verus! {

pub trait Player {
    /// Produce one move for the current position. The position must be
    /// open and offer at least one move; the board comes back exactly
    /// as it was, and the returned move is legal on it.
    fn get_move(&mut self, board: &mut Board) -> (mv: MOVE)
        requires
            old(board).inv(),
            spec_check_win(old(board)@) is None,
            has_any_move(old(board)@),
        ensures
            final(board).inv(),
            final(board)@ == old(board)@,
            legal_mv(old(board)@, mv),
    ;
}

} // verus!
