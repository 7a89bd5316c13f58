use animal_chess::board::{to_move, Board, MOVE};
use animal_chess::chess::{ChessId, ChessKind, RoleType};

fn steps_of(fen: &str, src: (usize, usize)) -> (Board, Vec<MOVE>) {
    let mut board = Board::new();
    board.load_fen(fen).unwrap();
    let pos = animal_chess::board::to_pos(&src);
    let steps = board.generate_steps(pos);
    (board, steps)
}

#[test]
fn rat_may_enter_water_others_may_not() {
    let (_, steps) = steps_of("7/7/1R5/7/7/7/7/7/7 w", (2, 1));
    assert!(steps.contains(&to_move(&((2, 1), (3, 1)))));

    let (_, steps) = steps_of("7/7/1W5/7/7/7/7/7/7 w", (2, 1));
    assert!(!steps.contains(&to_move(&((2, 1), (3, 1)))));
    // the wolf still has its three land moves
    assert!(steps.contains(&to_move(&((2, 1), (1, 1)))));
    assert!(steps.contains(&to_move(&((2, 1), (2, 0)))));
    assert!(steps.contains(&to_move(&((2, 1), (2, 2)))));
}

#[test]
fn tiger_and_lion_jump_across_the_water() {
    // vertical jump from the upper bank
    let (_, steps) = steps_of("7/7/1T5/7/7/7/7/7/7 w", (2, 1));
    assert!(steps.contains(&to_move(&((2, 1), (6, 1)))));
    assert!(!steps.contains(&to_move(&((2, 1), (3, 1)))));

    // horizontal jumps from the middle column
    let (_, steps) = steps_of("7/7/7/3L3/7/7/7/7/7 w", (3, 3));
    assert!(steps.contains(&to_move(&((3, 3), (3, 0)))));
    assert!(steps.contains(&to_move(&((3, 3), (3, 6)))));

    // a wolf on a bank never jumps
    let (_, steps) = steps_of("7/7/1W5/7/7/7/7/7/7 w", (2, 1));
    assert!(!steps.contains(&to_move(&((2, 1), (6, 1)))));
}

#[test]
fn a_rat_in_the_water_blocks_the_jump() {
    let (_, steps) = steps_of("7/7/1T5/1r5/7/7/7/7/7 w", (2, 1));
    assert!(!steps.contains(&to_move(&((2, 1), (6, 1)))));
    // the blocker may be the jumper's own rat too
    let (_, steps) = steps_of("7/7/1T5/7/1R5/7/7/7/7 w", (2, 1));
    assert!(!steps.contains(&to_move(&((2, 1), (6, 1)))));
}

#[test]
fn capture_follows_the_rank_order() {
    // lion takes the weaker dog
    let (_, steps) = steps_of("dL5/7/7/7/7/7/7/7/7 w", (0, 1));
    assert!(steps.contains(&to_move(&((0, 1), (0, 0)))));
    // dog may not take the stronger lion
    let (_, steps) = steps_of("lD5/7/7/7/7/7/7/7/7 w", (0, 1));
    assert!(!steps.contains(&to_move(&((0, 1), (0, 0)))));
    // equal rank may be taken
    let (_, steps) = steps_of("lL5/7/7/7/7/7/7/7/7 w", (0, 1));
    assert!(steps.contains(&to_move(&((0, 1), (0, 0)))));
}

#[test]
fn rat_elephant_water_exception() {
    // the rat takes the elephant only from the water
    let (_, steps) = steps_of("eR5/7/7/7/7/7/7/7/7 w", (0, 1));
    assert!(!steps.contains(&to_move(&((0, 1), (0, 0)))));
    let (_, steps) = steps_of("7/7/1e5/1R5/7/7/7/7/7 w", (3, 1));
    assert!(steps.contains(&to_move(&((3, 1), (2, 1)))));
    // the elephant never takes the rat
    let (_, steps) = steps_of("7/1r5/1E5/7/7/7/7/7/7 w", (2, 1));
    assert!(!steps.contains(&to_move(&((2, 1), (1, 1)))));
}

#[test]
fn a_trapped_piece_is_capturable_by_anyone() {
    // black elephant in a first-role trap, taken by the rat
    let (_, steps) = steps_of("7/7/7/7/7/7/7/7/1Re4 w", (8, 1));
    assert!(steps.contains(&to_move(&((8, 1), (8, 2)))));
    // black rat in a first-role trap, taken even by the elephant
    let (_, steps) = steps_of("7/7/7/7/7/7/7/2Er3/7 w", (7, 2));
    assert!(steps.contains(&to_move(&((7, 2), (7, 3)))));
    // a piece in its own side's trap is not weakened
    let (_, steps) = steps_of("7/7/7/7/7/7/7/2dW3/7 b", (7, 2));
    assert!(!steps.contains(&to_move(&((7, 2), (7, 3)))));
}

#[test]
fn dens_decide_the_game() {
    // no piece may enter its own den
    let (_, steps) = steps_of("7/7/7/7/7/7/7/7/2L4 w", (8, 2));
    assert!(!steps.contains(&to_move(&((8, 2), (8, 3)))));
    // entering the opponent's den wins at once
    let (mut board, steps) = steps_of("7/3W3/7/7/7/7/7/7/6l w", (1, 3));
    let mv = to_move(&((1, 3), (0, 3)));
    assert!(steps.contains(&mv));
    board.move_chess(mv).unwrap();
    assert_eq!(board.check_win(), Some(RoleType::RED));
    assert!(board.generate_all_steps().is_empty());
    board.undo_move();
    assert_eq!(board.check_win(), None);
}

#[test]
fn piece_model_indices_are_fixed() {
    assert_eq!(ChessKind::ELEPHANT.get_idx(), 0);
    assert_eq!(ChessKind::RAT.get_idx(), 7);
    let kinds = ChessKind::iter();
    assert_eq!(kinds.len(), 8);
    assert_eq!(kinds[0], ChessKind::ELEPHANT);
    assert_eq!(kinds[7], ChessKind::RAT);
    let roles = RoleType::iter();
    assert_eq!(roles, vec![RoleType::RED, RoleType::BLACK]);
    let red_rat = ChessId { role: RoleType::RED, kind: ChessKind::RAT };
    let black_rat = ChessId { role: RoleType::BLACK, kind: ChessKind::RAT };
    assert_eq!(red_rat.get_chess_idx(), 7);
    assert_eq!(black_rat.get_chess_idx(), 15);
    assert_eq!(RoleType::RED.opposite(), RoleType::BLACK);
}
