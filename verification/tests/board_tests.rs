use animal_chess::board::{get_move, to_move, to_pos, get_pos, Board};
use animal_chess::chess::{ChessId, ChessKind, RoleType};
use rand::seq::SliceRandom;

#[test]
fn test_encode_decode_move() {
    for _ in 0..50 {
        let mut board = Board::new();
        loop {
            let steps = board.generate_all_steps();
            if steps.is_empty() {
                break;
            }
            for &mv in &steps {
                let encode_mv = board.encode_move(mv);
                let decode_mv = board.decode_move(encode_mv);
                assert!(encode_mv <= 252, "encode_mv should <= 252!");
                assert_eq!(
                    decode_mv,
                    mv,
                    "{:?} != {:?}",
                    get_move(decode_mv),
                    get_move(mv)
                );
            }
            board
                .move_chess(*steps.choose(&mut rand::thread_rng()).unwrap())
                .unwrap();
        }
    }
}

#[test]
fn test_load_and_get_fen() {
    for _ in 0..50 {
        let mut board = Board::new();
        let mut board_expected = Board::new();
        loop {
            let steps = board.generate_all_steps();
            if steps.is_empty() {
                break;
            }
            for &mv in &steps {
                board.move_chess(mv).unwrap();
                let fen = board.get_fen();
                board_expected.load_fen(&fen).unwrap();
                assert_eq!(fen, board_expected.get_fen());
                assert_eq!(board.role, board_expected.role);

                assert_eq!(board.chesses, board_expected.chesses);
                board.undo_move();
            }
            board
                .move_chess(*steps.choose(&mut rand::thread_rng()).unwrap())
                .unwrap();
        }
    }
}

// Out-of-turn moves are rejected, so the hash round trip is driven by
// a legal four-move cycle of the two lions before the capture-and-undo
// part: either way the hash must return bit-for-bit to its old value.
#[test]
fn test_zobrist() {
    let mut board = Board::new();
    board.load_fen("lL5/7/7/7/7/7/7/7/7 w").unwrap();
    let zobrist_key = board.zobrist_key;
    let src = (0, 1);

    board.move_chess(to_move(&(src, (1, 1)))).unwrap();
    board.move_chess(to_move(&((0, 0), (1, 0)))).unwrap();
    board.move_chess(to_move(&((1, 1), src))).unwrap();
    board.move_chess(to_move(&((1, 0), (0, 0)))).unwrap();
    assert_eq!(zobrist_key, board.zobrist_key);

    board.undo_move();
    board.undo_move();
    board.undo_move();
    board.undo_move();

    assert_eq!(zobrist_key, board.zobrist_key);
    board.move_chess(to_move(&(src, (0, 0)))).unwrap();
    board.undo_move();
    assert_eq!(zobrist_key, board.zobrist_key);
}

#[test]
fn new_board_serializes_to_the_starting_string() {
    let board = Board::new();
    assert_eq!(
        board.get_fen(),
        "l5t/1d3c1/r1p1w1e/7/7/7/E1W1P1R/1C3D1/T5L w"
    );
    assert_eq!(board.role, RoleType::RED);
    assert_eq!(board.get_step_count(), 0);
    assert_eq!(board.get_dup_count(), 0);
}

#[test]
fn position_packing_round_trips() {
    let pos = to_pos(&(5, 3));
    assert_eq!(get_pos(pos), (5, 3));
    let mv = to_move(&((2, 1), (6, 1)));
    assert_eq!(get_move(mv), ((2, 1), (6, 1)));
}

#[test]
fn apply_and_undo_restore_grid_side_and_hash() {
    let mut board = Board::new();
    let fen0 = board.get_fen();
    let z0 = board.zobrist_key;
    let steps = board.generate_all_steps();
    assert!(!steps.is_empty());
    for &mv in &steps {
        board.move_chess(mv).unwrap();
        assert_ne!(board.get_fen(), fen0);
        board.undo_move();
        assert_eq!(board.get_fen(), fen0);
        assert_eq!(board.zobrist_key, z0);
        assert_eq!(board.role, RoleType::RED);
    }
}

#[test]
fn undo_on_fresh_board_is_a_noop() {
    let mut board = Board::new();
    let fen0 = board.get_fen();
    board.undo_move();
    assert_eq!(board.get_fen(), fen0);
    assert_eq!(board.get_step_count(), 0);
}

#[test]
fn illegal_moves_are_rejected_and_change_nothing() {
    let mut board = Board::new();
    let fen0 = board.get_fen();
    // empty source cell
    assert!(board.move_chess(to_move(&((4, 4), (4, 5)))).is_err());
    // opponent piece (black lion on (0, 0)) while the first role moves
    assert!(board.move_chess(to_move(&((0, 0), (1, 0)))).is_err());
    // a two-cell slide of a non-jumping piece
    assert!(board.move_chess(to_move(&((6, 0), (4, 0)))).is_err());
    assert_eq!(board.get_fen(), fen0);
    assert_eq!(board.get_step_count(), 0);
}

#[test]
fn captures_update_piece_counts_and_undo_restores_them() {
    let mut board = Board::new();
    // red lion takes the adjacent black lion
    board.load_fen("lL5/7/7/7/7/7/7/7/7 w").unwrap();
    let grid0 = board.chesses.clone();
    board.move_chess(to_move(&((0, 1), (0, 0)))).unwrap();
    assert_eq!(
        board.chesses[0],
        Some(ChessId { role: RoleType::RED, kind: ChessKind::LION })
    );
    assert_eq!(board.chesses[1], None);
    // black has no piece left: red wins
    assert_eq!(board.check_win(), Some(RoleType::RED));
    assert!(board.generate_all_steps().is_empty());
    board.undo_move();
    assert_eq!(board.chesses, grid0);
    assert_eq!(board.check_win(), None);
}

#[test]
fn repetition_rule_ends_a_shuffling_game() {
    let mut board = Board::new();
    board.load_fen("l5L/7/7/7/7/7/7/7/7 w").unwrap();
    // both lions shuffle in place until the repetition rule fires
    let mut moves_made = 0;
    loop {
        let steps = board.generate_all_steps();
        if steps.is_empty() {
            break;
        }
        board.move_chess(steps[0]).unwrap();
        moves_made += 1;
        assert!(moves_made < 1000, "the repetition rule must end the game");
    }
    assert!(board.check_win().is_some());
}

#[test]
fn repetition_counts_departures_and_the_third_visit_loses() {
    let mut board = Board::new();
    board.load_fen("lL5/7/7/7/7/7/7/7/7 w").unwrap();
    let cycle = [
        ((0, 1), (1, 1)),
        ((0, 0), (1, 0)),
        ((1, 1), (0, 1)),
        ((1, 0), (0, 0)),
    ];
    for &(s, d) in &cycle {
        board.move_chess(to_move(&(s, d))).unwrap();
    }
    // the starting position has been left once and is seen again
    assert_eq!(board.get_dup_count(), 1);
    assert_eq!(board.check_win(), None);
    for &(s, d) in &cycle {
        board.move_chess(to_move(&(s, d))).unwrap();
    }
    // second recurrence: the side to move (the first role) loses
    assert_eq!(board.get_dup_count(), 2);
    assert_eq!(board.check_win(), Some(RoleType::BLACK));
    assert!(board.generate_all_steps().is_empty());
}
