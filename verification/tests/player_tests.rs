use animal_chess::board::Board;
use animal_chess::player::alpha_beta::AlphaBeta;
use animal_chess::player::mcts::MCTSPlayer;
use animal_chess::player::Player;

#[test]
fn alpha_beta_returns_a_legal_move_and_restores_the_board() {
    let mut board = Board::new();
    let fen0 = board.get_fen();
    let z0 = board.zobrist_key;
    let legal = board.generate_all_steps();
    let mut player = AlphaBeta::new();
    let mv = player.get_move(&mut board);
    assert!(legal.contains(&mv));
    assert_eq!(board.get_fen(), fen0);
    assert_eq!(board.zobrist_key, z0);
    assert_eq!(board.get_step_count(), 0);
}

#[test]
fn mcts_returns_a_legal_move_and_restores_the_board() {
    let mut board = Board::new();
    let fen0 = board.get_fen();
    let z0 = board.zobrist_key;
    let legal = board.generate_all_steps();
    let mut player = MCTSPlayer::new();
    let mv = player.mcts_run(&mut board, 3);
    assert!(legal.contains(&mv));
    assert_eq!(board.get_fen(), fen0);
    assert_eq!(board.zobrist_key, z0);
    assert_eq!(board.get_step_count(), 0);
}

// End to end: from the starting position, generating and applying moves
// always reaches a decided position, and the winner is reported exactly
// when no move is left.
#[test]
fn playing_first_moves_from_the_start_terminates_with_a_winner() {
    let mut board = Board::new();
    let steps = board.generate_all_steps();
    assert!(!steps.is_empty());
    board.move_chess(steps[0]).unwrap();
    assert_eq!(board.check_win(), None);
    let mut moves_made = 1u32;
    loop {
        let steps = board.generate_all_steps();
        if steps.is_empty() {
            break;
        }
        assert_eq!(board.check_win(), None);
        board.move_chess(steps[0]).unwrap();
        moves_made += 1;
        assert!(moves_made < 100000);
    }
    assert!(board.check_win().is_some());
}
