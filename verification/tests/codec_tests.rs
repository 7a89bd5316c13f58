use animal_chess::board::{to_move, Board};
use animal_chess::chess::RoleType;

#[test]
fn malformed_position_strings_are_rejected() {
    let mut board = Board::new();
    let fen0 = board.get_fen();
    assert!(board.load_fen("").is_err());
    assert!(board.load_fen("l5t").is_err());
    assert!(board.load_fen("l5x/7 w").is_err());
    assert!(board.load_fen("l5t/1d3c1/r1p1w1e/7/7/7/E1W1P1R/1C3D1/T5L x").is_err());
    assert!(board.load_fen("l5t/1d3c1/r1p1w1e/7/7/7/E1W1P1R/1C3D1/T5L ").is_err());
    // more cells than the board has
    assert!(board.load_fen("9/9/9/9/9/9/9/9/9/RRRRRRR w").is_err());
    // a failed load leaves the board untouched
    assert_eq!(board.get_fen(), fen0);
}

#[test]
fn load_accepts_the_two_side_letters() {
    let mut board = Board::new();
    board.load_fen("lL5/7/7/7/7/7/7/7/7 w").unwrap();
    assert_eq!(board.role, RoleType::RED);
    board.load_fen("lL5/7/7/7/7/7/7/7/7 b").unwrap();
    assert_eq!(board.role, RoleType::BLACK);
    assert_eq!(board.get_fen(), "lL5/7/7/7/7/7/7/7/7 b");
}

#[test]
fn encode_uses_direction_times_cell() {
    let board = Board::new();
    // down from (0, 1): direction 0, cell 1
    assert_eq!(board.encode_move(to_move(&((0, 1), (1, 1)))), 1);
    // right from (2, 3): direction 1, cell 17
    assert_eq!(board.encode_move(to_move(&((2, 3), (2, 4)))), 63 + 17);
    // up from (2, 3): direction 2
    assert_eq!(board.encode_move(to_move(&((2, 3), (1, 3)))), 2 * 63 + 17);
    // left from (2, 3): direction 3
    assert_eq!(board.encode_move(to_move(&((2, 3), (2, 2)))), 3 * 63 + 17);
}

#[test]
fn decode_resolves_bank_jumps_from_the_board() {
    let mut board = Board::new();
    board.load_fen("7/7/1T5/7/7/7/7/7/7 w").unwrap();
    let jump = to_move(&((2, 1), (6, 1)));
    let e = board.encode_move(jump);
    assert_eq!(board.decode_move(e), jump);
    // the same action index decodes as a short step for a wolf
    board.load_fen("7/7/1W5/7/7/7/7/7/7 w").unwrap();
    assert_eq!(board.decode_move(e), to_move(&((2, 1), (3, 1))));
}

#[test]
fn encode_board_has_one_plane_per_piece_and_side() {
    let mut board = Board::new();
    let enc = board.encode_board();
    assert_eq!(enc.len(), 18);
    for plane in &enc {
        assert_eq!(plane.len(), 9);
        for row in plane {
            assert_eq!(row.len(), 7);
        }
    }
    // black lion (index 9) sits on (0, 0); red lion (index 1) on (8, 6)
    assert_eq!(enc[9][0][0], 1);
    assert_eq!(enc[9][0][1], 0);
    assert_eq!(enc[1][8][6], 1);
    // first role to move: the side plane is all zero
    assert!(enc[16].iter().all(|row| row.iter().all(|&v| v == 0)));
    assert!(enc[17].iter().all(|row| row.iter().all(|&v| v == 0)));
    // after one move it is black's turn
    let steps = board.generate_all_steps();
    board.move_chess(steps[0]).unwrap();
    let enc = board.encode_board();
    assert!(enc[16].iter().all(|row| row.iter().all(|&v| v == 1)));
}

#[test]
fn decode_is_total_on_the_action_range() {
    let board = Board::new();
    for idx in 0u8..252 {
        let mv = board.decode_move(idx);
        // source cell always comes back as encoded
        let src = (mv >> 8) as u8;
        assert_eq!(((src >> 4) as usize) * 7 + (src & 0xf) as usize, (idx as usize) % 63);
    }
}
