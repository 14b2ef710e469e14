use othello::{
    apply_move, check_game_status, compute_moves, flip_in_dir, move_to_algebraic, move_to_bitmap,
    Direction,
};

#[test]
fn test_move_to_algebraic() {
    assert_eq!(move_to_algebraic(1).unwrap(), "a1");
    assert_eq!(move_to_algebraic(4).unwrap(), "c1");
    assert_eq!(move_to_algebraic(3), None);
}

#[test]
fn test_move_to_bitmap() {
    assert_eq!(move_to_bitmap("a1").unwrap(), 1);
    assert_eq!(move_to_bitmap("foo"), Err("Invalid move notation"));
}

// Towards higher bits along a rank is east, towards lower bits west; a
// rank up is north, a rank down south.

#[test]
fn test_flip_in_dir_basic_single_flip_left() {
    let move_bit = 0b0010_0000;
    let me = 0b1000_0000;
    let opp = 0b0100_0000;

    let flipped = flip_in_dir(move_bit, me, opp, Direction::East);
    assert_eq!(flipped, 0b0100_0000);
}

#[test]
fn test_flip_in_dir_no_flip_left() {
    let move_bit = 0b0001_0000;
    let me = 0b1000_0000;
    let opp = 0b0010_0000;

    let flipped = flip_in_dir(move_bit, me, opp, Direction::East);
    assert_eq!(flipped, 0);
}

#[test]
fn test_flip_in_dir_multiple_flips_left() {
    let move_bit = 0b0000_1000;
    let opp = 0b0111_0000;
    let me = 0b1000_0000;

    let flipped = flip_in_dir(move_bit, me, opp, Direction::East);
    assert_eq!(flipped, 0b0111_0000);
}

#[test]
fn test_flip_in_dir_interrupted_chain_left() {
    let move_bit = 0b0000_1000;
    let opp = 0b0010_0000;
    let me = 0b1000_0000;

    let flipped = flip_in_dir(move_bit, me, opp, Direction::East);
    assert_eq!(flipped, 0);
}

#[test]
fn test_flip_in_dir_basic_single_flip_right() {
    let move_bit = 0x800;
    let opp = 0x400;
    let me = 0x200;

    let flipped = flip_in_dir(move_bit, me, opp, Direction::West);
    assert_eq!(flipped, 0x400);
}

#[test]
fn test_flip_in_dir_basic_single_flip_up() {
    let move_bit = 0x0001;
    let opp = 0x0100;
    let me = 0x010000;

    let flipped = flip_in_dir(move_bit, me, opp, Direction::North);
    assert_eq!(flipped, 0x0100);
}

#[test]
fn test_flip_in_dir_no_flip_up_due_to_gap() {
    let move_bit = 0x0001;
    let opp = 0x0200;
    let me = 0x010000;

    let flipped = flip_in_dir(move_bit, me, opp, Direction::North);
    assert_eq!(flipped, 0);
}

#[test]
fn test_flip_in_dir_multiple_flips_down() {
    let move_bit = 0x1000000000000000;
    let opp = 0x0010000000000000 | 0x0000100000000000;
    let me = 0x0000001000000000;

    let flipped = flip_in_dir(move_bit, me, opp, Direction::South);
    assert_eq!(flipped, opp);
}

#[test]
fn test_apply_move() {
    assert_eq!(
        apply_move(35253361508352, 171935537184, move_to_bitmap("c4").unwrap(), true).unwrap(),
        (35253562834944, 171801319456)
    );
    assert_eq!(
        apply_move(35253361508352, 171935537184, move_to_bitmap("a1").unwrap(), true),
        Err("No flips!")
    );
    assert_eq!(
        apply_move(35253361508352, 171935537184, move_to_bitmap("a3").unwrap(), true),
        Err("Square already occupied")
    );
}

#[test]
fn test_compute_moves_no_possible_moves() {
    let me = 0x1;
    let opp = 0x2;

    let moves = compute_moves(opp, me);
    assert_eq!(moves, 0, "Expected no moves, got some bits set instead.");
}

#[test]
fn test_compute_moves_simple_horizontal() {
    let me = 1 << 3;
    let opp = (1 << 2) | (1 << 1);

    let moves = compute_moves(me, opp);
    assert_eq!(moves, 1, "Expected bit 0 to be a valid move, but got something else.");
}

#[test]
fn test_compute_moves_standard_othello_black_to_move() {
    let me = (1 << 28) | (1 << 35);
    let opp = (1 << 27) | (1 << 36);

    let moves = compute_moves(me, opp);

    let expected_moves = (1 << 19) | (1 << 26) | (1 << 37) | (1 << 44);
    assert_eq!(
        moves, expected_moves,
        "Black's standard opening moves did not match the expected bitmask."
    );
}

#[test]
fn test_compute_moves_standard_othello_white_to_move() {
    let me = (1 << 27) | (1 << 36);
    let opp = (1 << 28) | (1 << 35);

    let moves = compute_moves(me, opp);

    let expected_moves = (1 << 20) | (1 << 29) | (1 << 34) | (1 << 43);
    assert_eq!(
        moves, expected_moves,
        "White's standard opening moves did not match the expected bitmask."
    );
}

#[test]
fn test_compute_moves_all_filled_but_one() {
    let empty_bit = 12;
    let all_board = u64::MAX;
    let me = all_board & !(1 << empty_bit) & !(1 << 10) & !(1 << 11);
    let opp = (1 << 10) | (1 << 11);
    let moves = compute_moves(opp, me);
    assert_eq!(
        moves, 0,
        "Expected no valid moves on a nearly full board, got a nonzero mask."
    );
}

#[test]
fn test_check_game_status_current_player_has_moves() {
    let white = (1 << 27) | (1 << 36);
    let black = (1 << 28) | (1 << 35);
    let is_white_move = true;

    let expected_moves = (1 << 20) | (1 << 29) | (1 << 34) | (1 << 43);

    let status = check_game_status(white, black, is_white_move);
    assert_eq!(
        status, expected_moves,
        "Expected White's standard opening moves, got something else."
    );
}

#[test]
fn test_check_game_status_current_player_has_no_moves_opponent_does() {
    let white = 0x0000_FFFF_FFFF_F000u64;
    let black = 0x0000_0000_0000_FFFFu64;

    let is_white_move = true;

    let status = check_game_status(white, black, is_white_move);
    assert_eq!(
        status,
        u64::MAX,
        "Expected pass situation (u64::MAX) if current player has no moves but opponent does."
    );
}

#[test]
fn test_check_game_status_both_sides_have_no_moves_white_wins() {
    let white = 14260085270048145407;
    let black = 67108864;
    let is_white_move = true;

    let status = check_game_status(white, black, is_white_move);
    assert_eq!(
        status,
        u64::MAX - 2,
        "Expected White to win => (u64::MAX - 2). Got something else."
    );
}

#[test]
fn test_check_game_status_both_sides_have_no_moves_black_wins() {
    let white = 67108864;
    let black = 14260085270048145407;

    let is_white_move = false;

    let status = check_game_status(white, black, is_white_move);
    assert_eq!(
        status,
        u64::MAX - 1,
        "Expected Black to win => (u64::MAX - 1). Got something else."
    );
}

#[test]
fn test_check_game_status_both_sides_have_no_moves_tie() {
    let white = 0x0000_0000_FFFF_FFFFu64;
    let black = 0xFFFF_FFFF_0000_0000u64;

    let is_white_move = true;

    let status = check_game_status(white, black, is_white_move);
    assert_eq!(status, u64::MAX - 3, "Expected tie => (u64::MAX - 3). Got something else.");
}

#[test]
fn test_check_game_status_black_has_moves() {
    let white = (1 << 27) | (1 << 36);
    let black = (1 << 28) | (1 << 35);
    let is_white_move = false;

    let expected_moves = (1 << 19) | (1 << 26) | (1 << 37) | (1 << 44);

    let status = check_game_status(white, black, is_white_move);
    assert_eq!(
        status, expected_moves,
        "Expected black's moves in the standard opening, got something else."
    );
}
