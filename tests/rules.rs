use othello::{
    apply_move, apply_move_unchecked, check_game_status, compute_moves, flip_in_dir,
    move_to_algebraic, move_to_bitmap, Direction, BLACK_WINS, MUST_PASS, TIE, WHITE_WINS,
};

const OPEN_WHITE: u64 = (1 << 27) | (1 << 36);
const OPEN_BLACK: u64 = (1 << 28) | (1 << 35);
const MID_WHITE: u64 = 35253361508352;
const MID_BLACK: u64 = 171935537184;

fn positions() -> Vec<(u64, u64)> {
    vec![
        (OPEN_WHITE, OPEN_BLACK),
        (MID_WHITE, MID_BLACK),
        (0x0000_0018_3c00_0000, 0x0000_2400_0018_1000),
        (0x0000_0000_0000_00ff, 0x0000_0000_0000_ff00),
        (0x8100_0000_0000_0081, 0x0042_0000_0000_4200),
    ]
}

fn squares(mask: u64) -> Vec<u64> {
    (0..64).map(|i| 1u64 << i).filter(|m| mask & m != 0).collect()
}

#[test]
fn generated_moves_never_land_on_disks() {
    for (w, b) in positions() {
        assert_eq!(compute_moves(w, b) & (w | b), 0);
        assert_eq!(compute_moves(b, w) & (w | b), 0);
    }
}

#[test]
fn rules_depend_on_roles_not_colours() {
    for (w, b) in positions() {
        assert_eq!(check_game_status(w, b, true), check_game_status(b, w, false));
        for i in 0..64 {
            let m = 1u64 << i;
            let as_white = apply_move(w, b, m, true);
            let as_black = apply_move(b, w, m, false).map(|(x, y)| (y, x));
            assert_eq!(as_white, as_black);
        }
    }
}

#[test]
fn every_generated_move_applies() {
    for (w, b) in positions() {
        for white_to_move in [true, false] {
            let (me, opp) = if white_to_move { (w, b) } else { (b, w) };
            let moves = compute_moves(me, opp);
            for m in squares(moves) {
                let r = apply_move(w, b, m, white_to_move);
                assert!(r.is_ok());
                assert_eq!(r.unwrap(), apply_move_unchecked(w, b, m, white_to_move));
            }
            for m in squares(!moves & !(w | b)) {
                assert_eq!(apply_move(w, b, m, white_to_move), Err("No flips!"));
            }
        }
    }
}

#[test]
fn occupied_squares_are_refused() {
    for (w, b) in positions() {
        for m in squares(w | b) {
            assert_eq!(apply_move(w, b, m, true), Err("Square already occupied"));
            assert_eq!(apply_move(w, b, m, false), Err("Square already occupied"));
        }
    }
}

#[test]
fn move_without_capture_is_refused() {
    assert_eq!(apply_move(OPEN_WHITE, OPEN_BLACK, 1 << 63, true), Err("No flips!"));
    assert_eq!(apply_move(OPEN_WHITE, OPEN_BLACK, 1 << 19, true), Err("No flips!"));
}

#[test]
fn status_is_stable() {
    for (w, b) in positions() {
        assert_eq!(check_game_status(w, b, true), check_game_status(w, b, true));
        assert_eq!(check_game_status(w, b, false), check_game_status(w, b, false));
    }
}

#[test]
fn finished_games_go_by_disk_count() {
    assert_eq!(check_game_status(0x0000_0000_FFFF_FFFF, 0xFFFF_FFFF_0000_0000, false), TIE);
    assert_eq!(check_game_status(u64::MAX, 0, true), WHITE_WINS);
    assert_eq!(check_game_status(0, u64::MAX, true), BLACK_WINS);
    assert_eq!(check_game_status(0, 0, true), TIE);
    assert_eq!(check_game_status(1, 0, false), WHITE_WINS);
}

#[test]
fn status_sentinels_have_their_values() {
    assert_eq!(MUST_PASS, u64::MAX);
    assert_eq!(BLACK_WINS, u64::MAX - 1);
    assert_eq!(WHITE_WINS, u64::MAX - 2);
    assert_eq!(TIE, u64::MAX - 3);
}

#[test]
fn names_read_back_to_their_square() {
    for i in 0..64 {
        let m = 1u64 << i;
        let name = move_to_algebraic(m).unwrap();
        assert_eq!(name.len(), 2);
        assert_eq!(move_to_bitmap(&name), Ok(m));
    }
}

#[test]
fn names_of_corner_squares() {
    assert_eq!(move_to_algebraic(1 << 7).unwrap(), "h1");
    assert_eq!(move_to_algebraic(1 << 56).unwrap(), "a8");
    assert_eq!(move_to_algebraic(1 << 63).unwrap(), "h8");
    assert_eq!(move_to_algebraic(1 << 26).unwrap(), "c4");
    assert_eq!(move_to_algebraic(0), None);
    assert_eq!(move_to_algebraic(u64::MAX), None);
}

#[test]
fn notation_parsing() {
    assert_eq!(move_to_bitmap("c4"), Ok(1 << 26));
    assert_eq!(move_to_bitmap("C4"), Ok(1 << 26));
    assert_eq!(move_to_bitmap("h8"), Ok(1 << 63));
    for bad in ["", "a", "i1", "a0", "a9", "11", "`1", "@1", "a1 ", "aa"] {
        assert_eq!(move_to_bitmap(bad), Err("Invalid move notation"));
    }
}

#[test]
fn no_wrap_round_the_board_edges() {
    // h1 and a2 are adjacent bits but not adjacent squares.
    assert_eq!(compute_moves(1 << 7, 1 << 8), 0);
    assert_eq!(compute_moves(1 << 8, 1 << 7), 0);
    assert_eq!(flip_in_dir(1 << 6, 1 << 8, 1 << 7, Direction::East), 0);
    assert_eq!(flip_in_dir(1 << 9, 1 << 7, 1 << 8, Direction::West), 0);
}

#[test]
fn diagonal_captures() {
    // c3 plays towards the north-east over d4, closed by e5.
    assert_eq!(flip_in_dir(1 << 18, 1 << 36, 1 << 27, Direction::NorthEast), 1 << 27);
    assert_eq!(flip_in_dir(1 << 36, 1 << 18, 1 << 27, Direction::SouthWest), 1 << 27);
    // f3 towards the north-west over e4, closed by d5.
    assert_eq!(flip_in_dir(1 << 21, 1 << 35, 1 << 28, Direction::NorthWest), 1 << 28);
    assert_eq!(flip_in_dir(1 << 35, 1 << 21, 1 << 28, Direction::SouthEast), 1 << 28);
    // An open end captures nothing.
    assert_eq!(flip_in_dir(1 << 18, 0, 1 << 27, Direction::NorthEast), 0);
}

#[test]
fn opening_move_result() {
    // Black plays d3 in the opening: d4 turns black.
    let (w, b) = apply_move(OPEN_WHITE, OPEN_BLACK, 1 << 19, false).unwrap();
    assert_eq!(w, 1 << 36);
    assert_eq!(b, (1 << 19) | (1 << 27) | (1 << 28) | (1 << 35));
    assert_eq!(apply_move_unchecked(OPEN_WHITE, OPEN_BLACK, 1 << 19, false), (w, b));
}

#[test]
fn long_run_is_captured() {
    // a1 to h1: six opponent disks between the move and the mover's disk.
    let me = 1 << 7;
    let opp = 0b0111_1110;
    assert_eq!(flip_in_dir(1, me, opp, Direction::East), opp);
    assert_eq!(apply_move(me, opp, 1, true), Ok((0xff, 0)));
    assert_eq!(compute_moves(me, opp), 1);
}
