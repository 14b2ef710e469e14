//! Legal moves, move application and game status for a position given as two
//! disjoint masks, one per side.
use crate::board::{lemma_ray_leaves_board, opposite, ray, shift, step, Direction};
use vstd::prelude::*;

verus! {

/// Index of the first square of the ray from `m` towards `d`, counting from
/// `j`, that holds no opponent disk (at most 8, where every ray has left the board).
pub open spec fn run_end(d: Direction, m: u64, opp: u64, j: nat) -> nat
    decreases 8 - j,
{
    if j < 8 && ray(d, m, j) & opp != 0 {
        run_end(d, m, opp, j + 1)
    } else {
        j
    }
}

/// The squares 1 to `k` steps away from `m` towards `d`.
pub open spec fn run_mask(d: Direction, m: u64, k: nat) -> u64
    decreases k,
{
    if k == 0 {
        0
    } else {
        run_mask(d, m, (k - 1) as nat) | ray(d, m, k)
    }
}

/// What a disk placed on `m` captures towards `d`: the unbroken run of
/// opponent disks next to `m`, when the square right after it holds one of the
/// mover's disks; nothing otherwise.
pub open spec fn flips_dir(d: Direction, m: u64, me: u64, opp: u64) -> u64 {
    let e = run_end(d, m, opp, 1);
    if ray(d, m, e) & me != 0 {
        run_mask(d, m, (e - 1) as nat)
    } else {
        0
    }
}

/// Everything a disk placed on `m` captures, over all eight directions.
pub open spec fn flips(m: u64, me: u64, opp: u64) -> u64 {
    flips_dir(Direction::North, m, me, opp) | flips_dir(Direction::South, m, me, opp)
        | flips_dir(Direction::East, m, me, opp) | flips_dir(Direction::West, m, me, opp)
        | flips_dir(Direction::NorthEast, m, me, opp) | flips_dir(Direction::NorthWest, m, me, opp)
        | flips_dir(Direction::SouthEast, m, me, opp) | flips_dir(Direction::SouthWest, m, me, opp)
}

/// `m` is a legal move for the owner of `me`: the square is empty and the disk
/// placed there captures at least one opponent disk.
pub open spec fn is_legal(me: u64, opp: u64, m: u64) -> bool {
    m & (me | opp) == 0 && flips(m, me, opp) != 0
}

/// The position after the owner of `me` plays `m`, as the pair (mover, opponent).
pub open spec fn play(me: u64, opp: u64, m: u64) -> (u64, u64) {
    let f = flips(m, me, opp);
    (me | m | f, opp & !f)
}

/// The pair (mover, opponent) put back in the order (white, black).
pub open spec fn by_color(pair: (u64, u64), is_white_move: bool) -> (u64, u64) {
    if is_white_move {
        pair
    } else {
        (pair.1, pair.0)
    }
}

/// The masks (mover, opponent) of the side to move.
pub open spec fn sides(white: u64, black: u64, is_white_move: bool) -> (u64, u64) {
    if is_white_move {
        (white, black)
    } else {
        (black, white)
    }
}

/// Walks from `move_bit` towards `dir` over opponent disks and returns the run
/// walked when a disk of the mover closes it, else 0.
pub fn flip_in_dir(move_bit: u64, me: u64, opp: u64, dir: Direction) -> (r: u64)
    ensures
        r == flips_dir(dir, move_bit, me, opp),
{
    let mut mask = step(dir, move_bit);
    let mut flipped: u64 = 0;
    let ghost mut i: nat = 1;
    proof {
        reveal_with_fuel(ray, 2);
        reveal_with_fuel(run_mask, 1);
    }
    while (mask & opp) != 0
        invariant
            1 <= i <= 8,
            mask == ray(dir, move_bit, i),
            flipped == run_mask(dir, move_bit, (i - 1) as nat),
            run_end(dir, move_bit, opp, 1) == run_end(dir, move_bit, opp, i),
        decreases 8 - i,
    {
        proof {
            if i == 8 {
                lemma_ray_leaves_board(dir, move_bit);
                assert(mask & opp == 0) by (bit_vector)
                    requires
                        mask == 0u64,
                ;
            }
        }
        flipped |= mask;
        mask = step(dir, mask);
        proof {
            i = i + 1;
        }
    }
    if (mask & me) != 0 {
        flipped
    } else {
        0
    }
}

/// The capture mask, walking each of the eight directions.
fn flips_all(move_bit: u64, me: u64, opp: u64) -> (r: u64)
    ensures
        r == flips(move_bit, me, opp),
{
    let mut flip_mask: u64 = 0;
    flip_mask |= flip_in_dir(move_bit, me, opp, Direction::North);
    flip_mask |= flip_in_dir(move_bit, me, opp, Direction::South);
    flip_mask |= flip_in_dir(move_bit, me, opp, Direction::East);
    flip_mask |= flip_in_dir(move_bit, me, opp, Direction::West);
    flip_mask |= flip_in_dir(move_bit, me, opp, Direction::NorthEast);
    flip_mask |= flip_in_dir(move_bit, me, opp, Direction::NorthWest);
    flip_mask |= flip_in_dir(move_bit, me, opp, Direction::SouthEast);
    flip_mask |= flip_in_dir(move_bit, me, opp, Direction::SouthWest);
    let ghost (n, s, e, w) = (
        flips_dir(Direction::North, move_bit, me, opp),
        flips_dir(Direction::South, move_bit, me, opp),
        flips_dir(Direction::East, move_bit, me, opp),
        flips_dir(Direction::West, move_bit, me, opp),
    );
    let ghost (ne, nw, se, sw) = (
        flips_dir(Direction::NorthEast, move_bit, me, opp),
        flips_dir(Direction::NorthWest, move_bit, me, opp),
        flips_dir(Direction::SouthEast, move_bit, me, opp),
        flips_dir(Direction::SouthWest, move_bit, me, opp),
    );
    assert(0u64 | n | s | e | w | ne | nw | se | sw == n | s | e | w | ne | nw | se | sw)
        by (bit_vector);
    flip_mask
}

/// Plays `move_bit` for the side to move and returns the new (white, black)
/// masks: the mover gains the square and every captured disk, which the
/// opponent loses. Fails when the square is taken, or when it captures nothing.
pub fn apply_move(white: u64, black: u64, move_bit: u64, is_white_move: bool) -> (r: Result<
    (u64, u64),
    &'static str,
>)
    ensures
        move_bit & (white | black) != 0 ==> r is Err && r->Err_0@ == "Square already occupied"@,
        move_bit & (white | black) == 0 && flips(
            move_bit,
            sides(white, black, is_white_move).0,
            sides(white, black, is_white_move).1,
        ) == 0 ==> r is Err && r->Err_0@ == "No flips!"@,
        r is Ok <==> is_legal(
            sides(white, black, is_white_move).0,
            sides(white, black, is_white_move).1,
            move_bit,
        ),
        r is Ok ==> r->Ok_0 == by_color(
            play(
                sides(white, black, is_white_move).0,
                sides(white, black, is_white_move).1,
                move_bit,
            ),
            is_white_move,
        ),
{
    let occupied = white | black;
    proof {
        assert(white | black == black | white) by (bit_vector);
    }
    if (move_bit & occupied) != 0 {
        return Err("Square already occupied");
    }
    let (me, opp) = if is_white_move {
        (white, black)
    } else {
        (black, white)
    };
    let flip_mask = flips_all(move_bit, me, opp);
    if flip_mask == 0 {
        return Err("No flips!");
    }
    let new_me = me | move_bit | flip_mask;
    let new_opp = opp & !flip_mask;
    if is_white_move {
        Ok((new_me, new_opp))
    } else {
        Ok((new_opp, new_me))
    }
}

/// Squares that the owner of `me` can take by closing a run of opponent disks
/// lying towards `d` from one of its own disks, walked for all squares at once.
pub open spec fn dir_moves(d: Direction, me: u64, opp: u64) -> u64 {
    let a1 = shift(d, me) & opp;
    let a2 = a1 | (shift(d, a1) & opp);
    let a3 = a2 | (shift(d, a2) & opp);
    let a4 = a3 | (shift(d, a3) & opp);
    let a5 = a4 | (shift(d, a4) & opp);
    let a6 = a5 | (shift(d, a5) & opp);
    shift(d, a6) & !(me | opp)
}

/// A disk on `m` captures towards `d`, spelled out for each possible run
/// length: `k` opponent disks, then one of the mover's.
spec fn captures_closed(d: Direction, m: u64, me: u64, opp: u64) -> bool {
    let r1 = shift(d, m);
    let r2 = shift(d, r1);
    let r3 = shift(d, r2);
    let r4 = shift(d, r3);
    let r5 = shift(d, r4);
    let r6 = shift(d, r5);
    let r7 = shift(d, r6);
    ||| (r1 & opp != 0 && r2 & opp == 0 && r2 & me != 0)
    ||| (r1 & opp != 0 && r2 & opp != 0 && r3 & opp == 0 && r3 & me != 0)
    ||| (r1 & opp != 0 && r2 & opp != 0 && r3 & opp != 0 && r4 & opp == 0 && r4 & me != 0)
    ||| (r1 & opp != 0 && r2 & opp != 0 && r3 & opp != 0 && r4 & opp != 0 && r5 & opp == 0
        && r5 & me != 0)
    ||| (r1 & opp != 0 && r2 & opp != 0 && r3 & opp != 0 && r4 & opp != 0 && r5 & opp != 0
        && r6 & opp == 0 && r6 & me != 0)
    ||| (r1 & opp != 0 && r2 & opp != 0 && r3 & opp != 0 && r4 & opp != 0 && r5 & opp != 0
        && r6 & opp != 0 && r7 & opp == 0 && r7 & me != 0)
}

/// Walking from the mover's disks towards `d` finds exactly the empty squares
/// from which walking back captures.
proof fn lemma_dir_moves(d: Direction, me: u64, opp: u64, i: u64)
    requires
        i < 64,
        me & opp == 0,
    ensures
        (dir_moves(d, me, opp) & (1u64 << i) != 0) <==> ((1u64 << i) & (me | opp) == 0
            && captures_closed(opposite(d), 1u64 << i, me, opp)),
{
    match d {
        Direction::North => {
            assert((dir_moves(Direction::North, me, opp) & (1u64 << i) != 0) <==> ((1u64 << i)
                & (me | opp) == 0 && captures_closed(Direction::South, 1u64 << i, me, opp)))
                by (bit_vector)
                requires
                    i < 64,
                    me & opp == 0,
            ;
        },
        Direction::South => {
            assert((dir_moves(Direction::South, me, opp) & (1u64 << i) != 0) <==> ((1u64 << i)
                & (me | opp) == 0 && captures_closed(Direction::North, 1u64 << i, me, opp)))
                by (bit_vector)
                requires
                    i < 64,
                    me & opp == 0,
            ;
        },
        Direction::East => {
            assert((dir_moves(Direction::East, me, opp) & (1u64 << i) != 0) <==> ((1u64 << i)
                & (me | opp) == 0 && captures_closed(Direction::West, 1u64 << i, me, opp)))
                by (bit_vector)
                requires
                    i < 64,
                    me & opp == 0,
            ;
        },
        Direction::West => {
            assert((dir_moves(Direction::West, me, opp) & (1u64 << i) != 0) <==> ((1u64 << i)
                & (me | opp) == 0 && captures_closed(Direction::East, 1u64 << i, me, opp)))
                by (bit_vector)
                requires
                    i < 64,
                    me & opp == 0,
            ;
        },
        Direction::NorthEast => {
            assert((dir_moves(Direction::NorthEast, me, opp) & (1u64 << i) != 0) <==> ((1u64
                << i) & (me | opp) == 0 && captures_closed(Direction::SouthWest, 1u64 << i, me, opp)))
                by (bit_vector)
                requires
                    i < 64,
                    me & opp == 0,
            ;
        },
        Direction::NorthWest => {
            assert((dir_moves(Direction::NorthWest, me, opp) & (1u64 << i) != 0) <==> ((1u64
                << i) & (me | opp) == 0 && captures_closed(Direction::SouthEast, 1u64 << i, me, opp)))
                by (bit_vector)
                requires
                    i < 64,
                    me & opp == 0,
            ;
        },
        Direction::SouthEast => {
            assert((dir_moves(Direction::SouthEast, me, opp) & (1u64 << i) != 0) <==> ((1u64
                << i) & (me | opp) == 0 && captures_closed(Direction::NorthWest, 1u64 << i, me, opp)))
                by (bit_vector)
                requires
                    i < 64,
                    me & opp == 0,
            ;
        },
        Direction::SouthWest => {
            assert((dir_moves(Direction::SouthWest, me, opp) & (1u64 << i) != 0) <==> ((1u64
                << i) & (me | opp) == 0 && captures_closed(Direction::NorthEast, 1u64 << i, me, opp)))
                by (bit_vector)
                requires
                    i < 64,
                    me & opp == 0,
            ;
        },
    }
}

/// The walk of `flips_dir` captures something exactly when one of the spelled
/// out run lengths applies.
proof fn lemma_flips_dir_closed(d: Direction, m: u64, me: u64, opp: u64)
    ensures
        (flips_dir(d, m, me, opp) != 0) <==> captures_closed(d, m, me, opp),
{
    reveal_with_fuel(ray, 9);
    reveal_with_fuel(run_end, 8);
    reveal_with_fuel(run_mask, 7);
    lemma_ray_leaves_board(d, m);
    assert(forall|x: u64, y: u64| x != 0 ==> #[trigger] (x | y) != 0) by (bit_vector);
    assert(forall|x: u64, y: u64| #[trigger] (x & y) != 0 ==> x != 0) by (bit_vector);
    assert(forall|x: u64| x != 0 ==> #[trigger] (0u64 | x) != 0) by (bit_vector);
    assert(forall|x: u64| (0u64 & x) == 0) by (bit_vector);
}

/// One direction of the move generator: from each of the mover's disks, walk
/// towards `d` over up to six opponent disks and keep the empty square after.
fn moves_toward(d: Direction, me: u64, opp: u64, empty: u64) -> (r: u64)
    requires
        empty == !(me | opp),
    ensures
        r == dir_moves(d, me, opp),
{
    let mut mask = step(d, me) & opp;
    mask |= step(d, mask) & opp;
    mask |= step(d, mask) & opp;
    mask |= step(d, mask) & opp;
    mask |= step(d, mask) & opp;
    mask |= step(d, mask) & opp;
    step(d, mask) & empty
}

/// All legal moves of the owner of `me` against `opp`, one bit per square.
/// It never returns an occupied square, and for disjoint masks a square is in
/// the result exactly when a disk placed there captures something.
pub fn compute_moves(me: u64, opp: u64) -> (r: u64)
    ensures
        r == move_mask(me, opp),
        r & (me | opp) == 0,
        me & opp == 0 ==> forall|i: u64|
            i < 64 ==> ((#[trigger] (r & (1u64 << i)) != 0) <==> is_legal(me, opp, 1u64 << i)),
{
    let empty = !(me | opp);
    let mut moves: u64 = 0;
    moves |= moves_toward(Direction::North, me, opp, empty);
    moves |= moves_toward(Direction::South, me, opp, empty);
    moves |= moves_toward(Direction::East, me, opp, empty);
    moves |= moves_toward(Direction::West, me, opp, empty);
    moves |= moves_toward(Direction::NorthEast, me, opp, empty);
    moves |= moves_toward(Direction::NorthWest, me, opp, empty);
    moves |= moves_toward(Direction::SouthEast, me, opp, empty);
    moves |= moves_toward(Direction::SouthWest, me, opp, empty);
    proof {
        lemma_moves_exact(me, opp, moves);
    }
    moves
}

/// The union of the eight directions of the move generator.
pub open spec fn move_mask(me: u64, opp: u64) -> u64 {
    0u64 | dir_moves(Direction::North, me, opp) | dir_moves(Direction::South, me, opp)
        | dir_moves(Direction::East, me, opp) | dir_moves(Direction::West, me, opp)
        | dir_moves(Direction::NorthEast, me, opp) | dir_moves(Direction::NorthWest, me, opp)
        | dir_moves(Direction::SouthEast, me, opp) | dir_moves(Direction::SouthWest, me, opp)
}

/// The move generator returns only empty squares, and on disjoint masks
/// exactly the legal moves.
proof fn lemma_moves_exact(me: u64, opp: u64, moves: u64)
    requires
        moves == move_mask(me, opp),
    ensures
        moves & (me | opp) == 0,
        me & opp == 0 ==> forall|i: u64|
            i < 64 ==> ((#[trigger] (moves & (1u64 << i)) != 0) <==> is_legal(
                me,
                opp,
                1u64 << i,
            )),
{
    let e = me | opp;
    let (n, s, ea, w) = (
        dir_moves(Direction::North, me, opp),
        dir_moves(Direction::South, me, opp),
        dir_moves(Direction::East, me, opp),
        dir_moves(Direction::West, me, opp),
    );
    let (ne, nw, se, sw) = (
        dir_moves(Direction::NorthEast, me, opp),
        dir_moves(Direction::NorthWest, me, opp),
        dir_moves(Direction::SouthEast, me, opp),
        dir_moves(Direction::SouthWest, me, opp),
    );
    assert(forall|x: u64, y: u64| #[trigger] (x & !y) & y == 0) by (bit_vector);
    assert(moves & e == 0) by (bit_vector)
        requires
            moves == 0u64 | n | s | ea | w | ne | nw | se | sw,
            n & e == 0 && s & e == 0 && ea & e == 0 && w & e == 0,
            ne & e == 0 && nw & e == 0 && se & e == 0 && sw & e == 0,
    ;
    if me & opp == 0 {
        assert forall|i: u64| i < 64 implies ((#[trigger] (moves & (1u64 << i)) != 0) <==> is_legal(
            me,
            opp,
            1u64 << i,
        )) by {
            let m = 1u64 << i;
            lemma_dir_moves(Direction::North, me, opp, i);
            lemma_dir_moves(Direction::South, me, opp, i);
            lemma_dir_moves(Direction::East, me, opp, i);
            lemma_dir_moves(Direction::West, me, opp, i);
            lemma_dir_moves(Direction::NorthEast, me, opp, i);
            lemma_dir_moves(Direction::NorthWest, me, opp, i);
            lemma_dir_moves(Direction::SouthEast, me, opp, i);
            lemma_dir_moves(Direction::SouthWest, me, opp, i);
            lemma_flips_dir_closed(Direction::North, m, me, opp);
            lemma_flips_dir_closed(Direction::South, m, me, opp);
            lemma_flips_dir_closed(Direction::East, m, me, opp);
            lemma_flips_dir_closed(Direction::West, m, me, opp);
            lemma_flips_dir_closed(Direction::NorthEast, m, me, opp);
            lemma_flips_dir_closed(Direction::NorthWest, m, me, opp);
            lemma_flips_dir_closed(Direction::SouthEast, m, me, opp);
            lemma_flips_dir_closed(Direction::SouthWest, m, me, opp);
            lemma_or8_meets(n, s, ea, w, ne, nw, se, sw, m);
            lemma_or8_nonzero(
                flips_dir(Direction::North, m, me, opp),
                flips_dir(Direction::South, m, me, opp),
                flips_dir(Direction::East, m, me, opp),
                flips_dir(Direction::West, m, me, opp),
                flips_dir(Direction::NorthEast, m, me, opp),
                flips_dir(Direction::NorthWest, m, me, opp),
                flips_dir(Direction::SouthEast, m, me, opp),
                flips_dir(Direction::SouthWest, m, me, opp),
            );
        }
    }
}

/// A union of eight masks meets `m` when one of them does.
proof fn lemma_or8_meets(a: u64, b: u64, c: u64, d: u64, e: u64, f: u64, g: u64, h: u64, m: u64)
    by (bit_vector)
    ensures
        ((0u64 | a | b | c | d | e | f | g | h) & m != 0) <==> (a & m != 0 || b & m != 0 || c & m
            != 0 || d & m != 0 || e & m != 0 || f & m != 0 || g & m != 0 || h & m != 0),
{
}

/// A union of eight masks is empty only when each of them is.
proof fn lemma_or8_nonzero(a: u64, b: u64, c: u64, d: u64, e: u64, f: u64, g: u64, h: u64)
    by (bit_vector)
    ensures
        ((a | b | c | d | e | f | g | h) != 0) <==> (a != 0 || b != 0 || c != 0 || d != 0 || e
            != 0 || f != 0 || g != 0 || h != 0),
{
}

/// `m` holds exactly one square.
pub open spec fn is_square(m: u64) -> bool {
    m != 0 && m & ((m - 1) as u64) == 0
}

/// What `flips_dir` captures, spelled out for each possible run length.
spec fn flips_closed(d: Direction, m: u64, me: u64, opp: u64) -> u64 {
    let r1 = shift(d, m);
    let r2 = shift(d, r1);
    let r3 = shift(d, r2);
    let r4 = shift(d, r3);
    let r5 = shift(d, r4);
    let r6 = shift(d, r5);
    let r7 = shift(d, r6);
    if r1 & opp == 0 {
        0
    } else if r2 & opp == 0 {
        if r2 & me != 0 { 0u64 | r1 } else { 0 }
    } else if r3 & opp == 0 {
        if r3 & me != 0 { 0u64 | r1 | r2 } else { 0 }
    } else if r4 & opp == 0 {
        if r4 & me != 0 { 0u64 | r1 | r2 | r3 } else { 0 }
    } else if r5 & opp == 0 {
        if r5 & me != 0 { 0u64 | r1 | r2 | r3 | r4 } else { 0 }
    } else if r6 & opp == 0 {
        if r6 & me != 0 { 0u64 | r1 | r2 | r3 | r4 | r5 } else { 0 }
    } else if r7 & opp == 0 {
        if r7 & me != 0 { 0u64 | r1 | r2 | r3 | r4 | r5 | r6 } else { 0 }
    } else {
        0
    }
}

/// The walk of `flips_dir` and its spelled-out form agree.
proof fn lemma_flips_dir_spelled(d: Direction, m: u64, me: u64, opp: u64)
    ensures
        flips_dir(d, m, me, opp) == flips_closed(d, m, me, opp),
{
    reveal_with_fuel(ray, 9);
    reveal_with_fuel(run_end, 8);
    reveal_with_fuel(run_mask, 7);
    lemma_ray_leaves_board(d, m);
    assert(forall|x: u64| (0u64 & x) == 0) by (bit_vector);
}

/// The fast capture walk of one direction: a run of at most six opponent
/// disks, taken when the square after it holds one of the mover's.
spec fn flip_unrolled_spec(d: Direction, m: u64, me: u64, opp: u64) -> u64 {
    let x1 = shift(d, m) & opp;
    let x2 = x1 | (shift(d, x1) & opp);
    let x3 = x2 | (shift(d, x2) & opp);
    let x4 = x3 | (shift(d, x3) & opp);
    let x5 = x4 | (shift(d, x4) & opp);
    let x6 = x5 | (shift(d, x5) & opp);
    if x1 == 0 {
        0
    } else if shift(d, x6) & me != 0 {
        x6
    } else {
        0
    }
}

/// On a single square of a valid position, the fast walk captures what
/// `flips_dir` describes.
proof fn lemma_flip_unrolled(d: Direction, m: u64, me: u64, opp: u64)
    requires
        is_square(m),
        me & opp == 0,
    ensures
        flip_unrolled_spec(d, m, me, opp) == flips_dir(d, m, me, opp),
{
    lemma_flips_dir_spelled(d, m, me, opp);
    match d {
        Direction::North => {
            assert(flip_unrolled_spec(Direction::North, m, me, opp) == flips_closed(Direction::North, m, me, opp))
                by (bit_vector)
                requires
                    m != 0,
                    m & ((m - 1) as u64) == 0,
                    me & opp == 0,
            ;
        },
        Direction::South => {
            assert(flip_unrolled_spec(Direction::South, m, me, opp) == flips_closed(Direction::South, m, me, opp))
                by (bit_vector)
                requires
                    m != 0,
                    m & ((m - 1) as u64) == 0,
                    me & opp == 0,
            ;
        },
        Direction::East => {
            assert(flip_unrolled_spec(Direction::East, m, me, opp) == flips_closed(Direction::East, m, me, opp))
                by (bit_vector)
                requires
                    m != 0,
                    m & ((m - 1) as u64) == 0,
                    me & opp == 0,
            ;
        },
        Direction::West => {
            assert(flip_unrolled_spec(Direction::West, m, me, opp) == flips_closed(Direction::West, m, me, opp))
                by (bit_vector)
                requires
                    m != 0,
                    m & ((m - 1) as u64) == 0,
                    me & opp == 0,
            ;
        },
        Direction::NorthEast => {
            assert(flip_unrolled_spec(Direction::NorthEast, m, me, opp) == flips_closed(Direction::NorthEast, m, me, opp))
                by (bit_vector)
                requires
                    m != 0,
                    m & ((m - 1) as u64) == 0,
                    me & opp == 0,
            ;
        },
        Direction::NorthWest => {
            assert(flip_unrolled_spec(Direction::NorthWest, m, me, opp) == flips_closed(Direction::NorthWest, m, me, opp))
                by (bit_vector)
                requires
                    m != 0,
                    m & ((m - 1) as u64) == 0,
                    me & opp == 0,
            ;
        },
        Direction::SouthEast => {
            assert(flip_unrolled_spec(Direction::SouthEast, m, me, opp) == flips_closed(Direction::SouthEast, m, me, opp))
                by (bit_vector)
                requires
                    m != 0,
                    m & ((m - 1) as u64) == 0,
                    me & opp == 0,
            ;
        },
        Direction::SouthWest => {
            assert(flip_unrolled_spec(Direction::SouthWest, m, me, opp) == flips_closed(Direction::SouthWest, m, me, opp))
                by (bit_vector)
                requires
                    m != 0,
                    m & ((m - 1) as u64) == 0,
                    me & opp == 0,
            ;
        },
    }
}

/// The fast capture walk of one direction, for a single square.
fn flip_unrolled(d: Direction, move_bit: u64, me: u64, opp: u64) -> (r: u64)
    requires
        is_square(move_bit),
        me & opp == 0,
    ensures
        r == flips_dir(d, move_bit, me, opp),
{
    proof {
        lemma_flip_unrolled(d, move_bit, me, opp);
    }
    let mut x = step(d, move_bit) & opp;
    if x == 0 {
        0
    } else {
        x |= step(d, x) & opp;
        x |= step(d, x) & opp;
        x |= step(d, x) & opp;
        x |= step(d, x) & opp;
        x |= step(d, x) & opp;
        if (step(d, x) & me) != 0 {
            x
        } else {
            0
        }
    }
}

/// Plays a move already known to be legal, without the checks of
/// `apply_move`: same result as `apply_move` on such a move. Calling it with
/// anything else is a caller bug, which is why it demands legality.
pub fn apply_move_unchecked(white: u64, black: u64, move_bit: u64, is_white_move: bool) -> (r: (
    u64,
    u64,
))
    requires
        white & black == 0,
        is_square(move_bit),
        is_legal(
            sides(white, black, is_white_move).0,
            sides(white, black, is_white_move).1,
            move_bit,
        ),
    ensures
        r == by_color(
            play(
                sides(white, black, is_white_move).0,
                sides(white, black, is_white_move).1,
                move_bit,
            ),
            is_white_move,
        ),
{
    let (me, opp) = if is_white_move {
        (white, black)
    } else {
        (black, white)
    };
    proof {
        assert(white & black == black & white) by (bit_vector);
    }
    let flip_mask = flip_unrolled(Direction::North, move_bit, me, opp) | flip_unrolled(
        Direction::South,
        move_bit,
        me,
        opp,
    ) | flip_unrolled(Direction::East, move_bit, me, opp) | flip_unrolled(
        Direction::West,
        move_bit,
        me,
        opp,
    ) | flip_unrolled(Direction::NorthEast, move_bit, me, opp) | flip_unrolled(
        Direction::NorthWest,
        move_bit,
        me,
        opp,
    ) | flip_unrolled(Direction::SouthEast, move_bit, me, opp) | flip_unrolled(
        Direction::SouthWest,
        move_bit,
        me,
        opp,
    );
    let new_me = me | move_bit | flip_mask;
    let new_opp = opp & !flip_mask;
    if is_white_move {
        (new_me, new_opp)
    } else {
        (new_opp, new_me)
    }
}

/// Status value: the side to move has no legal move but the opponent has one.
pub const MUST_PASS: u64 = 0xffff_ffff_ffff_ffff;

/// Status value: the game is over and black has more disks.
pub const BLACK_WINS: u64 = 0xffff_ffff_ffff_fffe;

/// Status value: the game is over and white has more disks.
pub const WHITE_WINS: u64 = 0xffff_ffff_ffff_fffd;

/// Status value: the game is over with equal disk counts.
pub const TIE: u64 = 0xffff_ffff_ffff_fffc;

/// Number of set bits of `x` among bits `0 .. n`.
pub open spec fn bits_below(x: u64, n: nat) -> nat
    decreases n,
{
    if n == 0 {
        0
    } else {
        bits_below(x, (n - 1) as nat) + (if (x >> ((n - 1) as u64)) & 1 == 1 {
            1nat
        } else {
            0nat
        })
    }
}

/// Number of disks in a mask.
pub open spec fn disk_count(x: u64) -> nat {
    bits_below(x, 64)
}

/// Outcome of a finished game, decided by the disk counts.
pub open spec fn final_result(white: u64, black: u64) -> u64 {
    if disk_count(white) > disk_count(black) {
        WHITE_WINS
    } else if disk_count(black) > disk_count(white) {
        BLACK_WINS
    } else {
        TIE
    }
}

/// The status of a position: the legal moves of the side to move when it has
/// any, else `MUST_PASS` when the opponent has one, else the final result.
pub open spec fn game_status(white: u64, black: u64, is_white_move: bool) -> u64 {
    let me = sides(white, black, is_white_move).0;
    let opp = sides(white, black, is_white_move).1;
    if move_mask(me, opp) != 0 {
        move_mask(me, opp)
    } else if move_mask(opp, me) != 0 {
        MUST_PASS
    } else {
        final_result(white, black)
    }
}

/// Number of disks in `x`.
fn count_disks(x: u64) -> (r: u32)
    ensures
        r as nat == disk_count(x),
{
    let mut count: u32 = 0;
    let mut i: u32 = 0;
    while i < 64
        invariant
            i <= 64,
            count as nat == bits_below(x, i as nat),
            count <= i,
        decreases 64 - i,
    {
        let bit = (x >> i) & 1;
        proof {
            assert(bit == 0 || bit == 1) by (bit_vector)
                requires
                    bit == (x >> i) & 1,
            ;
        }
        if bit == 1 {
            count = count + 1;
        }
        i = i + 1;
    }
    count
}

/// Classifies the position for the side to move: its legal moves when it has
/// any, `MUST_PASS` when only the opponent can move, and otherwise the result
/// of the finished game (`WHITE_WINS`, `BLACK_WINS` or `TIE`).
pub fn check_game_status(white: u64, black: u64, is_white_move: bool) -> (r: u64)
    ensures
        r == game_status(white, black, is_white_move),
{
    let (me, opp) = if is_white_move {
        (white, black)
    } else {
        (black, white)
    };
    let my_moves: u64 = compute_moves(me, opp);
    if my_moves > 0 {
        return my_moves;
    }
    let opp_moves: u64 = compute_moves(opp, me);
    if opp_moves > 0 {
        return MUST_PASS;
    }
    let white_count = count_disks(white);
    let black_count = count_disks(black);
    if white_count > black_count {
        WHITE_WINS
    } else if black_count > white_count {
        BLACK_WINS
    } else {
        TIE
    }
}

/// The rules see roles, not colours: white to move on (white, black) gets the
/// same legal moves, and the same outcome from any move with colours swapped,
/// as black to move on (black, white).
pub proof fn lemma_colour_blind(white: u64, black: u64, m: u64)
    ensures
        move_mask(sides(white, black, true).0, sides(white, black, true).1) == move_mask(
            sides(black, white, false).0,
            sides(black, white, false).1,
        ),
        is_legal(sides(white, black, true).0, sides(white, black, true).1, m) == is_legal(
            sides(black, white, false).0,
            sides(black, white, false).1,
            m,
        ),
        by_color(play(sides(white, black, true).0, sides(white, black, true).1, m), true) == (
        by_color(play(sides(black, white, false).0, sides(black, white, false).1, m), false).1,
        by_color(play(sides(black, white, false).0, sides(black, white, false).1, m), false).0),
{
}

/// Every square that the move generator returns for a valid position is a
/// move that captures, so playing it through `apply_move` succeeds.
pub proof fn lemma_generated_moves_apply(white: u64, black: u64, is_white_move: bool, i: u64)
    requires
        white & black == 0,
        i < 64,
    ensures
        move_mask(sides(white, black, is_white_move).0, sides(white, black, is_white_move).1) & (
        1u64 << i) != 0 ==> is_legal(
            sides(white, black, is_white_move).0,
            sides(white, black, is_white_move).1,
            1u64 << i,
        ),
{
    assert(white & black == black & white) by (bit_vector);
    let me = sides(white, black, is_white_move).0;
    let opp = sides(white, black, is_white_move).1;
    lemma_moves_exact(me, opp, move_mask(me, opp));
}

/// A mask with no square in it is zero.
proof fn lemma_no_square_is_zero(x: u64)
    requires
        forall|i: u64| i < 64 ==> #[trigger] (x & (1u64 << i)) == 0,
    ensures
        x == 0,
{
    if x != 0 {
        vstd::std_specs::bits::axiom_u64_trailing_zeros(x);
        let t = vstd::std_specs::bits::u64_trailing_zeros(x) as u64;
        assert(x & (1u64 << t) != 0) by (bit_vector)
            requires
                t < 64,
                (x >> t) & 1u64 == 1u64,
        ;
        assert(x & (1u64 << t) == 0);
    }
}

/// When neither side of a valid position has a legal move, the status is the
/// final result: `TIE` for equal disk counts, otherwise the sentinel of the
/// side with more disks, whoever is to move.
pub proof fn lemma_terminal_result(white: u64, black: u64, is_white_move: bool)
    requires
        white & black == 0,
        forall|i: u64| i < 64 ==> !#[trigger] is_legal(white, black, 1u64 << i),
        forall|i: u64| i < 64 ==> !#[trigger] is_legal(black, white, 1u64 << i),
    ensures
        game_status(white, black, is_white_move) == final_result(white, black),
        disk_count(white) == disk_count(black) ==> game_status(white, black, is_white_move) == TIE,
        disk_count(white) > disk_count(black) ==> game_status(white, black, is_white_move)
            == WHITE_WINS,
        disk_count(black) > disk_count(white) ==> game_status(white, black, is_white_move)
            == BLACK_WINS,
{
    assert(white & black == black & white) by (bit_vector);
    lemma_moves_exact(white, black, move_mask(white, black));
    lemma_moves_exact(black, white, move_mask(black, white));
    assert forall|i: u64| i < 64 implies #[trigger] (move_mask(white, black) & (1u64 << i)) == 0 by {
        assert(!is_legal(white, black, 1u64 << i));
    }
    assert forall|i: u64| i < 64 implies #[trigger] (move_mask(black, white) & (1u64 << i)) == 0 by {
        assert(!is_legal(black, white, 1u64 << i));
    }
    lemma_no_square_is_zero(move_mask(white, black));
    lemma_no_square_is_zero(move_mask(black, white));
}

} // verus!
