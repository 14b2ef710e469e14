//! Board geometry: single steps of a whole mask in the eight compass directions.
use vstd::prelude::*;

verus! {

/// Every square except those on file a.
pub const NOT_A_FILE: u64 = 0xfefefefefefefefe;

/// Every square except those on file h.
pub const NOT_H_FILE: u64 = 0x7f7f7f7f7f7f7f7f;

/// A compass direction on the board; north is towards rank 8, east towards file h.
#[derive(Clone, Copy, Debug, PartialEq, Eq, Structural)]
pub enum Direction {
    North,
    South,
    East,
    West,
    NorthEast,
    NorthWest,
    SouthEast,
    SouthWest,
}

/// Every square of `x` moved one step towards `d`; squares that would leave
/// the board are dropped instead of wrapping round to the other edge.
pub open spec fn shift(d: Direction, x: u64) -> u64 {
    match d {
        Direction::North => x << 8u64,
        Direction::South => x >> 8u64,
        Direction::East => (x & NOT_H_FILE) << 1u64,
        Direction::West => (x & NOT_A_FILE) >> 1u64,
        Direction::NorthEast => (x & NOT_H_FILE) << 9u64,
        Direction::NorthWest => (x & NOT_A_FILE) << 7u64,
        Direction::SouthEast => (x & NOT_H_FILE) >> 7u64,
        Direction::SouthWest => (x & NOT_A_FILE) >> 9u64,
    }
}

/// The direction pointing the other way.
pub open spec fn opposite(d: Direction) -> Direction {
    match d {
        Direction::North => Direction::South,
        Direction::South => Direction::North,
        Direction::East => Direction::West,
        Direction::West => Direction::East,
        Direction::NorthEast => Direction::SouthWest,
        Direction::NorthWest => Direction::SouthEast,
        Direction::SouthEast => Direction::NorthWest,
        Direction::SouthWest => Direction::NorthEast,
    }
}

/// The squares `j` steps away from those of `x` towards `d`.
pub open spec fn ray(d: Direction, x: u64, j: nat) -> u64
    decreases j,
{
    if j == 0 {
        x
    } else {
        shift(d, ray(d, x, (j - 1) as nat))
    }
}

/// Eight steps in one direction leave the board from any square.
pub proof fn lemma_ray_leaves_board(d: Direction, x: u64)
    ensures
        ray(d, x, 8) == 0,
{
    reveal_with_fuel(ray, 9);
    match d {
        Direction::North => {
            assert(((((((((x << 8u64) << 8u64) << 8u64) << 8u64) << 8u64) << 8u64) << 8u64)
                << 8u64) == 0) by (bit_vector);
        },
        Direction::South => {
            assert(((((((((x >> 8u64) >> 8u64) >> 8u64) >> 8u64) >> 8u64) >> 8u64) >> 8u64)
                >> 8u64) == 0) by (bit_vector);
        },
        Direction::East => {
            let h = NOT_H_FILE;
            assert(((((((((((((((((x & h) << 1u64) & h) << 1u64) & h) << 1u64) & h) << 1u64)
                & h) << 1u64) & h) << 1u64) & h) << 1u64) & h) << 1u64) == 0) by (bit_vector)
                requires
                    h == 0x7f7f7f7f7f7f7f7fu64,
            ;
        },
        Direction::West => {
            let a = NOT_A_FILE;
            assert(((((((((((((((((x & a) >> 1u64) & a) >> 1u64) & a) >> 1u64) & a) >> 1u64)
                & a) >> 1u64) & a) >> 1u64) & a) >> 1u64) & a) >> 1u64) == 0) by (bit_vector)
                requires
                    a == 0xfefefefefefefefeu64,
            ;
        },
        Direction::NorthEast => {
            let h = NOT_H_FILE;
            assert(((((((((((((((((x & h) << 9u64) & h) << 9u64) & h) << 9u64) & h) << 9u64)
                & h) << 9u64) & h) << 9u64) & h) << 9u64) & h) << 9u64) == 0) by (bit_vector)
                requires
                    h == 0x7f7f7f7f7f7f7f7fu64,
            ;
        },
        Direction::NorthWest => {
            let a = NOT_A_FILE;
            assert(((((((((((((((((x & a) << 7u64) & a) << 7u64) & a) << 7u64) & a) << 7u64)
                & a) << 7u64) & a) << 7u64) & a) << 7u64) & a) << 7u64) == 0) by (bit_vector)
                requires
                    a == 0xfefefefefefefefeu64,
            ;
        },
        Direction::SouthEast => {
            let h = NOT_H_FILE;
            assert(((((((((((((((((x & h) >> 7u64) & h) >> 7u64) & h) >> 7u64) & h) >> 7u64)
                & h) >> 7u64) & h) >> 7u64) & h) >> 7u64) & h) >> 7u64) == 0) by (bit_vector)
                requires
                    h == 0x7f7f7f7f7f7f7f7fu64,
            ;
        },
        Direction::SouthWest => {
            let a = NOT_A_FILE;
            assert(((((((((((((((((x & a) >> 9u64) & a) >> 9u64) & a) >> 9u64) & a) >> 9u64)
                & a) >> 9u64) & a) >> 9u64) & a) >> 9u64) & a) >> 9u64) == 0) by (bit_vector)
                requires
                    a == 0xfefefefefefefefeu64,
            ;
        },
    }
}

pub fn shift_north(x: u64) -> (r: u64)
    ensures
        r == shift(Direction::North, x),
{
    x << 8
}

pub fn shift_south(x: u64) -> (r: u64)
    ensures
        r == shift(Direction::South, x),
{
    x >> 8
}

pub fn shift_east(x: u64) -> (r: u64)
    ensures
        r == shift(Direction::East, x),
{
    (x & NOT_H_FILE) << 1
}

pub fn shift_west(x: u64) -> (r: u64)
    ensures
        r == shift(Direction::West, x),
{
    (x & NOT_A_FILE) >> 1
}

pub fn shift_ne(x: u64) -> (r: u64)
    ensures
        r == shift(Direction::NorthEast, x),
{
    (x & NOT_H_FILE) << 9
}

pub fn shift_nw(x: u64) -> (r: u64)
    ensures
        r == shift(Direction::NorthWest, x),
{
    (x & NOT_A_FILE) << 7
}

pub fn shift_se(x: u64) -> (r: u64)
    ensures
        r == shift(Direction::SouthEast, x),
{
    (x & NOT_H_FILE) >> 7
}

pub fn shift_sw(x: u64) -> (r: u64)
    ensures
        r == shift(Direction::SouthWest, x),
{
    (x & NOT_A_FILE) >> 9
}

/// One step of `x` towards `d`.
pub fn step(d: Direction, x: u64) -> (r: u64)
    ensures
        r == shift(d, x),
{
    match d {
        Direction::North => shift_north(x),
        Direction::South => shift_south(x),
        Direction::East => shift_east(x),
        Direction::West => shift_west(x),
        Direction::NorthEast => shift_ne(x),
        Direction::NorthWest => shift_nw(x),
        Direction::SouthEast => shift_se(x),
        Direction::SouthWest => shift_sw(x),
    }
}

} // verus!
