//! Algebraic names of squares: a file letter `a`..`h` then a rank digit `1`..`8`.
use crate::position::is_square;
use vstd::prelude::*;
use vstd::std_specs::bits::{axiom_u64_trailing_zeros, u64_trailing_zeros};
use vstd::string::*;

verus! {

/// The letter of file `f`, from `a` for 0 to `h` for 7.
pub open spec fn file_letter(f: int) -> char {
    ((97 + f) as u8) as char
}

/// The digit of rank `r`, from `1` for 0 to `8` for 7.
pub open spec fn rank_digit(r: int) -> char {
    ((49 + r) as u8) as char
}

/// Two-character name of the square with bit index `i`.
pub open spec fn square_name(i: int) -> Seq<char> {
    seq![file_letter(i % 8), rank_digit(i / 8)]
}

/// The file named by a letter, either case.
pub open spec fn file_of(c: char) -> Option<int> {
    let v = c as u32;
    if 97 <= v <= 104 {
        Some(v - 97)
    } else if 65 <= v <= 72 {
        Some(v - 65)
    } else {
        None
    }
}

/// The rank named by a digit `1`..`8`.
pub open spec fn rank_of(c: char) -> Option<int> {
    let v = c as u32;
    if 49 <= v <= 56 {
        Some(v - 49)
    } else {
        None
    }
}

/// The single-square mask named by `s`, if `s` is a square's name.
pub open spec fn parse_square(s: Seq<char>) -> Option<u64> {
    if s.len() == 2 && file_of(s[0]) is Some && rank_of(s[1]) is Some {
        Some(1u64 << ((rank_of(s[1])->0 * 8 + file_of(s[0])->0) as u64))
    } else {
        None
    }
}

/// Bit index of the lowest square of `m`.
pub open spec fn square_index(m: u64) -> int {
    u64_trailing_zeros(m) as int
}

/// A single-square mask is the bit at its own index.
pub proof fn lemma_square_index(m: u64)
    requires
        is_square(m),
    ensures
        0 <= square_index(m) < 64,
        m == 1u64 << (square_index(m) as u64),
{
    axiom_u64_trailing_zeros(m);
    let t = u64_trailing_zeros(m) as u64;
    assert(m == 1u64 << t) by (bit_vector)
        requires
            m != 0,
            m & ((m - 1) as u64) == 0,
            t < 64,
            (m >> t) & 1u64 == 1u64,
    ;
}

/// Relies on `String::push`: appends one character to the end of the string.
#[verifier::external_body]
fn push_char(s: &mut String, c: char)
    ensures
        final(s)@ == old(s)@.push(c),
{
    s.push(c);
}

/// The name of the square in `move_bit`, or `None` unless exactly one bit is set.
pub fn move_to_algebraic(move_bit: u64) -> (r: Option<String>)
    ensures
        r is Some <==> is_square(move_bit),
        r is Some ==> r->Some_0@ == square_name(square_index(move_bit)),
{
    if move_bit == 0 || (move_bit & (move_bit - 1)) != 0 {
        return None;
    }
    proof {
        lemma_square_index(move_bit);
    }
    let pos = move_bit.trailing_zeros();
    let file: u8 = (pos % 8) as u8 + 97;
    let rank: u8 = (pos / 8) as u8 + 49;
    let mut name = String::new();
    push_char(&mut name, file as char);
    push_char(&mut name, rank as char);
    proof {
        assert(name@ =~= square_name(square_index(move_bit)));
    }
    Some(name)
}

/// The single-square mask named by `move_notation` (file letter in either
/// case, then rank digit); an error for any other text.
pub fn move_to_bitmap(move_notation: &str) -> (r: Result<u64, &'static str>)
    ensures
        r is Ok <==> parse_square(move_notation@) is Some,
        r is Ok ==> r->Ok_0 == parse_square(move_notation@)->0,
        r is Err ==> r->Err_0@ == "Invalid move notation"@,
{
    if move_notation.unicode_len() != 2 {
        return Err("Invalid move notation");
    }
    let f = move_notation.get_char(0) as u32;
    let k = move_notation.get_char(1) as u32;
    let file: u32 = if 97 <= f && f <= 104 {
        f - 97
    } else if 65 <= f && f <= 72 {
        f - 65
    } else {
        return Err("Invalid move notation");
    };
    if k < 49 || k > 56 {
        return Err("Invalid move notation");
    }
    let rank: u32 = k - 49;
    let move_pos = (rank * 8 + file) as u64;
    Ok(1u64 << move_pos)
}

/// Reading back the name of a single-square mask gives the mask again.
pub proof fn lemma_notation_round_trip(m: u64)
    requires
        is_square(m),
    ensures
        parse_square(square_name(square_index(m))) == Some(m),
{
    lemma_square_index(m);
    let i = square_index(m);
    let f = i % 8;
    let k = i / 8;
    assert(0 <= f < 8 && 0 <= k < 8 && k * 8 + f == i);
    assert(file_of(file_letter(f)) == Some(f));
    assert(rank_of(rank_digit(k)) == Some(k));
}

} // verus!
