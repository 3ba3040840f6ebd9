//! The 26 capital letters that fill the grid.

use vstd::prelude::*;

verus! {

/// Whether `c` is one of the letters `A` to `Z`.
pub open spec fn is_capital(c: char) -> bool {
    'A' <= c && c <= 'Z'
}

/// The `index`-th letter of the alphabet, counted from `A` at 0.
pub open spec fn nth_capital(index: int) -> char {
    (('A' as int) + index) as char
}

/// Each of the 26 indices names a capital letter.
pub proof fn lemma_nth_capital(index: int)
    requires
        0 <= index < 26,
    ensures
        is_capital(nth_capital(index)),
        nth_capital(index) as int == 'A' as int + index,
{
}

/// The letter that a draw below 26 stands for.
pub fn capital(index: usize) -> (c: char)
    requires
        index < 26,
    ensures
        c == nth_capital(index as int),
        is_capital(c),
{
    let offset: u8 = index as u8;
    let code: u8 = 65u8 + offset;
    proof {
        lemma_nth_capital(index as int);
    }
    code as char
}

} // verus!
