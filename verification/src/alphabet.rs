//! The symbols that a fresh glyph is drawn from.

use vstd::prelude::*;

verus! {

/// The symbols: the lower-case letters, the digits from 1 to 9 and thirteen
/// punctuation marks.
pub const DICT: &'static str = "abcdefghijklmnopqrstuvwxyz123456789:.-!<>?/\\+=\"*";

/// How many symbols there are.
pub const DICT_LEN: usize = 48;

/// The symbols, in the order in which `symbol` counts them.
pub open spec fn symbols() -> Seq<char> {
    DICT@
}

/// The symbol at place `i`, counted from nought.
pub open spec fn symbol_at(i: int) -> char {
    symbols()[i]
}

/// Whether `c` is one of the symbols.
pub open spec fn is_symbol(c: char) -> bool {
    exists|i: int| 0 <= i < DICT_LEN && symbol_at(i) == c
}

/// There are exactly `DICT_LEN` symbols.
pub proof fn lemma_symbol_count()
    ensures
        symbols().len() == DICT_LEN,
{
    reveal_strlit("abcdefghijklmnopqrstuvwxyz123456789:.-!<>?/\\+=\"*");
}

/// The symbol at place `i`.
pub fn symbol(i: usize) -> (c: char)
    requires
        i < DICT_LEN,
    ensures
        c == symbol_at(i as int),
        is_symbol(c),
{
    proof {
        lemma_symbol_count();
    }
    DICT.get_char(i)
}

} // verus!
