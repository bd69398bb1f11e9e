//! Small standalone exercises: a constant, a word splitter, and a few
//! game-flavoured stubs kept for their callers.

use vstd::prelude::*;

verus! {

/// Returns the number five.
pub fn five() -> (r: i32)
    ensures
        r == 5,
{
    5
}

/// Puts a fancy hat on the player. Nothing observable happens.
pub fn add_fancy_hat() {
}

/// Takes the fancy hat off again. Nothing observable happens.
pub fn remove_fancy_hat() {
}

/// Moves the player by the given number of spaces. Nothing observable happens.
pub fn move_player(num_spaces: u8) {
}

/// Returns the first word of `s`: the longest prefix that holds no space.
/// When `s` has no space at all, the whole of `s` is returned.
pub fn first_word(s: &str) -> (r: &str)
    ensures
        r@.len() <= s@.len(),
        r@ == s@.subrange(0, r@.len() as int),
        forall|j: int| 0 <= j < r@.len() ==> s@[j] != ' ',
        r@.len() < s@.len() ==> s@[r@.len() as int] == ' ',
{
    let n = s.unicode_len();
    let mut i: usize = 0;
    while i < n
        invariant
            i <= n,
            n == s@.len(),
            forall|j: int| 0 <= j < i ==> s@[j] != ' ',
        decreases n - i,
    {
        if s.get_char(i) == ' ' {
            return s.substring_char(0, i);
        }
        i += 1;
    }
    proof {
        assert(s@.subrange(0, s@.len() as int) =~= s@);
    }
    s
}

} // verus!
