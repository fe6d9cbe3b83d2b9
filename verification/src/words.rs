use vstd::prelude::*;
use vstd::string::StrSliceExecFns;

verus! {

/// Number of letters in every secret word and in every guess.
pub const WORD_LENGTH: usize = 5;

/// A lowercase ASCII letter, the only kind of character a word may hold.
pub open spec fn is_lower_letter(c: char) -> bool {
    'a' <= c && c <= 'z'
}

/// A word of the game: exactly `WORD_LENGTH` lowercase ASCII letters.
pub open spec fn valid_word(s: Seq<char>) -> bool {
    &&& s.len() == WORD_LENGTH
    &&& forall|i: int| 0 <= i < s.len() ==> is_lower_letter(#[trigger] s[i])
}

/// Accepts exactly the strings that may be played as a guess: the right
/// length, all lowercase ASCII letters.
pub fn is_valid_guess(guess: &str) -> (r: bool)
    ensures
        r == valid_word(guess@),
{
    let n = guess.unicode_len();
    if n != WORD_LENGTH {
        return false;
    }
    let mut i: usize = 0;
    while i < n
        invariant
            n == guess@.len(),
            n == WORD_LENGTH,
            i <= n,
            forall|j: int| 0 <= j < i ==> is_lower_letter(#[trigger] guess@[j]),
        decreases n - i,
    {
        let c = guess.get_char(i);
        if c < 'a' || c > 'z' {
            return false;
        }
        i += 1;
    }
    true
}

} // verus!
