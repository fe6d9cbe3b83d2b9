use vstd::prelude::*;
use vstd::string::StrSliceExecFns;
use crate::words::{is_lower_letter, is_valid_guess, valid_word};

verus! {

/// Verdict for one position of a guess.
#[derive(Clone, Copy, Debug, PartialEq, Eq, Structural)]
pub enum LetterState {
    /// The guessed letter matches the secret at the same position.
    Correct,
    /// The guessed letter occurs in the secret elsewhere, and an unconsumed
    /// occurrence of it remains.
    Present,
    /// The guessed letter does not match any unconsumed secret occurrence.
    Absent,
}

/// Slot of a lowercase letter in a per-letter counting table.
spec fn letter_slot_of(c: char) -> int {
    c as u32 - 'a' as u32
}

/// How many of the first `n` secret positions hold `c` without being an
/// exact match, i.e. how many occurrences of `c` the first pass leaves
/// unconsumed for `Present` verdicts.
pub open spec fn misplaced_upto(secret: Seq<char>, guess: Seq<char>, c: char, n: int) -> int
    decreases n,
{
    if n <= 0 {
        0
    } else {
        misplaced_upto(secret, guess, c, n - 1) + (
        if secret[n - 1] == c && guess[n - 1] != secret[n - 1] {
            1int
        } else {
            0int
        })
    }
}

/// All unconsumed occurrences of `c` in the secret.
pub open spec fn misplaced_total(secret: Seq<char>, guess: Seq<char>, c: char) -> int {
    misplaced_upto(secret, guess, c, secret.len() as int)
}

/// How many of the first `n` guess positions hold `c` without being an exact
/// match: the earlier candidates that compete with position `n` for the
/// unconsumed occurrences of `c`.
pub open spec fn pending_upto(secret: Seq<char>, guess: Seq<char>, c: char, n: int) -> int
    decreases n,
{
    if n <= 0 {
        0
    } else {
        pending_upto(secret, guess, c, n - 1) + (
        if guess[n - 1] == c && guess[n - 1] != secret[n - 1] {
            1int
        } else {
            0int
        })
    }
}

/// The verdict the evaluator owes position `i`: `Correct` on an exact match;
/// otherwise `Present` exactly when the earlier non-exact occurrences of the
/// guessed letter have not yet consumed every non-exact occurrence of that
/// letter in the secret (earlier positions win the scarce matches).
pub open spec fn verdict_at(secret: Seq<char>, guess: Seq<char>, i: int) -> LetterState {
    if guess[i] == secret[i] {
        LetterState::Correct
    } else if pending_upto(secret, guess, guess[i], i) < misplaced_total(secret, guess, guess[i]) {
        LetterState::Present
    } else {
        LetterState::Absent
    }
}

proof fn lemma_misplaced_upto_bounds(secret: Seq<char>, guess: Seq<char>, c: char, n: int)
    requires
        n >= 0,
    ensures
        0 <= misplaced_upto(secret, guess, c, n) <= n,
    decreases n,
{
    if n > 0 {
        lemma_misplaced_upto_bounds(secret, guess, c, n - 1);
    }
}

/// The counting table used by both passes: one entry per lowercase letter.
fn letter_table() -> (t: Vec<usize>)
    ensures
        t@.len() == 26,
        forall|k: int| 0 <= k < 26 ==> t@[k] == 0,
{
    let mut t: Vec<usize> = Vec::new();
    let mut k: usize = 0;
    while k < 26
        invariant
            k <= 26,
            t@.len() == k,
            forall|j: int| 0 <= j < k ==> t@[j] == 0,
        decreases 26 - k,
    {
        t.push(0);
        k += 1;
    }
    t
}

/// Table slot of a lowercase letter, as an index.
fn letter_slot(c: char) -> (idx: usize)
    requires
        is_lower_letter(c),
    ensures
        idx == letter_slot_of(c),
        idx < 26,
{
    (c as u32 - 'a' as u32) as usize
}

/// The characters of a string, in order.
fn chars_of(s: &str) -> (r: Vec<char>)
    ensures
        r@ == s@,
{
    let n = s.unicode_len();
    let mut r: Vec<char> = Vec::new();
    let mut i: usize = 0;
    while i < n
        invariant
            n == s@.len(),
            i <= n,
            r@ == s@.subrange(0, i as int),
        decreases n - i,
    {
        r.push(s.get_char(i));
        proof {
            assert(r@ =~= s@.subrange(0, i + 1 as int));
        }
        i += 1;
    }
    proof {
        assert(r@ =~= s@);
    }
    r
}

/// Score `guess` against `secret`, one verdict per position: exact matches
/// first, then, left to right, `Present` while unconsumed occurrences of the
/// guessed letter remain in the secret, `Absent` otherwise.
pub fn evaluate_guess(secret: &str, guess: &str) -> (r: Vec<LetterState>)
    requires
        valid_word(secret@),
        valid_word(guess@),
    ensures
        r@.len() == guess@.len(),
        forall|i: int| 0 <= i < guess@.len() ==> r@[i] == verdict_at(secret@, guess@, i),
{
    let secret_chars = chars_of(secret);
    let guess_chars = chars_of(guess);
    let n = secret_chars.len();

    let mut result: Vec<LetterState> = Vec::new();
    let mut k: usize = 0;
    while k < n
        invariant
            k <= n,
            result@.len() == k,
            forall|j: int| 0 <= j < k ==> result@[j] == LetterState::Absent,
        decreases n - k,
    {
        result.push(LetterState::Absent);
        k += 1;
    }

    let mut remaining = letter_table();

    // First pass: mark exact matches; count every other secret letter as
    // still unconsumed.
    let mut i: usize = 0;
    while i < n
        invariant
            valid_word(secret@),
            valid_word(guess@),
            secret_chars@ == secret@,
            guess_chars@ == guess@,
            n == secret@.len(),
            n == guess@.len(),
            i <= n,
            result@.len() == n,
            forall|j: int| 0 <= j < i ==> result@[j] == (
            if guess@[j] == secret@[j] {
                LetterState::Correct
            } else {
                LetterState::Absent
            }),
            forall|j: int| i <= j < n ==> result@[j] == LetterState::Absent,
            remaining@.len() == 26,
            forall|c: char| is_lower_letter(c) ==> remaining@[letter_slot_of(c)]
                == misplaced_upto(secret@, guess@, c, i as int),
        decreases n - i,
    {
        if guess_chars[i] == secret_chars[i] {
            result[i] = LetterState::Correct;
        } else {
            let idx = letter_slot(secret_chars[i]);
            proof {
                lemma_misplaced_upto_bounds(secret@, guess@, secret@[i as int], i as int);
            }
            remaining[idx] = remaining[idx] + 1;
        }
        i += 1;
    }

    proof {
        assert forall|c: char| is_lower_letter(c) implies 0 <= misplaced_total(
            secret@,
            guess@,
            c,
        ) by {
            lemma_misplaced_upto_bounds(secret@, guess@, c, secret@.len() as int);
        }
    }

    // Second pass: award `Present` while unconsumed occurrences remain,
    // consuming one per verdict.
    let mut i: usize = 0;
    while i < n
        invariant
            valid_word(secret@),
            valid_word(guess@),
            secret_chars@ == secret@,
            guess_chars@ == guess@,
            n == secret@.len(),
            n == guess@.len(),
            i <= n,
            result@.len() == n,
            forall|j: int| 0 <= j < i ==> result@[j] == verdict_at(secret@, guess@, j),
            forall|j: int| i <= j < n ==> result@[j] == (
            if guess@[j] == secret@[j] {
                LetterState::Correct
            } else {
                LetterState::Absent
            }),
            remaining@.len() == 26,
            forall|c: char| is_lower_letter(c) ==> remaining@[letter_slot_of(c)] == (
            if pending_upto(secret@, guess@, c, i as int) < misplaced_total(secret@, guess@, c) {
                misplaced_total(secret@, guess@, c) - pending_upto(secret@, guess@, c, i as int)
            } else {
                0
            }),
        decreases n - i,
    {
        let g = guess_chars[i];
        if !(result[i] == LetterState::Correct) {
            let idx = letter_slot(g);
            if remaining[idx] > 0 {
                result[i] = LetterState::Present;
                remaining[idx] = remaining[idx] - 1;
            } else {
                result[i] = LetterState::Absent;
            }
        }
        i += 1;
    }
    result
}

/// Failure of the fail-fast evaluator: an input is not a word of the game
/// (wrong length, or a character that is not a lowercase ASCII letter).
#[derive(Clone, Copy, Debug, PartialEq, Eq, Structural)]
pub struct InvalidLength;

/// Fail-fast evaluator: scores the guess exactly as `evaluate_guess` does,
/// and returns `InvalidLength` instead of assuming anything of its inputs.
pub fn checked_evaluate_guess(secret: &str, guess: &str) -> (r: Result<
    Vec<LetterState>,
    InvalidLength,
>)
    ensures
        r is Ok <==> valid_word(secret@) && valid_word(guess@),
        r matches Ok(fb) ==> fb@.len() == guess@.len() && forall|i: int|
            0 <= i < guess@.len() ==> fb@[i] == verdict_at(secret@, guess@, i),
{
    if is_valid_guess(secret) && is_valid_guess(guess) {
        Ok(evaluate_guess(secret, guess))
    } else {
        Err(InvalidLength)
    }
}

/// A feedback of `Correct` verdicts at every position.
pub open spec fn all_correct(fb: Seq<LetterState>) -> bool {
    forall|i: int| 0 <= i < fb.len() ==> fb[i] == LetterState::Correct
}

/// Whether a feedback signals a win, i.e. holds `Correct` at every position.
pub fn is_winning_feedback(fb: &Vec<LetterState>) -> (r: bool)
    ensures
        r == all_correct(fb@),
{
    let mut i: usize = 0;
    while i < fb.len()
        invariant
            i <= fb@.len(),
            forall|j: int| 0 <= j < i ==> fb@[j] == LetterState::Correct,
        decreases fb@.len() - i,
    {
        if !(fb[i] == LetterState::Correct) {
            return false;
        }
        i += 1;
    }
    true
}

/// Guessing the secret itself earns a winning feedback: a feedback the
/// evaluator owes for guess equal to secret is `Correct` at every position.
pub proof fn lemma_guess_equals_secret(w: Seq<char>, fb: Seq<LetterState>)
    requires
        fb.len() == w.len(),
        forall|i: int| 0 <= i < w.len() ==> fb[i] == verdict_at(w, w, i),
    ensures
        all_correct(fb),
{
}

/// Occurrences of `c` among the first `n` positions of `w`.
pub open spec fn letter_count_upto(w: Seq<char>, c: char, n: int) -> int
    decreases n,
{
    if n <= 0 {
        0
    } else {
        letter_count_upto(w, c, n - 1) + (
        if w[n - 1] == c {
            1int
        } else {
            0int
        })
    }
}

/// Occurrences of `c` in `w`.
pub open spec fn letter_count(w: Seq<char>, c: char) -> int {
    letter_count_upto(w, c, w.len() as int)
}

/// Positions among the first `n` whose guessed letter is `c` and whose
/// verdict grants it a match (`Correct` or `Present`).
pub open spec fn feedback_score_upto(
    guess: Seq<char>,
    fb: Seq<LetterState>,
    c: char,
    n: int,
) -> int
    decreases n,
{
    if n <= 0 {
        0
    } else {
        feedback_score_upto(guess, fb, c, n - 1) + (
        if guess[n - 1] == c && fb[n - 1] != LetterState::Absent {
            1int
        } else {
            0int
        })
    }
}

/// Positions of the whole feedback whose guessed letter is `c` and whose
/// verdict grants it a match.
pub open spec fn feedback_score(guess: Seq<char>, fb: Seq<LetterState>, c: char) -> int {
    feedback_score_upto(guess, fb, c, guess.len() as int)
}

/// Positions among the first `n` where `c` is guessed and matches exactly.
spec fn correct_upto(secret: Seq<char>, guess: Seq<char>, c: char, n: int) -> int
    decreases n,
{
    if n <= 0 {
        0
    } else {
        correct_upto(secret, guess, c, n - 1) + (
        if guess[n - 1] == c && guess[n - 1] == secret[n - 1] {
            1int
        } else {
            0int
        })
    }
}

proof fn lemma_score_split(
    secret: Seq<char>,
    guess: Seq<char>,
    fb: Seq<LetterState>,
    c: char,
    n: int,
)
    requires
        secret.len() == guess.len(),
        fb.len() == guess.len(),
        forall|i: int| 0 <= i < guess.len() ==> fb[i] == verdict_at(secret, guess, i),
        0 <= n <= guess.len(),
    ensures
        feedback_score_upto(guess, fb, c, n) == correct_upto(secret, guess, c, n)
            + vstd::math::min(pending_upto(secret, guess, c, n), misplaced_total(secret, guess, c)),
    decreases n,
{
    if n > 0 {
        lemma_score_split(secret, guess, fb, c, n - 1);
        assert(fb[n - 1] == verdict_at(secret, guess, n - 1));
    } else {
        lemma_misplaced_upto_bounds(secret, guess, c, secret.len() as int);
    }
}

proof fn lemma_secret_count_split(secret: Seq<char>, guess: Seq<char>, c: char, n: int)
    requires
        secret.len() == guess.len(),
        0 <= n <= secret.len(),
    ensures
        letter_count_upto(secret, c, n) == correct_upto(secret, guess, c, n) + misplaced_upto(
            secret,
            guess,
            c,
            n,
        ),
    decreases n,
{
    if n > 0 {
        lemma_secret_count_split(secret, guess, c, n - 1);
    }
}

proof fn lemma_guess_count_split(secret: Seq<char>, guess: Seq<char>, c: char, n: int)
    requires
        secret.len() == guess.len(),
        0 <= n <= guess.len(),
    ensures
        letter_count_upto(guess, c, n) == correct_upto(secret, guess, c, n) + pending_upto(
            secret,
            guess,
            c,
            n,
        ),
    decreases n,
{
    if n > 0 {
        lemma_guess_count_split(secret, guess, c, n - 1);
    }
}

/// A feedback the evaluator owes grants each letter `Correct` or `Present`
/// exactly min(occurrences in the guess, occurrences in the secret) times;
/// in particular never more often than the letter occurs in the secret.
pub proof fn lemma_feedback_letter_score(
    secret: Seq<char>,
    guess: Seq<char>,
    fb: Seq<LetterState>,
    c: char,
)
    requires
        secret.len() == guess.len(),
        fb.len() == guess.len(),
        forall|i: int| 0 <= i < guess.len() ==> fb[i] == verdict_at(secret, guess, i),
    ensures
        feedback_score(guess, fb, c) == vstd::math::min(
            letter_count(guess, c),
            letter_count(secret, c),
        ),
        feedback_score(guess, fb, c) <= letter_count(secret, c),
{
    let n = guess.len() as int;
    lemma_score_split(secret, guess, fb, c, n);
    lemma_secret_count_split(secret, guess, c, n);
    lemma_guess_count_split(secret, guess, c, n);
}

} // verus!
