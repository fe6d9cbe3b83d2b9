use wordguess::score::{
    checked_evaluate_guess, evaluate_guess, is_winning_feedback, InvalidLength, LetterState,
};
use wordguess::words::is_valid_guess;

#[test]
fn test_evaluate_guess() {
    let secret = "apple";
    let guess = "apric";
    let feedback = evaluate_guess(secret, guess);
    assert_eq!(
        feedback,
        vec![
            LetterState::Correct,
            LetterState::Correct,
            LetterState::Absent,
            LetterState::Absent,
            LetterState::Absent,
        ]
    );

    let guess2 = "peach";
    let feedback2 = evaluate_guess(secret, guess2);
    assert_eq!(
        feedback2,
        vec![
            LetterState::Present,
            LetterState::Present,
            LetterState::Present,
            LetterState::Absent,
            LetterState::Absent,
        ]
    );

    let guess3 = "apple";
    let feedback3 = evaluate_guess(secret, guess3);
    assert_eq!(
        feedback3,
        vec![
            LetterState::Correct,
            LetterState::Correct,
            LetterState::Correct,
            LetterState::Correct,
            LetterState::Correct,
        ]
    );
}

#[test]
fn test_is_valid_guess() {
    assert!(is_valid_guess("apple"));
    assert!(!is_valid_guess("appl")); // too short
    assert!(!is_valid_guess("apples")); // too long
    assert!(!is_valid_guess("AppLe")); // uppercase letters
    assert!(!is_valid_guess("appl3")); // non-letter character
}

#[test]
fn test_is_valid_guess_edges() {
    assert!(!is_valid_guess(""));
    assert!(!is_valid_guess("app l"));
    assert!(!is_valid_guess("äpfel"));
    assert!(is_valid_guess("zzzzz"));
}

#[test]
fn test_duplicate_letters_consumed() {
    // Only one `a` in the secret, and the exact match at position 0 consumes
    // it, so no occurrence remains for a `Present` elsewhere.
    let feedback = evaluate_guess("apple", "aaaaa");
    assert_eq!(
        feedback,
        vec![
            LetterState::Correct,
            LetterState::Absent,
            LetterState::Absent,
            LetterState::Absent,
            LetterState::Absent,
        ]
    );
}

#[test]
fn test_earlier_position_wins_scarce_match() {
    // One unconsumed `l` in the secret; the first misplaced `l` of the guess
    // takes it, the second goes away empty.
    let feedback = evaluate_guess("apple", "llama");
    assert_eq!(
        feedback,
        vec![
            LetterState::Present,
            LetterState::Absent,
            LetterState::Present,
            LetterState::Absent,
            LetterState::Absent,
        ]
    );
}

#[test]
fn test_self_guess_wins() {
    let feedback = evaluate_guess("crane", "crane");
    assert!(feedback.iter().all(|&s| s == LetterState::Correct));
    assert!(is_winning_feedback(&feedback));
}

#[test]
fn test_mixed_feedback_is_not_winning() {
    let feedback = evaluate_guess("apple", "peach");
    assert!(!is_winning_feedback(&feedback));
}

fn count_letter(word: &str, letter: char) -> usize {
    word.chars().filter(|&c| c == letter).count()
}

fn count_scored(guess: &str, feedback: &[LetterState], letter: char) -> usize {
    guess
        .chars()
        .zip(feedback.iter())
        .filter(|&(c, &s)| c == letter && s != LetterState::Absent)
        .count()
}

#[test]
fn test_letter_score_never_exceeds_secret_count() {
    let pairs = [
        ("apple", "aaaaa"),
        ("apple", "peach"),
        ("apple", "llama"),
        ("abbey", "babes"),
        ("crane", "eerie"),
    ];
    for (secret, guess) in pairs {
        let feedback = evaluate_guess(secret, guess);
        for letter in 'a'..='z' {
            let scored = count_scored(guess, &feedback, letter);
            let in_secret = count_letter(secret, letter);
            let in_guess = count_letter(guess, letter);
            assert!(scored <= in_secret);
            assert_eq!(scored, in_guess.min(in_secret));
        }
    }
}

#[test]
fn test_checked_evaluate_guess() {
    assert_eq!(
        checked_evaluate_guess("apple", "apric"),
        Ok(evaluate_guess("apple", "apric"))
    );
    assert_eq!(checked_evaluate_guess("apple", "appl"), Err(InvalidLength));
    assert_eq!(checked_evaluate_guess("appl", "apple"), Err(InvalidLength));
    assert_eq!(checked_evaluate_guess("apple", "appl3"), Err(InvalidLength));
}

#[test]
fn test_feedback_length_matches_guess() {
    for (secret, guess) in [("apple", "apric"), ("crane", "zzzzz"), ("abbey", "babes")] {
        let feedback = evaluate_guess(secret, guess);
        assert_eq!(feedback.len(), guess.len());
    }
}
