use wordle::Correctness;
use wordle::Correctness::{Correct, Misplaced, Wrong};

#[test]
fn all_green() {
    assert_eq!(
        Correctness::compute("abcde", "abcde"),
        [Correct, Correct, Correct, Correct, Correct]
    );
}

#[test]
fn all_yellow() {
    assert_eq!(
        Correctness::compute("abcde", "ecdba"),
        [Misplaced, Misplaced, Misplaced, Misplaced, Misplaced]
    );
}

#[test]
fn all_gray() {
    assert_eq!(
        Correctness::compute("abcde", "fghij"),
        [Wrong, Wrong, Wrong, Wrong, Wrong]
    );
}

#[test]
fn repeat_green() {
    assert_eq!(
        Correctness::compute("aabbb", "aaccc"),
        [Correct, Correct, Wrong, Wrong, Wrong]
    );
}

#[test]
fn repeat_yellow() {
    assert_eq!(
        Correctness::compute("aabbb", "ccaac"),
        [Wrong, Wrong, Misplaced, Misplaced, Wrong]
    );
}

#[test]
fn repeat_some_green() {
    assert_eq!(
        Correctness::compute("xxyyy", "zxxzz"),
        [Wrong, Correct, Misplaced, Wrong, Wrong]
    );
}

#[test]
fn crane_word() {
    assert_eq!(
        Correctness::compute("crane", "break"),
        [Wrong, Correct, Misplaced, Misplaced, Wrong]
    );
}

#[test]
fn same_inputs_same_mask() {
    let pairs = [
        ("crane", "break"),
        ("aabbb", "ccaac"),
        ("xxyyy", "zxxzz"),
        ("abcde", "ecdba"),
    ];
    for (answer, guess) in pairs {
        let first = Correctness::compute(answer, guess);
        let second = Correctness::compute(answer, guess);
        assert_eq!(first, second);
        let answer_again = String::from(answer);
        let guess_again = String::from(guess);
        assert_eq!(Correctness::compute(&answer_again, &guess_again), first);
    }
}

#[test]
fn answer_against_itself_is_all_correct() {
    for word in ["crane", "aaaaa", "llama", "mamma", "zzzzy"] {
        assert_eq!(Correctness::compute(word, word), [Correct; 5]);
    }
}

#[test]
fn no_common_letter_is_all_wrong() {
    assert_eq!(Correctness::compute("aaaaa", "bbbbb"), [Wrong; 5]);
    assert_eq!(Correctness::compute("crane", "sixty"), [Wrong; 5]);
    assert_eq!(Correctness::compute("mummy", "grass"), [Wrong; 5]);
}

#[test]
fn rearranged_distinct_letters_are_all_misplaced() {
    assert_eq!(Correctness::compute("crane", "ranec"), [Misplaced; 5]);
    assert_eq!(Correctness::compute("abcde", "eabcd"), [Misplaced; 5]);
    assert_eq!(Correctness::compute("abcde", "badec"), [Misplaced; 5]);
}

#[test]
fn rearrangement_with_a_letter_in_place() {
    assert_eq!(
        Correctness::compute("abcde", "abdec"),
        [Correct, Correct, Misplaced, Misplaced, Misplaced]
    );
}

#[test]
fn one_occurrence_serves_the_leftmost_guess_letter() {
    assert_eq!(
        Correctness::compute("bcade", "axaxx"),
        [Wrong, Wrong, Correct, Wrong, Wrong]
    );
    assert_eq!(
        Correctness::compute("bcdea", "aaxxx"),
        [Misplaced, Wrong, Wrong, Wrong, Wrong]
    );
    assert_eq!(
        Correctness::compute("abcaa", "xaaax"),
        [Wrong, Misplaced, Misplaced, Correct, Wrong]
    );
}

#[test]
fn exact_match_takes_precedence_over_earlier_letter() {
    assert_eq!(
        Correctness::compute("xxxax", "axxax"),
        [Wrong, Correct, Correct, Correct, Correct]
    );
    assert_eq!(
        Correctness::compute("abbbb", "caaaa"),
        [Wrong, Misplaced, Wrong, Wrong, Wrong]
    );
}

#[test]
fn letters_are_compared_as_they_are() {
    assert_eq!(
        Correctness::compute("Crane", "crane"),
        [Wrong, Correct, Correct, Correct, Correct]
    );
    assert_eq!(
        Correctness::compute("a1 -_", "_- 1a"),
        [Misplaced, Misplaced, Correct, Misplaced, Misplaced]
    );
}

#[test]
fn letters_beyond_ascii() {
    assert_eq!(
        Correctness::compute("\u{e9}t\u{e9}s\u{df}", "\u{df}\u{e9}\u{e9}xt"),
        [Misplaced, Misplaced, Correct, Wrong, Misplaced]
    );
    assert_eq!(
        Correctness::compute("\u{4e16}\u{754c}abc", "\u{4e16}\u{754c}abc"),
        [Correct; 5]
    );
}
