//! The feedback a guess earns, letter by letter.

use vstd::prelude::*;

verus! {

/// How one letter of a guess relates to the answer.
#[derive(Debug, Clone, Copy, PartialEq, Eq, Structural)]
pub enum Correctness {
    /// The answer has this letter at this position.
    Correct,
    /// The answer has this letter at another position that no other letter
    /// of the guess has claimed.
    Misplaced,
    /// No occurrence of this letter in the answer is left for it.
    Wrong,
}

/// The number of positions below `upto` at which `holder` has `letter` and
/// `other` has a different one.
///
/// With the answer as `holder` these are the occurrences of `letter` that no
/// exact match uses up; with the guess as `holder`, the occurrences that
/// look for a place elsewhere.
pub open spec fn unmatched(holder: Seq<char>, other: Seq<char>, letter: char, upto: int) -> nat
    decreases upto,
{
    if upto <= 0 {
        0
    } else {
        let here: nat = if holder[upto - 1] == letter && other[upto - 1] != letter {
            1
        } else {
            0
        };
        unmatched(holder, other, letter, upto - 1) + here
    }
}

/// The state of position `i` of `guess` against `answer`.
///
/// A letter in its place is `Correct`. Any other letter is `Misplaced` if
/// the answer has more unmatched occurrences of it than the guess has to the
/// left of `i`, and `Wrong` if not: the unmatched occurrences in the answer
/// go to those in the guess, leftmost first, until none is left.
pub open spec fn grade(answer: Seq<char>, guess: Seq<char>, i: int) -> Correctness {
    if guess[i] == answer[i] {
        Correctness::Correct
    } else if unmatched(guess, answer, guess[i], i) < unmatched(
        answer,
        guess,
        guess[i],
        answer.len() as int,
    ) {
        Correctness::Misplaced
    } else {
        Correctness::Wrong
    }
}

/// The mask of `guess` against `answer`: the state of each position in turn.
pub open spec fn feedback(answer: Seq<char>, guess: Seq<char>) -> Seq<Correctness> {
    Seq::new(guess.len(), |i: int| grade(answer, guess, i))
}

impl Correctness {
    /// Computes the mask of `guess` against `answer`.
    ///
    /// Exact matches are found first and use up their position of the
    /// answer. Every other letter of the guess, from left to right, then
    /// takes the leftmost position of the answer that holds the same letter
    /// and is still free.
    pub fn compute(answer: &str, guess: &str) -> (mask: [Correctness; 5])
        requires
            answer@.len() == 5,
            guess@.len() == 5,
        ensures
            mask@ == feedback(answer@, guess@),
    {
        let a = letters(answer);
        let g = letters(guess);
        let mut c = [Correctness::Wrong; 5];
        let mut used = [false; 5];
        for i in 0..5usize
            invariant
                forall|k: int| 0 <= k < i ==> used[k] == (a[k] == g[k]),
                forall|k: int| i <= k < 5 ==> !used[k],
                forall|k: int|
                    0 <= k < i ==> c[k] == if a[k] == g[k] {
                        Correctness::Correct
                    } else {
                        Correctness::Wrong
                    },
                forall|k: int| i <= k < 5 ==> c[k] == Correctness::Wrong,
        {
            if a[i] == g[i] {
                c[i] = Correctness::Correct;
                used[i] = true;
            }
        }
        assert forall|letter: char| #[trigger] taken(used@, a@, g@, letter, 5) == 0 by {
            lemma_taken_none(used@, a@, g@, letter, 5);
        }
        for i in 0..5usize
            invariant
                forall|k: int| 0 <= k < 5 && a[k] == g[k] ==> used[k],
                forall|letter: char| #[trigger]
                    taken(used@, a@, g@, letter, 5) == vstd::math::min(
                        unmatched(g@, a@, letter, i as int) as int,
                        unmatched(a@, g@, letter, 5) as int,
                    ),
                forall|k: int| 0 <= k < i ==> c[k] == grade(a@, g@, k),
                forall|k: int|
                    i <= k < 5 ==> c[k] == if a[k] == g[k] {
                        Correctness::Correct
                    } else {
                        Correctness::Wrong
                    },
        {
            if c[i] != Correctness::Correct {
                let ghost before = used@;
                let place = claim(&a, &mut used, g[i]);
                proof {
                    let wanted = g@[i as int];
                    lemma_taken_at_most(before, a@, g@, wanted, 5);
                    match place {
                        Some(k) => {
                            lemma_taken_after_marking(before, a@, g@, wanted, 5, k as int);
                            lemma_taken_at_most(used@, a@, g@, wanted, 5);
                            assert forall|letter: char| #[trigger]
                                taken(used@, a@, g@, letter, 5) == vstd::math::min(
                                    unmatched(g@, a@, letter, i + 1) as int,
                                    unmatched(a@, g@, letter, 5) as int,
                                ) by {
                                lemma_taken_after_marking(before, a@, g@, letter, 5, k as int);
                                lemma_taken_at_most(used@, a@, g@, letter, 5);
                            }
                        },
                        None => {
                            lemma_taken_all(before, a@, g@, wanted, 5);
                        },
                    }
                }
                if place.is_some() {
                    c[i] = Correctness::Misplaced;
                }
            }
        }
        c
    }
}

/// The five letters of `word`.
fn letters(word: &str) -> (out: [char; 5])
    requires
        word@.len() == 5,
    ensures
        out@ == word@,
{
    [word.get_char(0), word.get_char(1), word.get_char(2), word.get_char(3), word.get_char(4)]
}

/// Marks the leftmost position of `answer` that holds `letter` and is not
/// yet marked in `used`, and returns it; `None`, with `used` as it was, when
/// there is no such position.
fn claim(answer: &[char; 5], used: &mut [bool; 5], letter: char) -> (place: Option<usize>)
    ensures
        match place {
            Some(k) => {
                &&& k < 5
                &&& answer[k as int] == letter
                &&& !old(used)[k as int]
                &&& forall|m: int| 0 <= m < k && answer[m] == letter ==> old(used)[m]
                &&& final(used)@ == old(used)@.update(k as int, true)
            },
            None => {
                &&& forall|m: int| 0 <= m < 5 && answer[m] == letter ==> old(used)[m]
                &&& final(used)@ == old(used)@
            },
        },
{
    let mut k: usize = 0;
    while k < 5
        invariant
            k <= 5,
            used@ == old(used)@,
            forall|m: int| 0 <= m < k && answer[m] == letter ==> old(used)[m],
        decreases 5 - k,
    {
        if answer[k] == letter && !used[k] {
            used[k] = true;
            return Some(k);
        }
        k += 1;
    }
    None
}

/// The number of positions below `upto` that count for
/// `unmatched(answer, guess, letter, upto)` and are marked in `used`.
spec fn taken(used: Seq<bool>, answer: Seq<char>, guess: Seq<char>, letter: char, upto: int) -> nat
    decreases upto,
{
    if upto <= 0 {
        0
    } else {
        let here: nat = if used[upto - 1] && answer[upto - 1] == letter && guess[upto - 1]
            != letter {
            1
        } else {
            0
        };
        taken(used, answer, guess, letter, upto - 1) + here
    }
}

/// Where only exact matches are marked, nothing is taken.
proof fn lemma_taken_none(
    used: Seq<bool>,
    answer: Seq<char>,
    guess: Seq<char>,
    letter: char,
    upto: int,
)
    requires
        forall|k: int| 0 <= k < upto && used[k] ==> answer[k] == guess[k],
    ensures
        taken(used, answer, guess, letter, upto) == 0,
    decreases upto,
{
    if upto > 0 {
        lemma_taken_none(used, answer, guess, letter, upto - 1);
    }
}

/// No more is taken than there is.
proof fn lemma_taken_at_most(
    used: Seq<bool>,
    answer: Seq<char>,
    guess: Seq<char>,
    letter: char,
    upto: int,
)
    ensures
        taken(used, answer, guess, letter, upto) <= unmatched(answer, guess, letter, upto),
    decreases upto,
{
    if upto > 0 {
        lemma_taken_at_most(used, answer, guess, letter, upto - 1);
    }
}

/// Where every position that holds `letter` is marked, all there is is taken.
proof fn lemma_taken_all(
    used: Seq<bool>,
    answer: Seq<char>,
    guess: Seq<char>,
    letter: char,
    upto: int,
)
    requires
        forall|k: int| 0 <= k < upto && answer[k] == letter && guess[k] != letter ==> used[k],
    ensures
        taken(used, answer, guess, letter, upto) == unmatched(answer, guess, letter, upto),
    decreases upto,
{
    if upto > 0 {
        lemma_taken_all(used, answer, guess, letter, upto - 1);
    }
}

/// Marking a free position takes one more of the letter it holds, unless an
/// exact match holds it, and nothing of any other letter.
proof fn lemma_taken_after_marking(
    used: Seq<bool>,
    answer: Seq<char>,
    guess: Seq<char>,
    letter: char,
    upto: int,
    k: int,
)
    requires
        0 <= k < used.len(),
        !used[k],
        upto <= used.len(),
        upto <= answer.len(),
        upto <= guess.len(),
    ensures
        taken(used.update(k, true), answer, guess, letter, upto) == taken(
            used,
            answer,
            guess,
            letter,
            upto,
        ) + if k < upto && answer[k] == letter && guess[k] != letter {
            1nat
        } else {
            0nat
        },
    decreases upto,
{
    if upto > 0 {
        lemma_taken_after_marking(used, answer, guess, letter, upto - 1, k);
    }
}

/// A letter that `holder` lacks has no unmatched occurrence in it.
proof fn lemma_unmatched_absent(holder: Seq<char>, other: Seq<char>, letter: char, upto: int)
    requires
        forall|k: int| 0 <= k < upto ==> holder[k] != letter,
    ensures
        unmatched(holder, other, letter, upto) == 0,
    decreases upto,
{
    if upto > 0 {
        lemma_unmatched_absent(holder, other, letter, upto - 1);
    }
}

/// A position at which `holder` has `letter` and `other` has not is an
/// unmatched occurrence.
proof fn lemma_unmatched_present(
    holder: Seq<char>,
    other: Seq<char>,
    letter: char,
    upto: int,
    k: int,
)
    requires
        0 <= k < upto,
        holder[k] == letter,
        other[k] != letter,
    ensures
        unmatched(holder, other, letter, upto) >= 1,
    decreases upto,
{
    if k < upto - 1 {
        lemma_unmatched_present(holder, other, letter, upto - 1, k);
    }
}

/// A guess that is the answer earns `Correct` at every position.
pub proof fn lemma_answer_is_all_correct(answer: Seq<char>, guess: Seq<char>)
    requires
        guess == answer,
    ensures
        feedback(answer, guess).len() == guess.len(),
        forall|i: int| 0 <= i < guess.len() ==> feedback(answer, guess)[i] == Correctness::Correct,
{
}

/// A guess that has no letter in common with the answer earns `Wrong` at
/// every position.
pub proof fn lemma_no_common_letter_is_all_wrong(answer: Seq<char>, guess: Seq<char>)
    requires
        answer.len() == guess.len(),
        forall|i: int, j: int|
            0 <= i < answer.len() && 0 <= j < guess.len() ==> answer[i] != guess[j],
    ensures
        feedback(answer, guess).len() == guess.len(),
        forall|i: int| 0 <= i < guess.len() ==> feedback(answer, guess)[i] == Correctness::Wrong,
{
    assert forall|i: int| 0 <= i < guess.len() implies feedback(answer, guess)[i]
        == Correctness::Wrong by {
        lemma_unmatched_absent(answer, guess, guess[i], answer.len() as int);
    }
}

/// A guess that rearranges the letters of an answer without repeated
/// letters, and leaves none of them in its place, earns `Misplaced` at every
/// position.
pub proof fn lemma_rearrangement_is_all_misplaced(answer: Seq<char>, guess: Seq<char>)
    requires
        answer.len() == guess.len(),
        answer.no_duplicates(),
        guess.to_multiset() == answer.to_multiset(),
        forall|i: int| 0 <= i < guess.len() ==> guess[i] != answer[i],
    ensures
        feedback(answer, guess).len() == guess.len(),
        forall|i: int|
            0 <= i < guess.len() ==> feedback(answer, guess)[i] == Correctness::Misplaced,
{
    answer.to_multiset_ensures();
    guess.to_multiset_ensures();
    answer.lemma_multiset_has_no_duplicates();
    guess.lemma_multiset_has_no_duplicates_conv();
    assert forall|i: int| 0 <= i < guess.len() implies feedback(answer, guess)[i]
        == Correctness::Misplaced by {
        let letter = guess[i];
        lemma_unmatched_absent(guess, answer, letter, i);
        assert(answer.to_multiset().count(letter) > 0);
        let k = choose|k: int| 0 <= k < answer.len() && answer[k] == letter;
        lemma_unmatched_present(answer, guess, letter, answer.len() as int, k);
    }
}

} // verus!
