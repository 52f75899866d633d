//! A five-letter word-guessing game: the feedback a guess earns against a
//! secret answer, and the game of six rounds that a guessing strategy plays
//! against it.
//!
//! `Correctness::compute` gives the feedback. A `Game` is one game, moved on
//! word by word. `Wordle` holds the dictionary and plays whole games with a
//! `Guesser`.

use vstd::hash_set::StringHashSet;
use vstd::prelude::*;

pub mod algorithms;
pub mod correctness;
pub mod dictionary;
pub mod game;

pub use correctness::Correctness;
pub use game::{Fault, Game, GameView, Guess, GuessView, Phase, MAX_ROUNDS};

verus! {

/// The rules of the game: which words may be proposed.
pub struct Wordle {
    dictionary: Option<StringHashSet>,
}

/// A strategy: it proposes the next word, given the guesses that missed so
/// far.
pub trait Guesser {
    /// Whether this strategy, shown `history`, may propose `word`.
    ///
    /// A strategy that says nothing of itself may propose anything. One that
    /// says more is held to it by `guess`, and a game played with it ends as
    /// some run of words that it may propose ends.
    open spec fn may_propose(&self, history: Seq<GuessView>, word: Seq<char>) -> bool {
        true
    }

    /// Proposes the next word for a game with this history, which is that
    /// of a well formed game that waits for a guess.
    ///
    /// The word is one that the strategy may propose. What it may propose
    /// never widens from one call to the next, so that what holds of the
    /// strategy before a game holds throughout.
    fn guess(&mut self, history: &[Guess]) -> (word: String)
        requires
            game::in_play(game::record(history@)),
        ensures
            old(self).may_propose(game::record(history@), word@),
            forall|shown: Seq<GuessView>, other: Seq<char>| #[trigger]
                final(self).may_propose(shown, other) ==> old(self).may_propose(shown, other),
    ;
}

impl Wordle {
    /// The words of the dictionary; `None` where any word may be proposed.
    pub closed spec fn lexicon(&self) -> Option<Set<Seq<char>>> {
        match self.dictionary {
            Some(set) => Some(set@),
            None => None,
        }
    }

    /// Whether `word` may be proposed: the dictionary holds it, or there is
    /// no dictionary.
    pub open spec fn accepts(&self, word: Seq<char>) -> bool {
        match self.lexicon() {
            Some(words) => words.contains(word),
            None => true,
        }
    }

    /// Whether `word` can be played: it may be proposed and has five letters.
    pub open spec fn admits(&self, word: Seq<char>) -> bool {
        self.accepts(word) && word.len() == 5
    }

    /// Whether `outcome` is how a game for `answer` ends in which `guesser`
    /// proposes `words`, one in each round.
    ///
    /// Each word is one that `guesser` may propose when shown the history of
    /// the words before it. Every word but the last is played and leaves the
    /// game waiting for the next. The last word ends the game: it is turned
    /// down, and `outcome` is the fault that holds it; or it is played, the
    /// game is over, and `outcome` is the round that won it, if any.
    pub open spec fn explains<G: Guesser>(
        &self,
        guesser: G,
        answer: Seq<char>,
        words: Seq<Seq<char>>,
        outcome: Result<Option<usize>, Fault>,
    ) -> bool {
        let begin = GameView::start(answer);
        let before = begin.replay(words.drop_last());
        let last = words.last();
        &&& 1 <= words.len() <= MAX_ROUNDS
        &&& forall|i: int|
            0 <= i < words.len() ==> #[trigger] guesser.may_propose(
                begin.replay(words.take(i)).history,
                words[i],
            )
        &&& forall|i: int| 0 <= i < words.len() - 1 ==> self.admits(#[trigger] words[i])
        &&& before.phase is Playing
        &&& match outcome {
            Ok(round) => {
                &&& self.admits(last)
                &&& !(before.after(last).phase is Playing)
                &&& round == before.after(last).phase.winning_round()
            },
            Err(Fault::NotInDictionary(word)) => !self.accepts(last) && word@ == last,
            Err(Fault::NotFiveLetters(word)) => {
                self.accepts(last) && last.len() != 5 && word@ == last
            },
        }
    }

    /// The rules with the dictionary that `dictionary` lists, one entry per
    /// line; `None` when a line holds no space.
    pub fn try_new(dictionary: &str) -> (made: Option<Wordle>)
        ensures
            made is Some <==> dictionary::well_formed(dictionary@),
            made matches Some(rules) ==> rules.lexicon() == Some(dictionary::words(dictionary@)),
    {
        match dictionary::read(dictionary) {
            Some(set) => Some(Wordle { dictionary: Some(set) }),
            None => None,
        }
    }

    /// The rules with the dictionary that `dictionary` lists, one entry per
    /// line, each line holding a space.
    pub fn new(dictionary: &str) -> (rules: Wordle)
        requires
            dictionary::well_formed(dictionary@),
        ensures
            rules.lexicon() == Some(dictionary::words(dictionary@)),
    {
        Wordle { dictionary: dictionary::read(dictionary) }
    }

    /// The rules without a dictionary: any word may be proposed.
    pub fn unrestricted() -> (rules: Wordle)
        ensures
            rules.lexicon() is None,
    {
        Wordle { dictionary: None }
    }

    /// Tells whether `word` may be proposed.
    pub fn allows(&self, word: &str) -> (yes: bool)
        ensures
            yes == self.accepts(word@),
    {
        match &self.dictionary {
            Some(set) => set.contains(word),
            None => true,
        }
    }

    /// Plays a game for `answer` with a strategy that proposes only words
    /// that can be played: asks `guesser` for a word in each round, until a
    /// word is the answer or the rounds are used up.
    ///
    /// Returns the round, counted from one, in which the answer was
    /// proposed; `None` when it was not proposed within the rounds allowed.
    /// A strategy that does not vouch for its words plays through
    /// `try_play`.
    pub fn play<G: Guesser>(&self, answer: &str, guesser: G) -> (round: Option<usize>)
        requires
            answer@.len() == 5,
            forall|shown: Seq<GuessView>, word: Seq<char>| #[trigger]
                guesser.may_propose(shown, word) ==> self.admits(word),
        ensures
            exists|words: Seq<Seq<char>>| self.explains(guesser, answer@, words, Ok(round)),
    {
        match self.try_play(answer, guesser) {
            Ok(round) => round,
            Err(fault) => {
                proof {
                    let words = choose|words: Seq<Seq<char>>|
                        self.explains(guesser, answer@, words, Err(fault));
                    let last = words.len() - 1;
                    assert(guesser.may_propose(
                        GameView::start(answer@).replay(words.take(last)).history,
                        words[last],
                    ));
                }
                vstd::pervasive::unreached()
            },
        }
    }

    /// Plays a game for `answer` with any strategy: asks `guesser` for a
    /// word in each round, until a word is the answer, the rounds are used
    /// up, or a word cannot be played.
    ///
    /// Returns the round, counted from one, in which the answer was
    /// proposed; `None` when it was not proposed within the rounds allowed;
    /// the fault when a word was turned down.
    pub fn try_play<G: Guesser>(&self, answer: &str, guesser: G) -> (outcome: Result<
        Option<usize>,
        Fault,
    >)
        requires
            answer@.len() == 5,
        ensures
            exists|words: Seq<Seq<char>>| self.explains(guesser, answer@, words, outcome),
    {
        let ghost begin = GameView::start(answer@);
        let ghost mut words: Seq<Seq<char>> = Seq::empty();
        let mut solver = guesser;
        let mut game = Game::new(self, answer);
        loop
            invariant
                game.wf(),
                game.rules() == *self,
                game@ == begin.replay(words),
                game@.phase is Playing,
                begin == GameView::start(answer@),
                words.len() == game@.history.len(),
                forall|i: int|
                    0 <= i < words.len() ==> #[trigger] guesser.may_propose(
                        begin.replay(words.take(i)).history,
                        words[i],
                    ),
                forall|i: int| 0 <= i < words.len() ==> self.admits(#[trigger] words[i]),
                forall|shown: Seq<GuessView>, other: Seq<char>| #[trigger]
                    solver.may_propose(shown, other) ==> guesser.may_propose(shown, other),
            decreases MAX_ROUNDS - game@.history.len(),
        {
            let word = solver.guess(game.history());
            let ghost so_far = words;
            proof {
                words = so_far.push(word@);
                assert(words.take(so_far.len() as int) =~= so_far);
                assert forall|i: int| 0 <= i < words.len() implies #[trigger] guesser.may_propose(
                    begin.replay(words.take(i)).history,
                    words[i],
                ) by {
                    if i < so_far.len() {
                        assert(words.take(i) =~= so_far.take(i));
                    }
                }
            }
            let outcome = match game.submit(word) {
                Ok(Phase::Playing(_)) => {
                    continue ;
                },
                Ok(Phase::Won(round)) => Ok(Some(round)),
                Ok(Phase::Lost) => Ok(None),
                Err(fault) => Err(fault),
            };
            proof {
                assert(self.explains(guesser, answer@, words, outcome));
            }
            return outcome;
        }
    }
}

/// A strategy that proposes nothing but the answer, where the answer can be
/// played, wins in the first round.
pub proof fn lemma_always_right_wins_at_once<G: Guesser>(
    rules: Wordle,
    guesser: G,
    answer: Seq<char>,
    words: Seq<Seq<char>>,
    outcome: Result<Option<usize>, Fault>,
)
    requires
        rules.admits(answer),
        forall|shown: Seq<GuessView>, word: Seq<char>| #[trigger]
            guesser.may_propose(shown, word) ==> word == answer,
        rules.explains(guesser, answer, words, outcome),
    ensures
        outcome == Ok::<Option<usize>, Fault>(Some(1)),
        words.len() == 1,
{
    lemma_first_hit_decides(rules, guesser, answer, 1, words, outcome);
}

/// A strategy that proposes the answer when it is asked for the `round`-th
/// time, within the budget, and before that words that can be played and
/// are not the answer, wins in that round, with one entry in the history
/// for each earlier round.
pub proof fn lemma_first_hit_decides<G: Guesser>(
    rules: Wordle,
    guesser: G,
    answer: Seq<char>,
    round: int,
    words: Seq<Seq<char>>,
    outcome: Result<Option<usize>, Fault>,
)
    requires
        1 <= round <= MAX_ROUNDS,
        forall|shown: Seq<GuessView>, word: Seq<char>| #[trigger]
            guesser.may_propose(shown, word) ==> {
                &&& rules.admits(word)
                &&& shown.len() < round - 1 ==> word != answer
                &&& shown.len() == round - 1 ==> word == answer
            },
        rules.explains(guesser, answer, words, outcome),
    ensures
        outcome == Ok::<Option<usize>, Fault>(Some(round as usize)),
        words.len() == round,
        GameView::start(answer).replay(words).history.len() == round - 1,
{
    let begin = GameView::start(answer);
    let earlier = words.drop_last();
    let count = earlier.len() as int;
    game::lemma_in_play_all_along(answer, earlier, count);
    assert(earlier.take(count) =~= earlier);
    assert(guesser.may_propose(begin.replay(words.take(count)).history, words[count]));
    if count > round - 1 {
        game::lemma_in_play_all_along(answer, earlier, round - 1);
        assert(words.take(round - 1) =~= earlier.take(round - 1));
        assert(guesser.may_propose(begin.replay(words.take(round - 1)).history, words[round - 1]));
    }
}

/// A strategy that proposes words that can be played and never the answer
/// loses: the game ends with the last round of the budget, without a winning
/// round and with one entry in the history for each round.
pub proof fn lemma_all_misses_lose<G: Guesser>(
    rules: Wordle,
    guesser: G,
    answer: Seq<char>,
    words: Seq<Seq<char>>,
    outcome: Result<Option<usize>, Fault>,
)
    requires
        forall|shown: Seq<GuessView>, word: Seq<char>| #[trigger]
            guesser.may_propose(shown, word) ==> rules.admits(word) && word != answer,
        rules.explains(guesser, answer, words, outcome),
    ensures
        outcome == Ok::<Option<usize>, Fault>(None),
        words.len() == MAX_ROUNDS,
        GameView::start(answer).replay(words).phase == Phase::Lost,
        GameView::start(answer).replay(words).history.len() == MAX_ROUNDS,
{
    let begin = GameView::start(answer);
    let earlier = words.drop_last();
    let count = earlier.len() as int;
    game::lemma_in_play_all_along(answer, earlier, count);
    assert(earlier.take(count) =~= earlier);
    assert(guesser.may_propose(begin.replay(words.take(count)).history, words[count]));
}

} // verus!
