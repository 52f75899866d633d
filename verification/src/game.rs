//! One game: the answer, the guesses that missed it, and how far the game
//! has come within its budget of rounds.

use crate::correctness::{feedback, Correctness};
use crate::Wordle;
use vstd::prelude::*;

verus! {

/// The number of guesses a game allows.
pub const MAX_ROUNDS: usize = 6;

/// A guess that missed the answer, with the mask it earned.
pub struct Guess {
    pub word: String,
    pub mask: [Correctness; 5],
}

/// What a `Guess` stands for: the letters of the word and the states of the
/// mask.
pub struct GuessView {
    pub word: Seq<char>,
    pub mask: Seq<Correctness>,
}

impl View for Guess {
    type V = GuessView;

    open spec fn view(&self) -> GuessView {
        GuessView { word: self.word@, mask: self.mask@ }
    }
}

/// What the entries of a history stand for, in order.
pub open spec fn record(history: Seq<Guess>) -> Seq<GuessView> {
    Seq::new(history.len(), |i: int| history[i]@)
}

/// Where a game stands.
#[derive(Debug, Clone, Copy, PartialEq, Eq, Structural)]
pub enum Phase {
    /// The game waits for a guess; so many rounds have been played.
    Playing(usize),
    /// The guess of this round, counted from one, was the answer.
    Won(usize),
    /// Every round has been played and none was the answer.
    Lost,
}

impl Phase {
    /// The round in which the game was won, if it was.
    pub open spec fn winning_round(self) -> Option<usize> {
        match self {
            Phase::Won(round) => Some(round),
            _ => None,
        }
    }
}

/// Why a proposed word was turned down. It holds the word.
#[derive(Debug, PartialEq, Eq)]
pub enum Fault {
    /// The dictionary does not hold the word.
    NotInDictionary(String),
    /// The dictionary holds the word, or there is none, and the word does
    /// not have five letters.
    NotFiveLetters(String),
}

/// What a `Game` stands for.
pub struct GameView {
    pub answer: Seq<char>,
    pub history: Seq<GuessView>,
    pub phase: Phase,
}

impl GameView {
    /// A game for `answer` before the first guess.
    pub open spec fn start(answer: Seq<char>) -> GameView {
        GameView { answer, history: Seq::empty(), phase: Phase::Playing(0) }
    }

    /// The game after `word` was played.
    ///
    /// While the game waits for a guess, the answer wins it in the round
    /// that begins; any other word is recorded with its mask and uses up the
    /// round, the last of which loses the game. A game that is over stays as
    /// it is.
    pub open spec fn after(self, word: Seq<char>) -> GameView {
        match self.phase {
            Phase::Playing(round) => if word == self.answer {
                GameView { phase: Phase::Won((round + 1) as usize), ..self }
            } else {
                GameView {
                    history: self.history.push(
                        GuessView { word, mask: feedback(self.answer, word) },
                    ),
                    phase: if round + 1 < MAX_ROUNDS {
                        Phase::Playing((round + 1) as usize)
                    } else {
                        Phase::Lost
                    },
                    ..self
                }
            },
            _ => self,
        }
    }

    /// The game after each of `words` was played in turn.
    pub open spec fn replay(self, words: Seq<Seq<char>>) -> GameView
        decreases words.len(),
    {
        if words.len() == 0 {
            self
        } else {
            self.replay(words.drop_last()).after(words.last())
        }
    }

    /// The number of guesses the game has taken.
    pub open spec fn rounds(self) -> nat {
        match self.phase {
            Phase::Won(_) => self.history.len() + 1,
            _ => self.history.len(),
        }
    }

    /// What holds of every game: the answer has five letters; each entry of
    /// the history is a five-letter word other than the answer, with the
    /// mask it earns; and the phase agrees with the length of the history,
    /// which stays within the budget.
    pub open spec fn wf(self) -> bool {
        &&& self.answer.len() == 5
        &&& forall|i: int|
            0 <= i < self.history.len() ==> {
                let entry = #[trigger] self.history[i];
                &&& entry.word.len() == 5
                &&& entry.word != self.answer
                &&& entry.mask == feedback(self.answer, entry.word)
            }
        &&& match self.phase {
            Phase::Playing(round) => round == self.history.len() && round < MAX_ROUNDS,
            Phase::Won(round) => round == self.history.len() + 1 && round <= MAX_ROUNDS,
            Phase::Lost => self.history.len() == MAX_ROUNDS,
        }
    }
}

/// Whether `history` is what a strategy can be shown: the history of a well
/// formed game that waits for a guess.
pub open spec fn in_play(history: Seq<GuessView>) -> bool {
    exists|game: GameView| #[trigger] game.wf() && game.phase is Playing && game.history == history
}

/// A game in progress, under the rules of a `Wordle`.
pub struct Game<'a> {
    rules: &'a Wordle,
    answer: String,
    history: Vec<Guess>,
    phase: Phase,
}

impl<'a> View for Game<'a> {
    type V = GameView;

    closed spec fn view(&self) -> GameView {
        GameView { answer: self.answer@, history: record(self.history@), phase: self.phase }
    }
}

impl<'a> Game<'a> {
    /// The rules the game is played under.
    pub closed spec fn rules(&self) -> Wordle {
        *self.rules
    }

    /// The game is well formed, and the rules accept every word of its
    /// history.
    pub open spec fn wf(&self) -> bool {
        &&& self@.wf()
        &&& forall|i: int|
            0 <= i < self@.history.len() ==> self.rules().accepts(
                (#[trigger] self@.history[i]).word,
            )
    }

    /// Starts a game for `answer`.
    pub fn new(rules: &'a Wordle, answer: &str) -> (game: Game<'a>)
        requires
            answer@.len() == 5,
        ensures
            game.wf(),
            game.rules() == *rules,
            game@ == GameView::start(answer@),
    {
        let game = Game {
            rules,
            answer: answer.to_owned(),
            history: Vec::new(),
            phase: Phase::Playing(0),
        };
        assert(game@.history =~= Seq::empty());
        game
    }

    /// Where the game stands.
    pub fn phase(&self) -> (phase: Phase)
        ensures
            phase == self@.phase,
    {
        self.phase
    }

    /// The guesses that missed the answer so far, oldest first.
    pub fn history(&self) -> (history: &[Guess])
        ensures
            record(history@) == self@.history,
    {
        self.history.as_slice()
    }

    /// Plays `word`.
    ///
    /// A word that the dictionary lacks, or one that does not have five
    /// letters, is handed back and the game stays as it was. Any other word
    /// is played: the game moves on as `GameView::after` says, and the phase
    /// it is in then is returned.
    pub fn submit(&mut self, word: String) -> (outcome: Result<Phase, Fault>)
        requires
            old(self).wf(),
        ensures
            final(self).wf(),
            final(self).rules() == old(self).rules(),
            match outcome {
                Ok(phase) => {
                    &&& old(self).rules().admits(word@)
                    &&& final(self)@ == old(self)@.after(word@)
                    &&& phase == final(self)@.phase
                },
                Err(Fault::NotInDictionary(given)) => {
                    &&& !old(self).rules().accepts(word@)
                    &&& given@ == word@
                    &&& final(self)@ == old(self)@
                },
                Err(Fault::NotFiveLetters(given)) => {
                    &&& old(self).rules().accepts(word@)
                    &&& word@.len() != 5
                    &&& given@ == word@
                    &&& final(self)@ == old(self)@
                },
            },
    {
        if !self.rules.allows(word.as_str()) {
            return Err(Fault::NotInDictionary(word));
        }
        if word.as_str().unicode_len() != 5 {
            return Err(Fault::NotFiveLetters(word));
        }
        if let Phase::Playing(round) = self.phase {
            if word == self.answer {
                self.phase = Phase::Won(round + 1);
            } else {
                let ghost before = self@;
                let mask = Correctness::compute(self.answer.as_str(), word.as_str());
                self.history.push(Guess { word, mask });
                self.phase = if round + 1 < MAX_ROUNDS {
                    Phase::Playing(round + 1)
                } else {
                    Phase::Lost
                };
                assert(self@.history =~= before.history.push(
                    GuessView { word: word@, mask: feedback(before.answer, word@) },
                ));
            }
        }
        Ok(self.phase)
    }
}

/// When the word played in round `round`, within the budget, is the first to
/// be the answer, the game is won in that round, and the history holds the
/// words played before it, each with its mask. Words that follow change
/// nothing.
pub proof fn lemma_first_hit_wins(answer: Seq<char>, words: Seq<Seq<char>>, round: int)
    requires
        1 <= round <= MAX_ROUNDS,
        round <= words.len(),
        words[round - 1] == answer,
        forall|j: int| 0 <= j < round - 1 ==> words[j] != answer,
    ensures
        ({
            let game = GameView::start(answer).replay(words);
            &&& game.phase == Phase::Won(round as usize)
            &&& game.history.len() == round - 1
            &&& forall|j: int|
                0 <= j < round - 1 ==> game.history[j] == GuessView {
                    word: words[j],
                    mask: feedback(answer, words[j]),
                }
        }),
{
    lemma_misses(answer, words, round - 1);
    assert(words.take(round).drop_last() =~= words.take(round - 1));
    lemma_over_stays(GameView::start(answer), words, round);
}

/// When no word played within the budget is the answer, the game is lost
/// with the last round, and the history holds one entry for each round.
/// Words that follow change nothing.
pub proof fn lemma_six_misses_lose(answer: Seq<char>, words: Seq<Seq<char>>)
    requires
        words.len() >= MAX_ROUNDS,
        forall|j: int| 0 <= j < MAX_ROUNDS ==> words[j] != answer,
    ensures
        ({
            let game = GameView::start(answer).replay(words);
            &&& game.phase == Phase::Lost
            &&& game.phase.winning_round() is None
            &&& game.history.len() == MAX_ROUNDS
            &&& forall|j: int|
                0 <= j < MAX_ROUNDS ==> game.history[j] == GuessView {
                    word: words[j],
                    mask: feedback(answer, words[j]),
                }
        }),
{
    lemma_misses(answer, words, MAX_ROUNDS as int);
    lemma_over_stays(GameView::start(answer), words, MAX_ROUNDS as int);
}

/// The budget is hard: whatever is played, and however often, a game takes
/// no more guesses than were played and no more than the budget; it is over
/// once the budget is used up, and what is played after that changes
/// nothing.
pub proof fn lemma_budget_is_hard(answer: Seq<char>, words: Seq<Seq<char>>)
    ensures
        ({
            let game = GameView::start(answer).replay(words);
            &&& game.rounds() <= MAX_ROUNDS
            &&& game.rounds() <= words.len()
            &&& game.phase is Playing ==> game.rounds() == words.len()
            &&& words.len() >= MAX_ROUNDS ==> {
                &&& !(game.phase is Playing)
                &&& game == GameView::start(answer).replay(words.take(MAX_ROUNDS as int))
            }
        }),
    decreases words.len(),
{
    if words.len() > 0 {
        lemma_budget_is_hard(answer, words.drop_last());
        lemma_replay_keeps_step(answer, words.drop_last());
        if words.len() > MAX_ROUNDS {
            assert(words.drop_last().take(MAX_ROUNDS as int) =~= words.take(MAX_ROUNDS as int));
        } else if words.len() == MAX_ROUNDS {
            assert(words.take(MAX_ROUNDS as int) =~= words);
        }
    }
}

/// While a game replayed from the start waits for a guess, every word so
/// far was a miss: each earlier game waited too, with one entry for each
/// word before it.
pub proof fn lemma_in_play_all_along(answer: Seq<char>, words: Seq<Seq<char>>, count: int)
    requires
        GameView::start(answer).replay(words).phase is Playing,
        0 <= count <= words.len(),
    ensures
        ({
            let game = GameView::start(answer).replay(words.take(count));
            &&& game.answer == answer
            &&& game.phase == Phase::Playing(count as usize)
            &&& game.history.len() == count
            &&& count < MAX_ROUNDS
            &&& count < words.len() ==> words[count] != answer
        }),
{
    let begin = GameView::start(answer);
    if !(begin.replay(words.take(count)).phase is Playing) {
        lemma_over_stays(begin, words, count);
    }
    lemma_budget_is_hard(answer, words.take(count));
    lemma_replay_keeps_step(answer, words.take(count));
    if count < words.len() {
        if !(begin.replay(words.take(count + 1)).phase is Playing) {
            lemma_over_stays(begin, words, count + 1);
        }
        assert(words.take(count + 1).drop_last() =~= words.take(count));
    }
}

/// Every game that five-letter words lead to from the start, for an answer
/// of five letters, is well formed.
pub proof fn lemma_replay_is_well_formed(answer: Seq<char>, words: Seq<Seq<char>>)
    requires
        answer.len() == 5,
        forall|j: int| 0 <= j < words.len() ==> (#[trigger] words[j]).len() == 5,
    ensures
        GameView::start(answer).replay(words).wf(),
    decreases words.len(),
{
    if words.len() > 0 {
        lemma_replay_is_well_formed(answer, words.drop_last());
    }
}

/// The game after the first `count` of `words`, none of which is the answer.
proof fn lemma_misses(answer: Seq<char>, words: Seq<Seq<char>>, count: int)
    requires
        0 <= count <= words.len(),
        count <= MAX_ROUNDS,
        forall|j: int| 0 <= j < count ==> words[j] != answer,
    ensures
        ({
            let game = GameView::start(answer).replay(words.take(count));
            &&& game.answer == answer
            &&& game.history.len() == count
            &&& forall|j: int|
                0 <= j < count ==> game.history[j] == GuessView {
                    word: words[j],
                    mask: feedback(answer, words[j]),
                }
            &&& game.phase == if count < MAX_ROUNDS {
                Phase::Playing(count as usize)
            } else {
                Phase::Lost
            }
        }),
    decreases count,
{
    if count > 0 {
        lemma_misses(answer, words, count - 1);
        assert(words.take(count).drop_last() =~= words.take(count - 1));
    }
}

/// Once a game is over, further words change nothing.
proof fn lemma_over_stays(game: GameView, words: Seq<Seq<char>>, count: int)
    requires
        0 <= count <= words.len(),
        !(game.replay(words.take(count)).phase is Playing),
    ensures
        game.replay(words) == game.replay(words.take(count)),
    decreases words.len(),
{
    if count == words.len() {
        assert(words.take(count) =~= words);
    } else {
        assert(words.drop_last().take(count) =~= words.take(count));
        lemma_over_stays(game, words.drop_last(), count);
    }
}

/// In a game replayed from the start, the phase agrees with the length of
/// the history.
proof fn lemma_replay_keeps_step(answer: Seq<char>, words: Seq<Seq<char>>)
    ensures
        ({
            let game = GameView::start(answer).replay(words);
            &&& game.answer == answer
            &&& match game.phase {
                Phase::Playing(round) => round == game.history.len() && round < MAX_ROUNDS,
                Phase::Won(round) => round == game.history.len() + 1 && round <= MAX_ROUNDS,
                Phase::Lost => game.history.len() == MAX_ROUNDS,
            }
        }),
    decreases words.len(),
{
    if words.len() > 0 {
        lemma_replay_keeps_step(answer, words.drop_last());
    }
}

} // verus!
