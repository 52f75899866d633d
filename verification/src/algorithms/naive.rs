//! The strategy that does not think.

use crate::{Guess, GuessView, Guesser};
use vstd::prelude::*;

verus! {

/// Proposes the same word in every round.
pub struct Naive;

impl Naive {
    pub fn new() -> (naive: Self) {
        Self
    }

    /// The word that `Naive` proposes.
    pub open spec fn favourite() -> Seq<char> {
        seq!['h', 'u', 'h', 'u', 'h']
    }
}

impl Guesser for Naive {
    /// `Naive` proposes its one word, whatever it is shown.
    open spec fn may_propose(&self, history: Seq<GuessView>, word: Seq<char>) -> bool {
        word == Naive::favourite()
    }

    fn guess(&mut self, _history: &[Guess]) -> (word: String)
        ensures
            word@ == Naive::favourite(),
    {
        proof {
            reveal_strlit("huhuh");
            assert("huhuh"@ =~= Naive::favourite());
        }
        "huhuh".to_owned()
    }
}

} // verus!
