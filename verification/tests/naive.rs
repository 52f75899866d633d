use wordle::algorithms::Naive;
use wordle::{Fault, Guess, Guesser, Wordle};
use wordle::Correctness::Wrong;

#[test]
fn naive_always_says_huhuh() {
    let mut naive = Naive::new();
    assert_eq!(naive.guess(&[]), "huhuh");
    let seen = [Guess { word: "huhuh".to_string(), mask: [Wrong; 5] }];
    assert_eq!(naive.guess(&seen), "huhuh");
    assert_eq!(naive.guess(&seen), "huhuh");
}

#[test]
fn naive_wins_only_against_its_own_word() {
    let w = Wordle::new("huhuh 1\ncrane 100\n");
    assert_eq!(w.play("huhuh", Naive::new()), Some(1));
    assert_eq!(w.play("crane", Naive::new()), None);
    assert_eq!(w.try_play("huhuh", Naive::new()), Ok(Some(1)));
    assert_eq!(w.try_play("crane", Naive::new()), Ok(None));
}

#[test]
fn naive_needs_its_word_in_the_dictionary() {
    let w = Wordle::new("crane 100\n");
    assert_eq!(
        w.try_play("crane", Naive::new()),
        Err(Fault::NotInDictionary("huhuh".to_string()))
    );
}
