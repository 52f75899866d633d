//! The word list as text: one entry per line, each entry a word, a space,
//! and the word's frequency.
//!
//! A line ends with a line feed; the last line may go without. The word of
//! a line is what stands before its first space, and the rest of the line
//! is not looked at: a carriage return before the line feed belongs to it.

use vstd::hash_set::StringHashSet;
use vstd::prelude::*;

verus! {

/// Whether a line of `text` starts at position `at`: at the very beginning,
/// or right behind a line feed. The end of the text starts no line.
pub open spec fn starts_line(text: Seq<char>, at: int) -> bool {
    0 <= at < text.len() && (at == 0 || text[at - 1] == '\n')
}

/// Whether the line that starts at `at` lists `word`: the line begins with
/// the letters of `word`, which hold neither space nor line feed, and a
/// space follows them.
pub open spec fn entry_at(text: Seq<char>, at: int, word: Seq<char>) -> bool {
    &&& starts_line(text, at)
    &&& at + word.len() < text.len()
    &&& text.subrange(at, at + word.len()) == word
    &&& text[at + word.len()] == ' '
    &&& forall|i: int| 0 <= i < word.len() ==> word[i] != ' ' && word[i] != '\n'
}

/// Whether some line of `text` lists `word`.
pub open spec fn lists(text: Seq<char>, word: Seq<char>) -> bool {
    exists|at: int| entry_at(text, at, word)
}

/// The words that `text` lists.
pub open spec fn words(text: Seq<char>) -> Set<Seq<char>> {
    Set::new(|word: Seq<char>| lists(text, word))
}

/// Whether every line of `text` is an entry, that is, holds a space.
pub open spec fn well_formed(text: Seq<char>) -> bool {
    forall|at: int| #[trigger]
        starts_line(text, at) ==> exists|word: Seq<char>| entry_at(text, at, word)
}

/// Whether a line that starts below `bound` lists `word`.
spec fn listed_below(text: Seq<char>, bound: int, word: Seq<char>) -> bool {
    exists|at: int| at < bound && entry_at(text, at, word)
}

/// A line without a space up to `end`, where it ends, is no entry.
proof fn lemma_line_without_space(text: Seq<char>, start: int, end: int, word: Seq<char>)
    requires
        start <= end <= text.len(),
        forall|k: int| start <= k < end ==> text[k] != ' ',
        end == text.len() || text[end] == '\n',
    ensures
        !entry_at(text, start, word),
{
    if entry_at(text, start, word) {
        let stop = start + word.len();
        if stop > end {
            assert(word[end - start] == text.subrange(start, stop)[end - start]);
        }
    }
}

/// The word of a line is what stands before the line's first space.
proof fn lemma_entry_is_unique(text: Seq<char>, start: int, space: int, word: Seq<char>)
    requires
        start <= space < text.len(),
        forall|k: int| start <= k < space ==> text[k] != ' ',
        text[space] == ' ',
        entry_at(text, start, word),
    ensures
        word == text.subrange(start, space),
{
    let stop = start + word.len();
    if stop > space {
        assert(word[space - start] == text.subrange(start, stop)[space - start]);
    }
}

/// Reads the words that `text` lists; `None` when a line of `text` holds no
/// space.
pub fn read(text: &str) -> (found: Option<StringHashSet>)
    ensures
        found is Some <==> well_formed(text@),
        found matches Some(set) ==> set@ == words(text@),
{
    let n = text.unicode_len();
    // Cutting by position is linear in the position unless the text is ASCII.
    let ascii = text.is_ascii();
    let mut set = StringHashSet::new();
    let mut start: usize = 0;
    let mut i: usize = 0;
    let mut in_word = true;
    for c in it: text.chars()
        invariant
            it.seq() == text@,
            n == text@.len(),
            ascii == text.is_ascii(),
            i == it.index(),
            start <= i <= n,
            start == 0 || text@[start - 1] == '\n',
            forall|k: int| start <= k < i ==> text@[k] != '\n',
            in_word ==> forall|k: int| start <= k < i ==> text@[k] != ' ',
            !in_word ==> exists|word: Seq<char>| entry_at(text@, start as int, word),
            forall|at: int|
                at < start && #[trigger] starts_line(text@, at) ==> exists|word: Seq<char>|
                    entry_at(text@, at, word),
            forall|word: Seq<char>| #[trigger]
                set@.contains(word) <==> listed_below(
                    text@,
                    if in_word {
                        start as int
                    } else {
                        start + 1
                    },
                    word,
                ),
    {
        if in_word {
            if c == ' ' {
                let piece = if ascii {
                    text.substring_ascii(start, i)
                } else {
                    text.substring_char(start, i)
                };
                let ghost before = set@;
                set.insert(piece.to_owned());
                in_word = false;
                proof {
                    assert(entry_at(text@, start as int, piece@));
                    assert forall|word: Seq<char>| #[trigger]
                        set@.contains(word) <==> listed_below(text@, start + 1, word) by {
                        if listed_below(text@, start + 1, word) {
                            let at = choose|at: int| at < start + 1 && entry_at(text@, at, word);
                            if at == start {
                                lemma_entry_is_unique(text@, start as int, i as int, word);
                            }
                        }
                    }
                }
            } else if c == '\n' {
                proof {
                    assert(starts_line(text@, start as int));
                    assert forall|word: Seq<char>| !entry_at(text@, start as int, word) by {
                        lemma_line_without_space(text@, start as int, i as int, word);
                    }
                }
                return None;
            }
        } else if c == '\n' {
            start = i + 1;
            in_word = true;
        }
        i += 1;
    }
    if in_word && start < n {
        proof {
            assert(starts_line(text@, start as int));
            assert forall|word: Seq<char>| !entry_at(text@, start as int, word) by {
                lemma_line_without_space(text@, start as int, n as int, word);
            }
        }
        return None;
    }
    Some(set)
}

} // verus!
