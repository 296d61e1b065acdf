//! Word lists for passphrases.
//!
//! A built-in word list is a text of lines, each with a number, a tab and a
//! word.

use crate::text::{chars_of, find_char, lines_of, next_index_of, split_lines, views_of};
use vstd::prelude::*;
use vstd::string::*;

verus! {

broadcast use vstd::string::group_string_axioms;

/// A word list: one of the three built-in lists, or a list of the caller's
/// own.
#[derive(Debug, Clone)]
pub enum WordList {
    EffLarge,
    EffShort1,
    EffShort2,
    Custom(Vec<String>),
}

impl Default for WordList {
    fn default() -> (r: Self)
        ensures
            r == WordList::EffLarge,
    {
        WordList::EffLarge
    }
}

/// The text of the three built-in word lists.
#[derive(Debug, Clone)]
pub struct WordListTexts {
    pub eff_large: String,
    pub eff_short1: String,
    pub eff_short2: String,
}

impl Default for WordListTexts {
    /// Three empty word lists.
    fn default() -> (r: Self)
        ensures
            r.eff_large@.len() == 0,
            r.eff_short1@.len() == 0,
            r.eff_short2@.len() == 0,
    {
        WordListTexts {
            eff_large: String::new(),
            eff_short1: String::new(),
            eff_short2: String::new(),
        }
    }
}

/// The word of a line of a word list: its second field, where tabs part the
/// fields. A line without a tab has no word. The word is empty where the
/// first tab is the last character or another tab follows it directly, and
/// fields after the second are left out.
pub open spec fn eff_word(line: Seq<char>) -> Option<Seq<char>> {
    let tab = next_index_of(line, '\t', 0);
    if tab >= line.len() {
        None
    } else {
        Some(line.subrange(tab + 1, next_index_of(line, '\t', tab + 1)))
    }
}

/// The words of the lines of a word list, in order. A line without a word
/// adds nothing.
pub open spec fn eff_words(lines: Seq<Seq<char>>) -> Seq<Seq<char>>
    decreases lines.len(),
{
    if lines.len() == 0 {
        Seq::empty()
    } else {
        let head = eff_words(lines.drop_last());
        match eff_word(lines.last()) {
            Some(word) => head.push(word),
            None => head,
        }
    }
}

/// The word of a line of a word list, if it has one.
pub fn parse_eff_line(line: &str) -> (r: Option<&str>)
    ensures
        r is Some == eff_word(line@) is Some,
        r matches Some(word) ==> eff_word(line@) == Some(word@),
{
    let chars = chars_of(line);
    let tab: usize = find_char(&chars, '\t', 0);
    if tab >= chars.len() {
        return None;
    }
    let end: usize = find_char(&chars, '\t', tab + 1);
    Some(line.substring_char(tab + 1, end))
}

/// The words of a built-in word list, given its text.
pub fn parse_wordlist(text: &str) -> (r: Vec<String>)
    ensures
        views_of(r@) == eff_words(lines_of(text@)),
{
    let lines = split_lines(text);
    let mut words: Vec<String> = Vec::new();
    let mut i: usize = 0;
    while i < lines.len()
        invariant
            i <= lines.len(),
            views_of(words@) == eff_words(views_of(lines@).take(i as int)),
        decreases lines.len() - i,
    {
        let ghost before = views_of(words@);
        proof {
            let next = views_of(lines@).take(i + 1);
            assert(next.drop_last() =~= views_of(lines@).take(i as int));
            assert(next.last() == lines@[i as int]@);
        }
        match parse_eff_line(lines[i].as_str()) {
            Some(word) => {
                words.push(word.to_owned());
                proof {
                    assert(views_of(words@) =~= before.push(word@));
                }
            },
            None => {},
        }
        i += 1;
    }
    proof {
        assert(views_of(lines@).take(lines.len() as int) =~= views_of(lines@));
    }
    words
}

/// Loading a word list twice gives the same words: two lists that `words`
/// may return for one word list and one set of texts have the same length
/// and the same words at each place, and so the same set of words.
pub proof fn lemma_words_are_stable(
    list: WordList,
    texts: &WordListTexts,
    first: Seq<String>,
    second: Seq<String>,
)
    requires
        views_of(first) == list.word_list(texts),
        views_of(second) == list.word_list(texts),
    ensures
        first.len() == second.len(),
        forall|i: int| 0 <= i < first.len() ==> first[i]@ == second[i]@,
        views_of(first).to_set() == views_of(second).to_set(),
{
    assert(views_of(first).len() == first.len());
    assert(views_of(second).len() == second.len());
    assert forall|i: int| 0 <= i < first.len() implies first[i]@ == second[i]@ by {
        assert(views_of(first)[i] == first[i]@);
        assert(views_of(second)[i] == second[i]@);
    }
}

impl WordList {
    /// A word list of the caller's own words.
    pub fn from_custom(custom: Vec<String>) -> (r: Self)
        ensures
            r == WordList::Custom(custom),
    {
        WordList::Custom(custom)
    }

    /// The words of the list, given the text of the built-in lists.
    ///
    /// A built-in list holds the words of the lines of its text, in order. A
    /// custom list holds the caller's words as they are.
    pub open spec fn word_list(&self, texts: &WordListTexts) -> Seq<Seq<char>> {
        match self {
            WordList::EffLarge => eff_words(lines_of(texts.eff_large@)),
            WordList::EffShort1 => eff_words(lines_of(texts.eff_short1@)),
            WordList::EffShort2 => eff_words(lines_of(texts.eff_short2@)),
            WordList::Custom(words) => views_of(words@),
        }
    }

    /// The words of the list, given the text of the built-in lists.
    pub fn words(&self, texts: &WordListTexts) -> (r: Vec<String>)
        ensures
            views_of(r@) == self.word_list(texts),
    {
        match self {
            WordList::EffLarge => parse_wordlist(texts.eff_large.as_str()),
            WordList::EffShort1 => parse_wordlist(texts.eff_short1.as_str()),
            WordList::EffShort2 => parse_wordlist(texts.eff_short2.as_str()),
            WordList::Custom(words) => {
                let r = words.clone();
                proof {
                    assert(views_of(r@) =~= views_of(words@));
                }
                r
            },
        }
    }
}

} // verus!
