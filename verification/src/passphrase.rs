//! Random passphrases: words of a word list with a separator between them.

use crate::password::Password;
use crate::random::{all_below, random_indices};
use crate::text::views_of;
use crate::wordlist::{WordList, WordListTexts};
use vstd::pervasive::unreached;
use vstd::prelude::*;
use vstd::string::*;

verus! {

broadcast use vstd::string::group_string_axioms;

/// `parts` written one after another, with `separator` between each two.
pub open spec fn joined(parts: Seq<Seq<char>>, separator: Seq<char>) -> Seq<char>
    decreases parts.len(),
{
    if parts.len() == 0 {
        Seq::empty()
    } else if parts.len() == 1 {
        parts[0]
    } else {
        joined(parts.drop_last(), separator) + separator + parts.last()
    }
}

/// The words of `words` at the positions `indices`, in that order.
pub open spec fn picked_words(words: Seq<Seq<char>>, indices: Seq<usize>) -> Seq<Seq<char>> {
    indices.map_values(|i: usize| words[i as int])
}

/// Whether `phrase` is made of `count` words of `words` with `separator`
/// between each two.
pub open spec fn is_phrase_of(
    phrase: Seq<char>,
    count: nat,
    separator: Seq<char>,
    words: Seq<Seq<char>>,
) -> bool {
    exists|parts: Seq<Seq<char>>|
        {
            &&& parts.len() == count
            &&& forall|k: int| 0 <= k < parts.len() ==> words.contains(#[trigger] parts[k])
            &&& phrase == #[trigger] joined(parts, separator)
        }
}

/// The words of `words` at the positions `indices`, with `separator` between
/// each two. There is no such phrase where a position lies outside `words`.
pub fn join_picked(words: &Vec<String>, indices: &Vec<usize>, separator: &str) -> (r: Option<
    String,
>)
    ensures
        r is Some <==> all_below(indices@, words@.len()),
        r matches Some(phrase) ==> phrase@ == joined(
            picked_words(views_of(words@), indices@),
            separator@,
        ),
{
    let mut phrase = String::new();
    let mut i: usize = 0;
    while i < indices.len()
        invariant
            i <= indices.len(),
            all_below(indices@.take(i as int), words@.len()),
            phrase@ == joined(
                picked_words(views_of(words@), indices@.take(i as int)),
                separator@,
            ),
        decreases indices.len() - i,
    {
        let index: usize = indices[i];
        if index >= words.len() {
            return None;
        }
        proof {
            let before = picked_words(views_of(words@), indices@.take(i as int));
            let after = picked_words(views_of(words@), indices@.take(i + 1));
            assert(indices@.take(i + 1) =~= indices@.take(i as int).push(index));
            assert(after =~= before.push(words@[index as int]@));
            assert(after.drop_last() =~= before);
            if i == 0 {
                assert(phrase@ + words@[index as int]@ =~= words@[index as int]@);
            }
        }
        if i > 0 {
            phrase.append(separator);
        }
        phrase.append(words[index].as_str());
        i += 1;
    }
    proof {
        assert(indices@.take(indices.len() as int) =~= indices@);
    }
    Some(phrase)
}

/// A random passphrase: `word_count` words of `wordlist`, drawn with
/// repetition, with `separator` between each two. The passphrase is empty
/// where the word list is empty or `word_count` is zero.
pub fn generate_passphrase(
    word_count: usize,
    separator: &str,
    wordlist: &WordList,
    texts: &WordListTexts,
) -> (r: Password<'static>)
    ensures
        wordlist.word_list(texts).len() == 0 || word_count == 0 ==> r@.len() == 0,
        wordlist.word_list(texts).len() > 0 && word_count > 0 ==> is_phrase_of(
            r@,
            word_count as nat,
            separator@,
            wordlist.word_list(texts),
        ),
{
    let words = wordlist.words(texts);
    if words.len() == 0 || word_count == 0 {
        return Password::from_string(String::new());
    }
    let indices = random_indices(word_count, words.len());
    match join_picked(&words, &indices, separator) {
        Some(phrase) => {
            proof {
                let parts = picked_words(views_of(words@), indices@);
                assert forall|k: int| 0 <= k < parts.len() implies views_of(words@).contains(
                    #[trigger] parts[k],
                ) by {
                    assert(views_of(words@)[indices@[k] as int] == parts[k]);
                }
                assert(phrase@ == joined(parts, separator@));
            }
            Password::from_string(phrase)
        },
        None => unreached(),
    }
}

} // verus!
