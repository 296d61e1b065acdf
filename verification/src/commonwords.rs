//! Corpora of common words: passwords, English words and names that a secret
//! should not be made of.

use crate::text::{lines_of, split_lines, views_of};
use vstd::hash_set::StringHashSet;
use vstd::prelude::*;
use vstd::string::*;

verus! {

broadcast use vstd::string::group_string_axioms;

/// A corpus of common words: one of the five built-in corpora, all of them
/// together, or a list of the caller's own.
#[derive(Debug, Clone)]
pub enum CommonWords {
    Passwords,
    English,
    MaleNames,
    FemaleNames,
    LastNames,
    All,
    Custom(Vec<String>),
}

impl Default for CommonWords {
    fn default() -> (r: Self)
        ensures
            r == CommonWords::All,
    {
        CommonWords::All
    }
}

/// The text of the five built-in corpora, each with one word per line.
#[derive(Debug, Clone)]
pub struct CorpusTexts {
    pub passwords: String,
    pub english: String,
    pub male_names: String,
    pub female_names: String,
    pub last_names: String,
}

impl Default for CorpusTexts {
    /// Five empty corpora.
    fn default() -> (r: Self)
        ensures
            r.passwords@.len() == 0,
            r.english@.len() == 0,
            r.male_names@.len() == 0,
            r.female_names@.len() == 0,
            r.last_names@.len() == 0,
    {
        CorpusTexts {
            passwords: String::new(),
            english: String::new(),
            male_names: String::new(),
            female_names: String::new(),
            last_names: String::new(),
        }
    }
}

impl CorpusTexts {
    /// The words of the five corpora in one list: passwords first, then
    /// English words, male names, female names and last names.
    pub open spec fn all_lines(&self) -> Seq<Seq<char>> {
        lines_of(self.passwords@) + lines_of(self.english@) + lines_of(self.male_names@)
            + lines_of(self.female_names@) + lines_of(self.last_names@)
    }
}

/// `words` without repetitions: each word stands where it first occurs.
pub open spec fn distinct(words: Seq<Seq<char>>) -> Seq<Seq<char>>
    decreases words.len(),
{
    if words.len() == 0 {
        Seq::empty()
    } else {
        let head = distinct(words.drop_last());
        if head.contains(words.last()) {
            head
        } else {
            head.push(words.last())
        }
    }
}

/// `distinct` removes the duplicates and nothing else: no word occurs twice
/// in its result, and its result holds exactly the words of its argument.
pub proof fn lemma_distinct(words: Seq<Seq<char>>)
    ensures
        distinct(words).no_duplicates(),
        forall|w: Seq<char>| distinct(words).contains(w) <==> words.contains(w),
        distinct(words).len() <= words.len(),
    decreases words.len(),
{
    if words.len() > 0 {
        let head = words.drop_last();
        let last = words.last();
        lemma_distinct(head);
        assert(words =~= head.push(last));
        assert forall|w: Seq<char>| distinct(words).contains(w) <==> words.contains(w) by {
            if words.contains(w) {
                let k = choose|k: int| 0 <= k < words.len() && words[k] == w;
                if k < head.len() {
                    assert(head[k] == w);
                    assert(head.contains(w));
                    if !distinct(head).contains(last) {
                        assert(distinct(head).push(last)[distinct(head).index_of(w)] == w);
                    }
                } else {
                    assert(w == last);
                    if !distinct(head).contains(last) {
                        assert(distinct(head).push(last)[distinct(head).len() as int] == last);
                    }
                }
            }
            if distinct(words).contains(w) {
                let k = choose|k: int| 0 <= k < distinct(words).len() && distinct(words)[k] == w;
                if k < distinct(head).len() {
                    assert(distinct(head)[k] == w);
                    assert(head.contains(w));
                    assert(words[head.index_of(w)] == w);
                } else {
                    assert(w == last);
                    assert(words[words.len() - 1] == w);
                }
            }
        }
    }
}

/// The words of `words` without repetitions, in the order in which they
/// first occur.
pub fn distinct_words(words: &Vec<String>) -> (r: Vec<String>)
    ensures
        views_of(r@) == distinct(views_of(words@)),
{
    let mut seen = StringHashSet::new();
    let mut out: Vec<String> = Vec::new();
    let mut i: usize = 0;
    while i < words.len()
        invariant
            i <= words.len(),
            views_of(out@) == distinct(views_of(words@).take(i as int)),
            forall|w: Seq<char>| seen@.contains(w) <==> views_of(out@).contains(w),
        decreases words.len() - i,
    {
        let ghost before = views_of(out@);
        let ghost prefix = views_of(words@).take(i as int);
        let ghost next = views_of(words@).take(i + 1);
        proof {
            assert(next.drop_last() =~= prefix);
            assert(next.last() == words@[i as int]@);
        }
        let fresh = seen.insert(words[i].clone());
        if fresh {
            out.push(words[i].clone());
            proof {
                assert(views_of(out@) =~= before.push(words@[i as int]@));
                assert forall|w: Seq<char>| seen@.contains(w) <==> views_of(out@).contains(
                    w,
                ) by {
                    if w == words@[i as int]@ {
                        assert(views_of(out@)[before.len() as int] == w);
                    } else if before.contains(w) {
                        assert(views_of(out@)[before.index_of(w)] == w);
                    }
                }
            }
        }
        i += 1;
    }
    proof {
        assert(views_of(words@).take(words.len() as int) =~= views_of(words@));
    }
    out
}

/// The corpus of all words is the union of the five built-in corpora with
/// the duplicates removed: no word occurs twice in it, and a word is in it
/// exactly when it is in one of the five.
pub proof fn lemma_all_is_union(texts: &CorpusTexts, word: Seq<char>)
    ensures
        CommonWords::All.word_list(texts).no_duplicates(),
        CommonWords::All.word_list(texts).contains(word) <==> {
            ||| CommonWords::Passwords.word_list(texts).contains(word)
            ||| CommonWords::English.word_list(texts).contains(word)
            ||| CommonWords::MaleNames.word_list(texts).contains(word)
            ||| CommonWords::FemaleNames.word_list(texts).contains(word)
            ||| CommonWords::LastNames.word_list(texts).contains(word)
        },
{
    let a = lines_of(texts.passwords@);
    let b = lines_of(texts.english@);
    let c = lines_of(texts.male_names@);
    let d = lines_of(texts.female_names@);
    let e = lines_of(texts.last_names@);
    lemma_distinct(texts.all_lines());
    lemma_contains_of_sum(a, b, word);
    lemma_contains_of_sum(a + b, c, word);
    lemma_contains_of_sum(a + b + c, d, word);
    lemma_contains_of_sum(a + b + c + d, e, word);
}

/// A word is in two lists written one after the other exactly when it is in
/// one of them.
proof fn lemma_contains_of_sum(
    first: Seq<Seq<char>>,
    second: Seq<Seq<char>>,
    word: Seq<char>,
)
    ensures
        (first + second).contains(word) <==> first.contains(word) || second.contains(word),
{
    let sum = first + second;
    if first.contains(word) {
        assert(sum[first.index_of(word)] == word);
    }
    if second.contains(word) {
        assert(sum[first.len() + second.index_of(word)] == word);
    }
    if sum.contains(word) {
        let k = sum.index_of(word);
        if k < first.len() {
            assert(first[k] == word);
        } else {
            assert(second[k - first.len()] == word);
        }
    }
}

/// Loading a corpus twice gives the same words: two lists that `words` may
/// return for one corpus and one set of texts have the same length, the same
/// words at each place, and so the same set of words.
pub proof fn lemma_words_are_stable(
    corpus: CommonWords,
    texts: &CorpusTexts,
    first: Seq<String>,
    second: Seq<String>,
)
    requires
        views_of(first) == corpus.word_list(texts),
        views_of(second) == corpus.word_list(texts),
    ensures
        first.len() == second.len(),
        forall|i: int| 0 <= i < first.len() ==> first[i]@ == second[i]@,
        views_of(first).to_set() == views_of(second).to_set(),
{
    assert(views_of(first).len() == first.len());
    assert(views_of(second).len() == second.len());
    assert forall|i: int| 0 <= i < first.len() implies first[i]@ == second[i]@ by {
        assert(views_of(first)[i] == first[i]@);
        assert(views_of(second)[i] == second[i]@);
    }
}

impl CommonWords {
    /// The words of the corpus, given the text of the built-in corpora.
    ///
    /// A built-in corpus holds the lines of its text, in order. `All` holds
    /// the words of the five built-in corpora, each once. A custom corpus
    /// holds the caller's words as they are.
    pub open spec fn word_list(&self, texts: &CorpusTexts) -> Seq<Seq<char>> {
        match self {
            CommonWords::Passwords => lines_of(texts.passwords@),
            CommonWords::English => lines_of(texts.english@),
            CommonWords::MaleNames => lines_of(texts.male_names@),
            CommonWords::FemaleNames => lines_of(texts.female_names@),
            CommonWords::LastNames => lines_of(texts.last_names@),
            CommonWords::All => distinct(texts.all_lines()),
            CommonWords::Custom(words) => views_of(words@),
        }
    }

    /// The words of the corpus, given the text of the built-in corpora.
    pub fn words(&self, texts: &CorpusTexts) -> (r: Vec<String>)
        ensures
            views_of(r@) == self.word_list(texts),
    {
        match self {
            CommonWords::Passwords => split_lines(texts.passwords.as_str()),
            CommonWords::English => split_lines(texts.english.as_str()),
            CommonWords::MaleNames => split_lines(texts.male_names.as_str()),
            CommonWords::FemaleNames => split_lines(texts.female_names.as_str()),
            CommonWords::LastNames => split_lines(texts.last_names.as_str()),
            CommonWords::All => {
                let mut all = split_lines(texts.passwords.as_str());
                let mut english = split_lines(texts.english.as_str());
                let mut male_names = split_lines(texts.male_names.as_str());
                let mut female_names = split_lines(texts.female_names.as_str());
                let mut last_names = split_lines(texts.last_names.as_str());
                all.append(&mut english);
                all.append(&mut male_names);
                all.append(&mut female_names);
                all.append(&mut last_names);
                proof {
                    assert(views_of(all@) =~= texts.all_lines());
                }
                distinct_words(&all)
            },
            CommonWords::Custom(words) => {
                let r = words.clone();
                proof {
                    assert(views_of(r@) =~= views_of(words@));
                }
                r
            },
        }
    }
}

} // verus!
