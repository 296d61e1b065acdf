//! Word segmentation: whether a text is a run of dictionary words written one
//! after another.

use vstd::hash_set::StringHashSet;
use vstd::prelude::*;
use vstd::string::*;

verus! {

broadcast use vstd::string::group_string_axioms;

/// Whether each of `words` is in `dict`.
pub open spec fn all_in(words: Seq<Seq<char>>, dict: Set<Seq<char>>) -> bool {
    forall|k: int| 0 <= k < words.len() ==> dict.contains(#[trigger] words[k])
}

/// Whether `text` can be written as words of `dict`, one after another with
/// nothing left over. A word may be used more than once. The empty text is
/// such a run, of no words.
pub open spec fn is_concatenation(text: Seq<char>, dict: Set<Seq<char>>) -> bool {
    exists|words: Seq<Seq<char>>| all_in(words, dict) && #[trigger] words.flatten() == text
}

/// Whether the first `i` characters of `text` can be written as words of
/// `dict`: either there are none, or a shorter prefix can and a word of `dict`
/// leads from its end to `i`.
pub open spec fn reachable(text: Seq<char>, dict: Set<Seq<char>>, i: nat) -> bool
    decreases i,
{
    i == 0 || exists|j: nat|
        j < i && reachable(text, dict, j) && dict.contains(
            #[trigger] text.subrange(j as int, i as int),
        )
}

/// A prefix that the recurrence reaches is a run of dictionary words.
pub proof fn lemma_reachable_is_concatenation(text: Seq<char>, dict: Set<Seq<char>>, i: nat)
    requires
        i <= text.len(),
        reachable(text, dict, i),
    ensures
        is_concatenation(text.take(i as int), dict),
    decreases i,
{
    if i == 0 {
        let none = Seq::<Seq<char>>::empty();
        assert(none.flatten() =~= text.take(0));
        assert(all_in(none, dict));
    } else {
        let j = choose|j: nat|
            j < i && reachable(text, dict, j) && dict.contains(
                #[trigger] text.subrange(j as int, i as int),
            );
        lemma_reachable_is_concatenation(text, dict, j);
        let head = choose|words: Seq<Seq<char>>|
            all_in(words, dict) && #[trigger] words.flatten() == text.take(j as int);
        let word = text.subrange(j as int, i as int);
        let words = head.push(word);
        head.lemma_flatten_push(word);
        assert(words.flatten() =~= text.take(i as int));
        assert(all_in(words, dict));
    }
}

/// The recurrence reaches the end of every run of dictionary words that
/// `text` begins with.
pub proof fn lemma_concatenation_is_reachable(
    text: Seq<char>,
    dict: Set<Seq<char>>,
    words: Seq<Seq<char>>,
)
    requires
        all_in(words, dict),
        words.flatten().len() <= text.len(),
        words.flatten() == text.take(words.flatten().len() as int),
    ensures
        reachable(text, dict, words.flatten().len()),
    decreases words.len(),
{
    if words.len() > 0 {
        let head = words.drop_last();
        let word = words.last();
        assert(words =~= head.push(word));
        head.lemma_flatten_push(word);
        let j = head.flatten().len();
        let i = words.flatten().len();
        assert(words.flatten() =~= head.flatten() + word);
        assert(head.flatten() =~= text.take(j as int));
        assert(all_in(head, dict)) by {
            assert forall|k: int| 0 <= k < head.len() implies dict.contains(#[trigger] head[k]) by {
                assert(head[k] == words[k]);
            }
        }
        lemma_concatenation_is_reachable(text, dict, head);
        if word.len() > 0 {
            let run = words.flatten();
            assert(i == j + word.len());
            assert forall|m: int| 0 <= m < word.len() implies text[j + m] == word[m] by {
                assert(text.take(i as int)[j + m] == run[j + m]);
                assert((head.flatten() + word)[j + m] == word[m]);
            }
            assert(text.subrange(j as int, i as int) =~= word);
            assert(dict.contains(words[words.len() - 1]));
        }
    } else {
        assert(words.flatten() =~= Seq::<char>::empty());
    }
}

/// The recurrence decides the question: it reaches the end of `text` exactly
/// when `text` is a run of dictionary words.
pub proof fn lemma_reachable_iff_concatenation(text: Seq<char>, dict: Set<Seq<char>>)
    ensures
        reachable(text, dict, text.len()) <==> is_concatenation(text, dict),
{
    assert(text.take(text.len() as int) =~= text);
    if reachable(text, dict, text.len()) {
        lemma_reachable_is_concatenation(text, dict, text.len());
    }
    if is_concatenation(text, dict) {
        let words = choose|words: Seq<Seq<char>>|
            all_in(words, dict) && #[trigger] words.flatten() == text;
        lemma_concatenation_is_reachable(text, dict, words);
    }
}

/// A word of the dictionary is a run of one word.
pub proof fn lemma_word_is_concatenation(text: Seq<char>, dict: Set<Seq<char>>)
    requires
        dict.contains(text),
    ensures
        is_concatenation(text, dict),
{
    let words = seq![text];
    words.lemma_flatten_one_element();
    assert(words.flatten() == text);
    assert(all_in(words, dict));
}

/// Two runs of dictionary words, written one after the other, are a run of
/// dictionary words.
pub proof fn lemma_concatenation_adds(
    first: Seq<char>,
    second: Seq<char>,
    dict: Set<Seq<char>>,
)
    requires
        is_concatenation(first, dict),
        is_concatenation(second, dict),
    ensures
        is_concatenation(first + second, dict),
{
    let a = choose|words: Seq<Seq<char>>|
        all_in(words, dict) && #[trigger] words.flatten() == first;
    let b = choose|words: Seq<Seq<char>>|
        all_in(words, dict) && #[trigger] words.flatten() == second;
    vstd::seq_lib::lemma_flatten_concat(a, b);
    assert((a + b).flatten() == first + second);
    assert(all_in(a + b, dict));
}

/// Only the empty text is a run of words of an empty dictionary.
pub proof fn lemma_empty_dictionary(text: Seq<char>)
    ensures
        is_concatenation(text, Set::empty()) <==> text.len() == 0,
{
    let dict = Set::<Seq<char>>::empty();
    if is_concatenation(text, dict) {
        let words = choose|words: Seq<Seq<char>>|
            all_in(words, dict) && #[trigger] words.flatten() == text;
        if words.len() > 0 {
            assert(dict.contains(words[0]));
        }
        assert(words.flatten() =~= Seq::<char>::empty());
    }
    if text.len() == 0 {
        let none = Seq::<Seq<char>>::empty();
        assert(none.flatten() =~= text);
        assert(all_in(none, dict));
    }
}

/// A larger dictionary loses no run: what is a run of words of `small` is a
/// run of words of every dictionary that holds the words of `small`.
pub proof fn lemma_concatenation_grows(
    text: Seq<char>,
    small: Set<Seq<char>>,
    large: Set<Seq<char>>,
)
    requires
        small.subset_of(large),
        is_concatenation(text, small),
    ensures
        is_concatenation(text, large),
{
    let words = choose|words: Seq<Seq<char>>|
        all_in(words, small) && #[trigger] words.flatten() == text;
    assert(all_in(words, large));
}

/// Whether `text` is a run of words of `word_set`, by dynamic programming
/// over the positions of `text`. The text is taken as it is: no case is
/// folded here.
pub fn is_word_tiling(text: &str, word_set: &StringHashSet) -> (r: bool)
    ensures
        r == is_concatenation(text@, word_set@),
{
    let n: usize = text.unicode_len();
    // reach[k] tells whether position k + 1 is reachable; position 0 always is.
    let mut reach: Vec<bool> = Vec::new();
    let mut k: usize = 0;
    while k < n
        invariant
            k <= n,
            n == text@.len(),
            reach.len() == k,
            forall|m: int|
                0 <= m < k ==> reach[m] == reachable(text@, word_set@, (m + 1) as nat),
        decreases n - k,
    {
        let i: usize = k + 1;
        let mut found = false;
        let mut j: usize = 0;
        while j < i && !found
            invariant
                j <= i,
                i == k + 1,
                k < n,
                n == text@.len(),
                reach.len() == k,
                forall|m: int|
                    0 <= m < k ==> reach[m] == reachable(text@, word_set@, (m + 1) as nat),
                found ==> reachable(text@, word_set@, i as nat),
                !found ==> forall|m: nat|
                    m < j ==> !(reachable(text@, word_set@, m) && word_set@.contains(
                        #[trigger] text@.subrange(m as int, i as int),
                    )),
            decreases i - j + (if found { 0int } else { 1int }),
        {
            let prior = if j == 0 {
                true
            } else {
                reach[j - 1]
            };
            assert(prior == reachable(text@, word_set@, j as nat));
            if prior && word_set.contains(text.substring_char(j, i)) {
                found = true;
            } else {
                j += 1;
            }
        }
        reach.push(found);
        k += 1;
    }
    proof {
        lemma_reachable_iff_concatenation(text@, word_set@);
    }
    if n == 0 {
        true
    } else {
        reach[n - 1]
    }
}

} // verus!
