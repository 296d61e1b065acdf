//! Strength classification and dictionary safety of a password.

use crate::alphabet::Alphabet;
use crate::commonwords::{CommonWords, CorpusTexts};
use crate::password::Password;
use crate::segment::{
    is_concatenation, is_word_tiling, lemma_empty_dictionary, lemma_word_is_concatenation,
};
use crate::text::{lowercase_of, to_lowercase, views_of};
use vstd::arithmetic::power::*;
use vstd::arithmetic::power2::*;
use vstd::hash_set::StringHashSet;
use vstd::prelude::*;
use vstd::string::*;

verus! {

broadcast use vstd::string::group_string_axioms;

/// The strength tiers, from the weakest to the strongest.
#[derive(Debug, Clone, Copy, PartialEq, Eq, Structural, PartialOrd, Ord, Hash)]
pub enum Classification {
    Weak,
    Medium,
    Strong,
    VeryStrong,
}

/// The error of a classification: the secret holds a character that its
/// declared alphabet does not.
#[derive(Debug, Clone, Copy, PartialEq, Eq, Structural)]
pub struct AlphabetMismatchError;

pub const ALPHABET_MISMATCH: &'static str =
    "Password contains characters not in the specified alphabet";

impl AlphabetMismatchError {
    /// What went wrong, in words.
    pub fn message(&self) -> (r: &'static str)
        ensures
            r@ == ALPHABET_MISMATCH@,
    {
        ALPHABET_MISMATCH
    }
}

/// Whether a secret of `length` characters over an alphabet of `alphabet`
/// characters has at least `bits` bits of entropy.
///
/// The entropy is `length * log2(alphabet)`, and zero when either number is
/// zero. It is at least `bits` exactly when `alphabet` to the power `length`
/// is at least two to the power `bits`, which is how it is stated here: over
/// the integers, with no rounding.
pub open spec fn entropy_at_least(length: nat, alphabet: nat, bits: nat) -> bool {
    if length == 0 || alphabet == 0 {
        bits == 0
    } else {
        pow(alphabet as int, length) >= pow2(bits)
    }
}

/// The tier of a secret of `length` characters over an alphabet of `alphabet`
/// characters: `Weak` below 28 bits of entropy, `Medium` from 28 up to 40,
/// `Strong` from 40 up to 60, `VeryStrong` from 60 on.
pub open spec fn tier_of(length: nat, alphabet: nat) -> Classification {
    if !entropy_at_least(length, alphabet, 28) {
        Classification::Weak
    } else if !entropy_at_least(length, alphabet, 40) {
        Classification::Medium
    } else if !entropy_at_least(length, alphabet, 60) {
        Classification::Strong
    } else {
        Classification::VeryStrong
    }
}

/// Whether every character of `secret` occurs in `alphabet`.
pub open spec fn within_alphabet(secret: Seq<char>, alphabet: Seq<char>) -> bool {
    forall|i: int| 0 <= i < secret.len() ==> alphabet.contains(#[trigger] secret[i])
}

/// The tiers meet at 28, 40 and 60 bits, and each of these bounds belongs to
/// the tier above it: a secret with exactly 28 bits of entropy is `Medium`,
/// one with exactly 40 bits is `Strong`, one with exactly 60 bits is
/// `VeryStrong`.
pub proof fn lemma_tier_boundaries(length: nat, alphabet: nat)
    requires
        length > 0,
        alphabet > 0,
    ensures
        pow(alphabet as int, length) == pow2(28) ==> tier_of(length, alphabet)
            == Classification::Medium,
        pow(alphabet as int, length) == pow2(40) ==> tier_of(length, alphabet)
            == Classification::Strong,
        pow(alphabet as int, length) == pow2(60) ==> tier_of(length, alphabet)
            == Classification::VeryStrong,
{
    lemma_pow2_strictly_increases(28, 40);
    lemma_pow2_strictly_increases(40, 60);
}

/// Over an alphabet of two to the power `k` characters a character is worth
/// `k` bits: a secret of `length` characters has at least `bits` bits of
/// entropy exactly when `length * k` is at least `bits`.
pub proof fn lemma_entropy_of_power_of_two(length: nat, k: nat, bits: nat)
    requires
        length > 0,
    ensures
        entropy_at_least(length, pow2(k), bits) <==> length * k >= bits,
{
    lemma_pow2_pos(k);
    lemma_pow2(k);
    lemma_pow_multiplies(2, k, length);
    lemma_pow2(k * length);
    assert(k * length == length * k) by (nonlinear_arith);
    assert(pow(pow2(k) as int, length) == pow2(length * k));
    if length * k < bits {
        lemma_pow2_strictly_increases(length * k, bits);
    }
    if bits < length * k {
        lemma_pow2_strictly_increases(bits, length * k);
    }
}

/// A tier is never lost by a longer secret or a larger alphabet: the entropy
/// that the shorter secret over the smaller alphabet has, the other has too.
pub proof fn lemma_entropy_grows(
    length: nat,
    alphabet: nat,
    longer: nat,
    larger: nat,
    bits: nat,
)
    requires
        length <= longer,
        alphabet <= larger,
        entropy_at_least(length, alphabet, bits),
    ensures
        entropy_at_least(longer, larger, bits),
{
    if length > 0 && alphabet > 0 {
        lemma_pow_increases(alphabet, length, longer);
        lemma_pow_base_increases(alphabet, larger, longer);
    } else if longer > 0 && larger > 0 {
        lemma_pow_positive(larger as int, longer);
        lemma2_to64();
    }
}

/// A power grows with its base.
proof fn lemma_pow_base_increases(small: nat, large: nat, exp: nat)
    requires
        small <= large,
    ensures
        pow(small as int, exp) <= pow(large as int, exp),
    decreases exp,
{
    reveal(pow);
    if exp > 0 {
        lemma_pow_base_increases(small, large, (exp - 1) as nat);
        let a = pow(small as int, (exp - 1) as nat);
        let b = pow(large as int, (exp - 1) as nat);
        lemma_pow_nonneg(small, (exp - 1) as nat);
        assert(small * a <= large * b) by (nonlinear_arith)
            requires
                0 <= small <= large,
                0 <= a <= b,
        ;
    }
}

/// A power of a natural number is not negative.
proof fn lemma_pow_nonneg(base: nat, exp: nat)
    ensures
        pow(base as int, exp) >= 0,
    decreases exp,
{
    reveal(pow);
    if exp > 0 {
        lemma_pow_nonneg(base, (exp - 1) as nat);
        assert(base * pow(base as int, (exp - 1) as nat) >= 0) by (nonlinear_arith)
            requires
                base >= 0,
                pow(base as int, (exp - 1) as nat) >= 0,
        ;
    }
}

/// `base` to the power `exp`, or `cap` where the power is `cap` or more.
fn capped_power(base: usize, exp: usize, cap: u128) -> (r: u128)
    requires
        base > 0,
        1 < cap <= 0x1_0000_0000_0000_0000,
    ensures
        pow(base as int, exp as nat) < cap ==> r == pow(base as int, exp as nat),
        pow(base as int, exp as nat) >= cap ==> r == cap,
{
    proof {
        lemma_pow0(base as int);
    }
    if base == 1 {
        proof {
            lemma1_pow(exp as nat);
        }
        return 1;
    }
    let mut p: u128 = 1;
    let mut i: usize = 0;
    while i < exp && p < cap
        invariant
            base > 0,
            cap <= 0x1_0000_0000_0000_0000,
            i <= exp,
            p == pow(base as int, i as nat),
        decreases exp - i,
    {
        proof {
            reveal(pow);
            let limit: int = 0x1_0000_0000_0000_0000;
            assert(p * base < limit * limit) by (nonlinear_arith)
                requires
                    0 <= p < limit,
                    0 <= base < limit,
            ;
            assert(pow(base as int, (i + 1) as nat) == base * pow(base as int, i as nat));
            assert(base * p == p * base) by (nonlinear_arith);
        }
        p = p * (base as u128);
        i += 1;
    }
    if p >= cap {
        proof {
            lemma_pow_increases(base as nat, i as nat, exp as nat);
        }
        cap
    } else {
        p
    }
}

/// The tier of a secret of `length` characters over an alphabet of
/// `alphabet` characters.
pub fn tier(length: usize, alphabet: usize) -> (r: Classification)
    ensures
        r == tier_of(length as nat, alphabet as nat),
{
    if length == 0 || alphabet == 0 {
        return Classification::Weak;
    }
    proof {
        lemma2_to64();
        lemma2_to64_rest();
    }
    let p: u128 = capped_power(alphabet, length, 0x1000_0000_0000_0000);
    if p < 0x1000_0000 {
        Classification::Weak
    } else if p < 0x100_0000_0000 {
        Classification::Medium
    } else if p < 0x1000_0000_0000_0000 {
        Classification::Strong
    } else {
        Classification::VeryStrong
    }
}

/// The set of the words of a list.
pub open spec fn word_set(words: Seq<Seq<char>>) -> Set<Seq<char>> {
    words.to_set()
}

/// The set of the lower-case forms of the words of a list.
pub open spec fn lowercase_set(words: Seq<Seq<char>>) -> Set<Seq<char>> {
    words.map_values(|w: Seq<char>| lowercase_of(w)).to_set()
}

/// Whether `secret` is safe to use, given a list of words that an attacker
/// would try: it is not empty, its lower-case form is none of the words in
/// lower case, and it is no run of such words either. A secret that only
/// holds a word somewhere inside it is safe.
pub open spec fn safe_against(secret: Seq<char>, words: Seq<Seq<char>>) -> bool {
    let lowered = lowercase_of(secret);
    let dict = lowercase_set(words);
    &&& secret.len() > 0
    &&& !dict.contains(lowered)
    &&& !is_concatenation(lowered, dict)
}

/// An empty secret is safe against no list of words.
pub proof fn lemma_empty_secret_is_unsafe(words: Seq<Seq<char>>)
    ensures
        !safe_against(Seq::empty(), words),
{
}

/// A secret that is a word of the list, whatever the case of either, is not
/// safe.
pub proof fn lemma_listed_word_is_unsafe(secret: Seq<char>, words: Seq<Seq<char>>, k: int)
    requires
        0 <= k < words.len(),
        lowercase_of(secret) == lowercase_of(words[k]),
    ensures
        !safe_against(secret, words),
{
    let lowered = words.map_values(|w: Seq<char>| lowercase_of(w));
    assert(lowered[k] == lowercase_of(secret));
    assert(lowered.contains(lowercase_of(secret)));
}

/// A secret whose lower-case form is a run of words of the list in lower
/// case is not safe.
pub proof fn lemma_run_of_words_is_unsafe(secret: Seq<char>, words: Seq<Seq<char>>)
    requires
        is_concatenation(lowercase_of(secret), lowercase_set(words)),
    ensures
        !safe_against(secret, words),
{
}

/// Every other secret is safe: one that is not empty and whose lower-case
/// form is no run of words of the list in lower case. That a word of the
/// list occurs somewhere inside it does no harm.
pub proof fn lemma_no_run_is_safe(secret: Seq<char>, words: Seq<Seq<char>>)
    requires
        secret.len() > 0,
        !is_concatenation(lowercase_of(secret), lowercase_set(words)),
    ensures
        safe_against(secret, words),
{
    if lowercase_set(words).contains(lowercase_of(secret)) {
        lemma_word_is_concatenation(lowercase_of(secret), lowercase_set(words));
    }
}

/// Against an empty list of words every secret is safe that is not empty
/// and whose lower-case form is not empty.
pub proof fn lemma_empty_list_is_safe(secret: Seq<char>)
    requires
        secret.len() > 0,
        lowercase_of(secret).len() > 0,
    ensures
        safe_against(secret, Seq::empty()),
{
    let none = Seq::<Seq<char>>::empty();
    assert(lowercase_set(none) =~= Set::<Seq<char>>::empty());
    lemma_empty_dictionary(lowercase_of(secret));
}

/// The set of the given words, each as it is.
pub fn word_set_of(words: &[&str]) -> (r: StringHashSet)
    ensures
        r@ == word_set(words@.map_values(|w: &str| w@)),
{
    let mut set = StringHashSet::new();
    let mut i: usize = 0;
    while i < words.len()
        invariant
            i <= words.len(),
            forall|w: Seq<char>|
                set@.contains(w) <==> exists|k: int| 0 <= k < i && w == (#[trigger] words@[k])@,
        decreases words.len() - i,
    {
        set.insert(words[i].to_owned());
        i += 1;
    }
    proof {
        let list = words@.map_values(|w: &str| w@);
        assert forall|w: Seq<char>| set@.contains(w) <==> list.contains(w) by {
            if set@.contains(w) {
                let k = choose|k: int| 0 <= k < words.len() && w == (#[trigger] words@[k])@;
                assert(list[k] == w);
            }
            if list.contains(w) {
                let k = choose|k: int| 0 <= k < list.len() && list[k] == w;
                assert(w == words@[k]@);
            }
        }
        assert(set@ =~= word_set(list));
    }
    set
}

/// The set of the given words, each in lower case.
pub fn lowercase_set_of(words: &Vec<String>) -> (r: StringHashSet)
    ensures
        r@ == lowercase_set(views_of(words@)),
{
    let mut set = StringHashSet::new();
    let mut i: usize = 0;
    while i < words.len()
        invariant
            i <= words.len(),
            forall|w: Seq<char>|
                set@.contains(w) <==> exists|k: int|
                    0 <= k < i && w == lowercase_of((#[trigger] words@[k])@),
        decreases words.len() - i,
    {
        set.insert(to_lowercase(words[i].as_str()));
        i += 1;
    }
    proof {
        let list = views_of(words@).map_values(|w: Seq<char>| lowercase_of(w));
        assert forall|w: Seq<char>| set@.contains(w) <==> list.contains(w) by {
            if set@.contains(w) {
                let k = choose|k: int|
                    0 <= k < words.len() && w == lowercase_of((#[trigger] words@[k])@);
                assert(list[k] == w);
            }
            if list.contains(w) {
                let k = choose|k: int| 0 <= k < list.len() && list[k] == w;
                assert(w == lowercase_of(words@[k]@));
            }
        }
        assert(set@ =~= lowercase_set(views_of(words@)));
    }
    set
}

/// Whether a text is neither a word of `word_set` nor a run of its words.
/// The text and the words are compared as they are: the caller folds the
/// case of both.
pub fn avoids_words(text: &str, word_set: &StringHashSet) -> (r: bool)
    ensures
        r == (!word_set@.contains(text@) && !is_concatenation(text@, word_set@)),
{
    if word_set.contains(text) {
        return false;
    }
    !is_word_tiling(text, word_set)
}

/// Why a secret is not safe, if it is not: what the first of the built-in
/// corpora against which it is not safe holds. The corpora are tried in the
/// order passwords, English words, male names, female names, last names,
/// and at last all of them together.
pub open spec fn unsafe_reason(secret: Seq<char>, texts: &CorpusTexts) -> Option<Seq<char>> {
    if !safe_against(secret, CommonWords::Passwords.word_list(texts)) {
        Some("common password"@)
    } else if !safe_against(secret, CommonWords::English.word_list(texts)) {
        Some("common English word"@)
    } else if !safe_against(secret, CommonWords::MaleNames.word_list(texts)) {
        Some("common male name"@)
    } else if !safe_against(secret, CommonWords::FemaleNames.word_list(texts)) {
        Some("common female name"@)
    } else if !safe_against(secret, CommonWords::LastNames.word_list(texts)) {
        Some("common last name"@)
    } else if !safe_against(secret, CommonWords::All.word_list(texts)) {
        Some("combination of common words"@)
    } else {
        None
    }
}

/// The sentence that tells why a secret is not safe.
pub open spec fn unsafe_message(secret: Seq<char>, reason: Seq<char>) -> Seq<char> {
    secret + " is not safe because it is a "@ + reason
}

/// The sentence that tells that `password` is not safe for `reason`.
fn unsafe_message_of(password: &Password, reason: &str) -> (r: String)
    ensures
        r@ == unsafe_message(password@, reason@),
{
    let mut message = password.as_str().to_owned();
    message.append(" is not safe because it is a ");
    message.append(reason);
    message
}

/// Checks `password` against the built-in corpora, one after another, and
/// tells why it is not safe, if it is not.
pub fn check_password_safety(password: &Password, texts: &CorpusTexts) -> (r: Option<String>)
    ensures
        r is Some == unsafe_reason(password@, texts) is Some,
        r matches Some(message) ==> message@ == unsafe_message(
            password@,
            unsafe_reason(password@, texts).unwrap(),
        ),
{
    if !password.is_safe(&CommonWords::Passwords, texts) {
        return Some(unsafe_message_of(password, "common password"));
    }
    if !password.is_safe(&CommonWords::English, texts) {
        return Some(unsafe_message_of(password, "common English word"));
    }
    if !password.is_safe(&CommonWords::MaleNames, texts) {
        return Some(unsafe_message_of(password, "common male name"));
    }
    if !password.is_safe(&CommonWords::FemaleNames, texts) {
        return Some(unsafe_message_of(password, "common female name"));
    }
    if !password.is_safe(&CommonWords::LastNames, texts) {
        return Some(unsafe_message_of(password, "common last name"));
    }
    if !password.is_safe(&CommonWords::All, texts) {
        return Some(unsafe_message_of(password, "combination of common words"));
    }
    None
}

impl<'a> Password<'a> {
    /// The strength tier of the password over `alphabet`.
    ///
    /// Fails when a character of the password is not in the alphabet, and
    /// then computes no tier. Otherwise the tier is that of the password's
    /// length in characters and the alphabet's size.
    pub fn classify(&self, alphabet: &Alphabet) -> (r: Result<
        Classification,
        AlphabetMismatchError,
    >)
        ensures
            r is Ok <==> within_alphabet(self@, alphabet@),
            r is Ok ==> r == Ok::<Classification, AlphabetMismatchError>(
                tier_of(self@.len(), alphabet@.len()),
            ),
    {
        let s = self.as_str();
        let mut valid = true;
        for c in it: s.chars()
            invariant
                it.seq() == s@,
                valid == within_alphabet(s@.take(it.index() as int), alphabet@),
        {
            proof {
                let before = s@.take(it.index() as int);
                let after = s@.take(it.index() + 1);
                assert(after =~= before.push(c));
                assert(forall|i: int| 0 <= i < before.len() ==> after[i] == before[i]);
                assert(after[before.len() as int] == c);
            }
            if !alphabet.contains(c) {
                valid = false;
            }
        }
        proof {
            assert(s@.take(s@.len() as int) =~= s@);
        }
        if !valid {
            return Err(AlphabetMismatchError);
        }
        Ok(tier(s.unicode_len(), alphabet.len()))
    }

    /// Whether the password, in lower case, is a run of words of `word_set`.
    /// The words are taken as they are, so they should be in lower case.
    pub fn is_combination_of_word_set(&self, word_set: &StringHashSet) -> (r: bool)
        ensures
            r == is_concatenation(lowercase_of(self@), word_set@),
    {
        let lowered = to_lowercase(self.as_str());
        is_word_tiling(lowered.as_str(), word_set)
    }

    /// Whether the password, in lower case, is a run of the given words.
    pub fn is_combination_of_words(&self, words: &[&str]) -> (r: bool)
        ensures
            r == is_concatenation(
                lowercase_of(self@),
                word_set(words@.map_values(|w: &str| w@)),
            ),
    {
        let set = word_set_of(words);
        self.is_combination_of_word_set(&set)
    }

    /// Whether the password is safe against a corpus of common words.
    ///
    /// An empty password is not safe. Otherwise the password and the words of
    /// the corpus are put in lower case, and the password is safe unless it
    /// is one of the words or a run of them.
    pub fn is_safe(&self, common_words: &CommonWords, texts: &CorpusTexts) -> (r: bool)
        ensures
            r == safe_against(self@, common_words.word_list(texts)),
    {
        let secret = self.as_str();
        if secret.is_empty() {
            return false;
        }
        let words = common_words.words(texts);
        let set = lowercase_set_of(&words);
        let lowered = to_lowercase(secret);
        avoids_words(lowered.as_str(), &set)
    }
}

} // verus!
