//! Character alphabets: the universe of characters a secret is drawn from.

use vstd::prelude::*;
use vstd::string::*;

verus! {

broadcast use vstd::string::group_string_axioms;

pub const FULL: &'static str =
    "abcdefghijklmnopqrstuvwxyzABCDEFGHIJKLMNOPQRSTUVWXYZ0123456789!@#$%^&*()";

pub const LOWER_CASE: &'static str = "abcdefghijklmnopqrstuvwxyz";

pub const UPPER_CASE: &'static str = "ABCDEFGHIJKLMNOPQRSTUVWXYZ";

pub const DIGITS: &'static str = "0123456789";

pub const SPECIAL_CHARS: &'static str = "!@#$%^&*";

/// A character universe: one of five fixed presets, or a string of the
/// caller's own, taken verbatim.
#[derive(Debug, Clone)]
pub enum Alphabet {
    Full,
    LowerCase,
    UpperCase,
    Digits,
    SpecialChars,
    Custom(String),
}

impl View for Alphabet {
    type V = Seq<char>;

    /// The characters of the alphabet, in the order and with the repetitions
    /// of the string that defines it.
    open spec fn view(&self) -> Seq<char> {
        match self {
            Alphabet::Full => FULL@,
            Alphabet::LowerCase => LOWER_CASE@,
            Alphabet::UpperCase => UPPER_CASE@,
            Alphabet::Digits => DIGITS@,
            Alphabet::SpecialChars => SPECIAL_CHARS@,
            Alphabet::Custom(s) => s@,
        }
    }
}

/// Every preset holds at least one character and none twice, and the sizes
/// of the presets are 72, 26, 26, 10 and 8.
pub proof fn lemma_presets(alphabet: Alphabet)
    requires
        !(alphabet is Custom),
    ensures
        alphabet@.len() > 0,
        alphabet@.no_duplicates(),
        Alphabet::Full@.len() == 72,
        Alphabet::LowerCase@.len() == 26,
        Alphabet::UpperCase@.len() == 26,
        Alphabet::Digits@.len() == 10,
        Alphabet::SpecialChars@.len() == 8,
{
    reveal_strlit("abcdefghijklmnopqrstuvwxyzABCDEFGHIJKLMNOPQRSTUVWXYZ0123456789!@#$%^&*()");
    reveal_strlit("abcdefghijklmnopqrstuvwxyz");
    reveal_strlit("ABCDEFGHIJKLMNOPQRSTUVWXYZ");
    reveal_strlit("0123456789");
    reveal_strlit("!@#$%^&*");
}

impl Default for Alphabet {
    fn default() -> (r: Self)
        ensures
            r == Alphabet::Full,
    {
        Alphabet::Full
    }
}

impl Alphabet {
    /// The string that defines the alphabet.
    pub fn as_str(&self) -> (r: &str)
        ensures
            r@ == self@,
    {
        match self {
            Alphabet::Full => FULL,
            Alphabet::LowerCase => LOWER_CASE,
            Alphabet::UpperCase => UPPER_CASE,
            Alphabet::Digits => DIGITS,
            Alphabet::SpecialChars => SPECIAL_CHARS,
            Alphabet::Custom(s) => s.as_str(),
        }
    }

    /// Whether `c` occurs in the alphabet.
    pub fn contains(&self, c: char) -> (r: bool)
        ensures
            r == self@.contains(c),
    {
        let s = self.as_str();
        let mut found = false;
        for d in it: s.chars()
            invariant
                it.seq() == s@,
                found == exists|i: int| 0 <= i < it.index() && s@[i] == c,
        {
            if d == c {
                found = true;
            }
        }
        found
    }

    /// The size of the alphabet: the number of Unicode scalar values in the
    /// string that defines it. A character that is written twice counts
    /// twice.
    pub fn len(&self) -> (r: usize)
        ensures
            r == self@.len(),
    {
        self.as_str().unicode_len()
    }
}

pub const BOTH_ALPHABETS: &'static str = "Cannot specify both alphabet and custom alphabet.";

/// Refuses a choice of both a preset alphabet and a custom one.
pub fn validate_alphabet_args(alphabet: &Option<Alphabet>, custom: &Option<String>) -> (r: Result<
    (),
    &'static str,
>)
    ensures
        r is Err <==> alphabet is Some && custom is Some,
        r matches Err(message) ==> message@ == BOTH_ALPHABETS@,
{
    if alphabet.is_some() && custom.is_some() {
        Err(BOTH_ALPHABETS)
    } else {
        Ok(())
    }
}

/// The alphabet that the caller chose: the custom one where there is one,
/// else the preset, else the full alphabet.
pub fn get_alphabet_from_args(alphabet: Option<Alphabet>, custom: Option<String>) -> (r: Alphabet)
    ensures
        r == match (custom, alphabet) {
            (Some(chars), _) => Alphabet::Custom(chars),
            (None, Some(preset)) => preset,
            (None, None) => Alphabet::Full,
        },
{
    match custom {
        Some(chars) => Alphabet::Custom(chars),
        None => match alphabet {
            Some(preset) => preset,
            None => Alphabet::Full,
        },
    }
}

} // verus!
