//! Random passwords.

use crate::alphabet::Alphabet;
use crate::checker::within_alphabet;
use crate::password::Password;
use crate::random::{all_below, random_indices};
use crate::text::{chars_of, push_char};
use vstd::pervasive::unreached;
use vstd::prelude::*;

verus! {

/// The characters of `alphabet` at the positions `indices`, in that order.
pub open spec fn picked_chars(alphabet: Seq<char>, indices: Seq<usize>) -> Seq<char> {
    indices.map_values(|i: usize| alphabet[i as int])
}

impl<'a> Password<'a> {
    /// The password made of the characters of `alphabet` at the positions
    /// `indices`. There is none where a position lies outside the alphabet.
    pub fn from_indices(alphabet: &Alphabet, indices: &Vec<usize>) -> (r: Option<
        Password<'static>,
    >)
        ensures
            r is Some <==> all_below(indices@, alphabet@.len()),
            r matches Some(p) ==> p@ == picked_chars(alphabet@, indices@),
    {
        let chars = chars_of(alphabet.as_str());
        let mut value = String::new();
        let mut i: usize = 0;
        while i < indices.len()
            invariant
                i <= indices.len(),
                chars@ == alphabet@,
                all_below(indices@.take(i as int), alphabet@.len()),
                value@ == picked_chars(alphabet@, indices@.take(i as int)),
            decreases indices.len() - i,
        {
            let index: usize = indices[i];
            if index >= chars.len() {
                return None;
            }
            push_char(&mut value, chars[index]);
            proof {
                let before = indices@.take(i as int);
                let after = indices@.take(i + 1);
                assert(after =~= before.push(index));
                assert(picked_chars(alphabet@, after) =~= picked_chars(alphabet@, before).push(
                    alphabet@[index as int],
                ));
            }
            i += 1;
        }
        proof {
            assert(indices@.take(indices.len() as int) =~= indices@);
        }
        Some(Password::from_string(value))
    }

    /// A random password of `len` characters of `alphabet`. Over an empty
    /// alphabet the password is empty, whatever `len` is.
    pub fn generate(len: usize, alphabet: &Alphabet) -> (r: Password<'static>)
        ensures
            alphabet@.len() == 0 ==> r@.len() == 0,
            alphabet@.len() > 0 ==> r@.len() == len && within_alphabet(r@, alphabet@),
    {
        let size: usize = alphabet.len();
        if size == 0 {
            return Password::from_string(String::new());
        }
        let indices = random_indices(len, size);
        match Password::from_indices(alphabet, &indices) {
            Some(password) => {
                proof {
                    assert forall|i: int| 0 <= i < password@.len() implies alphabet@.contains(
                        #[trigger] password@[i],
                    ) by {
                        assert(password@[i] == alphabet@[indices@[i] as int]);
                    }
                }
                password
            },
            None => unreached(),
        }
    }
}

} // verus!
