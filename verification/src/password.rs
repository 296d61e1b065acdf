//! The candidate secret.

use std::borrow::Cow;
use vstd::prelude::*;

verus! {

/// A candidate password or passphrase: a sequence of Unicode scalar values,
/// kept exactly as it was given.
#[derive(Debug, PartialEq)]
pub struct Password<'a> {
    pub value: Cow<'a, str>,
}

impl<'a> View for Password<'a> {
    type V = Seq<char>;

    open spec fn view(&self) -> Seq<char> {
        self.value@
    }
}

impl<'a> Password<'a> {
    /// A password that borrows `value`.
    pub fn new(value: &'a str) -> (r: Self)
        ensures
            r@ == value@,
    {
        Password { value: Cow::Borrowed(value) }
    }

    /// A password that owns `value`.
    pub fn from_string(value: String) -> (r: Password<'static>)
        ensures
            r@ == value@,
    {
        Password { value: Cow::Owned(value) }
    }

    /// The secret as a string slice.
    pub fn as_str(&self) -> (r: &str)
        ensures
            r@ == self@,
    {
        match &self.value {
            Cow::Borrowed(s) => s,
            Cow::Owned(s) => s.as_str(),
        }
    }
}

} // verus!
