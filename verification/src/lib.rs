//! Password strength classification and dictionary-safety checks.
//!
//! A secret is judged in two independent ways. Its strength tier follows from
//! the number of bits of entropy that its length and its alphabet give it, and
//! its safety from whether it is a dictionary word or a run of dictionary
//! words written one after another.

pub mod alphabet;
pub mod checker;
pub mod commonwords;
pub mod generate;
pub mod passphrase;
pub mod password;
pub mod random;
pub mod segment;
pub mod text;
pub mod wordlist;
