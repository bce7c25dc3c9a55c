//! Anagram detection by prime fingerprints.
//!
//! Each of the 26 English letters stands for its own prime number; a word's
//! fingerprint is the product of the primes of its letters. By the uniqueness
//! of prime factorisation two words are anagrams exactly when their
//! fingerprints agree.
pub mod alphabet;
pub mod anagram;
pub mod error;
pub mod factor;
pub mod fingerprint;
pub mod word;

pub use anagram::{compare_words, IsAnagram};
pub use error::{Error, ErrorKind};
