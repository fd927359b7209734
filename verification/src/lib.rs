//! A corpus cleaner: lines of text (plain or JSON) are split into words, each word is
//! looked up in a dictionary held by a Bloom filter, and a line is kept only when every
//! sliding window of words holds enough dictionary words.

pub mod corpus;
pub mod dictionary;
pub mod json;
pub mod output;
pub mod search;
pub mod text;
pub mod window;
