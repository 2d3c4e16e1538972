//! A lexical scanner for two small token languages.
//!
//! A [`cursor::SmartIterator`] walks through the characters of the input and
//! keeps the line and column of its read index. A [`scanner::ParseToken`]
//! asks it for the next character, lets the recognizer that this character
//! selects read on, and hands out positioned tokens. What every recognizer
//! reads is defined in [`grammar`], what a request for a token yields in
//! [`dispatch`], and what holds of the whole stream of tokens in [`stream`].

pub mod chars;
pub mod config;
pub mod cursor;
pub mod dispatch;
pub mod grammar;
pub mod numbers;
pub mod scanner;
pub mod std_ext;
pub mod stream;
pub mod token;
