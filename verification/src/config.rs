//! How a scanner is set up.

use vstd::prelude::*;

verus! {

/// The two token languages.
#[derive(Debug, Clone, Copy, PartialEq, Eq)]
pub enum Dialect {
    /// Whitespace, double-quoted strings, decimal and `$`-prefixed
    /// hexadecimal integers, identifiers.
    Numeric,
    /// Whitespace, single-quoted character literals, identifiers and the
    /// reserved words.
    Symbolic,
}

/// How a scanner treats whitespace, errors and the end of input.
#[derive(Debug, Clone, Copy, PartialEq, Eq)]
pub struct ScanConfig {
    /// Hand out whitespace tokens instead of dropping them.
    pub retain_whitespace: bool,
    /// Drop what cannot be read, one character at a time, instead of handing
    /// out error tokens.
    pub skip_errors: bool,
    /// Close the stream of tokens with one end-of-input token.
    pub emit_end_of_input: bool,
    /// The token language.
    pub dialect: Dialect,
}

impl ScanConfig {
    /// The configuration that a scanner has unless told otherwise.
    pub open spec fn standard(dialect: Dialect) -> ScanConfig {
        ScanConfig {
            retain_whitespace: false,
            skip_errors: false,
            emit_end_of_input: true,
            dialect,
        }
    }

    /// The standard configuration for `dialect`: whitespace is dropped,
    /// errors are handed out, and the end of input is marked.
    pub fn new(dialect: Dialect) -> (c: Self)
        ensures
            c == ScanConfig::standard(dialect),
    {
        ScanConfig { retain_whitespace: false, skip_errors: false, emit_end_of_input: true, dialect }
    }
}

} // verus!
