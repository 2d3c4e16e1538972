//! Which recognizer reads at a character, and what one request for a token
//! yields.

use vstd::prelude::*;
use crate::chars::is_decimal_digit;
use crate::chars::is_space;
use crate::chars::CharClass;
use crate::config::Dialect;
use crate::config::ScanConfig;
use crate::cursor::position_at;
use crate::cursor::prev_position_at;
use crate::grammar::hex_number_scan;
use crate::grammar::identifier_or_key_scan;
use crate::grammar::identifier_scan;
use crate::grammar::lemma_last_alphabetic;
use crate::grammar::lemma_run_end;
use crate::grammar::name_stop;
use crate::grammar::number_scan;
use crate::grammar::spaces_scan;
use crate::grammar::symbol_scan;
use crate::grammar::text_body;
use crate::grammar::text_scan;
use crate::grammar::Scan;
use crate::std_ext::alphabetic;
use crate::token::TokenValue;
use crate::token::TokenView;

verus! {

/// The recognizers.
#[derive(Debug, Clone, Copy, PartialEq, Eq)]
pub enum Recognizer {
    Spaces,
    Text,
    Symbol,
    Number,
    HexNumber,
    Identifier,
    IdentifierOrKey,
    /// No recognizer reads at this character.
    Nothing,
}

/// The recognizer that reads at the character `c`, which is alphabetic or
/// not as `alpha` says.
pub open spec fn recognizer_for(dialect: Dialect, c: char, alpha: bool) -> Recognizer {
    if is_space(c) {
        Recognizer::Spaces
    } else {
        match dialect {
            Dialect::Numeric => if c == '"' {
                Recognizer::Text
            } else if is_decimal_digit(c) {
                Recognizer::Number
            } else if c == '$' {
                Recognizer::HexNumber
            } else if alpha {
                Recognizer::Identifier
            } else {
                Recognizer::Nothing
            },
            Dialect::Symbolic => if c == '\'' {
                Recognizer::Symbol
            } else if alpha {
                Recognizer::IdentifierOrKey
            } else {
                Recognizer::Nothing
            },
        }
    }
}

/// What the recognizer `r` reads at index `i`. `Nothing` gives up at once.
pub open spec fn recognize(r: Recognizer, input: Seq<char>, i: int) -> Scan {
    match r {
        Recognizer::Spaces => spaces_scan(input, i),
        Recognizer::Text => text_scan(input, i),
        Recognizer::Symbol => symbol_scan(input, i),
        Recognizer::Number => number_scan(input, i),
        Recognizer::HexNumber => hex_number_scan(input, i),
        Recognizer::Identifier => identifier_scan(input, i),
        Recognizer::IdentifierOrKey => identifier_or_key_scan(input, i),
        Recognizer::Nothing => Scan { value: TokenValue::SimpleError, end: i },
    }
}

/// What is read at index `i`, which lies within the input, by the
/// recognizer that the character there selects.
pub open spec fn attempt(dialect: Dialect, input: Seq<char>, i: int) -> Scan {
    recognize(recognizer_for(dialect, input[i], alphabetic(input[i])), input, i)
}

/// A token together with the range of indices, `start` up to but without
/// `end`, of the characters that it was read from.
pub struct Lexeme {
    pub token: TokenView,
    pub start: int,
    pub end: int,
}

/// What one request for a token yields: the token, if the stream has not
/// ended, and the state in which the scanner is left.
pub struct Outcome {
    pub emitted: Option<Lexeme>,
    /// Read index after the request.
    pub ind: int,
    /// The end-of-input token has been handed out.
    pub ended: bool,
}

/// The token for what `scan` read from index `i` on: it reaches from the
/// place of its first character to the place of its last.
pub open spec fn lexeme(input: Seq<char>, i: int, scan: Scan) -> Lexeme {
    Lexeme {
        token: TokenView {
            from: position_at(input, i),
            to: prev_position_at(input, scan.end),
            value: scan.value,
        },
        start: i,
        end: scan.end,
    }
}

/// The token for the one character at index `i` that could not be read: it
/// begins and ends at the place of that character.
pub open spec fn error_lexeme(input: Seq<char>, i: int) -> Lexeme {
    Lexeme {
        token: TokenView {
            from: position_at(input, i),
            to: position_at(input, i),
            value: TokenValue::Error(input[i]),
        },
        start: i,
        end: i + 1,
    }
}

/// The end-of-input token at index `i`: it has no width.
pub open spec fn end_lexeme(input: Seq<char>, i: int) -> Lexeme {
    Lexeme {
        token: TokenView {
            from: position_at(input, i),
            to: position_at(input, i),
            value: TokenValue::End,
        },
        start: i,
        end: i,
    }
}

/// One request for a token, made at index `i` after the end-of-input token
/// has (`ended`) or has not been handed out.
///
/// At the end of input the request yields the end-of-input token, once and
/// only if the configuration asks for it, and nothing after that. Before the
/// end, the recognizer that the next character selects reads. Where it gives
/// up, the one character at `i` is an error: it is handed out as such, or
/// skipped and the request made anew behind it. Whitespace is handed out or
/// dropped and the request made anew behind it. Everything else is handed
/// out.
pub open spec fn request(input: Seq<char>, config: ScanConfig, i: int, ended: bool) -> Outcome
    decreases input.len() - i,
{
    if !(0 <= i < input.len()) {
        if config.emit_end_of_input && !ended {
            Outcome { emitted: Some(end_lexeme(input, i)), ind: i, ended: true }
        } else {
            Outcome { emitted: None, ind: i, ended }
        }
    } else {
        let scan = attempt(config.dialect, input, i);
        if scan.value is SimpleError {
            if config.skip_errors {
                request(input, config, i + 1, ended)
            } else {
                Outcome { emitted: Some(error_lexeme(input, i)), ind: i + 1, ended }
            }
        } else if scan.value is Spaces && !config.retain_whitespace {
            proof {
                lemma_attempt_progress(config.dialect, input, i);
            }
            request(input, config, scan.end, ended)
        } else {
            Outcome { emitted: Some(lexeme(input, i, scan)), ind: scan.end, ended }
        }
    }
}

/// The content of a string literal, where it is well-formed, ends behind
/// the index at which it is entered and within the input.
pub proof fn lemma_text_body_progress(input: Seq<char>, j: int)
    requires
        0 <= j <= input.len(),
    ensures
        j <= text_body(input, j).end <= input.len(),
        text_body(input, j).value is Text || text_body(input, j).value is SimpleError,
        text_body(input, j).value is Text ==> j < text_body(input, j).end,
    decreases input.len() - j,
{
    if j < input.len() {
        lemma_text_body_progress(input, j + 1);
        if j + 1 < input.len() {
            lemma_text_body_progress(input, j + 2);
        }
    }
}

/// The values that the recognizer `r` may yield: those of its own category,
/// and `SimpleError` where it can give up.
pub open spec fn yields(r: Recognizer, v: TokenValue) -> bool {
    match r {
        Recognizer::Spaces => v is Spaces,
        Recognizer::Text => v is Text || v is SimpleError,
        Recognizer::Symbol => v is Symbol || v is SimpleError,
        Recognizer::Number => v is Number,
        Recognizer::HexNumber => v is Number || v is SimpleError,
        Recognizer::Identifier => v is Identifier || v is SimpleError,
        Recognizer::IdentifierOrKey => v is Identifier || v is Key || v is SimpleError,
        Recognizer::Nothing => v is SimpleError,
    }
}

/// Whatever recognizer reads, and wherever in the input it begins, it leaves
/// the cursor within the input and not before the index at which it began:
/// the read index never moves back. It yields a value of its own category
/// or gives up.
pub proof fn lemma_recognize_progress(r: Recognizer, input: Seq<char>, i: int)
    requires
        0 <= i <= input.len(),
    ensures
        i <= recognize(r, input, i).end <= input.len(),
        yields(r, recognize(r, input, i).value),
{
    match r {
        Recognizer::Spaces => {
            lemma_run_end(input, i, CharClass::Space);
        },
        Recognizer::Text => {
            if i < input.len() {
                lemma_text_body_progress(input, i + 1);
            }
        },
        Recognizer::Symbol => {},
        Recognizer::Number => {
            lemma_run_end(input, i, CharClass::Decimal);
        },
        Recognizer::HexNumber => {
            if i < input.len() {
                lemma_run_end(input, i + 1, CharClass::Hex);
            }
        },
        Recognizer::Identifier => {
            if i < input.len() {
                lemma_run_end(input, i + 1, CharClass::DollarName);
            }
        },
        Recognizer::IdentifierOrKey => {
            if i < input.len() && alphabetic(input[i]) {
                lemma_run_end(input, i + 1, CharClass::Name);
                lemma_last_alphabetic(input, i, name_stop(input, i));
            }
        },
        Recognizer::Nothing => {},
    }
}

/// The recognizer that the character at `i` selects has read at least one
/// character where it does not give up, and only the whitespace recognizer
/// yields whitespace.
pub proof fn lemma_attempt_progress(dialect: Dialect, input: Seq<char>, i: int)
    requires
        0 <= i < input.len(),
    ensures
        i <= attempt(dialect, input, i).end <= input.len(),
        !(attempt(dialect, input, i).value is SimpleError) ==> i < attempt(dialect, input, i).end,
        yields(
            recognizer_for(dialect, input[i], alphabetic(input[i])),
            attempt(dialect, input, i).value,
        ),
{
    let r = recognizer_for(dialect, input[i], alphabetic(input[i]));
    lemma_recognize_progress(r, input, i);
    match r {
        Recognizer::Spaces => {
            lemma_run_end(input, i + 1, CharClass::Space);
        },
        Recognizer::Text => {
            lemma_text_body_progress(input, i + 1);
        },
        Recognizer::Number => {
            lemma_run_end(input, i + 1, CharClass::Decimal);
        },
        Recognizer::HexNumber => {
            lemma_run_end(input, i + 1, CharClass::Hex);
        },
        Recognizer::Identifier => {
            lemma_run_end(input, i + 1, CharClass::DollarName);
        },
        Recognizer::IdentifierOrKey => {
            lemma_run_end(input, i + 1, CharClass::Name);
            lemma_last_alphabetic(input, i, name_stop(input, i));
        },
        Recognizer::Symbol => {},
        Recognizer::Nothing => {},
    }
}

} // verus!
