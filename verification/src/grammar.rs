//! What each recognizer reads, as functions of the input and the index at
//! which it starts.

use vstd::prelude::*;
use crate::chars::code_point;
use crate::chars::hex_digit_value;
use crate::chars::CharClass;
use crate::numbers::radix_value;
use crate::numbers::wrap_i64;
use crate::std_ext::alphabetic;
use crate::token::TokenValue;

verus! {

/// The outcome of one recognizer: the value it found, `SimpleError` where it
/// gave up, and the index at which it left the cursor.
pub struct Scan {
    pub value: TokenValue,
    pub end: int,
}

/// The character at index `i`, if the input has one there.
pub open spec fn char_at(input: Seq<char>, i: int) -> Option<char> {
    if 0 <= i < input.len() {
        Some(input[i])
    } else {
        None
    }
}

/// A recognizer that gave up while trying to read up to index `e`: the cursor
/// stands at `e`, or at the end of input if that came first.
pub open spec fn malformed(input: Seq<char>, e: int) -> Scan {
    Scan {
        value: TokenValue::SimpleError,
        end: if e <= input.len() {
            e
        } else {
            input.len() as int
        },
    }
}

/// The end of the longest run of characters of `class` that starts at index
/// `i`: the first index from `i` on whose character is not in the class, or
/// the length of the input.
pub open spec fn run_end(input: Seq<char>, i: int, class: CharClass) -> int
    decreases input.len() - i,
{
    if 0 <= i < input.len() && class.holds(input[i]) {
        run_end(input, i + 1, class)
    } else {
        i
    }
}

/// A run ends at or behind its start and within the input; every character
/// of it is in the class, and the character behind it, if any, is not.
pub proof fn lemma_run_end(input: Seq<char>, i: int, class: CharClass)
    requires
        0 <= i <= input.len(),
    ensures
        i <= run_end(input, i, class) <= input.len(),
        forall|k: int| i <= k < run_end(input, i, class) ==> class.holds(#[trigger] input[k]),
        run_end(input, i, class) < input.len() ==> !class.holds(
            input[run_end(input, i, class)],
        ),
    decreases input.len() - i,
{
    if i < input.len() && class.holds(input[i]) {
        lemma_run_end(input, i + 1, class);
    }
}

/// A run that is entered in its middle ends where the whole run ends.
pub proof fn lemma_run_end_from_within(input: Seq<char>, i: int, j: int, class: CharClass)
    requires
        0 <= i <= j <= input.len(),
        forall|k: int| i <= k < j ==> class.holds(#[trigger] input[k]),
    ensures
        run_end(input, i, class) == run_end(input, j, class),
    decreases j - i,
{
    if i < j {
        lemma_run_end_from_within(input, i + 1, j, class);
    }
}

/// Whitespace at index `i`: the longest run of spaces, tabs and newlines
/// that starts there. The run may be empty.
pub open spec fn spaces_scan(input: Seq<char>, i: int) -> Scan {
    let e = run_end(input, i, CharClass::Space);
    Scan { value: TokenValue::Spaces(input.subrange(i, e)), end: e }
}

/// A decimal number at index `i`: the longest run of decimal digits that
/// starts there, with the number it writes reduced to 64 bits. The run may
/// be empty, and the number is then 0.
pub open spec fn number_scan(input: Seq<char>, i: int) -> Scan {
    let e = run_end(input, i, CharClass::Decimal);
    Scan { value: TokenValue::Number(wrap_i64(radix_value(input.subrange(i, e), 10))), end: e }
}

/// A hexadecimal number at index `i`: a dollar sign and the longest run of
/// hexadecimal digits behind it, which must not be empty, with the number it
/// writes reduced to 64 bits.
pub open spec fn hex_number_scan(input: Seq<char>, i: int) -> Scan {
    if char_at(input, i) != Some('$') {
        malformed(input, i + 1)
    } else {
        let e = run_end(input, i + 1, CharClass::Hex);
        if e == i + 1 {
            Scan { value: TokenValue::SimpleError, end: e }
        } else {
            Scan {
                value: TokenValue::Number(wrap_i64(radix_value(input.subrange(i + 1, e), 16))),
                end: e,
            }
        }
    }
}

/// An identifier at index `i`: an alphabetic character and the longest run
/// of alphabetic characters, decimal digits and dollar signs behind it.
pub open spec fn identifier_scan(input: Seq<char>, i: int) -> Scan {
    if 0 <= i < input.len() && alphabetic(input[i]) {
        let e = run_end(input, i + 1, CharClass::DollarName);
        Scan { value: TokenValue::Identifier(input.subrange(i, e)), end: e }
    } else {
        malformed(input, i + 1)
    }
}

/// The outcome `rest` of reading the remainder of a string literal, with the
/// decoded character `c` put in front of its text.
pub open spec fn led_by(c: char, rest: Scan) -> Scan {
    match rest.value {
        TokenValue::Text(t) => Scan { value: TokenValue::Text(seq![c] + t), end: rest.end },
        _ => rest,
    }
}

/// The content of a string literal from index `j` on, up to and with the
/// closing quote.
///
/// Two double quotes in a row stand for one double quote; a double quote
/// alone closes the literal. A backslash before a newline stands for the
/// newline; any other backslash stands for itself, and what follows it is
/// read as usual. A newline without a backslash, or the end of input, makes
/// the literal malformed. Every other character stands for itself.
pub open spec fn text_body(input: Seq<char>, j: int) -> Scan
    decreases input.len() - j,
{
    match char_at(input, j) {
        None => malformed(input, j),
        Some(c) => if c == '\n' {
            malformed(input, j + 1)
        } else if c == '"' {
            if char_at(input, j + 1) == Some('"') {
                led_by('"', text_body(input, j + 2))
            } else {
                Scan { value: TokenValue::Text(Seq::empty()), end: j + 1 }
            }
        } else if c == '\\' {
            if char_at(input, j + 1) == Some('\n') {
                led_by('\n', text_body(input, j + 2))
            } else {
                led_by('\\', text_body(input, j + 1))
            }
        } else {
            led_by(c, text_body(input, j + 1))
        },
    }
}

/// A string literal at index `i`: a double quote and the content behind it,
/// see [`text_body`].
pub open spec fn text_scan(input: Seq<char>, i: int) -> Scan {
    if char_at(input, i) != Some('"') {
        malformed(input, i + 1)
    } else {
        text_body(input, i + 1)
    }
}

/// The outcome `rest` of reading the remainder of a string literal, behind
/// the already decoded text `front`.
pub open spec fn behind(front: Seq<char>, rest: Scan) -> Scan {
    match rest.value {
        TokenValue::Text(t) => Scan { value: TokenValue::Text(front + t), end: rest.end },
        _ => rest,
    }
}

/// Decoding one more character extends the text in front.
pub proof fn lemma_behind_led_by(front: Seq<char>, c: char, rest: Scan)
    ensures
        behind(front, led_by(c, rest)) == behind(front.push(c), rest),
{
    if let TokenValue::Text(t) = rest.value {
        assert(front + (seq![c] + t) =~= front.push(c) + t);
    }
}

/// The value of the character at index `i` as a hexadecimal digit; `None`
/// where the input has ended or the character is no such digit.
pub open spec fn digit_at(input: Seq<char>, i: int) -> Option<u32> {
    match char_at(input, i) {
        Some(c) => hex_digit_value(c),
        None => None,
    }
}

/// The closing quote of a character literal whose content `c` ends just
/// before index `k`: with the quote at `k` the literal is `c`, without it the
/// attempt is malformed. Either way the character at `k` is read.
pub open spec fn symbol_close(input: Seq<char>, c: char, k: int) -> Scan {
    if char_at(input, k) == Some('\'') {
        Scan { value: TokenValue::Symbol(c), end: k + 1 }
    } else {
        malformed(input, k + 1)
    }
}

/// A character literal at index `i`: a single quote, one character or one
/// escape, and a single quote.
///
/// The content is any character but a single quote, a newline and a
/// backslash, or one of the escapes `\n` (newline), `\'`, `\\`, or a
/// backslash and four hexadecimal digits that write the code point of a
/// character. Everything else is malformed. The four digits of an escape are
/// all read before they are judged.
pub open spec fn symbol_scan(input: Seq<char>, i: int) -> Scan {
    if char_at(input, i) != Some('\'') {
        malformed(input, i + 1)
    } else {
        match char_at(input, i + 1) {
            None => malformed(input, i + 2),
            Some(c) => if c == '\'' || c == '\n' {
                malformed(input, i + 2)
            } else if c != '\\' {
                symbol_close(input, c, i + 2)
            } else {
                match char_at(input, i + 2) {
                    None => malformed(input, i + 3),
                    Some(e) => if e == 'n' {
                        symbol_close(input, '\n', i + 3)
                    } else if e == '\'' || e == '\\' {
                        symbol_close(input, e, i + 3)
                    } else {
                        match code_point(
                            hex_digit_value(e),
                            digit_at(input, i + 3),
                            digit_at(input, i + 4),
                            digit_at(input, i + 5),
                        ) {
                            Some(ch) => symbol_close(input, ch, i + 6),
                            None => malformed(input, i + 6),
                        }
                    },
                }
            },
        }
    }
}

/// The reserved words.
pub open spec fn is_keyword(text: Seq<char>) -> bool {
    text == "z"@ || text == "for"@ || text == "forward"@
}

/// A name is cut off once it has this many characters.
pub const NAME_CAP: usize = 10;

/// The index behind the last alphabetic character among those at `lo + 1`
/// up to `hi - 1`; `lo + 1` where there is none, the character at `lo` being
/// the alphabetic one that opens the name.
pub open spec fn last_alphabetic(input: Seq<char>, lo: int, hi: int) -> int
    decreases hi - lo,
{
    if hi <= lo + 1 {
        lo + 1
    } else if alphabetic(input[hi - 1]) {
        hi
    } else {
        last_alphabetic(input, lo, hi - 1)
    }
}

/// Where the greedy reading of a name that starts at `i` stops: at the end
/// of the run of alphabetic characters and digits, or after `NAME_CAP`
/// characters if the run is longer.
pub open spec fn name_stop(input: Seq<char>, i: int) -> int {
    let e = run_end(input, i + 1, CharClass::Name);
    if e <= i + NAME_CAP {
        e
    } else {
        i + NAME_CAP
    }
}

/// An identifier or a keyword at index `i`. The name is read greedily up to
/// [`name_stop`] and then cut back to its last alphabetic character. What is
/// left is a keyword if it is a reserved word, an identifier if it has at
/// least two characters, and malformed otherwise; a malformed attempt leaves
/// the cursor where the greedy reading stopped.
pub open spec fn identifier_or_key_scan(input: Seq<char>, i: int) -> Scan {
    if 0 <= i < input.len() && alphabetic(input[i]) {
        let stop = name_stop(input, i);
        let last = last_alphabetic(input, i, stop);
        let text = input.subrange(i, last);
        if is_keyword(text) {
            Scan { value: TokenValue::Key(text), end: last }
        } else if text.len() >= 2 {
            Scan { value: TokenValue::Identifier(text), end: last }
        } else {
            Scan { value: TokenValue::SimpleError, end: stop }
        }
    } else {
        malformed(input, i + 1)
    }
}

/// The cut of a name lies behind its first character and not behind the
/// stop; the character just before it is alphabetic, and no character
/// between it and the stop is.
pub proof fn lemma_last_alphabetic(input: Seq<char>, lo: int, hi: int)
    requires
        0 <= lo < hi <= input.len(),
        alphabetic(input[lo]),
    ensures
        lo < last_alphabetic(input, lo, hi) <= hi,
        alphabetic(input[last_alphabetic(input, lo, hi) - 1]),
        forall|k: int|
            last_alphabetic(input, lo, hi) <= k < hi ==> !alphabetic(#[trigger] input[k]),
    decreases hi - lo,
{
    if hi > lo + 1 && !alphabetic(input[hi - 1]) {
        lemma_last_alphabetic(input, lo, hi - 1);
    }
}

} // verus!
