//! The scanner: the recognizers on a cursor, and the dispatch that turns
//! their results into tokens.

use vstd::prelude::*;
use crate::chars::code_point;
use crate::chars::decimal_digit;
use crate::chars::hex_digit_value;
use crate::chars::space;
use crate::chars::to_digit_16;
use crate::chars::CharClass;
use crate::config::Dialect;
use crate::config::ScanConfig;
use crate::cursor::CursorView;
use crate::cursor::SmartIterator;
use crate::dispatch::attempt;
use crate::dispatch::lemma_attempt_progress;
use crate::dispatch::recognize;
use crate::dispatch::recognizer_for;
use crate::dispatch::request;
use crate::dispatch::Lexeme;
use crate::dispatch::Outcome;
use crate::dispatch::Recognizer;
use crate::grammar::behind;
use crate::grammar::digit_at;
use crate::grammar::hex_number_scan;
use crate::grammar::identifier_or_key_scan;
use crate::grammar::identifier_scan;
use crate::grammar::is_keyword;
use crate::grammar::last_alphabetic;
use crate::grammar::lemma_behind_led_by;
use crate::grammar::lemma_run_end;
use crate::grammar::lemma_run_end_from_within;
use crate::grammar::malformed;
use crate::grammar::name_stop;
use crate::grammar::number_scan;
use crate::grammar::run_end;
use crate::grammar::spaces_scan;
use crate::grammar::symbol_scan;
use crate::grammar::text_body;
use crate::grammar::text_scan;
use crate::grammar::NAME_CAP;
use crate::grammar::Scan;
use crate::numbers::accumulate;
use crate::numbers::lemma_accumulate;
use crate::numbers::lemma_wrap_fits;
use crate::numbers::radix_of;
use crate::numbers::radix_value;
use crate::numbers::wrap_i64;
use crate::std_ext::alphabetic;
use crate::stream::lemma_request;
use crate::stream::stream;
use crate::stream::tokens_of;
use crate::token::Token;
use crate::token::TokenType;
use crate::token::TokenValue;
use crate::token::TokenView;

verus! {

/// What a scanner is, to the specifications.
pub struct ScannerView {
    pub cursor: CursorView,
    pub config: ScanConfig,
    /// The end-of-input token has been handed out.
    pub ended: bool,
}

impl ScannerView {
    /// What the next request for a token yields.
    pub open spec fn outcome(self) -> Outcome {
        request(self.cursor.input, self.config, self.cursor.ind, self.ended)
    }

    /// The scanner after a request that yielded `o`.
    pub open spec fn after(self, o: Outcome) -> ScannerView {
        ScannerView {
            cursor: CursorView::at(self.cursor.input, o.ind),
            config: self.config,
            ended: o.ended,
        }
    }

    /// The tokens that the scanner has yet to hand out, each with its range.
    pub open spec fn lexemes(self) -> Seq<Lexeme> {
        stream(self.cursor.input, self.config, self.cursor.ind, self.ended)
    }

    /// The tokens that the scanner has yet to hand out.
    pub open spec fn tokens(self) -> Seq<TokenView> {
        tokens_of(self.lexemes())
    }

    /// The same scanner with its cursor at index `ind`.
    pub open spec fn moved_to(self, ind: int) -> ScannerView {
        ScannerView { cursor: CursorView::at(self.cursor.input, ind), ..self }
    }

    /// The scanner `after` and the value `value` are what the recognizer
    /// outcome `scan` leaves of this scanner.
    pub open spec fn scanned(self, after: ScannerView, value: TokenValue, scan: Scan) -> bool {
        after == self.moved_to(scan.end) && value == scan.value
    }
}

/// A scanner over one input.
#[derive(Debug)]
pub struct ParseToken {
    cursor: SmartIterator,
    config: ScanConfig,
    ended: bool,
}

impl View for ParseToken {
    type V = ScannerView;

    closed spec fn view(&self) -> ScannerView {
        ScannerView { cursor: self.cursor@, config: self.config, ended: self.ended }
    }
}

/// The views of the tokens: `None` for no token.
pub open spec fn token_view(t: Option<Token>) -> Option<TokenView> {
    match t {
        Some(t) => Some(t@),
        None => None,
    }
}

/// The views of a sequence of tokens.
pub open spec fn token_views(v: Seq<Token>) -> Seq<TokenView> {
    Seq::new(v.len(), |k: int| v[k]@)
}

/// The recognizer that reads at the character `c`, which is alphabetic or
/// not as `alpha` says.
pub fn select(dialect: Dialect, c: char, alpha: bool) -> (r: Recognizer)
    ensures
        r == recognizer_for(dialect, c, alpha),
{
    if space(c) {
        Recognizer::Spaces
    } else {
        match dialect {
            Dialect::Numeric => if c == '"' {
                Recognizer::Text
            } else if decimal_digit(c) {
                Recognizer::Number
            } else if c == '$' {
                Recognizer::HexNumber
            } else if alpha {
                Recognizer::Identifier
            } else {
                Recognizer::Nothing
            },
            Dialect::Symbolic => if c == '\'' {
                Recognizer::Symbol
            } else if alpha {
                Recognizer::IdentifierOrKey
            } else {
                Recognizer::Nothing
            },
        }
    }
}

/// Tells whether two texts hold the same characters.
fn same_text(a: &str, b: &str) -> (r: bool)
    ensures
        r == (a@ == b@),
{
    let n = a.unicode_len();
    if b.unicode_len() != n {
        return false;
    }
    let mut k: usize = 0;
    while k < n
        invariant
            n == a@.len(),
            n == b@.len(),
            k <= n,
            forall|j: int| 0 <= j < k ==> a@[j] == b@[j],
        decreases n - k,
    {
        if a.get_char(k) != b.get_char(k) {
            return false;
        }
        k += 1;
    }
    assert(a@ =~= b@);
    true
}

/// Tells whether `text` is one of the reserved words.
pub fn keyword(text: &str) -> (r: bool)
    ensures
        r == is_keyword(text@),
{
    same_text(text, "z") || same_text(text, "for") || same_text(text, "forward")
}

impl ParseToken {
    /// The cursor is well-formed.
    pub open spec fn wf(&self) -> bool {
        self@.cursor.wf()
    }

    /// A scanner that reads from `cursor` as `config` says.
    pub fn new(cursor: SmartIterator, config: ScanConfig) -> (r: Self)
        ensures
            r@ == (ScannerView { cursor: cursor@, config, ended: false }),
    {
        Self { cursor, config, ended: false }
    }

    /// Runs the recognizer `r` at the read index.
    pub fn run(&mut self, r: Recognizer) -> (t: TokenType)
        requires
            old(self).wf(),
        ensures
            final(self).wf(),
            old(self)@.scanned(
                final(self)@,
                t@,
                recognize(r, old(self)@.cursor.input, old(self)@.cursor.ind),
            ),
    {
        match r {
            Recognizer::Spaces => self.next_spaces(),
            Recognizer::Text => self.next_string(),
            Recognizer::Symbol => self.next_symbol(),
            Recognizer::Number => self.next_number(),
            Recognizer::HexNumber => self.next_number16(),
            Recognizer::Identifier => self.next_identifier(),
            Recognizer::IdentifierOrKey => self.next_identifier_or_key(),
            Recognizer::Nothing => TokenType::SimpleError,
        }
    }

    /// The next token of the stream, or `None` once the stream has ended:
    /// see [`request`].
    pub fn next(&mut self) -> (t: Option<Token>)
        requires
            old(self).wf(),
        ensures
            final(self).wf(),
            final(self)@ == old(self)@.after(old(self)@.outcome()),
            token_view(t) == (match old(self)@.outcome().emitted {
                Some(l) => Some(l.token),
                None => None,
            }),
    {
        let ghost input = self@.cursor.input;
        let ghost cur = self@.cursor.ind;
        loop
            invariant
                self.wf(),
                self@ == old(self)@.moved_to(cur),
                input == old(self)@.cursor.input,
                0 <= cur <= input.len(),
                self@.outcome() == old(self)@.outcome(),
            decreases input.len() - cur,
        {
            let l = match self.cursor.see() {
                Some(l) => l,
                None => {
                    if self.config.emit_end_of_input && !self.ended {
                        self.ended = true;
                        let at = self.cursor.pos();
                        return Some(Token { from: at, to: at, value: TokenType::End });
                    } else {
                        return None;
                    }
                },
            };
            let save = self.cursor.save_pos();
            let token = self.run(select(self.config.dialect, l, l.is_alphabetic()));
            proof {
                lemma_attempt_progress(self.config.dialect, input, cur);
            }
            if matches!(token, TokenType::SimpleError) {
                self.cursor.load_pos(save);
                if self.config.skip_errors {
                    self.cursor.next();
                    proof {
                        cur = cur + 1;
                    }
                } else {
                    let at = self.cursor.pos();
                    self.cursor.next();
                    return Some(Token { from: at, to: at, value: TokenType::Error(l) });
                }
            } else if matches!(token, TokenType::Spaces(_)) && !self.config.retain_whitespace {
                proof {
                    cur = attempt(self.config.dialect, input, cur).end;
                }
            } else {
                return Some(Token { from: save.pos, to: self.cursor.prev_pos(), value: token });
            }
        }
    }

    /// All the tokens that are left, in the order in which [`Self::next`]
    /// hands them out. The stream has ended afterwards.
    pub fn tokens(&mut self) -> (v: Vec<Token>)
        requires
            old(self).wf(),
        ensures
            final(self).wf(),
            token_views(v@) == old(self)@.tokens(),
            final(self)@.outcome().emitted is None,
            final(self)@.cursor.input == old(self)@.cursor.input,
            final(self)@.config == old(self)@.config,
    {
        let mut v: Vec<Token> = Vec::new();
        assert(token_views(v@) + self@.tokens() =~= old(self)@.tokens());
        loop
            invariant
                self.wf(),
                self@.cursor.input == old(self)@.cursor.input,
                self@.config == old(self)@.config,
                token_views(v@) + self@.tokens() == old(self)@.tokens(),
            ensures
                self.wf(),
                self@.cursor.input == old(self)@.cursor.input,
                self@.config == old(self)@.config,
                token_views(v@) == old(self)@.tokens(),
                self@.outcome().emitted is None,
            decreases
                    self@.cursor.input.len() - self@.cursor.ind,
                    (if self@.ended {
                        0int
                    } else {
                        1int
                    }),
        {
            let ghost before = self@;
            let ghost seen = token_views(v@);
            proof {
                lemma_request(before.cursor.input, before.config, before.cursor.ind, before.ended);
            }
            match self.next() {
                Some(t) => {
                    v.push(t);
                    assert(token_views(v@) =~= seen.push(t@));
                    assert(before.tokens() =~= seq![t@] + self@.tokens());
                    assert(seen + (seq![t@] + self@.tokens()) =~= seen.push(t@) + self@.tokens());
                },
                None => {
                    assert(before.tokens() =~= Seq::<TokenView>::empty());
                    assert(seen + Seq::<TokenView>::empty() =~= seen);
                    break ;
                },
            }
        }
        v
    }

    /// Reads whitespace: see [`spaces_scan`]. This never fails.
    pub fn next_spaces(&mut self) -> (t: TokenType)
        requires
            old(self).wf(),
        ensures
            final(self).wf(),
            old(self)@.scanned(
                final(self)@,
                t@,
                spaces_scan(old(self)@.cursor.input, old(self)@.cursor.ind),
            ),
    {
        let ghost input = self@.cursor.input;
        let ghost start = self@.cursor.ind;
        let ghost cur = start;
        let mut ans = String::new();
        assert(ans@ =~= input.subrange(start, cur));
        loop
            invariant
                self.cursor.wf(),
                self@ == old(self)@.moved_to(cur),
                input == old(self)@.cursor.input,
                start == old(self)@.cursor.ind,
                0 <= start <= cur <= input.len(),
                forall|k: int| start <= k < cur ==> CharClass::Space.holds(#[trigger] input[k]),
                ans@ == input.subrange(start, cur),
            ensures
                cur == run_end(input, start, CharClass::Space),
            decreases input.len() - cur,
        {
            proof {
                lemma_run_end_from_within(input, start, cur, CharClass::Space);
            }
            match self.cursor.see() {
                Some(s) => {
                    if space(s) {
                        ans.push(s);
                        self.cursor.next();
                        proof {
                            cur = cur + 1;
                        }
                        assert(ans@ =~= input.subrange(start, cur));
                    } else {
                        break ;
                    }
                },
                None => {
                    break ;
                },
            }
        }
        TokenType::Spaces(ans)
    }

    /// Reads a string literal: see [`text_scan`].
    pub fn next_string(&mut self) -> (t: TokenType)
        requires
            old(self).wf(),
        ensures
            final(self).wf(),
            old(self)@.scanned(
                final(self)@,
                t@,
                text_scan(old(self)@.cursor.input, old(self)@.cursor.ind),
            ),
    {
        let ghost input = self@.cursor.input;
        let ghost start = self@.cursor.ind;
        if self.cursor.next() != Some('"') {
            return TokenType::SimpleError;
        }
        let ghost cur = start + 1;
        let mut ans = String::new();
        loop
            invariant
                self.cursor.wf(),
                self@ == old(self)@.moved_to(cur),
                input == old(self)@.cursor.input,
                start == old(self)@.cursor.ind,
                0 <= start < cur <= input.len(),
                text_scan(input, start) == behind(ans@, text_body(input, cur)),
            decreases input.len() - cur,
        {
            match self.cursor.next() {
                None => {
                    return TokenType::SimpleError;
                },
                Some(c) => {
                    if c == '\n' {
                        return TokenType::SimpleError;
                    } else if c == '"' {
                        if self.cursor.see() == Some('"') {
                            self.cursor.next();
                            proof {
                                lemma_behind_led_by(ans@, '"', text_body(input, cur + 2));
                                cur = cur + 2;
                            }
                            ans.push('"');
                        } else {
                            assert(ans@ + Seq::<char>::empty() =~= ans@);
                            return TokenType::Text(ans);
                        }
                    } else if c == '\\' {
                        if self.cursor.see() == Some('\n') {
                            self.cursor.next();
                            proof {
                                lemma_behind_led_by(ans@, '\n', text_body(input, cur + 2));
                                cur = cur + 2;
                            }
                            ans.push('\n');
                        } else {
                            proof {
                                lemma_behind_led_by(ans@, '\\', text_body(input, cur + 1));
                                cur = cur + 1;
                            }
                            ans.push('\\');
                        }
                    } else {
                        proof {
                            lemma_behind_led_by(ans@, c, text_body(input, cur + 1));
                            cur = cur + 1;
                        }
                        ans.push(c);
                    }
                },
            }
        }
    }

    /// Reads a decimal number: see [`number_scan`]. This never fails.
    pub fn next_number(&mut self) -> (t: TokenType)
        requires
            old(self).wf(),
        ensures
            final(self).wf(),
            old(self)@.scanned(
                final(self)@,
                t@,
                number_scan(old(self)@.cursor.input, old(self)@.cursor.ind),
            ),
    {
        let value = self.next_digits(CharClass::Decimal);
        TokenType::Number(value)
    }

    /// Reads a hexadecimal number: see [`hex_number_scan`].
    pub fn next_number16(&mut self) -> (t: TokenType)
        requires
            old(self).wf(),
        ensures
            final(self).wf(),
            old(self)@.scanned(
                final(self)@,
                t@,
                hex_number_scan(old(self)@.cursor.input, old(self)@.cursor.ind),
            ),
    {
        if self.cursor.next() != Some('$') {
            return TokenType::SimpleError;
        }
        match self.cursor.see() {
            Some(c) => {
                if to_digit_16(c).is_none() {
                    return TokenType::SimpleError;
                }
            },
            None => {
                return TokenType::SimpleError;
            },
        }
        let value = self.next_digits(CharClass::Hex);
        proof {
            lemma_run_end(old(self)@.cursor.input, old(self)@.cursor.ind + 2, CharClass::Hex);
        }
        TokenType::Number(value)
    }

    /// Reads the longest run of digits of `class`, which is `Decimal` or
    /// `Hex`, and returns the number that they write, reduced to 64 bits.
    fn next_digits(&mut self, class: CharClass) -> (value: i64)
        requires
            old(self).wf(),
            class is Decimal || class is Hex,
        ensures
            final(self).wf(),
            final(self)@ == old(self)@.moved_to(
                run_end(old(self)@.cursor.input, old(self)@.cursor.ind, class),
            ),
            value == wrap_i64(
                radix_value(
                    old(self)@.cursor.input.subrange(
                        old(self)@.cursor.ind,
                        run_end(old(self)@.cursor.input, old(self)@.cursor.ind, class),
                    ),
                    radix_of(class) as int,
                ),
            ),
    {
        let ghost input = self@.cursor.input;
        let ghost start = self@.cursor.ind;
        let ghost cur = start;
        let radix: i64 = match class {
            CharClass::Decimal => 10,
            _ => 16,
        };
        let mut value: i64 = 0;
        proof {
            lemma_wrap_fits(0);
            assert(input.subrange(start, cur).len() == 0);
        }
        loop
            invariant
                self.cursor.wf(),
                self@ == old(self)@.moved_to(cur),
                input == old(self)@.cursor.input,
                start == old(self)@.cursor.ind,
                0 <= start <= cur <= input.len(),
                class is Decimal || class is Hex,
                radix == radix_of(class),
                forall|k: int| start <= k < cur ==> class.holds(#[trigger] input[k]),
                value == wrap_i64(radix_value(input.subrange(start, cur), radix as int)),
            ensures
                cur == run_end(input, start, class),
            decreases input.len() - cur,
        {
            proof {
                lemma_run_end_from_within(input, start, cur, class);
            }
            let digit = match self.cursor.see() {
                Some(c) => {
                    match class {
                        CharClass::Decimal => if decimal_digit(c) {
                            to_digit_16(c)
                        } else {
                            None
                        },
                        _ => to_digit_16(c),
                    }
                },
                None => None,
            };
            match digit {
                Some(d) => {
                    proof {
                        let before = input.subrange(start, cur);
                        let after = input.subrange(start, cur + 1);
                        assert(after.drop_last() =~= before);
                        assert(after.last() == input[cur]);
                        lemma_accumulate(radix_value(before, radix as int), radix, d as i64);
                        cur = cur + 1;
                    }
                    value = accumulate(value, radix, d);
                    self.cursor.next();
                },
                None => {
                    break ;
                },
            }
        }
        value
    }

    /// Reads an identifier: see [`identifier_scan`].
    pub fn next_identifier(&mut self) -> (t: TokenType)
        requires
            old(self).wf(),
        ensures
            final(self).wf(),
            old(self)@.scanned(
                final(self)@,
                t@,
                identifier_scan(old(self)@.cursor.input, old(self)@.cursor.ind),
            ),
    {
        let ghost input = self@.cursor.input;
        let ghost start = self@.cursor.ind;
        let first = match self.cursor.next() {
            Some(x) => if x.is_alphabetic() {
                x
            } else {
                return TokenType::SimpleError;
            },
            None => {
                return TokenType::SimpleError;
            },
        };
        let ghost cur = start + 1;
        let mut ans = String::new();
        ans.push(first);
        assert(ans@ =~= input.subrange(start, cur));
        loop
            invariant
                self.cursor.wf(),
                self@ == old(self)@.moved_to(cur),
                input == old(self)@.cursor.input,
                start == old(self)@.cursor.ind,
                0 <= start < cur <= input.len(),
                forall|k: int|
                    start < k < cur ==> CharClass::DollarName.holds(#[trigger] input[k]),
                ans@ == input.subrange(start, cur),
            ensures
                cur == run_end(input, start + 1, CharClass::DollarName),
            decreases input.len() - cur,
        {
            proof {
                lemma_run_end_from_within(input, start + 1, cur, CharClass::DollarName);
            }
            match self.cursor.see() {
                Some(x) => {
                    if x.is_alphabetic() || decimal_digit(x) || x == '$' {
                        ans.push(x);
                        self.cursor.next();
                        proof {
                            cur = cur + 1;
                        }
                        assert(ans@ =~= input.subrange(start, cur));
                    } else {
                        break ;
                    }
                },
                None => {
                    break ;
                },
            }
        }
        TokenType::Identifier(ans)
    }

    /// Reads the last three of the four hexadecimal digits of an escape
    /// whose first digit is `x`, and returns the character that the four
    /// digits write, if they write one. The three characters are read
    /// whatever they are.
    pub fn next_number16_4(&mut self, x: char) -> (c: Option<char>)
        requires
            old(self).wf(),
        ensures
            final(self).wf(),
            final(self)@ == old(self)@.moved_to(malformed(
                old(self)@.cursor.input,
                old(self)@.cursor.ind + 3,
            ).end),
            c == code_point(
                hex_digit_value(x),
                digit_at(old(self)@.cursor.input, old(self)@.cursor.ind),
                digit_at(old(self)@.cursor.input, old(self)@.cursor.ind + 1),
                digit_at(old(self)@.cursor.input, old(self)@.cursor.ind + 2),
            ),
    {
        let d1 = to_digit_16(x);
        let d2 = match self.cursor.next() {
            Some(c) => to_digit_16(c),
            None => None,
        };
        let d3 = match self.cursor.next() {
            Some(c) => to_digit_16(c),
            None => None,
        };
        let d4 = match self.cursor.next() {
            Some(c) => to_digit_16(c),
            None => None,
        };
        match (d1, d2, d3, d4) {
            (Some(x1), Some(x2), Some(x3), Some(x4)) => char::from_u32(
                ((x1 * 16 + x2) * 16 + x3) * 16 + x4,
            ),
            _ => None,
        }
    }

    /// Reads a character literal: see [`symbol_scan`].
    pub fn next_symbol(&mut self) -> (t: TokenType)
        requires
            old(self).wf(),
        ensures
            final(self).wf(),
            old(self)@.scanned(
                final(self)@,
                t@,
                symbol_scan(old(self)@.cursor.input, old(self)@.cursor.ind),
            ),
    {
        if self.cursor.next() != Some('\'') {
            return TokenType::SimpleError;
        }
        let content = match self.cursor.next() {
            None => None,
            Some(c) => if c == '\'' || c == '\n' {
                None
            } else if c != '\\' {
                Some(c)
            } else {
                match self.cursor.next() {
                    None => None,
                    Some(e) => if e == 'n' {
                        Some('\n')
                    } else if e == '\'' || e == '\\' {
                        Some(e)
                    } else {
                        self.next_number16_4(e)
                    },
                }
            },
        };
        match content {
            Some(ans) => if self.cursor.next() == Some('\'') {
                TokenType::Symbol(ans)
            } else {
                TokenType::SimpleError
            },
            None => TokenType::SimpleError,
        }
    }

    /// Reads an identifier or a keyword: see [`identifier_or_key_scan`].
    pub fn next_identifier_or_key(&mut self) -> (t: TokenType)
        requires
            old(self).wf(),
        ensures
            final(self).wf(),
            old(self)@.scanned(
                final(self)@,
                t@,
                identifier_or_key_scan(old(self)@.cursor.input, old(self)@.cursor.ind),
            ),
    {
        let ghost input = self@.cursor.input;
        let ghost start = self@.cursor.ind;
        if let Some(x) = self.cursor.next() {
            if x.is_alphabetic() {
                let mut ans = String::new();
                ans.push(x);
                let mut count: usize = 1;
                let mut save = self.cursor.save_pos();
                let mut saved = ans.clone();
                let mut saved_count: usize = 1;
                assert(ans@ =~= input.subrange(start, start + 1));
                loop
                    invariant_except_break
                        count < NAME_CAP,
                    invariant
                        self.cursor.wf(),
                        self@ == old(self)@.moved_to(start + count),
                        input == old(self)@.cursor.input,
                        start == old(self)@.cursor.ind,
                        0 <= start,
                        1 <= count <= NAME_CAP,
                        start + count <= input.len(),
                        alphabetic(input[start]),
                        forall|k: int| start < k < start + count ==> CharClass::Name.holds(#[trigger] input[k]),
                        ans@ == input.subrange(start, start + count),
                        save.ind == last_alphabetic(input, start, start + count),
                        self@.cursor.restored(save) == CursorView::at(input, save.ind as int),
                        saved@ == input.subrange(start, save.ind as int),
                        saved_count == save.ind - start,
                        start < save.ind <= start + count,
                    ensures
                        start + count == name_stop(input, start),
                    decreases NAME_CAP - count,
                {
                    proof {
                        lemma_run_end_from_within(input, start + 1, start + count, CharClass::Name);
                    }
                    match self.cursor.see() {
                        Some(x) => {
                            let alpha = x.is_alphabetic();
                            if alpha || decimal_digit(x) {
                                ans.push(x);
                                self.cursor.next();
                                count += 1;
                                assert(ans@ =~= input.subrange(start, start + count));
                                if alpha {
                                    save = self.cursor.save_pos();
                                    saved = ans.clone();
                                    saved_count = count;
                                }
                            } else {
                                break ;
                            }
                        },
                        None => {
                            break ;
                        },
                    }
                    if count == NAME_CAP {
                        proof {
                            lemma_run_end_from_within(
                                input,
                                start + 1,
                                start + count,
                                CharClass::Name,
                            );
                            lemma_run_end(input, start + count, CharClass::Name);
                        }
                        break ;
                    }
                }
                if keyword(saved.as_str()) {
                    self.cursor.load_pos(save);
                    TokenType::Key(saved)
                } else if saved_count >= 2 {
                    self.cursor.load_pos(save);
                    TokenType::Identifier(saved)
                } else {
                    TokenType::SimpleError
                }
            } else {
                TokenType::SimpleError
            }
        } else {
            TokenType::SimpleError
        }
    }
}

} // verus!
