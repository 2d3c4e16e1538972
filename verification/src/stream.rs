//! The whole stream of tokens that a scanner hands out, and what holds of
//! every such stream.

use vstd::prelude::*;
use crate::config::ScanConfig;
use crate::cursor::lemma_position_monotone;
use crate::cursor::place_le;
use crate::cursor::position_at;
use crate::dispatch::attempt;
use crate::dispatch::lemma_attempt_progress;
use crate::dispatch::request;
use crate::dispatch::Lexeme;
use crate::grammar::is_keyword;
use crate::scanner::ScannerView;
use crate::token::TokenValue;
use crate::token::TokenView;

verus! {

/// The tokens that repeated requests yield from index `i` on, each with its
/// range, up to the request that yields nothing.
pub open spec fn stream(input: Seq<char>, config: ScanConfig, i: int, ended: bool) -> Seq<Lexeme>
    decreases
            input.len() - i,
            (if ended {
                0int
            } else {
                1int
            }),
{
    let o = request(input, config, i, ended);
    match o.emitted {
        None => Seq::empty(),
        Some(l) => {
            if 0 <= i <= input.len() {
                proof {
                    lemma_request(input, config, i, ended);
                }
                seq![l] + stream(input, config, o.ind, o.ended)
            } else {
                seq![l]
            }
        },
    }
}

/// The tokens of a stream without their ranges.
pub open spec fn tokens_of(lexemes: Seq<Lexeme>) -> Seq<TokenView> {
    Seq::new(lexemes.len(), |k: int| lexemes[k].token)
}

/// The token of `l` lies where its range says: it begins at the place of
/// the first character of the range and ends at the place of the last. An
/// end-of-input token has an empty range at the end of the input, every
/// other token a range that is not empty.
pub open spec fn well_placed(l: Lexeme, input: Seq<char>) -> bool {
    &&& 0 <= l.start <= l.end <= input.len()
    &&& l.token.from == position_at(input, l.start)
    &&& !(l.token.value is SimpleError)
    &&& if l.token.value is End {
        l.start == input.len() && l.end == l.start && l.token.to == l.token.from
    } else {
        l.start < l.end && l.token.to == position_at(input, l.end - 1)
    }
}

/// What one request yields, made at an index `i` within the input or at its
/// end.
///
/// The scanner is left within the input and not before `i`. A token that is
/// handed out is well placed, its range begins at or behind `i`, and the
/// scanner is left at the end of that range. The end-of-input token comes
/// only at the end of input, only if the configuration asks for it and only
/// if it has not come before; no request yields nothing before that token is
/// due. Where whitespace is kept and errors are not skipped, the range of
/// the token begins at `i` itself.
pub proof fn lemma_request(input: Seq<char>, config: ScanConfig, i: int, ended: bool)
    requires
        0 <= i <= input.len(),
    ensures
        i <= request(input, config, i, ended).ind <= input.len(),
        match request(input, config, i, ended).emitted {
            None => {
                &&& request(input, config, i, ended).ind == input.len()
                &&& request(input, config, i, ended).ended == ended
                &&& ended || !config.emit_end_of_input
            },
            Some(l) => {
                &&& well_placed(l, input)
                &&& i <= l.start
                &&& l.end == request(input, config, i, ended).ind
                &&& config.retain_whitespace && !config.skip_errors ==> l.start == i
                &&& !config.retain_whitespace ==> !(l.token.value is Spaces)
                &&& config.skip_errors ==> !(l.token.value is Error)
                &&& if l.token.value is End {
                    &&& config.emit_end_of_input
                    &&& !ended
                    &&& request(input, config, i, ended).ended
                } else {
                    request(input, config, i, ended).ended == ended
                }
            },
        },
    decreases input.len() - i,
{
    if i < input.len() {
        lemma_attempt_progress(config.dialect, input, i);
        let scan = attempt(config.dialect, input, i);
        if scan.value is SimpleError {
            if config.skip_errors {
                lemma_request(input, config, i + 1, ended);
            }
        } else if scan.value is Spaces && !config.retain_whitespace {
            lemma_request(input, config, scan.end, ended);
        }
    }
}

/// The value of `l` is read from the characters of its range and from no
/// others: whitespace, identifiers and keywords hold the characters of the
/// range as they are, and an error token holds the one character of its
/// range.
pub open spec fn verbatim(l: Lexeme, input: Seq<char>) -> bool {
    match l.token.value {
        TokenValue::Spaces(t) => t == input.subrange(l.start, l.end),
        TokenValue::Identifier(t) => t == input.subrange(l.start, l.end),
        TokenValue::Key(t) => t == input.subrange(l.start, l.end) && is_keyword(t),
        TokenValue::Error(c) => l.end == l.start + 1 && c == input[l.start],
        _ => true,
    }
}

/// The token that a request hands out holds what its range of the input
/// holds.
pub proof fn lemma_request_verbatim(input: Seq<char>, config: ScanConfig, i: int, ended: bool)
    requires
        0 <= i <= input.len(),
    ensures
        request(input, config, i, ended).emitted matches Some(l) ==> verbatim(l, input),
    decreases input.len() - i,
{
    if i < input.len() {
        lemma_attempt_progress(config.dialect, input, i);
        let scan = attempt(config.dialect, input, i);
        if scan.value is SimpleError {
            if config.skip_errors {
                lemma_request_verbatim(input, config, i + 1, ended);
            }
        } else if scan.value is Spaces && !config.retain_whitespace {
            lemma_request_verbatim(input, config, scan.end, ended);
        }
    }
}

/// Scanning depends on nothing but the input, the configuration and how
/// far the scan has come: two scanners that agree in these yield the same
/// token at the next request, and the same tokens from there on.
pub proof fn lemma_same_scan_same_tokens(a: ScannerView, b: ScannerView)
    requires
        a.cursor.input == b.cursor.input,
        a.cursor.ind == b.cursor.ind,
        a.config == b.config,
        a.ended == b.ended,
    ensures
        a.outcome() == b.outcome(),
        a.lexemes() == b.lexemes(),
        a.tokens() == b.tokens(),
{
}

/// The characters of the input that the tokens of `lexemes` were read from,
/// range after range.
pub open spec fn covered(lexemes: Seq<Lexeme>, input: Seq<char>) -> Seq<char>
    decreases lexemes.len(),
{
    if lexemes.len() == 0 {
        Seq::empty()
    } else {
        input.subrange(lexemes[0].start, lexemes[0].end) + covered(lexemes.drop_first(), input)
    }
}

/// The ranges of `lexemes` follow one another without a gap or an overlap:
/// the first begins at `i`, each next one where the one before it ends.
pub open spec fn contiguous(lexemes: Seq<Lexeme>, i: int) -> bool {
    forall|k: int|
        0 <= k < lexemes.len() ==> (#[trigger] lexemes[k]).start == (if k == 0 {
            i
        } else {
            lexemes[k - 1].end
        })
}

/// Every token of a stream is well placed, and begins at or before the
/// place at which it ends.
pub proof fn lemma_stream_well_placed(input: Seq<char>, config: ScanConfig, i: int, ended: bool)
    requires
        0 <= i <= input.len(),
    ensures
        forall|k: int|
            0 <= k < stream(input, config, i, ended).len() ==> {
                &&& well_placed(#[trigger] stream(input, config, i, ended)[k], input)
                &&& place_le(
                    stream(input, config, i, ended)[k].token.from,
                    stream(input, config, i, ended)[k].token.to,
                )
            },
    decreases
            input.len() - i,
            (if ended {
                0int
            } else {
                1int
            }),
{
    lemma_request(input, config, i, ended);
    let o = request(input, config, i, ended);
    if let Some(l) = o.emitted {
        lemma_stream_well_placed(input, config, o.ind, o.ended);
        if !(l.token.value is End) {
            lemma_position_monotone(input, l.start, l.end - 1);
        }
        let rest = stream(input, config, o.ind, o.ended);
        assert forall|k: int| 0 <= k < stream(input, config, i, ended).len() implies {
            &&& well_placed(#[trigger] stream(input, config, i, ended)[k], input)
            &&& place_le(
                stream(input, config, i, ended)[k].token.from,
                stream(input, config, i, ended)[k].token.to,
            )
        } by {
            if k > 0 {
                assert(stream(input, config, i, ended)[k] == rest[k - 1]);
            }
        }
    }
}

/// With whitespace kept and errors handed out, the tokens of a stream walk
/// through the input from `i` to its end: their ranges follow one another
/// without a gap or an overlap, and the characters of the ranges, put
/// together, are the rest of the input.
pub proof fn lemma_stream_covers_input(input: Seq<char>, config: ScanConfig, i: int, ended: bool)
    requires
        0 <= i <= input.len(),
        config.retain_whitespace,
        !config.skip_errors,
    ensures
        contiguous(stream(input, config, i, ended), i),
        covered(stream(input, config, i, ended), input) == input.subrange(i, input.len() as int),
    decreases
            input.len() - i,
            (if ended {
                0int
            } else {
                1int
            }),
{
    lemma_request(input, config, i, ended);
    let o = request(input, config, i, ended);
    let s = stream(input, config, i, ended);
    match o.emitted {
        None => {
            assert(input.subrange(i, input.len() as int) =~= Seq::<char>::empty());
        },
        Some(l) => {
            lemma_stream_covers_input(input, config, o.ind, o.ended);
            let rest = stream(input, config, o.ind, o.ended);
            assert(s.drop_first() =~= rest);
            assert(input.subrange(i, l.end) + input.subrange(l.end, input.len() as int)
                =~= input.subrange(i, input.len() as int));
            assert forall|k: int| 0 <= k < s.len() implies (#[trigger] s[k]).start == (if k == 0 {
                i
            } else {
                s[k - 1].end
            }) by {
                if k > 0 {
                    assert(s[k] == rest[k - 1]);
                    if k > 1 {
                        assert(s[k - 1] == rest[k - 2]);
                    }
                }
            }
        },
    }
}

/// A stream for which the end of input is to be marked holds exactly one
/// end-of-input token, and that token is its last. A stream for which it is
/// not to be marked holds none.
pub proof fn lemma_stream_end(input: Seq<char>, config: ScanConfig, i: int, ended: bool)
    requires
        0 <= i <= input.len(),
    ensures
        config.emit_end_of_input && !ended ==> {
            &&& stream(input, config, i, ended).len() >= 1
            &&& stream(input, config, i, ended).last().token.value is End
        },
        !config.emit_end_of_input || ended ==> forall|k: int|
            0 <= k < stream(input, config, i, ended).len() ==> !((#[trigger] stream(
                input,
                config,
                i,
                ended,
            )[k]).token.value is End),
        forall|k: int|
            0 <= k < stream(input, config, i, ended).len() - 1 ==> !((#[trigger] stream(
                input,
                config,
                i,
                ended,
            )[k]).token.value is End),
    decreases
            input.len() - i,
            (if ended {
                0int
            } else {
                1int
            }),
{
    lemma_request(input, config, i, ended);
    let o = request(input, config, i, ended);
    let s = stream(input, config, i, ended);
    if let Some(l) = o.emitted {
        lemma_stream_end(input, config, o.ind, o.ended);
        let rest = stream(input, config, o.ind, o.ended);
        assert(s =~= seq![l] + rest);
        if l.token.value is End {
            lemma_request(input, config, o.ind, o.ended);
            assert(rest.len() == 0);
        } else if config.emit_end_of_input && !ended {
            assert(s.last() == rest.last());
        }
        assert forall|k: int| 0 <= k < s.len() - 1 implies !((#[trigger] s[k]).token.value is End) by {
            if k > 0 {
                assert(s[k] == rest[k - 1]);
            }
        }
        if !config.emit_end_of_input || ended {
            assert forall|k: int| 0 <= k < s.len() implies !((#[trigger] s[k]).token.value is End) by {
                if k > 0 {
                    assert(s[k] == rest[k - 1]);
                }
            }
        }
    }
}

} // verus!
