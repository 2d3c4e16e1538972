use lexer::config::Dialect;
use lexer::config::ScanConfig;
use lexer::cursor::SmartIterator;
use lexer::scanner::ParseToken;
use lexer::token::Token;
use lexer::token::TokenType;

fn scanner(input: &str, config: ScanConfig) -> ParseToken {
    ParseToken::new(SmartIterator::new(String::from(input)), config)
}

fn symbolic(input: &str) -> Vec<Token> {
    scanner(input, ScanConfig::new(Dialect::Symbolic)).tokens()
}

fn numeric(input: &str) -> Vec<Token> {
    scanner(input, ScanConfig::new(Dialect::Numeric)).tokens()
}

fn everything(dialect: Dialect) -> ScanConfig {
    ScanConfig { retain_whitespace: true, skip_errors: false, emit_end_of_input: true, dialect }
}

fn tok(from: (usize, usize), to: (usize, usize), value: TokenType) -> Token {
    Token { from, to, value }
}

fn text(s: &str) -> String {
    String::from(s)
}

/// The characters of `input` between the places `from` and `to`, both
/// included, found by walking through the input.
fn slice_by_places(input: &str, from: (usize, usize), to: (usize, usize)) -> String {
    let mut out = String::new();
    let mut place = (1, 1);
    let mut inside = false;
    for c in input.chars() {
        if place == from {
            inside = true;
        }
        if inside {
            out.push(c);
        }
        if place == to {
            inside = false;
        }
        place = if c == '\n' { (place.0 + 1, 1) } else { (place.0, place.1 + 1) };
    }
    out
}

#[test]
fn standard_configuration() {
    let c = ScanConfig::new(Dialect::Symbolic);
    assert!(!c.retain_whitespace);
    assert!(!c.skip_errors);
    assert!(c.emit_end_of_input);
    assert_eq!(c.dialect, Dialect::Symbolic);
    assert_eq!(ScanConfig::new(Dialect::Numeric).dialect, Dialect::Numeric);
}

#[test]
fn decimal_literal_with_leading_zeros() {
    assert_eq!(
        numeric("0042"),
        vec![tok((1, 1), (1, 4), TokenType::Number(42)), tok((1, 5), (1, 5), TokenType::End)]
    );
}

#[test]
fn hexadecimal_literal() {
    assert_eq!(
        numeric("$2A"),
        vec![tok((1, 1), (1, 3), TokenType::Number(42)), tok((1, 4), (1, 4), TokenType::End)]
    );
}

#[test]
fn dollar_alone_is_an_error_character() {
    assert_eq!(
        numeric("$"),
        vec![tok((1, 1), (1, 1), TokenType::Error('$')), tok((1, 2), (1, 2), TokenType::End)]
    );
}

#[test]
fn string_with_doubled_quote() {
    assert_eq!(
        numeric("\"a\"\"b\""),
        vec![
            tok((1, 1), (1, 6), TokenType::Text(text("a\"b"))),
            tok((1, 7), (1, 7), TokenType::End),
        ]
    );
}

#[test]
fn character_literal_with_hex_escape() {
    assert_eq!(
        symbolic("'\\0041'"),
        vec![tok((1, 1), (1, 7), TokenType::Symbol('A')), tok((1, 8), (1, 8), TokenType::End)]
    );
}

#[test]
fn character_literal_broken_by_newline() {
    assert_eq!(
        symbolic("'\\\n"),
        vec![
            tok((1, 1), (1, 1), TokenType::Error('\'')),
            tok((1, 2), (1, 2), TokenType::Error('\\')),
            tok((2, 1), (2, 1), TokenType::End),
        ]
    );
}

#[test]
fn identifier_is_the_longest_stopping_point() {
    assert_eq!(
        symbolic("forx"),
        vec![
            tok((1, 1), (1, 4), TokenType::Identifier(text("forx"))),
            tok((1, 5), (1, 5), TokenType::End),
        ]
    );
}

#[test]
fn keyword_before_whitespace() {
    assert_eq!(
        symbolic("for 1"),
        vec![
            tok((1, 1), (1, 3), TokenType::Key(text("for"))),
            tok((1, 5), (1, 5), TokenType::Error('1')),
            tok((1, 6), (1, 6), TokenType::End),
        ]
    );
}

#[test]
fn keyword_at_its_own_length_before_digits() {
    assert_eq!(
        symbolic("forward12"),
        vec![
            tok((1, 1), (1, 7), TokenType::Key(text("forward"))),
            tok((1, 8), (1, 8), TokenType::Error('1')),
            tok((1, 9), (1, 9), TokenType::Error('2')),
            tok((1, 10), (1, 10), TokenType::End),
        ]
    );
}

#[test]
fn single_letter_is_an_error_unless_reserved() {
    assert_eq!(
        symbolic("a z"),
        vec![
            tok((1, 1), (1, 1), TokenType::Error('a')),
            tok((1, 3), (1, 3), TokenType::Key(text("z"))),
            tok((1, 4), (1, 4), TokenType::End),
        ]
    );
}

#[test]
fn malformed_identifier_is_rolled_back_to_its_first_character() {
    assert_eq!(
        symbolic("a12"),
        vec![
            tok((1, 1), (1, 1), TokenType::Error('a')),
            tok((1, 2), (1, 2), TokenType::Error('1')),
            tok((1, 3), (1, 3), TokenType::Error('2')),
            tok((1, 4), (1, 4), TokenType::End),
        ]
    );
}

#[test]
fn long_name_is_cut_after_ten_characters() {
    assert_eq!(
        symbolic("abcdefghijklmno"),
        vec![
            tok((1, 1), (1, 10), TokenType::Identifier(text("abcdefghij"))),
            tok((1, 11), (1, 15), TokenType::Identifier(text("klmno"))),
            tok((1, 16), (1, 16), TokenType::End),
        ]
    );
}

#[test]
fn end_of_input_comes_exactly_once() {
    let mut p = scanner("ab", ScanConfig::new(Dialect::Symbolic));
    assert_eq!(p.next(), Some(tok((1, 1), (1, 2), TokenType::Identifier(text("ab")))));
    assert_eq!(p.next(), Some(tok((1, 3), (1, 3), TokenType::End)));
    assert_eq!(p.next(), None);
    assert_eq!(p.next(), None);
}

#[test]
fn end_of_input_of_empty_input() {
    assert_eq!(symbolic(""), vec![tok((1, 1), (1, 1), TokenType::End)]);
    assert_eq!(numeric(""), vec![tok((1, 1), (1, 1), TokenType::End)]);
    let mut p = scanner("", ScanConfig::new(Dialect::Numeric));
    assert_eq!(p.next(), Some(tok((1, 1), (1, 1), TokenType::End)));
    assert_eq!(p.next(), None);
}

#[test]
fn end_of_input_can_be_left_out() {
    let config = ScanConfig { emit_end_of_input: false, ..ScanConfig::new(Dialect::Symbolic) };
    assert_eq!(scanner("", config).tokens(), vec![]);
    assert_eq!(
        scanner("ab ", config).tokens(),
        vec![tok((1, 1), (1, 2), TokenType::Identifier(text("ab")))]
    );
    let mut p = scanner("ab", config);
    assert_eq!(p.next(), Some(tok((1, 1), (1, 2), TokenType::Identifier(text("ab")))));
    assert_eq!(p.next(), None);
    assert_eq!(p.next(), None);
}

#[test]
fn end_of_input_only_behind_whitespace() {
    assert_eq!(symbolic(" \n\t"), vec![tok((2, 2), (2, 2), TokenType::End)]);
}

#[test]
fn whitespace_is_dropped_by_default() {
    assert_eq!(
        symbolic("ab  cd"),
        vec![
            tok((1, 1), (1, 2), TokenType::Identifier(text("ab"))),
            tok((1, 5), (1, 6), TokenType::Identifier(text("cd"))),
            tok((1, 7), (1, 7), TokenType::End),
        ]
    );
}

#[test]
fn whitespace_is_kept_on_demand() {
    assert_eq!(
        scanner("ab \n cd", everything(Dialect::Symbolic)).tokens(),
        vec![
            tok((1, 1), (1, 2), TokenType::Identifier(text("ab"))),
            tok((1, 3), (2, 1), TokenType::Spaces(text(" \n "))),
            tok((2, 2), (2, 3), TokenType::Identifier(text("cd"))),
            tok((2, 4), (2, 4), TokenType::End),
        ]
    );
}

#[test]
fn errors_are_skipped_on_demand() {
    let config = ScanConfig { skip_errors: true, ..ScanConfig::new(Dialect::Symbolic) };
    assert_eq!(
        scanner("+ab-'x", config).tokens(),
        vec![
            tok((1, 2), (1, 3), TokenType::Identifier(text("ab"))),
            tok((1, 7), (1, 7), TokenType::End),
        ]
    );
}

#[test]
fn skipping_errors_never_hands_out_an_error() {
    let config = ScanConfig { skip_errors: true, ..ScanConfig::new(Dialect::Numeric) };
    let tokens = scanner("$ 12 'a' \"open\n +x", config).tokens();
    assert!(tokens.iter().all(|t| !matches!(t.value, TokenType::Error(_))));
    assert_eq!(
        tokens,
        vec![
            tok((1, 3), (1, 4), TokenType::Number(12)),
            tok((1, 7), (1, 7), TokenType::Identifier(text("a"))),
            tok((1, 11), (1, 14), TokenType::Identifier(text("open"))),
            tok((2, 3), (2, 3), TokenType::Identifier(text("x"))),
            tok((2, 4), (2, 4), TokenType::End),
        ]
    );
}

#[test]
fn unterminated_string_degrades_to_its_quote() {
    assert_eq!(
        numeric("\"ab\nc"),
        vec![
            tok((1, 1), (1, 1), TokenType::Error('"')),
            tok((1, 2), (1, 3), TokenType::Identifier(text("ab"))),
            tok((2, 1), (2, 1), TokenType::Identifier(text("c"))),
            tok((2, 2), (2, 2), TokenType::End),
        ]
    );
}

#[test]
fn string_may_span_lines_behind_a_backslash() {
    assert_eq!(
        numeric("\"a\\\nb\" 7"),
        vec![
            tok((1, 1), (2, 2), TokenType::Text(text("a\nb"))),
            tok((2, 4), (2, 4), TokenType::Number(7)),
            tok((2, 5), (2, 5), TokenType::End),
        ]
    );
}

#[test]
fn numeric_dialect_mixed_input() {
    assert_eq!(
        numeric("x1$ 12ab $ff \"s\" 'c"),
        vec![
            tok((1, 1), (1, 3), TokenType::Identifier(text("x1$"))),
            tok((1, 5), (1, 6), TokenType::Number(12)),
            tok((1, 7), (1, 8), TokenType::Identifier(text("ab"))),
            tok((1, 10), (1, 12), TokenType::Number(255)),
            tok((1, 14), (1, 16), TokenType::Text(text("s"))),
            tok((1, 18), (1, 18), TokenType::Error('\'')),
            tok((1, 19), (1, 19), TokenType::Identifier(text("c"))),
            tok((1, 20), (1, 20), TokenType::End),
        ]
    );
}

#[test]
fn symbolic_dialect_does_not_read_numbers_or_strings() {
    assert_eq!(
        symbolic("1\"$"),
        vec![
            tok((1, 1), (1, 1), TokenType::Error('1')),
            tok((1, 2), (1, 2), TokenType::Error('"')),
            tok((1, 3), (1, 3), TokenType::Error('$')),
            tok((1, 4), (1, 4), TokenType::End),
        ]
    );
}

#[test]
fn scanning_twice_yields_the_same_tokens() {
    let input = "for forx 'a' '\\0041' z9 \n +- abcdefghijkl";
    let config = everything(Dialect::Symbolic);
    assert_eq!(scanner(input, config).tokens(), scanner(input, config).tokens());
    let input = "0042 $2A \"a\"\"b\" x$1 $ '";
    let config = ScanConfig::new(Dialect::Numeric);
    assert_eq!(scanner(input, config).tokens(), scanner(input, config).tokens());
}

#[test]
fn tokens_are_what_next_hands_out() {
    let input = "for 'x' ab\n+";
    let all = symbolic(input);
    let mut p = scanner(input, ScanConfig::new(Dialect::Symbolic));
    let mut one_by_one = Vec::new();
    while let Some(t) = p.next() {
        one_by_one.push(t);
    }
    assert_eq!(all, one_by_one);
    assert_eq!(p.tokens(), vec![]);
}

#[test]
fn tokens_walk_through_the_whole_input() {
    let inputs = [
        "for forx 'a' '\\0041' z9 \n +- abcdefghijkl\n\n'\\\n' a",
        "",
        "\n\n",
        "a",
        "'",
        "forward123456 z",
    ];
    for input in inputs {
        let tokens = scanner(input, everything(Dialect::Symbolic)).tokens();
        let mut walked = String::new();
        for t in &tokens {
            if !matches!(t.value, TokenType::End) {
                assert!(t.from <= t.to);
                walked.push_str(&slice_by_places(input, t.from, t.to));
            }
        }
        assert_eq!(walked, input);
    }
}

#[test]
fn tokens_walk_through_the_whole_input_numeric() {
    let inputs = ["0042 $2A \"a\"\"b\" x$1 $ '\n\"open\n12ab$g", "$", "\"", "\"a\\\nb\""];
    for input in inputs {
        let tokens = scanner(input, everything(Dialect::Numeric)).tokens();
        let mut walked = String::new();
        for t in &tokens {
            if !matches!(t.value, TokenType::End) {
                assert!(t.from <= t.to);
                walked.push_str(&slice_by_places(input, t.from, t.to));
            }
        }
        assert_eq!(walked, input);
    }
}

#[test]
fn each_token_begins_where_the_last_one_ended() {
    let input = "ab 'c'\nfor+z";
    let tokens = scanner(input, everything(Dialect::Symbolic)).tokens();
    assert_eq!(
        tokens,
        vec![
            tok((1, 1), (1, 2), TokenType::Identifier(text("ab"))),
            tok((1, 3), (1, 3), TokenType::Spaces(text(" "))),
            tok((1, 4), (1, 6), TokenType::Symbol('c')),
            tok((1, 7), (1, 7), TokenType::Spaces(text("\n"))),
            tok((2, 1), (2, 3), TokenType::Key(text("for"))),
            tok((2, 4), (2, 4), TokenType::Error('+')),
            tok((2, 5), (2, 5), TokenType::Key(text("z"))),
            tok((2, 6), (2, 6), TokenType::End),
        ]
    );
}

#[test]
fn exactly_one_end_and_it_is_last() {
    for input in ["", "a", "for 1", "\n", "'x' +"] {
        let tokens = symbolic(input);
        let ends = tokens.iter().filter(|t| matches!(t.value, TokenType::End)).count();
        assert_eq!(ends, 1);
        assert!(matches!(tokens.last().map(|t| &t.value), Some(TokenType::End)));
    }
}
