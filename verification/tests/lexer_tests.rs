use cl_lexer::lexer::tokenize;
use cl_lexer::lexer::tokenize_with_diagnostics;
use cl_lexer::lexer::LexErrorKind;
use cl_lexer::matcher::get_next_token;
use cl_lexer::token::get_token_kind_pattern;
use cl_lexer::token::Token;
use cl_lexer::token::TokenKind;

fn kinds_and_lexemes(src: &[u8]) -> Vec<(TokenKind, Vec<u8>)> {
    tokenize(src).into_iter().map(|t| (t.kind, t.lexeme)).collect()
}

#[test]
fn maximal_munch_identifier_beats_keyword() {
    let r = get_next_token(b"locf123").unwrap();
    assert_eq!(r.0.kind, TokenKind::Identifier);
    assert_eq!(r.0.lexeme, b"locf123".to_vec());
    assert_eq!(r.1, 7);
}

#[test]
fn tie_break_prefers_earlier_declaration() {
    let r = get_next_token(b"at").unwrap();
    assert_eq!(r.0.kind, TokenKind::At);
    assert_eq!(r.0.lexeme, b"at".to_vec());
    assert_eq!(r.1, 2);
}

#[test]
fn keyword_alone_beats_identifier_tie() {
    let toks = kinds_and_lexemes(b"locf");
    assert_eq!(toks, vec![(TokenKind::Locf, b"locf".to_vec())]);
}

#[test]
fn at_sign_alternative_matches() {
    let toks = kinds_and_lexemes(b"@");
    assert_eq!(toks, vec![(TokenKind::At, b"@".to_vec())]);
}

#[test]
fn power_wins_over_two_asterisks() {
    let toks = kinds_and_lexemes(b"**");
    assert_eq!(toks, vec![(TokenKind::Power, b"**".to_vec())]);
}

#[test]
fn lone_asterisk_stays_asterisk() {
    let toks = kinds_and_lexemes(b"*");
    assert_eq!(toks, vec![(TokenKind::Asterisk, b"*".to_vec())]);
}

#[test]
fn three_asterisks_split_power_then_asterisk() {
    let toks = kinds_and_lexemes(b"***");
    assert_eq!(
        toks,
        vec![(TokenKind::Power, b"**".to_vec()), (TokenKind::Asterisk, b"*".to_vec())]
    );
}

#[test]
fn unterminated_string_is_rejected() {
    let (toks, errs) = tokenize_with_diagnostics(b"\"abc");
    assert!(toks.is_empty());
    assert_eq!(errs.len(), 1);
    assert_eq!(errs[0].kind, LexErrorKind::StringNotClosed);
    assert_eq!(errs[0].line, 0);
    assert_eq!(errs[0].column, 0);
}

#[test]
fn digit_leading_identifier_is_rejected() {
    let r = get_next_token(b"123abc").unwrap();
    assert_eq!(r.0.kind, TokenKind::Identifier);
    assert_eq!(r.1, 6);
    let (toks, errs) = tokenize_with_diagnostics(b"123abc");
    assert!(toks.is_empty());
    assert_eq!(errs.len(), 1);
    assert_eq!(errs[0].kind, LexErrorKind::IdentifierStartsWithNumber);
}

#[test]
fn empty_input_yields_empty_stream() {
    let (toks, errs) = tokenize_with_diagnostics(b"");
    assert!(toks.is_empty());
    assert!(errs.is_empty());
    assert!(get_next_token(b"").is_none());
}

#[test]
fn tokenize_twice_gives_identical_streams() {
    let src: &[u8] = b"at locf 12s [x] \"hi\" // c\n3.5";
    let a = kinds_and_lexemes(src);
    let b = kinds_and_lexemes(src);
    assert_eq!(a, b);
}

#[test]
fn matched_lexemes_reconstruct_the_source() {
    let src: &[u8] = b"x = 1 + \"abc\n ut42 /* open # @";
    let mut rebuilt: Vec<u8> = Vec::new();
    let mut rest: &[u8] = src;
    while let Some((tok, n)) = get_next_token(rest) {
        rebuilt.extend_from_slice(&tok.lexeme);
        rest = &rest[n..];
    }
    assert_eq!(rebuilt, src.to_vec());
}

#[test]
fn keywords_whitespace_and_punctuation() {
    let toks = kinds_and_lexemes(b"lerp within mirroring;");
    assert_eq!(
        toks,
        vec![
            (TokenKind::Lerp, b"lerp".to_vec()),
            (TokenKind::WhiteSpace, b" ".to_vec()),
            (TokenKind::Within, b"within".to_vec()),
            (TokenKind::WhiteSpace, b" ".to_vec()),
            (TokenKind::Mirroring, b"mirroring".to_vec()),
            (TokenKind::Semicolon, b";".to_vec()),
        ]
    );
}

#[test]
fn brackets_parens_and_operators() {
    let toks = kinds_and_lexemes(b"[](),+-/=");
    let kinds: Vec<TokenKind> = toks.into_iter().map(|p| p.0).collect();
    assert_eq!(
        kinds,
        vec![
            TokenKind::OpenBracket,
            TokenKind::CloseBracket,
            TokenKind::OpenParen,
            TokenKind::CloseParen,
            TokenKind::Comma,
            TokenKind::Plus,
            TokenKind::Minus,
            TokenKind::Slash,
            TokenKind::Assign,
        ]
    );
}

#[test]
fn unix_timestamp_and_time_interval() {
    let toks = kinds_and_lexemes(b"ut1234 15m 7d");
    assert_eq!(toks[0], (TokenKind::UnixTimestamp, b"ut1234".to_vec()));
    assert_eq!(toks[2], (TokenKind::TimeInterval, b"15m".to_vec()));
    assert_eq!(toks[4], (TokenKind::TimeInterval, b"7d".to_vec()));
}

#[test]
fn iso_timestamp_matches_whole_shape() {
    let toks = kinds_and_lexemes(b"2024-01-02T03:04:05-06:07");
    assert_eq!(
        toks,
        vec![(TokenKind::ISO8601Timestamp, b"2024-01-02T03:04:05-06:07".to_vec())]
    );
}

#[test]
fn numbers_with_fraction_and_exponent() {
    assert_eq!(kinds_and_lexemes(b"3.14"), vec![(TokenKind::Number, b"3.14".to_vec())]);
    assert_eq!(kinds_and_lexemes(b"2.5e-3"), vec![(TokenKind::Number, b"2.5e-3".to_vec())]);
}

#[test]
fn all_word_number_falls_to_identifier_and_is_rejected() {
    // "1e10" is all word bytes, so Identifier ties Number at length 4 and,
    // declared earlier, wins; validation then drops it as digit-leading.
    let r = get_next_token(b"1e10").unwrap();
    assert_eq!(r.0.kind, TokenKind::Identifier);
    assert_eq!(r.1, 4);
    let (toks, errs) = tokenize_with_diagnostics(b"1e10");
    assert!(toks.is_empty());
    assert_eq!(errs.len(), 1);
    assert_eq!(errs[0].kind, LexErrorKind::IdentifierStartsWithNumber);
}

#[test]
fn bare_digit_then_dot_rejected_piecewise() {
    // "1" ties Identifier/Number at length 1; Identifier wins and is
    // rejected, then the lone "." is an unknown token.
    let (toks, errs) = tokenize_with_diagnostics(b"1.");
    assert!(toks.is_empty());
    assert_eq!(errs.len(), 2);
    assert_eq!(errs[0].kind, LexErrorKind::IdentifierStartsWithNumber);
    assert_eq!(errs[1].kind, LexErrorKind::UnknownToken);
}

#[test]
fn single_line_string_accepted() {
    let toks = kinds_and_lexemes(b"\"hi there\"");
    assert_eq!(toks, vec![(TokenKind::SingleLineString, b"\"hi there\"".to_vec())]);
}

#[test]
fn string_with_newline_rejected() {
    let (toks, errs) = tokenize_with_diagnostics(b"\"a\nb\"");
    assert!(toks.is_empty());
    assert_eq!(errs.len(), 1);
    assert_eq!(errs[0].kind, LexErrorKind::StringContainsNewline);
}

#[test]
fn whitelisted_escapes_accepted() {
    let toks = kinds_and_lexemes(b"\"a\\n\\t\\r\\\\b\"");
    assert_eq!(toks.len(), 1);
    assert_eq!(toks[0].0, TokenKind::SingleLineString);
}

#[test]
fn unknown_escape_rejected() {
    let (toks, errs) = tokenize_with_diagnostics(b"\"a\\xb\"");
    assert!(toks.is_empty());
    assert_eq!(errs.len(), 1);
    assert_eq!(errs[0].kind, LexErrorKind::InvalidEscapeSequence);
}

#[test]
fn multi_line_string_accepted() {
    let toks = kinds_and_lexemes(b"\"\"\"abc\ndef\"\"\"");
    assert_eq!(toks, vec![(TokenKind::MultiLineString, b"\"\"\"abc\ndef\"\"\"".to_vec())]);
}

#[test]
fn unterminated_multi_line_string_rejected() {
    let (toks, errs) = tokenize_with_diagnostics(b"\"\"\"abc");
    assert!(toks.is_empty());
    assert_eq!(errs.len(), 1);
    assert_eq!(errs[0].kind, LexErrorKind::StringNotClosed);
}

#[test]
fn single_line_comment_runs_to_line_end() {
    let toks = kinds_and_lexemes(b"// note\nx");
    assert_eq!(
        toks,
        vec![
            (TokenKind::SingleLineComment, b"// note".to_vec()),
            (TokenKind::WhiteSpace, b"\n".to_vec()),
            (TokenKind::Identifier, b"x".to_vec()),
        ]
    );
}

#[test]
fn multi_line_comment_spans_lines() {
    let toks = kinds_and_lexemes(b"/* a\nb */");
    assert_eq!(toks, vec![(TokenKind::MultiLineComment, b"/* a\nb */".to_vec())]);
}

#[test]
fn unterminated_comment_rejected() {
    let (toks, errs) = tokenize_with_diagnostics(b"/* open");
    assert!(toks.is_empty());
    assert_eq!(errs.len(), 1);
    assert_eq!(errs[0].kind, LexErrorKind::CommentNotClosed);
}

#[test]
fn unknown_byte_reported_with_location() {
    let (toks, errs) = tokenize_with_diagnostics(b"ab\n#x");
    assert_eq!(toks.len(), 3);
    assert_eq!(errs.len(), 1);
    assert_eq!(errs[0].kind, LexErrorKind::UnknownToken);
    assert_eq!(errs[0].line, 1);
    assert_eq!(errs[0].column, 1);
}

#[test]
fn token_rendering_escapes_newline_and_tab() {
    let t = Token::new(b"at".to_vec(), TokenKind::At);
    assert_eq!(t.to_string(), b"Token { lexeme: \"at\", kind: At }".to_vec());
    let t2 = Token::new(b"a\nb\tc".to_vec(), TokenKind::Identifier);
    assert_eq!(
        t2.to_string(),
        b"Token { lexeme: \"a\\nb\\tc\", kind: Identifier }".to_vec()
    );
}

#[test]
fn pattern_table_entries() {
    assert_eq!(get_token_kind_pattern(&TokenKind::Locf), r"locf");
    assert_eq!(get_token_kind_pattern(&TokenKind::Identifier), r"[a-zA-Z0-9_]+");
    assert_eq!(get_token_kind_pattern(&TokenKind::WhiteSpace), r"\s+");
}

#[test]
fn empty_string_literal_is_valid() {
    let toks = kinds_and_lexemes(b"\"\"");
    assert_eq!(toks, vec![(TokenKind::SingleLineString, b"\"\"".to_vec())]);
}

#[test]
fn identifier_absorbs_keyword_prefix() {
    let toks = kinds_and_lexemes(b"at1");
    assert_eq!(toks, vec![(TokenKind::Identifier, b"at1".to_vec())]);
}

#[test]
fn whitespace_run_is_one_token() {
    let toks = kinds_and_lexemes(b"  \t\n ");
    assert_eq!(toks, vec![(TokenKind::WhiteSpace, b"  \t\n ".to_vec())]);
}

#[test]
fn four_quotes_split_into_two_rejected_strings() {
    // """" opens a multi-line string whose closing triple never comes:
    // the matcher takes """ unterminated, then " unterminated.
    let (toks, errs) = tokenize_with_diagnostics(b"\"\"\"\"");
    assert!(toks.is_empty());
    assert_eq!(errs.len(), 2);
    assert_eq!(errs[0].kind, LexErrorKind::StringNotClosed);
    assert_eq!(errs[1].kind, LexErrorKind::StringNotClosed);
}

#[test]
fn longer_identifier_beats_timestamp_prefix() {
    // "ut12x" is longer as an Identifier (5) than as a UnixTimestamp (4),
    // and it starts with a letter, so it survives validation.
    let r = get_next_token(b"ut12x").unwrap();
    assert_eq!(r.0.kind, TokenKind::Identifier);
    assert_eq!(r.1, 5);
    let toks = kinds_and_lexemes(b"ut12x");
    assert_eq!(toks, vec![(TokenKind::Identifier, b"ut12x".to_vec())]);
}
