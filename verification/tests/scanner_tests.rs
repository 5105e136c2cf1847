use rlox::compile::compile;
use rlox::scanner::Scanner;
use rlox::scanner::Token;
use rlox::scanner::TokenType;

fn kinds_of(source: &[u8]) -> Vec<TokenType> {
    compile(source).iter().map(|t| t.kind).collect()
}

fn first_token(source: &[u8]) -> (TokenType, Vec<u8>, usize) {
    let mut scanner = Scanner::new(source);
    let token = scanner.scan_token();
    (token.kind, token.slice.to_vec(), token.line)
}

#[test]
fn single_character_tokens_scan_one_byte_each() {
    let cases: [(&[u8], TokenType); 11] = [
        (b"(", TokenType::LeftParen),
        (b")", TokenType::RightParen),
        (b"{", TokenType::LeftBrace),
        (b"}", TokenType::RightBrace),
        (b";", TokenType::Semicolon),
        (b",", TokenType::Comma),
        (b".", TokenType::Dot),
        (b"-", TokenType::Minus),
        (b"+", TokenType::Plus),
        (b"/", TokenType::Slash),
        (b"*", TokenType::Star),
    ];
    for (source, expected) in cases {
        let (kind, slice, line) = first_token(source);
        assert_eq!(kind, expected);
        assert_eq!(slice, source.to_vec());
        assert_eq!(line, 1);
    }
}

#[test]
fn operators_pair_with_a_following_equals_sign() {
    assert_eq!(first_token(b"!=").0, TokenType::BangEqual);
    assert_eq!(first_token(b"!").0, TokenType::Bang);
    assert_eq!(first_token(b"==").0, TokenType::EqualEqual);
    assert_eq!(first_token(b"=").0, TokenType::Equal);
    assert_eq!(first_token(b"<=").0, TokenType::LessEqual);
    assert_eq!(first_token(b"<").0, TokenType::Less);
    assert_eq!(first_token(b">=").0, TokenType::GreaterEqual);
    assert_eq!(first_token(b">").0, TokenType::Greater);
    // `=<` pairs nothing: two tokens.
    assert_eq!(
        kinds_of(b"=<"),
        vec![TokenType::Equal, TokenType::Less, TokenType::Eof]
    );
}

#[test]
fn every_keyword_is_recognised_whole() {
    let cases: [(&[u8], TokenType); 16] = [
        (b"and", TokenType::And),
        (b"class", TokenType::Class),
        (b"else", TokenType::Else),
        (b"false", TokenType::False),
        (b"for", TokenType::For),
        (b"fun", TokenType::Fun),
        (b"if", TokenType::If),
        (b"nil", TokenType::Nil),
        (b"or", TokenType::Or),
        (b"print", TokenType::Print),
        (b"return", TokenType::Return),
        (b"super", TokenType::Super),
        (b"this", TokenType::This),
        (b"true", TokenType::True),
        (b"var", TokenType::Var),
        (b"while", TokenType::While),
    ];
    for (source, expected) in cases {
        let (kind, slice, _) = first_token(source);
        assert_eq!(kind, expected);
        assert_eq!(slice, source.to_vec());
    }
}

#[test]
fn near_keywords_stay_identifiers() {
    for source in [&b"an"[..], b"andx", b"fal", b"forx", b"tru", b"thisx", b"_", b"x1"] {
        let (kind, slice, _) = first_token(source);
        assert_eq!(kind, TokenType::Identifier);
        assert_eq!(slice, source.to_vec());
    }
}

#[test]
fn numbers_take_an_optional_fraction() {
    let (kind, slice, _) = first_token(b"123.45");
    assert_eq!(kind, TokenType::Number);
    assert_eq!(slice, b"123.45".to_vec());
    // A trailing dot belongs to the next token.
    assert_eq!(
        kinds_of(b"123."),
        vec![TokenType::Number, TokenType::Dot, TokenType::Eof]
    );
    let (_, slice, _) = first_token(b"123.");
    assert_eq!(slice, b"123".to_vec());
}

#[test]
fn strings_span_lines_and_keep_their_quotes() {
    let (kind, slice, line) = first_token(b"\"hi\nthere\"");
    assert_eq!(kind, TokenType::String);
    assert_eq!(slice, b"\"hi\nthere\"".to_vec());
    assert_eq!(line, 2);
}

#[test]
fn an_unterminated_string_is_an_error_token() {
    let (kind, slice, _) = first_token(b"\"abc");
    assert_eq!(kind, TokenType::Error);
    assert_eq!(slice, b"Unterminated string".to_vec());
}

#[test]
fn an_unexpected_character_is_an_error_token() {
    let (kind, slice, _) = first_token(b"@");
    assert_eq!(kind, TokenType::Error);
    assert_eq!(slice, b"Unexpected character".to_vec());
}

#[test]
fn comments_and_whitespace_are_skipped_and_lines_counted() {
    let mut scanner = Scanner::new(b"  // a comment\n\tfoo");
    let token = scanner.scan_token();
    assert_eq!(token.kind, TokenType::Identifier);
    assert_eq!(token.slice, b"foo");
    assert_eq!(token.line, 2);
}

#[test]
fn a_lone_slash_is_not_a_comment() {
    assert_eq!(
        kinds_of(b"1 / 2"),
        vec![TokenType::Number, TokenType::Slash, TokenType::Number, TokenType::Eof]
    );
}

#[test]
fn the_scanner_repeats_end_of_file_forever() {
    let mut scanner = Scanner::new(b"x");
    assert_eq!(scanner.scan_token().kind, TokenType::Identifier);
    assert_eq!(scanner.scan_token().kind, TokenType::Eof);
    assert_eq!(scanner.scan_token().kind, TokenType::Eof);
}

#[test]
fn tokens_carry_the_line_they_end_on() {
    let tokens = compile(b"print\n1\n\"a\nb\"");
    let lines: Vec<usize> = tokens.iter().map(|t| t.line).collect();
    assert_eq!(lines, vec![1, 2, 4, 4]);
}

#[test]
fn compile_scans_a_whole_program() {
    let tokens = compile(b"var answer = (1 + 2.5) * 4; // done\nprint answer;");
    let kinds: Vec<TokenType> = tokens.iter().map(|t| t.kind).collect();
    assert_eq!(
        kinds,
        vec![
            TokenType::Var,
            TokenType::Identifier,
            TokenType::Equal,
            TokenType::LeftParen,
            TokenType::Number,
            TokenType::Plus,
            TokenType::Number,
            TokenType::RightParen,
            TokenType::Star,
            TokenType::Number,
            TokenType::Semicolon,
            TokenType::Print,
            TokenType::Identifier,
            TokenType::Semicolon,
            TokenType::Eof,
        ]
    );
    assert_eq!(tokens[1].slice, b"answer");
    assert_eq!(tokens[6].slice, b"2.5");
    assert_eq!(tokens[11].line, 2);
}

#[test]
fn token_constructors_read_the_scanner_state() {
    let mut scanner = Scanner::new(b"ab");
    let token = scanner.scan_token();
    assert_eq!(token.slice, b"ab");
    let fresh = Scanner::new(b"xyz");
    let made = Token::new(&fresh, TokenType::Identifier);
    assert_eq!(made.kind, TokenType::Identifier);
    assert_eq!(made.slice, b"");
    assert_eq!(made.line, 1);
    let err = Token::error(&fresh, b"boom");
    assert_eq!(err.kind, TokenType::Error);
    assert_eq!(err.slice, b"boom");
    assert_eq!(err.line, 1);
}

#[test]
fn keyword_lookup_reads_the_scanned_prefix() {
    let mut scanner = Scanner::new(b"while (");
    let token = scanner.scan_token();
    assert_eq!(token.kind, TokenType::While);
    // After the scan the scanner holds the token as its read prefix.
    assert_eq!(TokenType::identifier(&scanner), TokenType::While);
}

#[test]
fn an_empty_source_is_end_of_file_at_once() {
    let (kind, slice, line) = first_token(b"");
    assert_eq!(kind, TokenType::Eof);
    assert_eq!(slice, Vec::<u8>::new());
    assert_eq!(line, 1);
}

#[test]
fn a_comment_running_to_the_end_of_file_is_skipped() {
    assert_eq!(kinds_of(b"   // trailing words"), vec![TokenType::Eof]);
}

#[test]
fn blank_lines_advance_the_line_counter() {
    let (kind, _, line) = first_token(b"\n\nx");
    assert_eq!(kind, TokenType::Identifier);
    assert_eq!(line, 3);
}
