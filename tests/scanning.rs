use wtshell::error::error;
use wtshell::scanner::Scanner;
use wtshell::token::{Token, TokenType, WTSType};

fn scan(src: &str) -> Vec<(TokenType, String, usize)> {
    let mut s = Scanner::new(src.to_string());
    s.scan_tokens().expect("scan failed");
    s.tokens.iter().map(|t| (t.t_type, t.lexeme.clone(), t.line)).collect()
}

#[test]
fn token_new_keeps_fields() {
    let t = Token::new(TokenType::Word, WTSType::NONE, String::from("ls"), 3);
    assert_eq!(t.t_type, TokenType::Word);
    assert_eq!(t.literal, WTSType::NONE);
    assert_eq!(t.lexeme, "ls");
    assert_eq!(t.line, 3);
}

#[test]
fn error_keeps_line_and_message() {
    let e = error(7, String::from("boom"));
    assert_eq!(e.line, 7);
    assert_eq!(e.message, "boom");
}

#[test]
fn scans_command_with_flags() {
    let toks = scan("cmd a b -x --flag");
    let kinds: Vec<TokenType> = toks.iter().map(|t| t.0).collect();
    assert_eq!(
        kinds,
        vec![
            TokenType::Word,
            TokenType::Word,
            TokenType::Word,
            TokenType::ShortFlag,
            TokenType::Word,
            TokenType::LongFlag,
            TokenType::Word,
            TokenType::EOF
        ]
    );
    let lexemes: Vec<String> = toks.iter().map(|t| t.1.clone()).collect();
    assert_eq!(lexemes, vec!["cmd", "a", "b", "-", "x", "--", "flag", ""]);
}

#[test]
fn scans_operators_by_lookahead() {
    let kinds: Vec<TokenType> = scan("( ) ; | < << > >> #").iter().map(|t| t.0).collect();
    assert_eq!(
        kinds,
        vec![
            TokenType::LeftParen,
            TokenType::RightParen,
            TokenType::Semicolon,
            TokenType::Pipe,
            TokenType::RedirLeft,
            TokenType::DoubleRedirLeft,
            TokenType::RedirRight,
            TokenType::DoubleRedirRight,
            TokenType::Pound,
            TokenType::EOF
        ]
    );
}

#[test]
fn words_stop_at_operators() {
    let toks = scan("a|b>c");
    let lexemes: Vec<String> = toks.iter().map(|t| t.1.clone()).collect();
    assert_eq!(lexemes, vec!["a", "|", "b", ">", "c", ""]);
}

#[test]
fn line_comment_is_dropped() {
    let toks = scan("## all of this\nls");
    assert_eq!(toks.len(), 2);
    assert_eq!(toks[0], (TokenType::Word, String::from("ls"), 2));
    assert_eq!(toks[1].2, 2);
}

#[test]
fn quoted_string_keeps_text_and_counts_lines() {
    let mut s = Scanner::new(String::from("echo \"a b\nc\" d"));
    s.scan_tokens().unwrap();
    assert_eq!(s.tokens[1].t_type, TokenType::String);
    assert_eq!(s.tokens[1].lexeme, "\"a b\nc\"");
    assert_eq!(s.tokens[1].literal, WTSType::String(String::from("a b\nc")));
    assert_eq!(s.tokens[1].line, 2);
    assert_eq!(s.tokens[2].line, 2);
}

#[test]
fn unterminated_string_is_an_error() {
    let mut s = Scanner::new(String::from("echo \"abc\ndef"));
    let e = s.scan_tokens().unwrap_err();
    assert_eq!(e.line, 2);
    assert_eq!(e.message, "Unterminated String");
}

#[test]
fn empty_source_gives_end_token_only() {
    let toks = scan("");
    assert_eq!(toks, vec![(TokenType::EOF, String::new(), 1)]);
}

#[test]
fn tokens_accessor_matches_field() {
    let mut s = Scanner::new(String::from("ls -l"));
    s.scan_tokens().unwrap();
    assert_eq!(s.tokens().len(), 4);
}
