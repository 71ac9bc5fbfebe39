use wtshell::ast::{Expr, Kind, Symbol, AST};
use wtshell::error::SyntaxError;
use wtshell::parser::parse_program;
use wtshell::scanner::Scanner;

fn parse(src: &str) -> Result<AST, SyntaxError> {
    let mut s = Scanner::new(src.to_string());
    s.scan_tokens()?;
    parse_program(s)
}

fn leaf(a: &Option<AST>) -> &Expr {
    &a.as_ref().expect("missing operand").exprs[0]
}

#[test]
fn single_command_collects_args_and_flags() {
    let p = parse("cmd a b -x --flag").unwrap();
    assert_eq!(p.exprs.len(), 1);
    let stmt = &p.exprs[0];
    assert_eq!(stmt.kind, Kind::Expr);
    assert_eq!(stmt.symbol, Symbol::Sequence);
    assert!(stmt.right.is_none());
    let l = leaf(&stmt.left);
    assert_eq!(l.kind, Kind::Value);
    assert_eq!(l.symbol, Symbol::Cmd);
    assert_eq!(l.value.as_deref(), Some("cmd"));
    assert_eq!(l.args, vec!["a", "b"]);
    assert_eq!(l.flags, vec!["-x", "--flag"]);
}

#[test]
fn flag_attaches_to_right_command() {
    let p = parse("a | b -x").unwrap();
    let stmt = &p.exprs[0];
    assert_eq!(stmt.symbol, Symbol::Pipe);
    assert_eq!(stmt.value.as_deref(), Some("|"));
    assert!(leaf(&stmt.left).flags.is_empty());
    let r = leaf(&stmt.right);
    assert_eq!(r.symbol, Symbol::Cmd);
    assert_eq!(r.value.as_deref(), Some("b"));
    assert_eq!(r.flags, vec!["-x"]);
}

#[test]
fn pipe_right_command_takes_args() {
    let p = parse("ls | grep foo").unwrap();
    let r = leaf(&p.exprs[0].right);
    assert_eq!(r.args, vec!["foo"]);
}

#[test]
fn redirect_targets_are_files_and_heredoc_word_is_string() {
    for (src, sym, role) in [
        ("echo hi > f.txt", Symbol::RedirRight, Symbol::File),
        ("echo hi >> f.txt", Symbol::DoubleRedirRight, Symbol::File),
        ("cat < f.txt", Symbol::RedirLeft, Symbol::File),
        ("cat << EOF", Symbol::DoubleRedirLeft, Symbol::String),
    ] {
        let p = parse(src).unwrap();
        assert_eq!(p.exprs[0].symbol, sym);
        assert_eq!(leaf(&p.exprs[0].right).symbol, role);
    }
}

#[test]
fn semicolons_make_statements_in_order() {
    let p = parse("a; b; c").unwrap();
    assert_eq!(p.exprs.len(), 3);
    let names: Vec<String> = p
        .exprs
        .iter()
        .map(|e| leaf(&e.left).value.clone().unwrap())
        .collect();
    assert_eq!(names, vec!["a", "b", "c"]);
}

#[test]
fn quoted_word_round_trips_without_quotes() {
    let p = parse("echo \"hello world\" plain").unwrap();
    let l = leaf(&p.exprs[0].left);
    assert_eq!(l.args, vec!["hello world", "plain"]);
    let p = parse("\"my cmd\"").unwrap();
    assert_eq!(leaf(&p.exprs[0].left).value.as_deref(), Some("my cmd"));
    let p = parse("word").unwrap();
    assert_eq!(leaf(&p.exprs[0].left).value.as_deref(), Some("word"));
}

#[test]
fn parenthesized_group_fills_left_slot() {
    let p = parse("(a | b) > out").unwrap();
    let stmt = &p.exprs[0];
    assert_eq!(stmt.symbol, Symbol::RedirRight);
    let g = leaf(&stmt.left);
    assert_eq!(g.kind, Kind::Expr);
    assert_eq!(g.symbol, Symbol::Pipe);
    assert_eq!(leaf(&stmt.right).value.as_deref(), Some("out"));
}

#[test]
fn comment_ignores_rest() {
    let p = parse("ls # -l ; rm x").unwrap();
    assert_eq!(p.exprs.len(), 1);
    let l = leaf(&p.exprs[0].left);
    assert!(l.flags.is_empty());
    assert!(l.args.is_empty());
}

#[test]
fn operator_without_left_is_an_error() {
    let e = parse("| a").unwrap_err();
    assert_eq!(e.line, 1);
    assert_eq!(e.message, "Binary expression \"|\" encountered parse error.");
}

#[test]
fn second_operator_is_an_error() {
    assert_eq!(parse("a | b | c").unwrap_err().message, "Binary expression \"|\" encountered parse error.");
    assert_eq!(parse("a > f > g").unwrap_err().message, "Binary expression \">\" encountered parse error.");
    assert_eq!(parse("a | b >> f").unwrap_err().message, "Binary expression \">>\" encountered parse error.");
    assert_eq!(parse("a; << f").unwrap_err().message, "Binary expression \"<<\" encountered parse error.");
    assert!(parse("a | | b").is_err());
}

#[test]
fn unclosed_paren_is_an_error() {
    let e = parse("(a").unwrap_err();
    assert_eq!(e.line, 0);
    assert_eq!(e.message, "Expected closing \")\"");
}

#[test]
fn stray_close_paren_is_an_error() {
    assert!(parse("a )").is_err());
}

#[test]
fn flag_needs_a_word() {
    assert_eq!(parse("a - ;").unwrap_err().message, "Parser error: Invalid flag");
    assert_eq!(parse("-x").unwrap_err().message, "Error when parsing flag");
}

#[test]
fn word_after_group_without_operator_is_an_error() {
    assert_eq!(parse("(a) b").unwrap_err().message, "Parse error, right-hand command without operator");
    assert_eq!(parse("a > f g").unwrap_err().message, "Parse error when handling expression");
}
