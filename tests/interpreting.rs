use wtshell::ast::{Symbol, AST};
use wtshell::interpreter::{ExecContext, ExecType, PathKind, Reply, Request, Step};
use wtshell::parser::parse_program;
use wtshell::scanner::Scanner;

fn parse(src: &str) -> AST {
    let mut s = Scanner::new(src.to_string());
    s.scan_tokens().unwrap();
    parse_program(s).unwrap()
}

fn need(ctx: &ExecContext, ast: &AST, mode: ExecType, replies: &Vec<Reply>) -> Request {
    match ctx.interpret_program(ast, mode, replies) {
        Step::Need(r) => r,
        Step::Finished(v) => panic!("finished early with {} values", v.len()),
    }
}

fn finished(ctx: &ExecContext, ast: &AST, mode: ExecType, replies: &Vec<Reply>) -> Vec<(Symbol, String)> {
    match ctx.interpret_program(ast, mode, replies) {
        Step::Need(r) => panic!("still needs {:?}", r),
        Step::Finished(v) => v.into_iter().map(|x| (x.sym, x.val)).collect(),
    }
}

fn text(s: &str) -> Reply {
    Reply::Text(String::from(s))
}

fn run(program: &str, args: &[&str], input: Option<&str>, capture: bool) -> String {
    format!(
        "{:?}",
        Request::Run {
            program: program.to_string(),
            args: args.iter().map(|a| a.to_string()).collect(),
            dir: String::from("/work"),
            input: input.map(|s| s.to_string()),
            capture,
        }
    )
}

#[test]
fn context_keeps_directory() {
    let ctx = ExecContext::new(String::from("/tmp"));
    assert_eq!(ctx.cur_dir, "/tmp");
}

#[test]
fn pipe_feeds_left_output_to_right() {
    let ctx = ExecContext::new(String::from("/work"));
    let ast = parse("a | b -x");
    let mut rs = vec![];
    assert_eq!(format!("{:?}", need(&ctx, &ast, ExecType::Normal, &rs)), run("a", &[], None, true));
    rs.push(text("left out\n"));
    assert_eq!(
        format!("{:?}", need(&ctx, &ast, ExecType::Normal, &rs)),
        run("b", &["-x"], Some("left out\n"), true)
    );
    rs.push(text("right out\n"));
    match need(&ctx, &ast, ExecType::Normal, &rs) {
        Request::Print { text } => assert_eq!(text, "right out\n"),
        other => panic!("unexpected {:?}", other),
    }
    rs.push(Reply::Done);
    assert_eq!(
        finished(&ctx, &ast, ExecType::Normal, &rs),
        vec![(Symbol::String, String::from("right out\n"))]
    );
}

#[test]
fn quiet_pipe_prints_nothing() {
    let ctx = ExecContext::new(String::from("/work"));
    let ast = parse("a | b");
    let rs = vec![text("x"), text("y")];
    assert_eq!(finished(&ctx, &ast, ExecType::Quiet, &rs), vec![(Symbol::String, String::from("y"))]);
}

#[test]
fn redirect_writes_captured_output() {
    let ctx = ExecContext::new(String::from("/work"));
    let ast = parse("echo hi > f.txt");
    let mut rs = vec![];
    assert_eq!(format!("{:?}", need(&ctx, &ast, ExecType::Normal, &rs)), run("echo", &["hi"], None, true));
    rs.push(text("hi\n"));
    match need(&ctx, &ast, ExecType::Normal, &rs) {
        Request::Inspect { path } => assert_eq!(path, "f.txt"),
        other => panic!("unexpected {:?}", other),
    }
    rs.push(Reply::Kind(PathKind::Missing));
    match need(&ctx, &ast, ExecType::Normal, &rs) {
        Request::WriteFile { path, data, append } => {
            assert_eq!(path, "f.txt");
            assert_eq!(data, "hi\n");
            assert!(!append);
        }
        other => panic!("unexpected {:?}", other),
    }
    rs.push(Reply::Done);
    assert!(finished(&ctx, &ast, ExecType::Normal, &rs).is_empty());
}

#[test]
fn append_then_truncate() {
    let ctx = ExecContext::new(String::from("/work"));
    let ast = parse("echo a > f; echo b >> f");
    let rs = vec![text("a\n"), Reply::Kind(PathKind::Missing)];
    match need(&ctx, &ast, ExecType::Normal, &rs) {
        Request::WriteFile { data, append, .. } => {
            assert_eq!(data, "a\n");
            assert!(!append);
        }
        other => panic!("unexpected {:?}", other),
    }
    let rs = vec![text("a\n"), Reply::Kind(PathKind::Missing), Reply::Done, text("b\n"), Reply::Kind(PathKind::File)];
    match need(&ctx, &ast, ExecType::Normal, &rs) {
        Request::WriteFile { data, append, .. } => {
            assert_eq!(data, "b\n");
            assert!(append);
        }
        other => panic!("unexpected {:?}", other),
    }
    let ast = parse("echo a > f; echo b > f");
    let rs = vec![text("a\n"), Reply::Kind(PathKind::Missing), Reply::Done, text("b\n"), Reply::Kind(PathKind::File)];
    match need(&ctx, &ast, ExecType::Normal, &rs) {
        Request::WriteFile { data, append, .. } => {
            assert_eq!(data, "b\n");
            assert!(!append);
        }
        other => panic!("unexpected {:?}", other),
    }
}

#[test]
fn redirect_onto_directory_reports_and_writes_nothing() {
    let ctx = ExecContext::new(String::from("/work"));
    let ast = parse("echo hi > somedir");
    let rs = vec![text("hi\n"), Reply::Kind(PathKind::Directory)];
    match need(&ctx, &ast, ExecType::Normal, &rs) {
        Request::Report { message } => assert_eq!(message, "Expected some type of file, got directory."),
        other => panic!("unexpected {:?}", other),
    }
    let rs = vec![text("hi\n"), Reply::Kind(PathKind::Directory), Reply::Done];
    assert!(finished(&ctx, &ast, ExecType::Normal, &rs).is_empty());
}

#[test]
fn heredoc_collects_lines_before_terminator() {
    let ctx = ExecContext::new(String::from("/work"));
    let ast = parse("cat << EOF");
    let mut rs = vec![];
    assert!(matches!(need(&ctx, &ast, ExecType::Normal, &rs), Request::ReadLine));
    rs.push(text("x\n"));
    assert!(matches!(need(&ctx, &ast, ExecType::Normal, &rs), Request::ReadLine));
    rs.push(text("y\n"));
    rs.push(text("EOF\n"));
    assert_eq!(format!("{:?}", need(&ctx, &ast, ExecType::Normal, &rs)), run("cat", &[], Some("x\ny\n"), true));
    rs.push(text("x\ny\n"));
    rs.push(Reply::Done);
    assert_eq!(finished(&ctx, &ast, ExecType::Normal, &rs), vec![(Symbol::String, String::from("x\ny\n"))]);
}

#[test]
fn heredoc_without_terminal_gives_nothing() {
    let ctx = ExecContext::new(String::from("/work"));
    let ast = parse("cat << END");
    let rs = vec![text("x\n"), Reply::Failed];
    assert!(finished(&ctx, &ast, ExecType::Normal, &rs).is_empty());
}

#[test]
fn input_redirect_reads_file_into_command() {
    let ctx = ExecContext::new(String::from("/work"));
    let ast = parse("sort < in.txt");
    let mut rs = vec![];
    match need(&ctx, &ast, ExecType::Normal, &rs) {
        Request::Inspect { path } => assert_eq!(path, "in.txt"),
        other => panic!("unexpected {:?}", other),
    }
    rs.push(Reply::Kind(PathKind::File));
    match need(&ctx, &ast, ExecType::Normal, &rs) {
        Request::ReadFile { path } => assert_eq!(path, "in.txt"),
        other => panic!("unexpected {:?}", other),
    }
    rs.push(text("b\na\n"));
    assert_eq!(format!("{:?}", need(&ctx, &ast, ExecType::Normal, &rs)), run("sort", &[], Some("b\na\n"), true));
    rs.push(text("a\nb\n"));
    rs.push(Reply::Done);
    assert_eq!(finished(&ctx, &ast, ExecType::Normal, &rs), vec![(Symbol::String, String::from("a\nb\n"))]);
}

#[test]
fn input_redirect_from_missing_file_reports() {
    let ctx = ExecContext::new(String::from("/work"));
    let ast = parse("sort < nope");
    let rs = vec![Reply::Kind(PathKind::Missing)];
    match need(&ctx, &ast, ExecType::Normal, &rs) {
        Request::Report { message } => assert_eq!(message, "Error: No such file \"nope\""),
        other => panic!("unexpected {:?}", other),
    }
}

#[test]
fn statements_run_in_order_with_own_capture() {
    let ctx = ExecContext::new(String::from("/work"));
    let ast = parse("a; b; c");
    let mut rs = vec![];
    assert_eq!(format!("{:?}", need(&ctx, &ast, ExecType::Normal, &rs)), run("a", &[], None, false));
    rs.push(text(""));
    assert_eq!(format!("{:?}", need(&ctx, &ast, ExecType::Normal, &rs)), run("b", &[], None, false));
    rs.push(text(""));
    assert_eq!(format!("{:?}", need(&ctx, &ast, ExecType::Normal, &rs)), run("c", &[], None, false));
    rs.push(text(""));
    assert_eq!(finished(&ctx, &ast, ExecType::Normal, &rs).len(), 3);
    assert_eq!(format!("{:?}", need(&ctx, &ast, ExecType::Quiet, &vec![])), run("a", &[], None, true));
}

#[test]
fn failed_spawn_gives_no_value() {
    let ctx = ExecContext::new(String::from("/work"));
    let ast = parse("nosuchcmd; b");
    let rs = vec![Reply::Failed, text("ok")];
    assert_eq!(finished(&ctx, &ast, ExecType::Quiet, &rs), vec![(Symbol::String, String::from("ok"))]);
}

#[test]
fn redirect_needs_a_file_target() {
    let ctx = ExecContext::new(String::from("/work"));
    let ast = parse("a > (b)");
    let rs = vec![text("x")];
    match need(&ctx, &ast, ExecType::Normal, &rs) {
        Request::Report { message } => assert_eq!(message, "Expected some type of file."),
        other => panic!("unexpected {:?}", other),
    }
}

#[test]
fn pipe_with_failing_right_command_gives_no_value() {
    let ctx = ExecContext::new(String::from("/work"));
    let ast = parse("a | b; c");
    let rs = vec![text("x"), Reply::Failed, text("z")];
    assert_eq!(finished(&ctx, &ast, ExecType::Quiet, &rs), vec![(Symbol::String, String::from("z"))]);
}

#[test]
fn failed_group_on_the_left_contributes_no_input() {
    let ctx = ExecContext::new(String::from("/work"));
    let ast = parse("(a | b) | c");
    let rs = vec![text("x"), Reply::Failed];
    assert_eq!(format!("{:?}", need(&ctx, &ast, ExecType::Quiet, &rs)), run("c", &[], Some(""), true));
    let rs = vec![text("x"), Reply::Failed, text("out")];
    assert_eq!(finished(&ctx, &ast, ExecType::Quiet, &rs), vec![(Symbol::String, String::from("out"))]);
}

#[test]
fn input_redirect_with_failing_command_gives_no_value() {
    let ctx = ExecContext::new(String::from("/work"));
    let ast = parse("sort < in.txt");
    let rs = vec![Reply::Kind(PathKind::File), text("b\na\n"), Reply::Failed];
    assert!(finished(&ctx, &ast, ExecType::Normal, &rs).is_empty());
}

#[test]
fn heredoc_with_failing_command_gives_no_value() {
    let ctx = ExecContext::new(String::from("/work"));
    let ast = parse("cat << EOF");
    let rs = vec![text("x\n"), text("EOF\n"), Reply::Failed];
    assert!(finished(&ctx, &ast, ExecType::Normal, &rs).is_empty());
}

#[test]
fn redirect_onto_special_file_reports_and_writes_nothing() {
    let ctx = ExecContext::new(String::from("/work"));
    let ast = parse("echo hi > fifo");
    let rs = vec![text("hi\n"), Reply::Kind(PathKind::Other)];
    match need(&ctx, &ast, ExecType::Normal, &rs) {
        Request::Report { message } => assert_eq!(message, "Expected some type of file."),
        other => panic!("unexpected {:?}", other),
    }
}
