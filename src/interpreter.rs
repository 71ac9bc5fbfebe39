use vstd::prelude::*;

use crate::ast::{strings_view, Expr, ExprV, Kind, Symbol, AST};
use crate::parser::{cmd_slot, lone_command, stmt_tree, SlotV, StmtV};

verus! {

broadcast use vstd::std_specs::vec::axiom_vec_index_decreases;

/// An intermediate or final result of evaluation: captured text, a literal, or a command
/// description that has not been run.
#[derive(Debug)]
pub struct Value {
    pub sym: Symbol,
    pub val: String,
    pub flags: Vec<String>,
    pub args: Vec<String>,
}

/// How a node is evaluated: at top level (results printed), quietly (output captured), or
/// delayed (commands described, not run).
#[derive(Debug, Clone, Copy, PartialEq, Eq, Structural)]
pub enum ExecType {
    Normal,
    DelayExec,
    Quiet,
}

/// The working directory that every process is started in.
#[derive(Debug)]
pub struct ExecContext {
    pub cur_dir: String,
}

/// What a path names on disk.
#[derive(Debug, Clone, Copy, PartialEq, Eq, Structural)]
pub enum PathKind {
    Missing,
    /// A regular file.
    File,
    Directory,
    /// Something else that exists: a pipe, a device, a socket.
    Other,
}

/// Work that evaluation needs done outside: run a process, look at or read or write a file,
/// read one heredoc line from the terminal, print output, or report a runtime error.
#[derive(Debug)]
pub enum Request {
    /// Run `program` with `args` in `dir`; feed it `input` on standard input when given;
    /// capture its standard output when `capture` (else it goes to the terminal).
    Run { program: String, args: Vec<String>, dir: String, input: Option<String>, capture: bool },
    Inspect { path: String },
    ReadFile { path: String },
    /// Write `data` to `path`: appended to the existing file when `append`, else replacing it
    /// (or creating it).
    WriteFile { path: String, data: String, append: bool },
    ReadLine,
    Print { text: String },
    Report { message: String },
}

/// The answer to one request: text (captured output, file contents, a line), what a path
/// names, a failure, or a plain acknowledgement.
#[derive(Debug)]
pub enum Reply {
    Text(String),
    Kind(PathKind),
    Failed,
    Done,
}

/// Where an evaluation stands: it needs one more request answered, or it has finished.
#[derive(Debug)]
pub enum Step {
    Need(Request),
    Finished(Vec<Value>),
}

/// A value with its strings seen as character sequences.
pub struct ValueV {
    pub sym: Symbol,
    pub val: Seq<char>,
    pub flags: Seq<Seq<char>>,
    pub args: Seq<Seq<char>>,
}

/// A request with its strings seen as character sequences.
pub enum RequestV {
    Run {
        program: Seq<char>,
        args: Seq<Seq<char>>,
        dir: Seq<char>,
        input: Option<Seq<char>>,
        capture: bool,
    },
    Inspect { path: Seq<char> },
    ReadFile { path: Seq<char> },
    WriteFile { path: Seq<char>, data: Seq<char>, append: bool },
    ReadLine,
    Print { text: Seq<char> },
    Report { message: Seq<char> },
}

/// A reply with its strings seen as character sequences.
pub enum ReplyV {
    Text(Seq<char>),
    Kind(PathKind),
    Failed,
    Done,
}

/// Where an evaluation stands, over the views of requests and values.
pub enum StepV {
    Need(RequestV),
    Finished(Seq<ValueV>),
}

impl Value {
    pub open spec fn view(&self) -> ValueV {
        ValueV {
            sym: self.sym,
            val: self.val@,
            flags: strings_view(self.flags@),
            args: strings_view(self.args@),
        }
    }
}

pub open spec fn opt_text(o: Option<String>) -> Option<Seq<char>> {
    match o {
        Some(s) => Some(s@),
        None => None,
    }
}

impl Request {
    pub open spec fn view(&self) -> RequestV {
        match self {
            Request::Run { program, args, dir, input, capture } => RequestV::Run {
                program: program@,
                args: strings_view(args@),
                dir: dir@,
                input: opt_text(*input),
                capture: *capture,
            },
            Request::Inspect { path } => RequestV::Inspect { path: path@ },
            Request::ReadFile { path } => RequestV::ReadFile { path: path@ },
            Request::WriteFile { path, data, append } => RequestV::WriteFile {
                path: path@,
                data: data@,
                append: *append,
            },
            Request::ReadLine => RequestV::ReadLine,
            Request::Print { text } => RequestV::Print { text: text@ },
            Request::Report { message } => RequestV::Report { message: message@ },
        }
    }
}

impl Reply {
    pub open spec fn view(&self) -> ReplyV {
        match self {
            Reply::Text(s) => ReplyV::Text(s@),
            Reply::Kind(k) => ReplyV::Kind(*k),
            Reply::Failed => ReplyV::Failed,
            Reply::Done => ReplyV::Done,
        }
    }
}

pub open spec fn values_view(v: Seq<Value>) -> Seq<ValueV> {
    v.map_values(|x: Value| x@)
}

pub open spec fn replies_view(v: Seq<Reply>) -> Seq<ReplyV> {
    v.map_values(|x: Reply| x@)
}

impl Step {
    pub open spec fn view(&self) -> StepV {
        match self {
            Step::Need(q) => StepV::Need(q@),
            Step::Finished(vs) => StepV::Finished(values_view(vs@)),
        }
    }
}

/// Captured text as a value.
pub open spec fn text_value(s: Seq<char>) -> ValueV {
    ValueV { sym: Symbol::String, val: s, flags: Seq::empty(), args: Seq::empty() }
}

/// The texts of `vs`, one after another.
pub open spec fn concat_vals(vs: Seq<ValueV>) -> Seq<char>
    decreases vs.len(),
{
    if vs.len() == 0 {
        Seq::empty()
    } else {
        concat_vals(vs.drop_last()) + vs.last().val
    }
}

/// The text a reply carries; nothing for any other reply.
pub open spec fn reply_text(r: ReplyV) -> Seq<char> {
    match r {
        ReplyV::Text(t) => t,
        _ => Seq::empty(),
    }
}

/// The request that runs the command that `v` describes.
pub open spec fn run_request(dir: Seq<char>, v: ValueV, input: Option<Seq<char>>, capture: bool) -> RequestV {
    RequestV::Run { program: v.val, args: v.flags + v.args, dir, input, capture }
}

/// Issues `q` at reply position `pos`, then goes on with `then` at the next position; the
/// reply itself is not looked at.
pub open spec fn tell<T>(q: RequestV, rs: Seq<ReplyV>, pos: int, then: T) -> Result<(T, int), RequestV> {
    if 0 <= pos < rs.len() {
        Ok((then, pos + 1))
    } else {
        Err(q)
    }
}

pub open spec fn msg_expected_file() -> Seq<char> {
    "Expected some type of file."@
}

pub open spec fn msg_got_directory() -> Seq<char> {
    "Expected some type of file, got directory."@
}

pub open spec fn msg_no_terminator() -> Seq<char> {
    "Expected a heredoc terminator."@
}

pub open spec fn msg_no_such_file(path: Seq<char>) -> Seq<char> {
    "Error: No such file \""@ + path + "\""@
}

/// The input that the values of a pipe's left side make: each command is run with its
/// output captured, each other value gives its text; `None` once a command fails (it could
/// not be run, or its output was not text).
pub open spec fn feed_left(dir: Seq<char>, vs: Seq<ValueV>, i: int, rs: Seq<ReplyV>, pos: int, acc: Seq<char>) -> Result<
    (Option<Seq<char>>, int),
    RequestV,
>
    decreases vs.len() - i,
{
    if i < 0 || i >= vs.len() {
        Ok((Some(acc), pos))
    } else if vs[i].sym == Symbol::Cmd {
        if 0 <= pos < rs.len() {
            match rs[pos] {
                ReplyV::Text(t) => feed_left(dir, vs, i + 1, rs, pos + 1, acc + t),
                _ => Ok((None, pos + 1)),
            }
        } else {
            Err(run_request(dir, vs[i], None, true))
        }
    } else {
        feed_left(dir, vs, i + 1, rs, pos, acc + vs[i].val)
    }
}

/// The output of running each command of `vs` with `input` on its standard input, one after
/// another; the other values are passed over; `None` once a command fails.
pub open spec fn pipe_cmds(dir: Seq<char>, vs: Seq<ValueV>, i: int, input: Seq<char>, rs: Seq<ReplyV>, pos: int, acc: Seq<char>) -> Result<
    (Option<Seq<char>>, int),
    RequestV,
>
    decreases vs.len() - i,
{
    if i < 0 || i >= vs.len() {
        Ok((Some(acc), pos))
    } else if vs[i].sym == Symbol::Cmd {
        if 0 <= pos < rs.len() {
            match rs[pos] {
                ReplyV::Text(t) => pipe_cmds(dir, vs, i + 1, input, rs, pos + 1, acc + t),
                _ => Ok((None, pos + 1)),
            }
        } else {
            Err(run_request(dir, vs[i], Some(input), true))
        }
    } else {
        pipe_cmds(dir, vs, i + 1, input, rs, pos, acc)
    }
}

/// A line with its trailing newline taken off.
pub open spec fn strip_newline(l: Seq<char>) -> Seq<char> {
    if l.len() > 0 && l.last() == '\n' {
        l.drop_last()
    } else {
        l
    }
}

/// Heredoc lines read from position `pos` on, appended to `acc`, up to the terminator line;
/// `None` when the terminal gave no line.
pub open spec fn read_heredoc(term: Seq<char>, rs: Seq<ReplyV>, pos: int, acc: Seq<char>) -> Result<
    (Option<Seq<char>>, int),
    RequestV,
>
    decreases rs.len() - pos,
{
    if pos < 0 || pos >= rs.len() {
        Err(RequestV::ReadLine)
    } else {
        match rs[pos] {
            ReplyV::Text(l) => if strip_newline(l) == term {
                Ok((Some(acc), pos + 1))
            } else {
                read_heredoc(term, rs, pos + 1, acc + l)
            },
            _ => Ok((None, pos + 1)),
        }
    }
}

/// Captured output as the result, printed first when `print`.
pub open spec fn give_output(out: Seq<char>, print: bool, rs: Seq<ReplyV>, pos: int) -> Result<
    (Option<ValueV>, int),
    RequestV,
> {
    if print {
        tell(RequestV::Print { text: out }, rs, pos, Some(text_value(out)))
    } else {
        Ok((Some(text_value(out)), pos))
    }
}

/// `left | right`, with the left values evaluated quietly and the right ones delayed. A
/// command that fails on either side leaves the pipe with no value.
pub open spec fn do_pipe(dir: Seq<char>, lv: Seq<ValueV>, rv: Seq<ValueV>, mode: ExecType, rs: Seq<ReplyV>, pos: int) -> Result<
    (Option<ValueV>, int),
    RequestV,
> {
    match feed_left(dir, lv, 0, rs, pos, Seq::empty()) {
        Err(q) => Err(q),
        Ok((None, p1)) => Ok((None, p1)),
        Ok((Some(input), p1)) => match pipe_cmds(dir, rv, 0, input, rs, p1, Seq::empty()) {
            Err(q) => Err(q),
            Ok((None, p2)) => Ok((None, p2)),
            Ok((Some(out), p2)) => give_output(out, mode != ExecType::Quiet, rs, p2),
        },
    }
}

/// `left > file` or `left >> file` (`append`): the left values' text goes to the file named by
/// the first right value.
pub open spec fn do_redir_right(lv: Seq<ValueV>, rv: Seq<ValueV>, append: bool, rs: Seq<ReplyV>, pos: int) -> Result<
    (Option<ValueV>, int),
    RequestV,
> {
    if rv.len() == 0 || rv[0].sym != Symbol::File {
        tell(RequestV::Report { message: msg_expected_file() }, rs, pos, None)
    } else {
        let path = rv[0].val;
        if 0 <= pos < rs.len() {
            let k = rs[pos];
            if k == ReplyV::Kind(PathKind::Directory) {
                tell(RequestV::Report { message: msg_got_directory() }, rs, pos + 1, None)
            } else if k == ReplyV::Kind(PathKind::Other) {
                tell(RequestV::Report { message: msg_expected_file() }, rs, pos + 1, None)
            } else {
                let w = RequestV::WriteFile {
                    path,
                    data: concat_vals(lv),
                    append: append && k == ReplyV::Kind(PathKind::File),
                };
                tell(w, rs, pos + 1, None)
            }
        } else {
            Err(RequestV::Inspect { path })
        }
    }
}

/// `cmds < file`: the file named by the first right value is fed to the left commands.
pub open spec fn do_redir_left(dir: Seq<char>, lv: Seq<ValueV>, rv: Seq<ValueV>, mode: ExecType, rs: Seq<ReplyV>, pos: int) -> Result<
    (Option<ValueV>, int),
    RequestV,
> {
    if rv.len() == 0 || rv[0].sym != Symbol::File {
        tell(RequestV::Report { message: msg_expected_file() }, rs, pos, None)
    } else {
        let path = rv[0].val;
        if 0 <= pos < rs.len() {
            let k = rs[pos];
            if k == ReplyV::Kind(PathKind::File) {
                if 0 <= pos + 1 < rs.len() {
                    match rs[pos + 1] {
                        ReplyV::Text(t) => match pipe_cmds(dir, lv, 0, t, rs, pos + 2, Seq::empty()) {
                            Err(q) => Err(q),
                            Ok((None, p)) => Ok((None, p)),
                            Ok((Some(out), p)) => give_output(out, mode == ExecType::Normal, rs, p),
                        },
                        _ => Ok((None, pos + 2)),
                    }
                } else {
                    Err(RequestV::ReadFile { path })
                }
            } else if k == ReplyV::Kind(PathKind::Directory) {
                tell(RequestV::Report { message: msg_got_directory() }, rs, pos + 1, None)
            } else if k == ReplyV::Kind(PathKind::Other) {
                tell(RequestV::Report { message: msg_expected_file() }, rs, pos + 1, None)
            } else {
                tell(RequestV::Report { message: msg_no_such_file(path) }, rs, pos + 1, None)
            }
        } else {
            Err(RequestV::Inspect { path })
        }
    }
}

/// `cmds << word`: lines read up to the terminator `word` are fed to the left commands.
pub open spec fn do_heredoc(dir: Seq<char>, lv: Seq<ValueV>, rv: Seq<ValueV>, mode: ExecType, rs: Seq<ReplyV>, pos: int) -> Result<
    (Option<ValueV>, int),
    RequestV,
> {
    if rv.len() == 0 {
        tell(RequestV::Report { message: msg_no_terminator() }, rs, pos, None)
    } else {
        match read_heredoc(rv[0].val, rs, pos, Seq::empty()) {
            Err(q) => Err(q),
            Ok((None, p)) => Ok((None, p)),
            Ok((Some(input), p)) => match pipe_cmds(dir, lv, 0, input, rs, p, Seq::empty()) {
                Err(q) => Err(q),
                Ok((None, p2)) => Ok((None, p2)),
                Ok((Some(out), p2)) => give_output(out, mode == ExecType::Normal, rs, p2),
            },
        }
    }
}

/// The result of a plain or grouping node from the values of its operand.
pub open spec fn combine(vs: Seq<ValueV>, mode: ExecType) -> Option<ValueV> {
    if vs.len() == 0 {
        None
    } else if mode == ExecType::DelayExec {
        Some(vs[0])
    } else {
        Some(text_value(concat_vals(vs)))
    }
}

pub open spec fn is_operator(s: Symbol) -> bool {
    s == Symbol::Pipe || s == Symbol::RedirRight || s == Symbol::DoubleRedirRight || s
        == Symbol::RedirLeft || s == Symbol::DoubleRedirLeft
}

/// How the left operand of operator `s` is evaluated.
pub open spec fn left_mode(s: Symbol) -> ExecType {
    if s == Symbol::Pipe || s == Symbol::RedirRight || s == Symbol::DoubleRedirRight {
        ExecType::Quiet
    } else {
        ExecType::DelayExec
    }
}

/// Operator `s` applied to its evaluated operands.
pub open spec fn apply_op(dir: Seq<char>, s: Symbol, lv: Seq<ValueV>, rv: Seq<ValueV>, mode: ExecType, rs: Seq<ReplyV>, pos: int) -> Result<
    (Option<ValueV>, int),
    RequestV,
> {
    if s == Symbol::Pipe {
        do_pipe(dir, lv, rv, mode, rs, pos)
    } else if s == Symbol::RedirLeft {
        do_redir_left(dir, lv, rv, mode, rs, pos)
    } else if s == Symbol::DoubleRedirLeft {
        do_heredoc(dir, lv, rv, mode, rs, pos)
    } else {
        do_redir_right(lv, rv, s == Symbol::DoubleRedirRight, rs, pos)
    }
}

/// Evaluates node `e` in `mode` with working directory `dir`, where `rs` are the replies to
/// the requests made so far and `pos` the first reply not yet used. Gives the node's value
/// (if any) and the next reply position, or the request that must be answered next.
pub open spec fn eval_expr(dir: Seq<char>, e: ExprV, mode: ExecType, rs: Seq<ReplyV>, pos: int) -> Result<
    (Option<ValueV>, int),
    RequestV,
>
    decreases e, 0int,
{
    if e.kind == Kind::Value {
        if mode == ExecType::DelayExec || e.symbol != Symbol::Cmd {
            let v = ValueV {
                sym: e.symbol,
                val: match e.value {
                    Some(s) => s,
                    None => Seq::empty(),
                },
                flags: e.flags,
                args: e.args,
            };
            Ok((Some(v), pos))
        } else {
            let v = ValueV {
                sym: e.symbol,
                val: match e.value {
                    Some(s) => s,
                    None => Seq::empty(),
                },
                flags: e.flags,
                args: e.args,
            };
            if 0 <= pos < rs.len() {
                match rs[pos] {
                    ReplyV::Text(t) => Ok((Some(text_value(t)), pos + 1)),
                    _ => Ok((None, pos + 1)),
                }
            } else {
                Err(run_request(dir, v, None, mode == ExecType::Quiet))
            }
        }
    } else if e.symbol == Symbol::Sequence {
        if e.left is None {
            Ok((None, pos))
        } else {
            match eval_slot(dir, e.left, 0, mode, rs, pos, Seq::empty()) {
                Err(q) => Err(q),
                Ok((vs, p)) => Ok((combine(vs, mode), p)),
            }
        }
    } else if is_operator(e.symbol) {
        match eval_slot(dir, e.left, 0, left_mode(e.symbol), rs, pos, Seq::empty()) {
            Err(q) => Err(q),
            Ok((lv, p1)) => match eval_slot(
                dir,
                e.right,
                0,
                ExecType::DelayExec,
                rs,
                p1,
                Seq::empty(),
            ) {
                Err(q) => Err(q),
                Ok((rv, p2)) => apply_op(dir, e.symbol, lv, rv, mode, rs, p2),
            },
        }
    } else {
        Ok((None, pos))
    }
}

/// Evaluates the nodes of operand `o` from index `i` on, in order, appending their values to
/// `acc`; an absent operand has no nodes.
pub open spec fn eval_slot(dir: Seq<char>, o: Option<Seq<ExprV>>, i: int, mode: ExecType, rs: Seq<ReplyV>, pos: int, acc: Seq<ValueV>) -> Result<
    (Seq<ValueV>, int),
    RequestV,
>
    decreases o, o->Some_0.len() - i,
{
    match o {
        None => Ok((acc, pos)),
        Some(l) => if i < 0 || i >= l.len() {
            Ok((acc, pos))
        } else {
            match eval_expr(dir, l[i], mode, rs, pos) {
                Err(q) => Err(q),
                Ok((v, p)) => eval_slot(
                    dir,
                    o,
                    i + 1,
                    mode,
                    rs,
                    p,
                    match v {
                        Some(x) => acc.push(x),
                        None => acc,
                    },
                ),
            }
        },
    }
}

/// Where the evaluation of program `prog` stands once the replies `rs` are given.
pub open spec fn run_program(dir: Seq<char>, prog: Seq<ExprV>, mode: ExecType, rs: Seq<ReplyV>) -> StepV {
    match eval_slot(dir, Some(prog), 0, mode, rs, 0, Seq::empty()) {
        Err(q) => StepV::Need(q),
        Ok((vs, _)) => StepV::Finished(vs),
    }
}

pub open spec fn opt_value_view(o: Option<Value>) -> Option<ValueV> {
    match o {
        Some(v) => Some(v@),
        None => None,
    }
}

pub open spec fn opt_ast_view(o: Option<AST>) -> Option<Seq<ExprV>> {
    match o {
        Some(a) => Some(a@),
        None => None,
    }
}

spec fn same_text(r: Result<(Option<String>, usize), Request>, s: Result<(Option<Seq<char>>, int), RequestV>) -> bool {
    match s {
        Ok((t, p)) => r is Ok && opt_text(r->Ok_0.0) == t && r->Ok_0.1 == p,
        Err(q) => r is Err && r->Err_0@ == q,
    }
}

spec fn same_opt(r: Result<(Option<Value>, usize), Request>, s: Result<(Option<ValueV>, int), RequestV>) -> bool {
    match s {
        Ok((t, p)) => r is Ok && opt_value_view(r->Ok_0.0) == t && r->Ok_0.1 == p,
        Err(q) => r is Err && r->Err_0@ == q,
    }
}

spec fn same_vals(r: Result<(Vec<Value>, usize), Request>, s: Result<(Seq<ValueV>, int), RequestV>) -> bool {
    match s {
        Ok((t, p)) => r is Ok && values_view(r->Ok_0.0@) == t && r->Ok_0.1 == p,
        Err(q) => r is Err && r->Err_0@ == q,
    }
}

fn copy_strings(v: &Vec<String>) -> (r: Vec<String>)
    ensures
        strings_view(r@) == strings_view(v@),
{
    let mut r: Vec<String> = Vec::new();
    let mut i: usize = 0;
    while i < v.len()
        invariant
            i <= v@.len(),
            strings_view(r@) == strings_view(v@.subrange(0, i as int)),
        decreases v@.len() - i,
    {
        let ghost before = r@;
        let s = v[i].clone();
        r.push(s);
        proof {
            before.lemma_push_map_commute(|x: String| x@, s);
            assert(v@.subrange(0, i + 1) =~= v@.subrange(0, i as int).push(v@[i as int]));
            v@.subrange(0, i as int).lemma_push_map_commute(|x: String| x@, v@[i as int]);
        }
        i = i + 1;
    }
    assert(v@.subrange(0, v@.len() as int) =~= v@);
    r
}

fn append_strings(r: &mut Vec<String>, v: &Vec<String>)
    ensures
        strings_view(final(r)@) == strings_view(old(r)@) + strings_view(v@),
{
    let mut i: usize = 0;
    let ghost start = strings_view(r@);
    while i < v.len()
        invariant
            i <= v@.len(),
            strings_view(r@) == start + strings_view(v@.subrange(0, i as int)),
        decreases v@.len() - i,
    {
        let ghost before = r@;
        let s = v[i].clone();
        r.push(s);
        proof {
            before.lemma_push_map_commute(|x: String| x@, s);
            assert(v@.subrange(0, i + 1) =~= v@.subrange(0, i as int).push(v@[i as int]));
            v@.subrange(0, i as int).lemma_push_map_commute(|x: String| x@, v@[i as int]);
            assert(start + strings_view(v@.subrange(0, i + 1)) =~= (start + strings_view(
                v@.subrange(0, i as int),
            )).push(s@));
        }
        i = i + 1;
    }
    assert(v@.subrange(0, v@.len() as int) =~= v@);
}

fn copy_value(v: &Value) -> (r: Value)
    ensures
        r@ == v@,
{
    Value { sym: v.sym, val: v.val.clone(), flags: copy_strings(&v.flags), args: copy_strings(&v.args) }
}

fn make_text_value(s: String) -> (r: Value)
    ensures
        r@ == text_value(s@),
{
    let r = Value { sym: Symbol::String, val: s, flags: Vec::new(), args: Vec::new() };
    assert(strings_view(r.flags@) =~= Seq::empty());
    assert(strings_view(r.args@) =~= Seq::empty());
    r
}

/// The texts of `vs`, one after another.
fn concat_values(vs: &Vec<Value>) -> (r: String)
    ensures
        r@ == concat_vals(values_view(vs@)),
{
    let mut out = String::new();
    let mut i: usize = 0;
    while i < vs.len()
        invariant
            i <= vs@.len(),
            out@ == concat_vals(values_view(vs@.subrange(0, i as int))),
        decreases vs@.len() - i,
    {
        proof {
            let pre = vs@.subrange(0, i as int);
            assert(vs@.subrange(0, i + 1) =~= pre.push(vs@[i as int]));
            pre.lemma_push_map_commute(|x: Value| x@, vs@[i as int]);
            assert(values_view(pre.push(vs@[i as int])).drop_last() =~= values_view(pre));
        }
        out = out.concat(vs[i].val.as_str());
        i = i + 1;
    }
    assert(vs@.subrange(0, vs@.len() as int) =~= vs@);
    out
}

fn reply_text_of(r: &Reply) -> (t: String)
    ensures
        t@ == reply_text(r@),
{
    match r {
        Reply::Text(s) => s.clone(),
        _ => String::new(),
    }
}

proof fn lemma_replies_index(rs: Seq<Reply>, i: int)
    requires
        0 <= i < rs.len(),
    ensures
        replies_view(rs)[i] == rs[i]@,
        replies_view(rs).len() == rs.len(),
{
}

proof fn lemma_values_index(vs: Seq<Value>, i: int)
    requires
        0 <= i < vs.len(),
    ensures
        values_view(vs)[i] == vs[i]@,
        values_view(vs).len() == vs.len(),
{
}

fn tell_none(q: Request, rs: &Vec<Reply>, pos: usize) -> (r: Result<(Option<Value>, usize), Request>)
    requires
        pos <= rs@.len(),
    ensures
        same_opt(r, tell(q@, replies_view(rs@), pos as int, None)),
        r is Ok ==> r->Ok_0.1 <= rs@.len(),
{
    if pos < rs.len() {
        Ok((None, pos + 1))
    } else {
        Err(q)
    }
}

fn give_output_exec(out: String, print: bool, rs: &Vec<Reply>, pos: usize) -> (r: Result<(Option<Value>, usize), Request>)
    requires
        pos <= rs@.len(),
    ensures
        same_opt(r, give_output(out@, print, replies_view(rs@), pos as int)),
        r is Ok ==> r->Ok_0.1 <= rs@.len(),
{
    if print {
        if pos < rs.len() {
            Ok((Some(make_text_value(out)), pos + 1))
        } else {
            Err(Request::Print { text: out })
        }
    } else {
        Ok((Some(make_text_value(out)), pos))
    }
}

fn message(s: &str) -> (r: String)
    ensures
        r@ == s@,
{
    s.to_owned()
}

impl ExecContext {
    /// A context whose processes run in directory `path`.
    pub fn new(path: String) -> (r: Self)
        ensures
            r.cur_dir@ == path@,
    {
        ExecContext { cur_dir: path }
    }

    fn run_request_exec(&self, v: &Value, input: Option<String>, capture: bool) -> (r: Request)
        ensures
            r@ == run_request(self.cur_dir@, v@, opt_text(input), capture),
    {
        let mut args = copy_strings(&v.flags);
        append_strings(&mut args, &v.args);
        Request::Run { program: v.val.clone(), args, dir: self.cur_dir.clone(), input, capture }
    }

    /// Builds the input of a pipe from its left values: commands are run with their output
    /// captured, other values give their text.
    fn exec_cmds(&self, vs: &Vec<Value>, rs: &Vec<Reply>, pos: usize) -> (r: Result<(Option<String>, usize), Request>)
        requires
            pos <= rs@.len(),
        ensures
            same_text(r, feed_left(self.cur_dir@, values_view(vs@), 0, replies_view(rs@), pos as int, Seq::empty())),
            r is Ok ==> r->Ok_0.1 <= rs@.len(),
    {
        let ghost dir = self.cur_dir@;
        let ghost vv = values_view(vs@);
        let ghost rv = replies_view(rs@);
        let mut acc = String::new();
        let mut p = pos;
        let mut i: usize = 0;
        while i < vs.len()
            invariant
                i <= vs@.len(),
                p <= rs@.len(),
                vv == values_view(vs@),
                rv == replies_view(rs@),
                dir == self.cur_dir@,
                feed_left(dir, vv, 0, rv, pos as int, Seq::empty()) == feed_left(dir, vv, i as int, rv, p as int, acc@),
            decreases vs@.len() - i,
        {
            proof {
                lemma_values_index(vs@, i as int);
            }
            let v = &vs[i];
            if v.sym == Symbol::Cmd {
                if p < rs.len() {
                    proof {
                        lemma_replies_index(rs@, p as int);
                    }
                    match &rs[p] {
                        Reply::Text(t) => {
                            acc = acc.concat(t.as_str());
                            p = p + 1;
                        },
                        _ => {
                            return Ok((None, p + 1));
                        },
                    }
                } else {
                    return Err(self.run_request_exec(v, None, true));
                }
            } else {
                acc = acc.concat(v.val.as_str());
            }
            i = i + 1;
        }
        Ok((Some(acc), p))
    }

    /// Runs each command of `vs` with `input` on its standard input and collects their output.
    fn pipe_cmds(&self, vs: &Vec<Value>, input: &String, rs: &Vec<Reply>, pos: usize) -> (r: Result<(Option<String>, usize), Request>)
        requires
            pos <= rs@.len(),
        ensures
            same_text(r, pipe_cmds(self.cur_dir@, values_view(vs@), 0, input@, replies_view(rs@), pos as int, Seq::empty())),
            r is Ok ==> r->Ok_0.1 <= rs@.len(),
    {
        let ghost dir = self.cur_dir@;
        let ghost vv = values_view(vs@);
        let ghost rv = replies_view(rs@);
        let mut acc = String::new();
        let mut p = pos;
        let mut i: usize = 0;
        while i < vs.len()
            invariant
                i <= vs@.len(),
                p <= rs@.len(),
                vv == values_view(vs@),
                rv == replies_view(rs@),
                dir == self.cur_dir@,
                pipe_cmds(dir, vv, 0, input@, rv, pos as int, Seq::empty()) == pipe_cmds(dir, vv, i as int, input@, rv, p as int, acc@),
            decreases vs@.len() - i,
        {
            proof {
                lemma_values_index(vs@, i as int);
            }
            let v = &vs[i];
            if v.sym == Symbol::Cmd {
                if p < rs.len() {
                    proof {
                        lemma_replies_index(rs@, p as int);
                    }
                    match &rs[p] {
                        Reply::Text(t) => {
                            acc = acc.concat(t.as_str());
                            p = p + 1;
                        },
                        _ => {
                            return Ok((None, p + 1));
                        },
                    }
                } else {
                    return Err(self.run_request_exec(v, Some(input.clone()), true));
                }
            }
            i = i + 1;
        }
        Ok((Some(acc), p))
    }

    /// `left | right`.
    fn pipe(&self, lv: &Vec<Value>, rv: &Vec<Value>, exec_type: ExecType, rs: &Vec<Reply>, pos: usize) -> (r: Result<(Option<Value>, usize), Request>)
        requires
            pos <= rs@.len(),
        ensures
            same_opt(r, do_pipe(self.cur_dir@, values_view(lv@), values_view(rv@), exec_type, replies_view(rs@), pos as int)),
            r is Ok ==> r->Ok_0.1 <= rs@.len(),
    {
        match self.exec_cmds(lv, rs, pos) {
            Err(q) => Err(q),
            Ok((None, p1)) => Ok((None, p1)),
            Ok((Some(input), p1)) => match self.pipe_cmds(rv, &input, rs, p1) {
                Err(q) => Err(q),
                Ok((None, p2)) => Ok((None, p2)),
                Ok((Some(out), p2)) => give_output_exec(out, exec_type != ExecType::Quiet, rs, p2),
            },
        }
    }

    /// `left > file` and `left >> file`.
    fn redir_right(&self, lv: &Vec<Value>, rv: &Vec<Value>, append: bool, rs: &Vec<Reply>, pos: usize) -> (r: Result<(Option<Value>, usize), Request>)
        requires
            pos <= rs@.len(),
        ensures
            same_opt(r, do_redir_right(values_view(lv@), values_view(rv@), append, replies_view(rs@), pos as int)),
            r is Ok ==> r->Ok_0.1 <= rs@.len(),
    {
        if rv.len() == 0 || rv[0].sym != Symbol::File {
            proof {
                reveal_strlit("Expected some type of file.");
            }
            return tell_none(Request::Report { message: message("Expected some type of file.") }, rs, pos);
        }
        proof {
            lemma_values_index(rv@, 0);
        }
        let path = rv[0].val.clone();
        if pos < rs.len() {
            proof {
                lemma_replies_index(rs@, pos as int);
            }
            match &rs[pos] {
                Reply::Kind(PathKind::Directory) => {
                    proof {
                        reveal_strlit("Expected some type of file, got directory.");
                    }
                    tell_none(Request::Report { message: message("Expected some type of file, got directory.") }, rs, pos + 1)
                },
                Reply::Kind(PathKind::Other) => {
                    proof {
                        reveal_strlit("Expected some type of file.");
                    }
                    tell_none(Request::Report { message: message("Expected some type of file.") }, rs, pos + 1)
                },
                k => {
                    let existing = match k {
                        Reply::Kind(PathKind::File) => true,
                        _ => false,
                    };
                    let data = concat_values(lv);
                    tell_none(Request::WriteFile { path, data, append: append && existing }, rs, pos + 1)
                },
            }
        } else {
            Err(Request::Inspect { path })
        }
    }

    /// `cmds < file`.
    fn redir_left(&self, lv: &Vec<Value>, rv: &Vec<Value>, exec_type: ExecType, rs: &Vec<Reply>, pos: usize) -> (r: Result<(Option<Value>, usize), Request>)
        requires
            pos <= rs@.len(),
        ensures
            same_opt(r, do_redir_left(self.cur_dir@, values_view(lv@), values_view(rv@), exec_type, replies_view(rs@), pos as int)),
            r is Ok ==> r->Ok_0.1 <= rs@.len(),
    {
        if rv.len() == 0 || rv[0].sym != Symbol::File {
            proof {
                reveal_strlit("Expected some type of file.");
            }
            return tell_none(Request::Report { message: message("Expected some type of file.") }, rs, pos);
        }
        proof {
            lemma_values_index(rv@, 0);
        }
        let path = rv[0].val.clone();
        if pos >= rs.len() {
            return Err(Request::Inspect { path });
        }
        proof {
            lemma_replies_index(rs@, pos as int);
        }
        match &rs[pos] {
            Reply::Kind(PathKind::File) => {
                if pos + 1 >= rs.len() {
                    return Err(Request::ReadFile { path });
                }
                proof {
                    lemma_replies_index(rs@, pos + 1);
                }
                match &rs[pos + 1] {
                    Reply::Text(t) => match self.pipe_cmds(lv, t, rs, pos + 2) {
                        Err(q) => Err(q),
                        Ok((None, p)) => Ok((None, p)),
                        Ok((Some(out), p)) => give_output_exec(out, exec_type == ExecType::Normal, rs, p),
                    },
                    _ => Ok((None, pos + 2)),
                }
            },
            Reply::Kind(PathKind::Directory) => {
                proof {
                    reveal_strlit("Expected some type of file, got directory.");
                }
                tell_none(Request::Report { message: message("Expected some type of file, got directory.") }, rs, pos + 1)
            },
            Reply::Kind(PathKind::Other) => {
                proof {
                    reveal_strlit("Expected some type of file.");
                }
                tell_none(Request::Report { message: message("Expected some type of file.") }, rs, pos + 1)
            },
            _ => {
                let m = message("Error: No such file \"").concat(path.as_str()).concat("\"");
                proof {
                    reveal_strlit("Error: No such file \"");
                    reveal_strlit("\"");
                }
                tell_none(Request::Report { message: m }, rs, pos + 1)
            },
        }
    }

    /// `cmds << word`.
    fn double_redir_left(&self, lv: &Vec<Value>, rv: &Vec<Value>, exec_type: ExecType, rs: &Vec<Reply>, pos: usize) -> (r: Result<(Option<Value>, usize), Request>)
        requires
            pos <= rs@.len(),
        ensures
            same_opt(r, do_heredoc(self.cur_dir@, values_view(lv@), values_view(rv@), exec_type, replies_view(rs@), pos as int)),
            r is Ok ==> r->Ok_0.1 <= rs@.len(),
    {
        if rv.len() == 0 {
            proof {
                reveal_strlit("Expected a heredoc terminator.");
            }
            return tell_none(Request::Report { message: message("Expected a heredoc terminator.") }, rs, pos);
        }
        proof {
            lemma_values_index(rv@, 0);
        }
        match read_lines(&rv[0].val, rs, pos) {
            Err(q) => Err(q),
            Ok((None, p)) => Ok((None, p)),
            Ok((Some(input), p)) => match self.pipe_cmds(lv, &input, rs, p) {
                Err(q) => Err(q),
                Ok((None, p2)) => Ok((None, p2)),
                Ok((Some(out), p2)) => give_output_exec(out, exec_type == ExecType::Normal, rs, p2),
            },
        }
    }
}

/// A line with its trailing newline taken off.
fn strip_newline_exec(l: &String) -> (r: String)
    ensures
        r@ == strip_newline(l@),
{
    let n = l.as_str().unicode_len();
    if n > 0 && l.as_str().get_char(n - 1) == '\n' {
        l.as_str().substring_char(0, n - 1).to_owned()
    } else {
        l.clone()
    }
}

/// Reads heredoc lines from the replies up to the terminator line `term`.
fn read_lines(term: &String, rs: &Vec<Reply>, pos: usize) -> (r: Result<(Option<String>, usize), Request>)
    requires
        pos <= rs@.len(),
    ensures
        match read_heredoc(term@, replies_view(rs@), pos as int, Seq::empty()) {
            Ok((t, p)) => r is Ok && opt_text(r->Ok_0.0) == t && r->Ok_0.1 == p,
            Err(q) => r is Err && r->Err_0@ == q,
        },
        r is Ok ==> r->Ok_0.1 <= rs@.len(),
{
    let ghost rv = replies_view(rs@);
    let mut acc = String::new();
    let mut p = pos;
    loop
        invariant
            p <= rs@.len(),
            rv == replies_view(rs@),
            read_heredoc(term@, rv, pos as int, Seq::empty()) == read_heredoc(term@, rv, p as int, acc@),
        decreases rs@.len() - p,
    {
        if p >= rs.len() {
            return Err(Request::ReadLine);
        }
        proof {
            lemma_replies_index(rs@, p as int);
        }
        match &rs[p] {
            Reply::Text(l) => {
                let stripped = strip_newline_exec(l);
                if stripped == *term {
                    return Ok((Some(acc), p + 1));
                }
                acc = acc.concat(l.as_str());
                p = p + 1;
            },
            _ => {
                return Ok((None, p + 1));
            },
        }
    }
}

impl ExecContext {
    /// Evaluates one node; see `eval_expr`.
    fn interpret_expression(&self, expr: &Expr, exec_type: ExecType, rs: &Vec<Reply>, pos: usize) -> (r: Result<(Option<Value>, usize), Request>)
        requires
            pos <= rs@.len(),
        ensures
            same_opt(r, eval_expr(self.cur_dir@, expr@, exec_type, replies_view(rs@), pos as int)),
            r is Ok ==> r->Ok_0.1 <= rs@.len(),
        decreases expr,
    {
        if expr.kind == Kind::Value {
            let val = match &expr.value {
                Some(s) => s.clone(),
                None => String::new(),
            };
            let v = Value {
                sym: expr.symbol,
                val,
                flags: copy_strings(&expr.flags),
                args: copy_strings(&expr.args),
            };
            if exec_type == ExecType::DelayExec || expr.symbol != Symbol::Cmd {
                return Ok((Some(v), pos));
            }
            if pos >= rs.len() {
                return Err(self.run_request_exec(&v, None, exec_type == ExecType::Quiet));
            }
            proof {
                lemma_replies_index(rs@, pos as int);
            }
            match &rs[pos] {
                Reply::Text(t) => Ok((Some(make_text_value(t.clone())), pos + 1)),
                _ => Ok((None, pos + 1)),
            }
        } else if expr.symbol == Symbol::Sequence {
            if expr.left.is_none() {
                return Ok((None, pos));
            }
            match self.interpret_slot(&expr.left, exec_type, rs, pos) {
                Err(q) => Err(q),
                Ok((vs, p)) => {
                    if vs.len() == 0 {
                        Ok((None, p))
                    } else if exec_type == ExecType::DelayExec {
                        proof {
                            lemma_values_index(vs@, 0);
                        }
                        Ok((Some(copy_value(&vs[0])), p))
                    } else {
                        Ok((Some(make_text_value(concat_values(&vs))), p))
                    }
                },
            }
        } else if expr.symbol == Symbol::Pipe || expr.symbol == Symbol::RedirRight || expr.symbol
            == Symbol::DoubleRedirRight || expr.symbol == Symbol::RedirLeft || expr.symbol
            == Symbol::DoubleRedirLeft {
            let lmode = if expr.symbol == Symbol::Pipe || expr.symbol == Symbol::RedirRight
                || expr.symbol == Symbol::DoubleRedirRight {
                ExecType::Quiet
            } else {
                ExecType::DelayExec
            };
            match self.interpret_slot(&expr.left, lmode, rs, pos) {
                Err(q) => Err(q),
                Ok((lv, p1)) => match self.interpret_slot(&expr.right, ExecType::DelayExec, rs, p1) {
                    Err(q) => Err(q),
                    Ok((rv, p2)) => {
                        if expr.symbol == Symbol::Pipe {
                            self.pipe(&lv, &rv, exec_type, rs, p2)
                        } else if expr.symbol == Symbol::RedirLeft {
                            self.redir_left(&lv, &rv, exec_type, rs, p2)
                        } else if expr.symbol == Symbol::DoubleRedirLeft {
                            self.double_redir_left(&lv, &rv, exec_type, rs, p2)
                        } else {
                            self.redir_right(&lv, &rv, expr.symbol == Symbol::DoubleRedirRight, rs, p2)
                        }
                    },
                },
            }
        } else {
            Ok((None, pos))
        }
    }

    /// Evaluates the nodes of an operand in order and keeps the values they give.
    fn interpret_slot(&self, o: &Option<AST>, exec_type: ExecType, rs: &Vec<Reply>, pos: usize) -> (r: Result<(Vec<Value>, usize), Request>)
        requires
            pos <= rs@.len(),
        ensures
            same_vals(r, eval_slot(self.cur_dir@, opt_ast_view(*o), 0, exec_type, replies_view(rs@), pos as int, Seq::empty())),
            r is Ok ==> r->Ok_0.1 <= rs@.len(),
        decreases o,
    {
        match o {
            None => {
                let out: Vec<Value> = Vec::new();
                assert(values_view(out@) =~= Seq::empty());
                Ok((out, pos))
            },
            Some(a) => self.interpret_list(a, exec_type, rs, pos),
        }
    }

    /// Evaluates the nodes of `a` in order and keeps the values they give.
    fn interpret_list(&self, a: &AST, exec_type: ExecType, rs: &Vec<Reply>, pos: usize) -> (r: Result<(Vec<Value>, usize), Request>)
        requires
            pos <= rs@.len(),
        ensures
            same_vals(r, eval_slot(self.cur_dir@, Some(a@), 0, exec_type, replies_view(rs@), pos as int, Seq::empty())),
            r is Ok ==> r->Ok_0.1 <= rs@.len(),
        decreases a,
    {
        let ghost dir = self.cur_dir@;
        let ghost ov = Some(a@);
        let ghost rv = replies_view(rs@);
        let mut out: Vec<Value> = Vec::new();
        assert(values_view(out@) =~= Seq::empty());
        let mut p = pos;
        let mut i: usize = 0;
        while i < a.exprs.len()
            invariant
                i <= a.exprs@.len(),
                p <= rs@.len(),
                rv == replies_view(rs@),
                dir == self.cur_dir@,
                ov == Some(a@),
                a@.len() == a.exprs@.len(),
                eval_slot(dir, ov, 0, exec_type, rv, pos as int, Seq::empty()) == eval_slot(
                    dir,
                    ov,
                    i as int,
                    exec_type,
                    rv,
                    p as int,
                    values_view(out@),
                ),
            decreases a.exprs@.len() - i,
        {
            assert(a@[i as int] == a.exprs@[i as int]@);
            match self.interpret_expression(&a.exprs[i], exec_type, rs, p) {
                Err(q) => {
                    return Err(q);
                },
                Ok((v, p2)) => {
                    match v {
                        Some(x) => {
                            let ghost before = out@;
                            out.push(x);
                            proof {
                                before.lemma_push_map_commute(|x: Value| x@, x);
                            }
                        },
                        None => {},
                    }
                    p = p2;
                },
            }
            i = i + 1;
        }
        Ok((out, p))
    }

    /// Evaluates `ast` in `exec_type` given `replies`, the answers to the requests made so far
    /// in order: gives the next request to answer, or the values the statements produced.
    pub fn interpret_program(&self, ast: &AST, exec_type: ExecType, replies: &Vec<Reply>) -> (r: Step)
        ensures
            r@ == run_program(self.cur_dir@, ast@, exec_type, replies_view(replies@)),
    {
        match self.interpret_list(ast, exec_type, replies, 0) {
            Err(q) => Step::Need(q),
            Ok((vs, _)) => Step::Finished(vs),
        }
    }
}

/// The statement `left <op> right`, with the two slots as the parser fills them.
pub open spec fn binary_stmt(op: Symbol, text: Seq<char>, left: SlotV, right: SlotV) -> ExprV {
    stmt_tree(StmtV { symbol: op, op: text, left: Some(left), right: Some(right) })
}

/// A file leaf, the right side of a redirect.
pub open spec fn file_slot(path: Seq<char>) -> SlotV {
    SlotV::Leaf { symbol: Symbol::File, value: path, flags: seq![], args: seq![] }
}

/// The description of command `name` with its flags and arguments.
pub open spec fn cmd_value(name: Seq<char>, flags: Seq<Seq<char>>, args: Seq<Seq<char>>) -> ValueV {
    ValueV { sym: Symbol::Cmd, val: name, flags, args }
}

/// The request that runs bare command `name`.
pub open spec fn run_bare(dir: Seq<char>, name: Seq<char>, input: Option<Seq<char>>, capture: bool) -> RequestV {
    RequestV::Run { program: name, args: Seq::empty(), dir, input, capture }
}

/// `a | b` at top level (each command with any flags and arguments) runs `a` to completion
/// with its output captured, then runs `b` with that output on its standard input; `b`'s
/// output is printed and is the result.
pub proof fn lemma_pipe_feeds_right(dir: Seq<char>, a: Seq<char>, fa: Seq<Seq<char>>, aa: Seq<Seq<char>>, bar: Seq<char>, b: Seq<char>, fb: Seq<Seq<char>>, bb: Seq<Seq<char>>, oa: Seq<char>, ob: Seq<char>)
    ensures
        ({
            let prog = seq![binary_stmt(Symbol::Pipe, bar, cmd_slot(a, fa, aa), cmd_slot(b, fb, bb))];
            &&& run_program(dir, prog, ExecType::Normal, seq![]) == StepV::Need(run_request(dir, cmd_value(a, fa, aa), None, true))
            &&& run_program(dir, prog, ExecType::Normal, seq![ReplyV::Text(oa)]) == StepV::Need(run_request(dir, cmd_value(b, fb, bb), Some(oa), true))
            &&& run_program(dir, prog, ExecType::Normal, seq![ReplyV::Text(oa), ReplyV::Text(ob)]) == StepV::Need(RequestV::Print { text: ob })
            &&& run_program(dir, prog, ExecType::Normal, seq![ReplyV::Text(oa), ReplyV::Text(ob), ReplyV::Done]) == StepV::Finished(seq![text_value(ob)])
        }),
{
    lemma_pipe_steps(dir, a, fa, aa, bar, b, fb, bb, oa, ob, seq![]);
    lemma_pipe_steps(dir, a, fa, aa, bar, b, fb, bb, oa, ob, seq![ReplyV::Text(oa)]);
    lemma_pipe_steps(dir, a, fa, aa, bar, b, fb, bb, oa, ob, seq![ReplyV::Text(oa), ReplyV::Text(ob)]);
    lemma_pipe_steps(dir, a, fa, aa, bar, b, fb, bb, oa, ob, seq![ReplyV::Text(oa), ReplyV::Text(ob), ReplyV::Done]);
}

proof fn lemma_bare_value(dir: Seq<char>, name: Seq<char>, input: Option<Seq<char>>, capture: bool)
    ensures
        run_request(dir, cmd_value(name, seq![], seq![]), input, capture) == run_bare(dir, name, input, capture),
{
    assert(Seq::<Seq<char>>::empty() + Seq::<Seq<char>>::empty() =~= Seq::<Seq<char>>::empty());
}

proof fn lemma_pipe_steps(dir: Seq<char>, a: Seq<char>, fa: Seq<Seq<char>>, aa: Seq<Seq<char>>, bar: Seq<char>, b: Seq<char>, fb: Seq<Seq<char>>, bb: Seq<Seq<char>>, oa: Seq<char>, ob: Seq<char>, rs: Seq<ReplyV>)
    requires
        rs.len() <= 3,
        rs.len() > 0 ==> rs[0] == ReplyV::Text(oa),
        rs.len() > 1 ==> rs[1] == ReplyV::Text(ob),
    ensures
        ({
            let prog = seq![binary_stmt(Symbol::Pipe, bar, cmd_slot(a, fa, aa), cmd_slot(b, fb, bb))];
            let r = run_program(dir, prog, ExecType::Normal, rs);
            &&& rs.len() == 0 ==> r == StepV::Need(run_request(dir, cmd_value(a, fa, aa), None, true))
            &&& rs.len() == 1 ==> r == StepV::Need(run_request(dir, cmd_value(b, fb, bb), Some(oa), true))
            &&& rs.len() == 2 ==> r == StepV::Need(RequestV::Print { text: ob })
            &&& rs.len() == 3 ==> r == StepV::Finished(seq![text_value(ob)])
        }),
{
    let e = binary_stmt(Symbol::Pipe, bar, cmd_slot(a, fa, aa), cmd_slot(b, fb, bb));
    let prog = seq![e];
    let va = cmd_value(a, fa, aa);
    let vb = cmd_value(b, fb, bb);
    let la = e.left.unwrap()[0];
    let lb = e.right.unwrap()[0];
    assert(Seq::<char>::empty() + oa =~= oa);
    assert(Seq::<char>::empty() + ob =~= ob);
    assert(Seq::<ValueV>::empty().push(text_value(oa)) =~= seq![text_value(oa)]);
    assert(Seq::<ValueV>::empty().push(vb) =~= seq![vb]);
    assert(Seq::<ValueV>::empty().push(text_value(ob)) =~= seq![text_value(ob)]);
    if rs.len() == 0 {
        assert(eval_expr(dir, la, ExecType::Quiet, rs, 0) == Err::<(Option<ValueV>, int), RequestV>(run_request(dir, va, None, true)));
        assert(eval_slot(dir, e.left, 0, ExecType::Quiet, rs, 0, seq![]) == Err::<(Seq<ValueV>, int), RequestV>(run_request(dir, va, None, true)));
        assert(eval_expr(dir, e, ExecType::Normal, rs, 0) == Err::<(Option<ValueV>, int), RequestV>(run_request(dir, va, None, true)));
    } else {
        assert(eval_expr(dir, la, ExecType::Quiet, rs, 0) == Ok::<(Option<ValueV>, int), RequestV>((Some(text_value(oa)), 1)));
        assert(eval_slot(dir, e.left, 1, ExecType::Quiet, rs, 1, seq![text_value(oa)]) == Ok::<(Seq<ValueV>, int), RequestV>((seq![text_value(oa)], 1)));
        assert(eval_slot(dir, e.left, 0, ExecType::Quiet, rs, 0, seq![]) == Ok::<(Seq<ValueV>, int), RequestV>((seq![text_value(oa)], 1)));
        assert(eval_expr(dir, lb, ExecType::DelayExec, rs, 1) == Ok::<(Option<ValueV>, int), RequestV>((Some(vb), 1)));
        assert(eval_slot(dir, e.right, 1, ExecType::DelayExec, rs, 1, seq![vb]) == Ok::<(Seq<ValueV>, int), RequestV>((seq![vb], 1)));
        assert(eval_slot(dir, e.right, 0, ExecType::DelayExec, rs, 1, seq![]) == Ok::<(Seq<ValueV>, int), RequestV>((seq![vb], 1)));
        assert(feed_left(dir, seq![text_value(oa)], 1, rs, 1, oa) == Ok::<(Option<Seq<char>>, int), RequestV>((Some(oa), 1)));
        assert(feed_left(dir, seq![text_value(oa)], 0, rs, 1, seq![]) == Ok::<(Option<Seq<char>>, int), RequestV>((Some(oa), 1)));
        if rs.len() == 1 {
            assert(pipe_cmds(dir, seq![vb], 0, oa, rs, 1, seq![]) == Err::<(Option<Seq<char>>, int), RequestV>(run_request(dir, vb, Some(oa), true)));
        } else {
            assert(pipe_cmds(dir, seq![vb], 1, oa, rs, 2, ob) == Ok::<(Option<Seq<char>>, int), RequestV>((Some(ob), 2)));
            assert(pipe_cmds(dir, seq![vb], 0, oa, rs, 1, seq![]) == Ok::<(Option<Seq<char>>, int), RequestV>((Some(ob), 2)));
            if rs.len() == 3 {
                assert(eval_expr(dir, e, ExecType::Normal, rs, 0) == Ok::<(Option<ValueV>, int), RequestV>((Some(text_value(ob)), 3)));
                assert(eval_slot(dir, Some(prog), 1, ExecType::Normal, rs, 3, seq![text_value(ob)]) == Ok::<(Seq<ValueV>, int), RequestV>((seq![text_value(ob)], 3)));
            }
        }
    }
}

pub open spec fn redirect_op(append: bool) -> Symbol {
    if append {
        Symbol::DoubleRedirRight
    } else {
        Symbol::RedirRight
    }
}

proof fn lemma_redirect_steps(dir: Seq<char>, c: Seq<char>, fc: Seq<Seq<char>>, ac: Seq<Seq<char>>, text: Seq<char>, f: Seq<char>, o: Seq<char>, append: bool, rs: Seq<ReplyV>)
    requires
        rs.len() <= 3,
        rs.len() > 0 ==> rs[0] == ReplyV::Text(o),
    ensures
        ({
            let prog = seq![binary_stmt(redirect_op(append), text, cmd_slot(c, fc, ac), file_slot(f))];
            let r = run_program(dir, prog, ExecType::Normal, rs);
            &&& rs.len() == 0 ==> r == StepV::Need(run_request(dir, cmd_value(c, fc, ac), None, true))
            &&& rs.len() == 1 ==> r == StepV::Need(RequestV::Inspect { path: f })
            &&& rs.len() >= 2 ==> (r == match do_redir_right(seq![text_value(o)], seq![ValueV { sym: Symbol::File, val: f, flags: seq![], args: seq![] }], append, rs, 1) {
                Err(q) => StepV::Need(q),
                Ok(_) => StepV::Finished(Seq::empty()),
            })
        }),
{
    let e = binary_stmt(redirect_op(append), text, cmd_slot(c, fc, ac), file_slot(f));
    let prog = seq![e];
    let vc = cmd_value(c, fc, ac);
    let vf = ValueV { sym: Symbol::File, val: f, flags: seq![], args: seq![] };
    let lc = e.left.unwrap()[0];
    let lf = e.right.unwrap()[0];
    assert(Seq::<ValueV>::empty().push(text_value(o)) =~= seq![text_value(o)]);
    assert(Seq::<ValueV>::empty().push(vf) =~= seq![vf]);
    if rs.len() == 0 {
        assert(eval_expr(dir, lc, ExecType::Quiet, rs, 0) == Err::<(Option<ValueV>, int), RequestV>(run_request(dir, vc, None, true)));
        assert(eval_slot(dir, e.left, 0, ExecType::Quiet, rs, 0, seq![]) == Err::<(Seq<ValueV>, int), RequestV>(run_request(dir, vc, None, true)));
        assert(eval_expr(dir, e, ExecType::Normal, rs, 0) == Err::<(Option<ValueV>, int), RequestV>(run_request(dir, vc, None, true)));
    } else {
        assert(eval_expr(dir, lc, ExecType::Quiet, rs, 0) == Ok::<(Option<ValueV>, int), RequestV>((Some(text_value(o)), 1)));
        assert(eval_slot(dir, e.left, 1, ExecType::Quiet, rs, 1, seq![text_value(o)]) == Ok::<(Seq<ValueV>, int), RequestV>((seq![text_value(o)], 1)));
        assert(eval_slot(dir, e.left, 0, ExecType::Quiet, rs, 0, seq![]) == Ok::<(Seq<ValueV>, int), RequestV>((seq![text_value(o)], 1)));
        assert(eval_expr(dir, lf, ExecType::DelayExec, rs, 1) == Ok::<(Option<ValueV>, int), RequestV>((Some(vf), 1)));
        assert(eval_slot(dir, e.right, 1, ExecType::DelayExec, rs, 1, seq![vf]) == Ok::<(Seq<ValueV>, int), RequestV>((seq![vf], 1)));
        assert(eval_slot(dir, e.right, 0, ExecType::DelayExec, rs, 1, seq![]) == Ok::<(Seq<ValueV>, int), RequestV>((seq![vf], 1)));
        let d = do_redir_right(seq![text_value(o)], seq![vf], append, rs, 1);
        assert(eval_expr(dir, e, ExecType::Normal, rs, 0) == d);
        match d {
            Err(q) => {},
            Ok((v, p)) => {
                assert(v is None);
                assert(eval_slot(dir, Some(prog), 1, ExecType::Normal, rs, p, seq![]) == Ok::<(Seq<ValueV>, int), RequestV>((seq![], p)));
            },
        }
    }
}

/// `c > f` and `c >> f` (`append`) at top level, `c` with any flags and arguments: `c` runs
/// with its output captured, `f` is looked at, and when it is a regular file or missing
/// exactly the captured output is written to it, appended when `>>` finds an existing file
/// and replacing the contents (or creating the file) otherwise; the statement gives no value.
pub proof fn lemma_redirect_writes_output(dir: Seq<char>, c: Seq<char>, fc: Seq<Seq<char>>, ac: Seq<Seq<char>>, text: Seq<char>, f: Seq<char>, o: Seq<char>, append: bool, k: PathKind, ack: ReplyV)
    requires
        k == PathKind::File || k == PathKind::Missing,
    ensures
        ({
            let prog = seq![binary_stmt(redirect_op(append), text, cmd_slot(c, fc, ac), file_slot(f))];
            &&& run_program(dir, prog, ExecType::Normal, seq![]) == StepV::Need(run_request(dir, cmd_value(c, fc, ac), None, true))
            &&& run_program(dir, prog, ExecType::Normal, seq![ReplyV::Text(o)]) == StepV::Need(RequestV::Inspect { path: f })
            &&& run_program(dir, prog, ExecType::Normal, seq![ReplyV::Text(o), ReplyV::Kind(k)]) == StepV::Need(
                RequestV::WriteFile { path: f, data: o, append: append && k == PathKind::File },
            )
            &&& run_program(dir, prog, ExecType::Normal, seq![ReplyV::Text(o), ReplyV::Kind(k), ack]) == StepV::Finished(Seq::empty())
        }),
{
    lemma_redirect_steps(dir, c, fc, ac, text, f, o, append, seq![]);
    lemma_redirect_steps(dir, c, fc, ac, text, f, o, append, seq![ReplyV::Text(o)]);
    lemma_redirect_steps(dir, c, fc, ac, text, f, o, append, seq![ReplyV::Text(o), ReplyV::Kind(k)]);
    lemma_redirect_steps(dir, c, fc, ac, text, f, o, append, seq![ReplyV::Text(o), ReplyV::Kind(k), ack]);
    assert(concat_vals(seq![text_value(o)]) == concat_vals(seq![text_value(o)].drop_last()) + o);
    assert(seq![text_value(o)].drop_last() =~= Seq::<ValueV>::empty());
    assert(Seq::<char>::empty() + o =~= o);
}

/// `c > d` or `c >> d` where `d` is a directory: a runtime error is reported, nothing is
/// written, and the statement gives no value.
pub proof fn lemma_redirect_onto_directory(dir: Seq<char>, c: Seq<char>, fc: Seq<Seq<char>>, ac: Seq<Seq<char>>, text: Seq<char>, d: Seq<char>, o: Seq<char>, append: bool, ack: ReplyV)
    ensures
        ({
            let prog = seq![binary_stmt(redirect_op(append), text, cmd_slot(c, fc, ac), file_slot(d))];
            &&& run_program(dir, prog, ExecType::Normal, seq![ReplyV::Text(o), ReplyV::Kind(PathKind::Directory)]) == StepV::Need(
                RequestV::Report { message: msg_got_directory() },
            )
            &&& run_program(dir, prog, ExecType::Normal, seq![ReplyV::Text(o), ReplyV::Kind(PathKind::Directory), ack]) == StepV::Finished(Seq::empty())
        }),
{
    lemma_redirect_steps(dir, c, fc, ac, text, d, o, append, seq![ReplyV::Text(o), ReplyV::Kind(PathKind::Directory)]);
    lemma_redirect_steps(dir, c, fc, ac, text, d, o, append, seq![ReplyV::Text(o), ReplyV::Kind(PathKind::Directory), ack]);
}

proof fn lemma_lone_step(dir: Seq<char>, w: Seq<char>, mode: ExecType, rs: Seq<ReplyV>, pos: int, t: Seq<char>)
    requires
        mode != ExecType::DelayExec,
        0 <= pos,
        pos < rs.len() ==> rs[pos] == ReplyV::Text(t),
    ensures
        eval_expr(dir, lone_command(w), mode, rs, pos) == if pos < rs.len() {
            Ok::<(Option<ValueV>, int), RequestV>((Some(text_value(t)), pos + 1))
        } else {
            Err(run_bare(dir, w, None, mode == ExecType::Quiet))
        },
{
    let e = lone_command(w);
    let leaf = e.left.unwrap()[0];
    let v = cmd_value(w, seq![], seq![]);
    lemma_bare_value(dir, w, None, mode == ExecType::Quiet);
    assert(Seq::<ValueV>::empty().push(text_value(t)) =~= seq![text_value(t)]);
    assert(concat_vals(seq![text_value(t)]) == concat_vals(seq![text_value(t)].drop_last()) + t);
    assert(seq![text_value(t)].drop_last() =~= Seq::<ValueV>::empty());
    assert(Seq::<char>::empty() + t =~= t);
    if pos < rs.len() {
        assert(eval_expr(dir, leaf, mode, rs, pos) == Ok::<(Option<ValueV>, int), RequestV>((Some(text_value(t)), pos + 1)));
        assert(eval_slot(dir, e.left, 1, mode, rs, pos + 1, seq![text_value(t)]) == Ok::<(Seq<ValueV>, int), RequestV>((seq![text_value(t)], pos + 1)));
    } else {
        assert(eval_expr(dir, leaf, mode, rs, pos) == Err::<(Option<ValueV>, int), RequestV>(run_request(dir, v, None, mode == ExecType::Quiet)));
    }
}

/// The program `cmds[0]; cmds[1]; ...` of lone commands.
pub open spec fn lone_program(cmds: Seq<Seq<char>>) -> Seq<ExprV> {
    cmds.map_values(|w: Seq<char>| lone_command(w))
}

/// The values that captured outputs give.
pub open spec fn text_values(outs: Seq<Seq<char>>) -> Seq<ValueV> {
    outs.map_values(|o: Seq<char>| text_value(o))
}

proof fn lemma_lone_prefix(dir: Seq<char>, cmds: Seq<Seq<char>>, mode: ExecType, outs: Seq<Seq<char>>, i: int)
    requires
        mode != ExecType::DelayExec,
        outs.len() <= cmds.len(),
        0 <= i <= outs.len(),
    ensures
        eval_slot(dir, Some(lone_program(cmds)), 0, mode, typed(outs), 0, Seq::empty()) == eval_slot(
            dir,
            Some(lone_program(cmds)),
            i,
            mode,
            typed(outs),
            i,
            text_values(outs.subrange(0, i)),
        ),
    decreases i,
{
    if i == 0 {
        assert(text_values(outs.subrange(0, 0)) =~= Seq::<ValueV>::empty());
    } else {
        lemma_lone_prefix(dir, cmds, mode, outs, i - 1);
        let rs = typed(outs);
        assert(rs[i - 1] == ReplyV::Text(outs[i - 1]));
        assert(lone_program(cmds)[i - 1] == lone_command(cmds[i - 1]));
        lemma_lone_step(dir, cmds[i - 1], mode, rs, i - 1, outs[i - 1]);
        assert(text_values(outs.subrange(0, i - 1)).push(text_value(outs[i - 1])) =~= text_values(outs.subrange(0, i)));
    }
}

/// `cmds[0]; cmds[1]; ...` runs the commands one at a time, in order, each only after the one
/// before has finished and each with its output captured exactly when the program is
/// evaluated quietly. Once the first `k` have given their output, the next request runs
/// command `k`; when all have, the values are their outputs, in statement order.
pub proof fn lemma_statements_in_order(dir: Seq<char>, cmds: Seq<Seq<char>>, mode: ExecType, outs: Seq<Seq<char>>)
    requires
        mode != ExecType::DelayExec,
        outs.len() <= cmds.len(),
    ensures
        run_program(dir, lone_program(cmds), mode, typed(outs)) == if outs.len() < cmds.len() {
            StepV::Need(run_bare(dir, cmds[outs.len() as int], None, mode == ExecType::Quiet))
        } else {
            StepV::Finished(text_values(outs))
        },
{
    let k = outs.len() as int;
    lemma_lone_prefix(dir, cmds, mode, outs, k);
    assert(outs.subrange(0, k) =~= outs);
    if k < cmds.len() {
        assert(lone_program(cmds)[k] == lone_command(cmds[k]));
        lemma_lone_step(dir, cmds[k], mode, typed(outs), k, Seq::empty());
    }
}

proof fn lemma_redirect_at(dir: Seq<char>, c: Seq<char>, fc: Seq<Seq<char>>, ac: Seq<Seq<char>>, text: Seq<char>, f: Seq<char>, o: Seq<char>, append: bool, rs: Seq<ReplyV>, p0: int)
    requires
        0 <= p0,
        p0 < rs.len() ==> rs[p0] == ReplyV::Text(o),
    ensures
        ({
            let e = binary_stmt(redirect_op(append), text, cmd_slot(c, fc, ac), file_slot(f));
            let r = eval_expr(dir, e, ExecType::Normal, rs, p0);
            let vf = ValueV { sym: Symbol::File, val: f, flags: seq![], args: seq![] };
            &&& rs.len() <= p0 ==> r == Err::<(Option<ValueV>, int), RequestV>(run_request(dir, cmd_value(c, fc, ac), None, true))
            &&& rs.len() == p0 + 1 ==> r == Err::<(Option<ValueV>, int), RequestV>(RequestV::Inspect { path: f })
            &&& rs.len() >= p0 + 2 ==> r == do_redir_right(seq![text_value(o)], seq![vf], append, rs, p0 + 1)
        }),
{
    let e = binary_stmt(redirect_op(append), text, cmd_slot(c, fc, ac), file_slot(f));
    let vc = cmd_value(c, fc, ac);
    let vf = ValueV { sym: Symbol::File, val: f, flags: seq![], args: seq![] };
    let lc = e.left.unwrap()[0];
    let lf = e.right.unwrap()[0];
    assert(Seq::<ValueV>::empty().push(text_value(o)) =~= seq![text_value(o)]);
    assert(Seq::<ValueV>::empty().push(vf) =~= seq![vf]);
    if rs.len() <= p0 {
        assert(eval_expr(dir, lc, ExecType::Quiet, rs, p0) == Err::<(Option<ValueV>, int), RequestV>(run_request(dir, vc, None, true)));
        assert(eval_slot(dir, e.left, 0, ExecType::Quiet, rs, p0, seq![]) == Err::<(Seq<ValueV>, int), RequestV>(run_request(dir, vc, None, true)));
    } else {
        assert(eval_expr(dir, lc, ExecType::Quiet, rs, p0) == Ok::<(Option<ValueV>, int), RequestV>((Some(text_value(o)), p0 + 1)));
        assert(eval_slot(dir, e.left, 1, ExecType::Quiet, rs, p0 + 1, seq![text_value(o)]) == Ok::<(Seq<ValueV>, int), RequestV>((seq![text_value(o)], p0 + 1)));
        assert(eval_slot(dir, e.left, 0, ExecType::Quiet, rs, p0, seq![]) == Ok::<(Seq<ValueV>, int), RequestV>((seq![text_value(o)], p0 + 1)));
        assert(eval_expr(dir, lf, ExecType::DelayExec, rs, p0 + 1) == Ok::<(Option<ValueV>, int), RequestV>((Some(vf), p0 + 1)));
        assert(eval_slot(dir, e.right, 1, ExecType::DelayExec, rs, p0 + 1, seq![vf]) == Ok::<(Seq<ValueV>, int), RequestV>((seq![vf], p0 + 1)));
        assert(eval_slot(dir, e.right, 0, ExecType::DelayExec, rs, p0 + 1, seq![]) == Ok::<(Seq<ValueV>, int), RequestV>((seq![vf], p0 + 1)));
    }
}

/// `c1 > f; c2 >> f` (or `c1 > f; c2 > f` when `append` is false): the first statement
/// writes exactly `c1`'s captured output to `f`, replacing its contents; the second, run
/// only after that write, writes exactly `c2`'s output to `f`, appended after what is there
/// for `>>` and replacing it for `>`. Neither statement gives a value.
pub proof fn lemma_write_then_append(dir: Seq<char>, c1: Seq<char>, c2: Seq<char>, t1: Seq<char>, t2: Seq<char>, f: Seq<char>, o1: Seq<char>, o2: Seq<char>, append: bool, k1: PathKind, ack1: ReplyV, ack2: ReplyV)
    requires
        k1 == PathKind::File || k1 == PathKind::Missing,
    ensures
        ({
            let prog = seq![
                binary_stmt(Symbol::RedirRight, t1, cmd_slot(c1, seq![], seq![]), file_slot(f)),
                binary_stmt(redirect_op(append), t2, cmd_slot(c2, seq![], seq![]), file_slot(f)),
            ];
            let first = seq![ReplyV::Text(o1), ReplyV::Kind(k1)];
            let both = seq![ReplyV::Text(o1), ReplyV::Kind(k1), ack1, ReplyV::Text(o2), ReplyV::Kind(PathKind::File)];
            &&& run_program(dir, prog, ExecType::Normal, first) == StepV::Need(RequestV::WriteFile { path: f, data: o1, append: false })
            &&& run_program(dir, prog, ExecType::Normal, both) == StepV::Need(RequestV::WriteFile { path: f, data: o2, append })
            &&& run_program(dir, prog, ExecType::Normal, both.push(ack2)) == StepV::Finished(Seq::empty())
        }),
{
    let s1 = binary_stmt(Symbol::RedirRight, t1, cmd_slot(c1, seq![], seq![]), file_slot(f));
    let s2 = binary_stmt(redirect_op(append), t2, cmd_slot(c2, seq![], seq![]), file_slot(f));
    let prog = seq![s1, s2];
    let o = Some(prog);
    let vf = ValueV { sym: Symbol::File, val: f, flags: seq![], args: seq![] };
    assert(redirect_op(false) == Symbol::RedirRight);
    assert(concat_vals(seq![text_value(o1)]) == concat_vals(seq![text_value(o1)].drop_last()) + o1);
    assert(concat_vals(seq![text_value(o2)]) == concat_vals(seq![text_value(o2)].drop_last()) + o2);
    assert(seq![text_value(o1)].drop_last() =~= Seq::<ValueV>::empty());
    assert(seq![text_value(o2)].drop_last() =~= Seq::<ValueV>::empty());
    assert(Seq::<char>::empty() + o1 =~= o1);
    assert(Seq::<char>::empty() + o2 =~= o2);
    let first = seq![ReplyV::Text(o1), ReplyV::Kind(k1)];
    let both = seq![ReplyV::Text(o1), ReplyV::Kind(k1), ack1, ReplyV::Text(o2), ReplyV::Kind(PathKind::File)];
    let all = both.push(ack2);
    lemma_redirect_at(dir, c1, seq![], seq![], t1, f, o1, false, first, 0);
    assert(eval_slot(dir, o, 0, ExecType::Normal, first, 0, seq![]) == Err::<(Seq<ValueV>, int), RequestV>(RequestV::WriteFile { path: f, data: o1, append: false }));
    lemma_redirect_at(dir, c1, seq![], seq![], t1, f, o1, false, both, 0);
    lemma_redirect_at(dir, c2, seq![], seq![], t2, f, o2, append, both, 3);
    assert(both[3] == ReplyV::Text(o2));
    assert(eval_expr(dir, s1, ExecType::Normal, both, 0) == Ok::<(Option<ValueV>, int), RequestV>((None, 3)));
    assert(eval_slot(dir, o, 1, ExecType::Normal, both, 3, seq![]) == Err::<(Seq<ValueV>, int), RequestV>(RequestV::WriteFile { path: f, data: o2, append }));
    assert(eval_slot(dir, o, 0, ExecType::Normal, both, 0, seq![]) == eval_slot(dir, o, 1, ExecType::Normal, both, 3, seq![]));
    lemma_redirect_at(dir, c1, seq![], seq![], t1, f, o1, false, all, 0);
    lemma_redirect_at(dir, c2, seq![], seq![], t2, f, o2, append, all, 3);
    assert(all[3] == ReplyV::Text(o2));
    assert(all[4] == ReplyV::Kind(PathKind::File));
    assert(eval_expr(dir, s1, ExecType::Normal, all, 0) == Ok::<(Option<ValueV>, int), RequestV>((None, 3)));
    assert(eval_expr(dir, s2, ExecType::Normal, all, 3) == Ok::<(Option<ValueV>, int), RequestV>((None, 6)));
    assert(eval_slot(dir, o, 2, ExecType::Normal, all, 6, seq![]) == Ok::<(Seq<ValueV>, int), RequestV>((seq![], 6)));
    assert(eval_slot(dir, o, 1, ExecType::Normal, all, 3, seq![]) == eval_slot(dir, o, 2, ExecType::Normal, all, 6, seq![]));
    assert(eval_slot(dir, o, 0, ExecType::Normal, all, 0, seq![]) == eval_slot(dir, o, 1, ExecType::Normal, all, 3, seq![]));
}

/// Lines typed at the terminal, as replies.
pub open spec fn typed(lines: Seq<Seq<char>>) -> Seq<ReplyV> {
    lines.map_values(|l: Seq<char>| ReplyV::Text(l))
}

/// Lines one after another.
pub open spec fn join_lines(lines: Seq<Seq<char>>) -> Seq<char>
    decreases lines.len(),
{
    if lines.len() == 0 {
        Seq::empty()
    } else {
        join_lines(lines.drop_last()) + lines.last()
    }
}

proof fn lemma_read_heredoc_from(term: Seq<char>, lines: Seq<Seq<char>>, end: Seq<char>, k: int)
    requires
        0 <= k <= lines.len(),
        forall|i: int| 0 <= i < lines.len() ==> strip_newline(#[trigger] lines[i]) != term,
        strip_newline(end) == term,
    ensures
        read_heredoc(term, typed(lines).push(ReplyV::Text(end)), k, join_lines(lines.subrange(0, k)))
            == Ok::<(Option<Seq<char>>, int), RequestV>((Some(join_lines(lines)), lines.len() + 1 as int)),
    decreases lines.len() - k,
{
    let rs = typed(lines).push(ReplyV::Text(end));
    if k == lines.len() {
        assert(lines.subrange(0, k) =~= lines);
        assert(rs[k] == ReplyV::Text(end));
    } else {
        assert(rs[k] == ReplyV::Text(lines[k]));
        assert(lines.subrange(0, k + 1).drop_last() =~= lines.subrange(0, k));
        lemma_read_heredoc_from(term, lines, end, k + 1);
    }
}

/// `c << t`: the lines typed before the first line that is `t` (once its newline is taken
/// off) are, one after another, exactly the standard input that `c` is run with; the
/// terminator line is not part of it.
pub proof fn lemma_heredoc_input(dir: Seq<char>, c: Seq<char>, term: Seq<char>, lines: Seq<Seq<char>>, end: Seq<char>, mode: ExecType)
    requires
        forall|i: int| 0 <= i < lines.len() ==> strip_newline(#[trigger] lines[i]) != term,
        strip_newline(end) == term,
    ensures
        do_heredoc(
            dir,
            seq![ValueV { sym: Symbol::Cmd, val: c, flags: seq![], args: seq![] }],
            seq![ValueV { sym: Symbol::String, val: term, flags: seq![], args: seq![] }],
            mode,
            typed(lines).push(ReplyV::Text(end)),
            0,
        ) == Err::<(Option<ValueV>, int), RequestV>(run_bare(dir, c, Some(join_lines(lines)), true)),
{
    let rs = typed(lines).push(ReplyV::Text(end));
    assert(lines.subrange(0, 0) =~= Seq::<Seq<char>>::empty());
    lemma_read_heredoc_from(term, lines, end, 0);
    let vc = ValueV { sym: Symbol::Cmd, val: c, flags: seq![], args: seq![] };
    lemma_bare_value(dir, c, Some(join_lines(lines)), true);
    assert(pipe_cmds(dir, seq![vc], 0, join_lines(lines), rs, lines.len() + 1 as int, seq![]) == Err::<(Option<Seq<char>>, int), RequestV>(run_request(dir, vc, Some(join_lines(lines)), true)));
}

} // verus!
