use vstd::prelude::*;

use crate::ast::{strings_view, Expr, ExprV, Kind, Symbol, AST};
use crate::error::{error, SyntaxError};
use crate::scanner::{
    ends_word, lemma_find_from_at, lemma_word_end_at, newlines, scan, scan_from, view_tokens,
    Scanner,
};
use crate::token::{Token, TokenType, TokenV, WTSType};

verus! {

broadcast use vstd::seq_lib::group_seq_properties;

/// What fills an operand slot of the statement being built: a leaf, or a parenthesized group.
pub enum SlotV {
    Leaf { symbol: Symbol, value: Seq<char>, flags: Seq<Seq<char>>, args: Seq<Seq<char>> },
    Group(Seq<ExprV>),
}

/// The statement being built: its operator (with the operator's text) and its two slots.
pub struct StmtV {
    pub symbol: Symbol,
    pub op: Seq<char>,
    pub left: Option<SlotV>,
    pub right: Option<SlotV>,
}

/// The parser's state within one nesting level: finished statements, the open one, and
/// whether a comment marker has been seen.
pub struct ParseV {
    pub done: Seq<ExprV>,
    pub cur: StmtV,
    pub comment: bool,
}

pub open spec fn leaf_tree(symbol: Symbol, value: Seq<char>, flags: Seq<Seq<char>>, args: Seq<Seq<char>>) -> ExprV {
    ExprV { kind: Kind::Value, flags, args, symbol, value: Some(value), left: None, right: None }
}

/// The sub-tree that a slot becomes.
pub open spec fn slot_tree(s: SlotV) -> Seq<ExprV> {
    match s {
        SlotV::Leaf { symbol, value, flags, args } => seq![leaf_tree(symbol, value, flags, args)],
        SlotV::Group(g) => g,
    }
}

pub open spec fn opt_slot_tree(s: Option<SlotV>) -> Option<Seq<ExprV>> {
    match s {
        Some(x) => Some(slot_tree(x)),
        None => None,
    }
}

/// The operator node that a statement becomes.
pub open spec fn stmt_tree(s: StmtV) -> ExprV {
    ExprV {
        kind: Kind::Expr,
        flags: Seq::empty(),
        args: Seq::empty(),
        symbol: s.symbol,
        value: Some(s.op),
        left: opt_slot_tree(s.left),
        right: opt_slot_tree(s.right),
    }
}

pub open spec fn fresh_stmt() -> StmtV {
    StmtV { symbol: Symbol::Sequence, op: Seq::empty(), left: None, right: None }
}

pub open spec fn fresh_state() -> ParseV {
    ParseV { done: Seq::empty(), cur: fresh_stmt(), comment: false }
}

/// The statements of a nesting level once its tokens are used up.
pub open spec fn finish(st: ParseV) -> Seq<ExprV> {
    st.done.push(stmt_tree(st.cur))
}

/// The text a word or string token contributes: a quoted string's contents, else the raw text.
pub open spec fn word_text(t: TokenV) -> Seq<char> {
    match t.literal {
        Some(l) => l,
        None => t.lexeme,
    }
}

pub open spec fn is_cmd_leaf(s: Option<SlotV>) -> bool {
    s matches Some(SlotV::Leaf { symbol: Symbol::Cmd, .. })
}

pub open spec fn with_flag(s: SlotV, f: Seq<char>) -> SlotV {
    match s {
        SlotV::Leaf { symbol, value, flags, args } => SlotV::Leaf {
            symbol,
            value,
            flags: flags.push(f),
            args,
        },
        SlotV::Group(g) => SlotV::Group(g),
    }
}

pub open spec fn with_arg(s: SlotV, a: Seq<char>) -> SlotV {
    match s {
        SlotV::Leaf { symbol, value, flags, args } => SlotV::Leaf {
            symbol,
            value,
            flags,
            args: args.push(a),
        },
        SlotV::Group(g) => SlotV::Group(g),
    }
}

/// The statement with flag `f` added to its open command: the right leaf if it is a command,
/// else the left leaf if it is one; `None` when neither is.
pub open spec fn attach_flag(c: StmtV, f: Seq<char>) -> Option<StmtV> {
    if is_cmd_leaf(c.right) {
        Some(StmtV { right: Some(with_flag(c.right.unwrap(), f)), ..c })
    } else if is_cmd_leaf(c.left) {
        Some(StmtV { left: Some(with_flag(c.left.unwrap(), f)), ..c })
    } else {
        None
    }
}

/// What the right-hand leaf after operator `op` names; `None` when there is no operator.
pub open spec fn right_role(op: Symbol) -> Option<Symbol> {
    match op {
        Symbol::RedirLeft => Some(Symbol::File),
        Symbol::RedirRight => Some(Symbol::File),
        Symbol::DoubleRedirRight => Some(Symbol::File),
        Symbol::DoubleRedirLeft => Some(Symbol::String),
        Symbol::Pipe => Some(Symbol::Cmd),
        _ => None,
    }
}

/// The statement with word `w` placed: as the command, as an argument of the left command
/// while no operator is set, as the right operand, or as an argument of the right command;
/// `None` when it fits nowhere.
pub open spec fn add_word(c: StmtV, w: Seq<char>) -> Option<StmtV> {
    if c.left is None {
        Some(
            StmtV {
                left: Some(SlotV::Leaf { symbol: Symbol::Cmd, value: w, flags: seq![], args: seq![] }),
                ..c
            },
        )
    } else if c.symbol == Symbol::Sequence && is_cmd_leaf(c.left) {
        Some(StmtV { left: Some(with_arg(c.left.unwrap(), w)), ..c })
    } else if c.right is None {
        match right_role(c.symbol) {
            Some(role) => Some(
                StmtV {
                    right: Some(SlotV::Leaf { symbol: role, value: w, flags: seq![], args: seq![] }),
                    ..c
                },
            ),
            None => None,
        }
    } else if is_cmd_leaf(c.right) {
        Some(StmtV { right: Some(with_arg(c.right.unwrap(), w)), ..c })
    } else {
        None
    }
}

/// The error for a misplaced operator: it names the operator's text.
pub open spec fn operator_message(op: Seq<char>) -> Seq<char> {
    "Binary expression \""@ + op + "\" encountered parse error."@
}

/// The error for a word that fits in no slot of statement `c`: with the right slot still
/// empty, the statement has no operator that could take it.
pub open spec fn word_message(c: StmtV) -> Seq<char> {
    if c.right is None {
        "Parse error, right-hand command without operator"@
    } else {
        "Parse error when handling expression"@
    }
}

/// The operator that a token sets, if it is a binary operator.
pub open spec fn binary_op(t: TokenType) -> Option<Symbol> {
    match t {
        TokenType::Pipe => Some(Symbol::Pipe),
        TokenType::RedirLeft => Some(Symbol::RedirLeft),
        TokenType::DoubleRedirLeft => Some(Symbol::DoubleRedirLeft),
        TokenType::RedirRight => Some(Symbol::RedirRight),
        TokenType::DoubleRedirRight => Some(Symbol::DoubleRedirRight),
        _ => None,
    }
}

/// Parses `toks` from `pos` on, within a nesting level in state `st`; `in_paren` says whether a
/// closing parenthesis ends the level. Gives the level's statements and the position after
/// its last token, or the line and message of the first structural error.
pub open spec fn parse_from(toks: Seq<TokenV>, pos: int, in_paren: bool, st: ParseV) -> Result<
    (Seq<ExprV>, int),
    (nat, Seq<char>),
>
    decreases toks.len() - pos,
{
    if pos < 0 || pos >= toks.len() {
        if in_paren {
            Err((0, "Expected closing \")\""@))
        } else {
            Ok((finish(st), pos))
        }
    } else {
        let t = toks[pos];
        let c = st.cur;
        if st.comment {
            parse_from(toks, pos + 1, in_paren, st)
        } else if t.t_type == TokenType::LeftParen {
            if c.left is None || (c.symbol != Symbol::Sequence && c.right is None) {
                match parse_from(toks, pos + 1, true, fresh_state()) {
                    Err(l) => Err(l),
                    Ok((g, p2)) => if pos < p2 <= toks.len() {
                        let c2 = if c.left is None {
                            StmtV { left: Some(SlotV::Group(g)), ..c }
                        } else {
                            StmtV { right: Some(SlotV::Group(g)), ..c }
                        };
                        parse_from(toks, p2, in_paren, ParseV { cur: c2, ..st })
                    } else {
                        Err((0, "Expected closing \")\""@))
                    },
                }
            } else {
                Err((t.line, "Parse error on parsing expression ("@))
            }
        } else if t.t_type == TokenType::RightParen {
            if in_paren {
                Ok((finish(st), pos + 1))
            } else {
                Err((t.line, "Parser error on parens"@))
            }
        } else if t.t_type == TokenType::ShortFlag || t.t_type == TokenType::LongFlag {
            if pos + 1 >= toks.len() {
                Err((t.line, "Parser error: Invalid flag"@))
            } else if toks[pos + 1].t_type != TokenType::Word {
                Err((toks[pos + 1].line, "Parser error: Invalid flag"@))
            } else {
                let prefix = if t.t_type == TokenType::ShortFlag {
                    seq!['-']
                } else {
                    seq!['-', '-']
                };
                match attach_flag(c, prefix + toks[pos + 1].lexeme) {
                    Some(c2) => parse_from(toks, pos + 2, in_paren, ParseV { cur: c2, ..st }),
                    None => Err((t.line, "Error when parsing flag"@)),
                }
            }
        } else if t.t_type == TokenType::Semicolon {
            parse_from(
                toks,
                pos + 1,
                in_paren,
                ParseV { done: st.done.push(stmt_tree(c)), cur: fresh_stmt(), comment: false },
            )
        } else if binary_op(t.t_type) is Some {
            if c.left is Some && c.right is None && c.symbol == Symbol::Sequence {
                let c2 = StmtV { symbol: binary_op(t.t_type).unwrap(), op: t.lexeme, ..c };
                parse_from(toks, pos + 1, in_paren, ParseV { cur: c2, ..st })
            } else {
                Err((t.line, operator_message(t.lexeme)))
            }
        } else if t.t_type == TokenType::Pound {
            parse_from(toks, pos + 1, in_paren, ParseV { comment: true, ..st })
        } else if t.t_type == TokenType::Word || t.t_type == TokenType::String {
            match add_word(c, word_text(t)) {
                Some(c2) => parse_from(toks, pos + 1, in_paren, ParseV { cur: c2, ..st }),
                None => Err((t.line, word_message(c))),
            }
        } else {
            parse_from(toks, pos + 1, in_paren, st)
        }
    }
}

/// The program that `toks` parse to: one operator node per statement; or the line and message
/// of the first structural error.
pub open spec fn parse(toks: Seq<TokenV>) -> Result<Seq<ExprV>, (nat, Seq<char>)> {
    match parse_from(toks, 0, false, fresh_state()) {
        Ok((p, _)) => Ok(p),
        Err(e) => Err(e),
    }
}

/// What fills an operand slot while its statement is being built.
enum Slot {
    Leaf { symbol: Symbol, value: String, flags: Vec<String>, args: Vec<String> },
    Group(AST),
}

impl Slot {
    spec fn view(&self) -> SlotV {
        match self {
            Slot::Leaf { symbol, value, flags, args } => SlotV::Leaf {
                symbol: *symbol,
                value: value@,
                flags: strings_view(flags@),
                args: strings_view(args@),
            },
            Slot::Group(a) => SlotV::Group(a@),
        }
    }
}

spec fn opt_slot_view(s: Option<Slot>) -> Option<SlotV> {
    match s {
        Some(x) => Some(x@),
        None => None,
    }
}

/// The statement being built.
struct Stmt {
    symbol: Symbol,
    op: String,
    left: Option<Slot>,
    right: Option<Slot>,
}

impl Stmt {
    spec fn view(&self) -> StmtV {
        StmtV {
            symbol: self.symbol,
            op: self.op@,
            left: opt_slot_view(self.left),
            right: opt_slot_view(self.right),
        }
    }

    fn fresh() -> (r: Stmt)
        ensures
            r@ == fresh_stmt(),
    {
        Stmt { symbol: Symbol::Sequence, op: String::new(), left: None, right: None }
    }
}

proof fn lemma_one(a: AST, e: Expr)
    requires
        a.exprs@ == seq![e],
    ensures
        a@ == seq![e@],
{
    assert(a@ =~= seq![e@]);
}

proof fn lemma_ast_view(a: AST)
    ensures
        a@ == a.exprs@.map_values(|e: Expr| e@),
{
    assert(a@ =~= a.exprs@.map_values(|e: Expr| e@));
}

fn slot_into_ast(s: Slot) -> (r: AST)
    ensures
        r@ == slot_tree(s@),
{
    match s {
        Slot::Leaf { symbol, value, flags, args } => {
            let e = Expr {
                kind: Kind::Value,
                flags,
                args,
                symbol,
                value: Some(value),
                left: None,
                right: None,
            };
            let ghost g = e;
            let mut v: Vec<Expr> = Vec::new();
            v.push(e);
            assert(v@ =~= seq![g]);
            let a = AST { exprs: v };
            proof {
                lemma_one(a, g);
            }
            a
        },
        Slot::Group(a) => a,
    }
}

fn opt_slot_into_ast(s: Option<Slot>) -> (r: Option<AST>)
    ensures
        match r {
            Some(a) => opt_slot_tree(opt_slot_view(s)) == Some(a@),
            None => s is None,
        },
{
    match s {
        Some(x) => Some(slot_into_ast(x)),
        None => None,
    }
}

fn stmt_into_expr(s: Stmt) -> (r: Expr)
    ensures
        r@ == stmt_tree(s@),
{
    let left = opt_slot_into_ast(s.left);
    let right = opt_slot_into_ast(s.right);
    let r = Expr {
        kind: Kind::Expr,
        flags: Vec::new(),
        args: Vec::new(),
        symbol: s.symbol,
        value: Some(s.op),
        left,
        right,
    };
    assert(strings_view(r.flags@) =~= Seq::empty());
    assert(strings_view(r.args@) =~= Seq::empty());
    r
}

proof fn lemma_strings_push(v: Seq<String>, s: String)
    ensures
        strings_view(v.push(s)) == strings_view(v).push(s@),
{
    v.lemma_push_map_commute(|x: String| x@, s);
}

fn slot_is_cmd(s: &Option<Slot>) -> (r: bool)
    ensures
        r == is_cmd_leaf(opt_slot_view(*s)),
{
    match s {
        Some(Slot::Leaf { symbol: Symbol::Cmd, .. }) => true,
        _ => false,
    }
}

/// Adds a flag to a command leaf.
fn slot_with_flag(s: Slot, f: String) -> (r: Slot)
    ensures
        r@ == with_flag(s@, f@),
{
    match s {
        Slot::Leaf { symbol, value, mut flags, args } => {
            proof {
                lemma_strings_push(flags@, f);
            }
            flags.push(f);
            Slot::Leaf { symbol, value, flags, args }
        },
        Slot::Group(g) => Slot::Group(g),
    }
}

/// Adds a positional argument to a command leaf.
fn slot_with_arg(s: Slot, a: String) -> (r: Slot)
    ensures
        r@ == with_arg(s@, a@),
{
    match s {
        Slot::Leaf { symbol, value, flags, mut args } => {
            proof {
                lemma_strings_push(args@, a);
            }
            args.push(a);
            Slot::Leaf { symbol, value, flags, args }
        },
        Slot::Group(g) => Slot::Group(g),
    }
}

fn stmt_attach_flag(c: Stmt, f: String) -> (r: Result<Stmt, ()>)
    ensures
        match attach_flag(c@, f@) {
            Some(c2) => r is Ok && r->Ok_0@ == c2,
            None => r is Err,
        },
{
    if slot_is_cmd(&c.right) {
        let Stmt { symbol, op, left, right } = c;
        match right {
            Some(x) => Ok(Stmt { symbol, op, left, right: Some(slot_with_flag(x, f)) }),
            None => Err(()),
        }
    } else if slot_is_cmd(&c.left) {
        let Stmt { symbol, op, left, right } = c;
        match left {
            Some(x) => Ok(Stmt { symbol, op, left: Some(slot_with_flag(x, f)), right }),
            None => Err(()),
        }
    } else {
        Err(())
    }
}

fn role_after(op: Symbol) -> (r: Option<Symbol>)
    ensures
        r == right_role(op),
{
    match op {
        Symbol::RedirLeft => Some(Symbol::File),
        Symbol::RedirRight => Some(Symbol::File),
        Symbol::DoubleRedirRight => Some(Symbol::File),
        Symbol::DoubleRedirLeft => Some(Symbol::String),
        Symbol::Pipe => Some(Symbol::Cmd),
        _ => None,
    }
}

fn stmt_add_word(c: Stmt, w: String) -> (r: Result<Stmt, ()>)
    ensures
        match add_word(c@, w@) {
            Some(c2) => r is Ok && r->Ok_0@ == c2,
            None => r is Err,
        },
{
    let Stmt { symbol, op, left, right } = c;
    let left_cmd = slot_is_cmd(&left);
    let right_cmd = slot_is_cmd(&right);
    match left {
        None => {
            let flags: Vec<String> = Vec::new();
            let args: Vec<String> = Vec::new();
            assert(strings_view(flags@) =~= seq![]);
            assert(strings_view(args@) =~= seq![]);
            let leaf = Slot::Leaf { symbol: Symbol::Cmd, value: w, flags, args };
            return Ok(Stmt { symbol, op, left: Some(leaf), right });
        },
        Some(l) => {
            if symbol == Symbol::Sequence && left_cmd {
                return Ok(Stmt { symbol, op, left: Some(slot_with_arg(l, w)), right });
            }
            match right {
                None => match role_after(symbol) {
                    Some(role) => {
                        let flags: Vec<String> = Vec::new();
                        let args: Vec<String> = Vec::new();
                        assert(strings_view(flags@) =~= seq![]);
                        assert(strings_view(args@) =~= seq![]);
                        let leaf = Slot::Leaf { symbol: role, value: w, flags, args };
                        Ok(Stmt { symbol, op, left: Some(l), right: Some(leaf) })
                    },
                    None => Err(()),
                },
                Some(x) => {
                    if right_cmd {
                        Ok(Stmt { symbol, op, left: Some(l), right: Some(slot_with_arg(x, w)) })
                    } else {
                        Err(())
                    }
                },
            }
        },
    }
}

fn op_of(t: TokenType) -> (r: Option<Symbol>)
    ensures
        r == binary_op(t),
{
    match t {
        TokenType::Pipe => Some(Symbol::Pipe),
        TokenType::RedirLeft => Some(Symbol::RedirLeft),
        TokenType::DoubleRedirLeft => Some(Symbol::DoubleRedirLeft),
        TokenType::RedirRight => Some(Symbol::RedirRight),
        TokenType::DoubleRedirRight => Some(Symbol::DoubleRedirRight),
        _ => None,
    }
}

fn text_of(t: &Token) -> (r: String)
    ensures
        r@ == word_text(t@),
{
    match &t.literal {
        WTSType::String(s) => s.clone(),
        WTSType::NONE => t.lexeme.clone(),
    }
}

pub open spec fn exprs_view(v: Seq<Expr>) -> Seq<ExprV> {
    v.map_values(|e: Expr| e@)
}

fn close_level(done: Vec<Expr>, cur: Stmt) -> (r: AST)
    ensures
        r@ == exprs_view(done@).push(stmt_tree(cur@)),
{
    let mut done = done;
    let ghost before = done@;
    let e = stmt_into_expr(cur);
    done.push(e);
    let r = AST { exprs: done };
    proof {
        before.lemma_push_map_commute(|e: Expr| e@, e);
        lemma_ast_view(r);
    }
    r
}

fn message_of(s: &str) -> (r: String)
    ensures
        r@ == s@,
{
    s.to_owned()
}

fn syntax(line: usize, msg: &str) -> (r: SyntaxError)
    ensures
        r.line == line,
        r.message@ == msg@,
{
    error(line, msg.to_owned())
}

/// Parses one nesting level of `toks` from `pos` on; `in_paren` says that a closing
/// parenthesis ends it. Gives the level's statements and the position after its last token.
fn parse_expression(toks: &Vec<Token>, pos: usize, in_paren: bool) -> (r: Result<(AST, usize), SyntaxError>)
    requires
        pos <= toks@.len(),
    ensures
        match parse_from(view_tokens(toks@), pos as int, in_paren, fresh_state()) {
            Ok((p, q)) => r is Ok && r->Ok_0.0@ == p && r->Ok_0.1 == q,
            Err((l, m)) => r is Err && r->Err_0.line == l && r->Err_0.message@ == m,
        },
        r is Ok ==> pos <= r->Ok_0.1 <= toks@.len() && (in_paren ==> pos < r->Ok_0.1),
    decreases toks@.len() - pos,
{
    let ghost tv = view_tokens(toks@);
    let mut done: Vec<Expr> = Vec::new();
    let mut cur = Stmt::fresh();
    let mut comment = false;
    let mut i = pos;
    assert(exprs_view(done@) =~= Seq::empty());
    while i < toks.len()
        invariant
            tv == view_tokens(toks@),
            pos <= i <= toks@.len(),
            parse_from(tv, pos as int, in_paren, fresh_state()) == parse_from(
                tv,
                i as int,
                in_paren,
                ParseV { done: exprs_view(done@), cur: cur@, comment },
            ),
        decreases toks@.len() - i,
    {
        let tok = &toks[i];
        let ghost st = ParseV { done: exprs_view(done@), cur: cur@, comment };
        assert(tv[i as int] == tok@);
        if comment {
            i = i + 1;
        } else if tok.t_type == TokenType::LeftParen {
            let open_left = cur.left.is_none();
            if open_left || (cur.symbol != Symbol::Sequence && cur.right.is_none()) {
                match parse_expression(toks, i + 1, true) {
                    Err(e) => {
                        return Err(e);
                    },
                    Ok((g, p2)) => {
                        let Stmt { symbol, op, left, right } = cur;
                        if open_left {
                            cur = Stmt { symbol, op, left: Some(Slot::Group(g)), right };
                        } else {
                            cur = Stmt { symbol, op, left, right: Some(Slot::Group(g)) };
                        }
                        i = p2;
                    },
                }
            } else {
                return Err(syntax(tok.line, "Parse error on parsing expression ("));
            }
        } else if tok.t_type == TokenType::RightParen {
            if in_paren {
                let r = close_level(done, cur);
                return Ok((r, i + 1));
            }
            return Err(syntax(tok.line, "Parser error on parens"));
        } else if tok.t_type == TokenType::ShortFlag || tok.t_type == TokenType::LongFlag {
            if i + 1 >= toks.len() {
                return Err(syntax(tok.line, "Parser error: Invalid flag"));
            }
            let flag = &toks[i + 1];
            assert(tv[i + 1] == flag@);
            if flag.t_type != TokenType::Word {
                return Err(syntax(flag.line, "Parser error: Invalid flag"));
            }
            let prefix = if tok.t_type == TokenType::ShortFlag {
                "-"
            } else {
                "--"
            };
            let name = prefix.to_owned().concat(flag.lexeme.as_str());
            proof {
                reveal_strlit("-");
                reveal_strlit("--");
                assert(name@ =~= (if tok.t_type == TokenType::ShortFlag {
                    seq!['-']
                } else {
                    seq!['-', '-']
                }) + flag.lexeme@);
            }
            match stmt_attach_flag(cur, name) {
                Ok(c2) => {
                    cur = c2;
                },
                Err(()) => {
                    return Err(syntax(tok.line, "Error when parsing flag"));
                },
            }
            i = i + 2;
        } else if tok.t_type == TokenType::Semicolon {
            let ghost before = done@;
            let e = stmt_into_expr(cur);
            done.push(e);
            proof {
                before.lemma_push_map_commute(|e: Expr| e@, e);
            }
            cur = Stmt::fresh();
            i = i + 1;
        } else if let Some(op) = op_of(tok.t_type) {
            if cur.left.is_some() && cur.right.is_none() && cur.symbol == Symbol::Sequence {
                cur.symbol = op;
                cur.op = tok.lexeme.clone();
                i = i + 1;
            } else {
                let m = message_of("Binary expression \"").concat(tok.lexeme.as_str()).concat(
                    "\" encountered parse error.",
                );
                proof {
                    reveal_strlit("Binary expression \"");
                    reveal_strlit("\" encountered parse error.");
                }
                return Err(error(tok.line, m));
            }
        } else if tok.t_type == TokenType::Pound {
            comment = true;
            i = i + 1;
        } else if tok.t_type == TokenType::Word || tok.t_type == TokenType::String {
            let no_right = cur.right.is_none();
            match stmt_add_word(cur, text_of(tok)) {
                Ok(c2) => {
                    cur = c2;
                },
                Err(()) => {
                    if no_right {
                        return Err(syntax(tok.line, "Parse error, right-hand command without operator"));
                    }
                    return Err(syntax(tok.line, "Parse error when handling expression"));
                },
            }
            i = i + 1;
        } else {
            i = i + 1;
        }
    }
    if in_paren {
        return Err(syntax(0, "Expected closing \")\""));
    }
    let r = close_level(done, cur);
    Ok((r, i))
}

/// Parses the tokens a scanner produced into a program: one operator node per statement.
pub fn parse_program(lexer: Scanner) -> (r: Result<AST, SyntaxError>)
    ensures
        match parse(lexer.scanned()) {
            Ok(p) => r is Ok && r->Ok_0@ == p,
            Err((l, m)) => r is Err && r->Err_0.line == l && r->Err_0.message@ == m,
        },
{
    match parse_expression(lexer.tokens(), 0, false) {
        Ok((a, _)) => Ok(a),
        Err(e) => Err(e),
    }
}

/// A bare-word token.
pub open spec fn word_token(w: Seq<char>, line: nat) -> TokenV {
    TokenV { t_type: TokenType::Word, literal: None, lexeme: w, line }
}

/// A token with no payload of its own (an operator, a flag marker, the end of input).
pub open spec fn mark_token(t: TokenType, lexeme: Seq<char>, line: nat) -> TokenV {
    TokenV { t_type: t, literal: None, lexeme, line }
}

/// A command leaf with its flags and arguments.
pub open spec fn cmd_slot(name: Seq<char>, flags: Seq<Seq<char>>, args: Seq<Seq<char>>) -> SlotV {
    SlotV::Leaf { symbol: Symbol::Cmd, value: name, flags, args }
}

/// In `cmd a b -x --flag`, the words after the command are its arguments and the flags are its
/// flags, each in the order met, in one statement with no operator.
pub proof fn lemma_single_command(cmd: Seq<char>, a: Seq<char>, b: Seq<char>, x: Seq<char>, f: Seq<char>, short: Seq<char>, long: Seq<char>, line: nat)
    ensures
        parse(
            seq![
                word_token(cmd, line),
                word_token(a, line),
                word_token(b, line),
                mark_token(TokenType::ShortFlag, short, line),
                word_token(x, line),
                mark_token(TokenType::LongFlag, long, line),
                word_token(f, line),
                mark_token(TokenType::EOF, Seq::empty(), line),
            ],
        ) == Ok::<Seq<ExprV>, (nat, Seq<char>)>(
            seq![
                stmt_tree(
                    StmtV {
                        symbol: Symbol::Sequence,
                        op: Seq::empty(),
                        left: Some(cmd_slot(cmd, seq![seq!['-'] + x, seq!['-', '-'] + f], seq![a, b])),
                        right: None,
                    },
                ),
            ],
        ),
{
    let t = seq![
        word_token(cmd, line),
        word_token(a, line),
        word_token(b, line),
        mark_token(TokenType::ShortFlag, short, line),
        word_token(x, line),
        mark_token(TokenType::LongFlag, long, line),
        word_token(f, line),
        mark_token(TokenType::EOF, Seq::empty(), line),
    ];
    let fx = seq!['-'] + x;
    let ff = seq!['-', '-'] + f;
    let st = |flags: Seq<Seq<char>>, args: Seq<Seq<char>>|
        ParseV {
            done: Seq::empty(),
            cur: StmtV { left: Some(cmd_slot(cmd, flags, args)), ..fresh_stmt() },
            comment: false,
        };
    assert(Seq::<Seq<char>>::empty().push(a) =~= seq![a]);
    assert(seq![a].push(b) =~= seq![a, b]);
    assert(Seq::<Seq<char>>::empty().push(fx) =~= seq![fx]);
    assert(seq![fx].push(ff) =~= seq![fx, ff]);
    assert(parse_from(t, 0, false, fresh_state()) == parse_from(t, 1, false, st(seq![], seq![])));
    assert(parse_from(t, 1, false, st(seq![], seq![])) == parse_from(t, 2, false, st(seq![], seq![a])));
    assert(parse_from(t, 2, false, st(seq![], seq![a])) == parse_from(t, 3, false, st(seq![], seq![a, b])));
    assert(parse_from(t, 3, false, st(seq![], seq![a, b])) == parse_from(t, 5, false, st(seq![fx], seq![a, b])));
    assert(parse_from(t, 5, false, st(seq![fx], seq![a, b])) == parse_from(t, 7, false, st(seq![fx, ff], seq![a, b])));
    assert(parse_from(t, 7, false, st(seq![fx, ff], seq![a, b])) == parse_from(t, 8, false, st(seq![fx, ff], seq![a, b])));
}

/// In `a | b -x` the flag goes to `b`, the command still open, and `a` keeps no flag.
pub proof fn lemma_flag_goes_right(a: Seq<char>, bar: Seq<char>, b: Seq<char>, short: Seq<char>, x: Seq<char>, line: nat)
    ensures
        parse(
            seq![
                word_token(a, line),
                mark_token(TokenType::Pipe, bar, line),
                word_token(b, line),
                mark_token(TokenType::ShortFlag, short, line),
                word_token(x, line),
                mark_token(TokenType::EOF, Seq::empty(), line),
            ],
        ) == Ok::<Seq<ExprV>, (nat, Seq<char>)>(
            seq![
                stmt_tree(
                    StmtV {
                        symbol: Symbol::Pipe,
                        op: bar,
                        left: Some(cmd_slot(a, seq![], seq![])),
                        right: Some(cmd_slot(b, seq![seq!['-'] + x], seq![])),
                    },
                ),
            ],
        ),
{
    reveal_with_fuel(parse_from, 8);
}

/// `a; b; c` gives three statements, one per command, in that order.
pub proof fn lemma_three_statements(a: Seq<char>, b: Seq<char>, c: Seq<char>, semi: Seq<char>, line: nat)
    ensures
        parse(
            seq![
                word_token(a, line),
                mark_token(TokenType::Semicolon, semi, line),
                word_token(b, line),
                mark_token(TokenType::Semicolon, semi, line),
                word_token(c, line),
                mark_token(TokenType::EOF, Seq::empty(), line),
            ],
        ) == Ok::<Seq<ExprV>, (nat, Seq<char>)>(
            seq![
                stmt_tree(StmtV { symbol: Symbol::Sequence, op: Seq::empty(), left: Some(cmd_slot(a, seq![], seq![])), right: None }),
                stmt_tree(StmtV { symbol: Symbol::Sequence, op: Seq::empty(), left: Some(cmd_slot(b, seq![], seq![])), right: None }),
                stmt_tree(StmtV { symbol: Symbol::Sequence, op: Seq::empty(), left: Some(cmd_slot(c, seq![], seq![])), right: None }),
            ],
        ),
{
    let t = seq![
        word_token(a, line),
        mark_token(TokenType::Semicolon, semi, line),
        word_token(b, line),
        mark_token(TokenType::Semicolon, semi, line),
        word_token(c, line),
        mark_token(TokenType::EOF, Seq::empty(), line),
    ];
    let one = |w: Seq<char>| StmtV { left: Some(cmd_slot(w, seq![], seq![])), ..fresh_stmt() };
    let sa = stmt_tree(one(a));
    let sb = stmt_tree(one(b));
    assert(Seq::<ExprV>::empty().push(sa) =~= seq![sa]);
    assert(seq![sa].push(sb) =~= seq![sa, sb]);
    assert(seq![sa, sb].push(stmt_tree(one(c))) =~= seq![sa, sb, stmt_tree(one(c))]);
    assert(parse_from(t, 0, false, fresh_state()) == parse_from(t, 1, false, ParseV { cur: one(a), ..fresh_state() }));
    assert(parse_from(t, 1, false, ParseV { cur: one(a), ..fresh_state() }) == parse_from(t, 2, false, ParseV { done: seq![sa], ..fresh_state() }));
    assert(parse_from(t, 2, false, ParseV { done: seq![sa], ..fresh_state() }) == parse_from(t, 3, false, ParseV { done: seq![sa], cur: one(b), comment: false }));
    assert(parse_from(t, 3, false, ParseV { done: seq![sa], cur: one(b), comment: false }) == parse_from(t, 4, false, ParseV { done: seq![sa, sb], ..fresh_state() }));
    assert(parse_from(t, 4, false, ParseV { done: seq![sa, sb], ..fresh_state() }) == parse_from(t, 5, false, ParseV { done: seq![sa, sb], cur: one(c), comment: false }));
    assert(parse_from(t, 5, false, ParseV { done: seq![sa, sb], cur: one(c), comment: false }) == parse_from(t, 6, false, ParseV { done: seq![sa, sb], cur: one(c), comment: false }));
}

/// A word that scans as one bare word: not empty, not opening a quoted string, and holding
/// no character that ends a word.
pub open spec fn is_bare_word(w: Seq<char>) -> bool {
    w.len() > 0 && w[0] != '"' && forall|k: int| 0 <= k < w.len() ==> !ends_word(#[trigger] w[k])
}

/// The statement made of command `w` alone.
pub open spec fn lone_command(w: Seq<char>) -> ExprV {
    stmt_tree(StmtV { left: Some(cmd_slot(w, seq![], seq![])), ..fresh_stmt() })
}

/// A bare word scans to one word token and parses back to a command leaf holding exactly
/// that word.
pub proof fn lemma_bare_word_round_trip(w: Seq<char>)
    requires
        is_bare_word(w),
    ensures
        scan(w) == Ok::<Seq<TokenV>, nat>(seq![word_token(w, 1), mark_token(TokenType::EOF, Seq::empty(), 1)]),
        parse(seq![word_token(w, 1), mark_token(TokenType::EOF, Seq::empty(), 1)]) == Ok::<Seq<ExprV>, (nat, Seq<char>)>(seq![lone_command(w)]),
{
    let c = w[0];
    assert(!ends_word(c));
    lemma_word_end_at(w, 1, w.len() as int);
    assert(w.subrange(0, w.len() as int) =~= w);
    let tok = word_token(w, 1);
    assert(scan_from(w, 0, 1, Seq::empty()) == scan_from(w, w.len() as int, 1, seq![tok]));
    assert(seq![tok].push(mark_token(TokenType::EOF, Seq::empty(), 1)) =~= seq![tok, mark_token(TokenType::EOF, Seq::empty(), 1)]);
    let t = seq![tok, mark_token(TokenType::EOF, Seq::empty(), 1)];
    let one = StmtV { left: Some(cmd_slot(w, seq![], seq![])), ..fresh_stmt() };
    assert(parse_from(t, 0, false, fresh_state()) == parse_from(t, 1, false, ParseV { cur: one, ..fresh_state() }));
    assert(parse_from(t, 1, false, ParseV { cur: one, ..fresh_state() }) == parse_from(t, 2, false, ParseV { cur: one, ..fresh_state() }));
    assert(Seq::<ExprV>::empty().push(lone_command(w)) =~= seq![lone_command(w)]);
    assert(finish(ParseV { cur: one, ..fresh_state() }) == seq![lone_command(w)]);
}

/// A quoted string with no quote inside scans to one string token and parses back to a
/// command leaf holding exactly the text between the quotes.
pub proof fn lemma_quoted_round_trip(s: Seq<char>)
    requires
        forall|k: int| 0 <= k < s.len() ==> #[trigger] s[k] != '"',
    ensures
        ({
            let src = seq!['"'] + s + seq!['"'];
            let l = 1 + newlines(s);
            let tok = TokenV { t_type: TokenType::String, literal: Some(s), lexeme: src, line: l };
            &&& scan(src) == Ok::<Seq<TokenV>, nat>(seq![tok, mark_token(TokenType::EOF, Seq::empty(), l)])
            &&& parse(seq![tok, mark_token(TokenType::EOF, Seq::empty(), l)]) == Ok::<Seq<ExprV>, (nat, Seq<char>)>(seq![lone_command(s)])
        }),
{
    let src = seq!['"'] + s + seq!['"'];
    let n = s.len() as int;
    assert(src.len() == n + 2);
    assert(src[0] == '"');
    assert(src[n + 1] == '"');
    assert forall|k: int| 1 <= k < n + 1 implies #[trigger] src[k] != '"' by {
        assert(src[k] == s[k - 1]);
    }
    lemma_find_from_at(src, 1, n + 1, '"');
    assert(src.subrange(1, n + 1) =~= s);
    assert(src.subrange(0, n + 2) =~= src);
    let l = 1 + newlines(s);
    let tok = TokenV { t_type: TokenType::String, literal: Some(s), lexeme: src, line: l };
    assert(scan_from(src, 0, 1, Seq::empty()) == scan_from(src, n + 2, l, seq![tok]));
    let eof = mark_token(TokenType::EOF, Seq::empty(), l);
    assert(seq![tok].push(eof) =~= seq![tok, eof]);
    let t = seq![tok, eof];
    let one = StmtV { left: Some(cmd_slot(s, seq![], seq![])), ..fresh_stmt() };
    assert(parse_from(t, 0, false, fresh_state()) == parse_from(t, 1, false, ParseV { cur: one, ..fresh_state() }));
    assert(parse_from(t, 1, false, ParseV { cur: one, ..fresh_state() }) == parse_from(t, 2, false, ParseV { cur: one, ..fresh_state() }));
    assert(Seq::<ExprV>::empty().push(lone_command(s)) =~= seq![lone_command(s)]);
    assert(finish(ParseV { cur: one, ..fresh_state() }) == seq![lone_command(s)]);
}

proof fn lemma_scan_word(src: Seq<char>, i: int, j: int, line: nat, acc: Seq<TokenV>)
    requires
        0 <= i < j <= src.len(),
        is_bare_word(src.subrange(i, j)),
        j == src.len() || ends_word(src[j]),
    ensures
        scan_from(src, i, line, acc) == scan_from(src, j, line, acc.push(word_token(src.subrange(i, j), line))),
{
    let w = src.subrange(i, j);
    assert(src[i] == w[0]);
    assert(!ends_word(src[i]));
    assert forall|k: int| i + 1 <= k < j implies !ends_word(#[trigger] src[k]) by {
        assert(src[k] == w[k - i]);
    }
    lemma_word_end_at(src, i + 1, j);
}

/// `cmd a b -x --flag` written out as text scans and parses to one statement whose command is
/// `cmd`, with arguments `a`, `b` and flags `-x`, `--flag` in the order met.
pub proof fn lemma_single_command_text(cmd: Seq<char>, a: Seq<char>, b: Seq<char>, x: Seq<char>, f: Seq<char>)
    requires
        is_bare_word(cmd),
        is_bare_word(a),
        is_bare_word(b),
        is_bare_word(x),
        is_bare_word(f),
    ensures
        ({
            let src = cmd + seq![' '] + a + seq![' '] + b + seq![' ', '-'] + x + seq![' ', '-', '-'] + f;
            &&& scan(src) is Ok
            &&& parse(scan(src)->Ok_0) == Ok::<Seq<ExprV>, (nat, Seq<char>)>(
                seq![
                    stmt_tree(
                        StmtV {
                            symbol: Symbol::Sequence,
                            op: Seq::empty(),
                            left: Some(cmd_slot(cmd, seq![seq!['-'] + x, seq!['-', '-'] + f], seq![a, b])),
                            right: None,
                        },
                    ),
                ],
            )
        }),
{
    let src = cmd + seq![' '] + a + seq![' '] + b + seq![' ', '-'] + x + seq![' ', '-', '-'] + f;
    let n1 = cmd.len() as int;
    let n2 = n1 + 1 + a.len();
    let n3 = n2 + 1 + b.len();
    let n4 = n3 + 2 + x.len();
    let n5 = n4 + 3 + f.len();
    assert(src.len() == n5);
    assert(src.subrange(0, n1) =~= cmd);
    assert(src.subrange(n1 + 1, n2) =~= a);
    assert(src.subrange(n2 + 1, n3) =~= b);
    assert(src.subrange(n3 + 2, n4) =~= x);
    assert(src.subrange(n4 + 3, n5) =~= f);
    assert(src[n1] == ' ');
    assert(src[n2] == ' ');
    assert(src[n3] == ' ');
    assert(src[n3 + 1] == '-');
    assert(src[n3 + 2] == x[0]);
    assert(src[n4] == ' ');
    assert(src[n4 + 1] == '-');
    assert(src[n4 + 2] == '-');
    assert(src.subrange(n3 + 1, n3 + 2) =~= seq!['-']);
    assert(src.subrange(n4 + 1, n4 + 3) =~= seq!['-', '-']);
    let l: nat = 1;
    let t0 = word_token(cmd, l);
    let t1 = word_token(a, l);
    let t2 = word_token(b, l);
    let t3 = mark_token(TokenType::ShortFlag, seq!['-'], l);
    let t4 = word_token(x, l);
    let t5 = mark_token(TokenType::LongFlag, seq!['-', '-'], l);
    let t6 = word_token(f, l);
    let t7 = mark_token(TokenType::EOF, Seq::empty(), l);
    let e: Seq<TokenV> = Seq::empty();
    lemma_scan_word(src, 0, n1, l, e);
    lemma_scan_word(src, n1 + 1, n2, l, seq![t0]);
    lemma_scan_word(src, n2 + 1, n3, l, seq![t0, t1]);
    lemma_scan_word(src, n3 + 2, n4, l, seq![t0, t1, t2, t3]);
    lemma_scan_word(src, n4 + 3, n5, l, seq![t0, t1, t2, t3, t4, t5]);
    assert(e.push(t0) =~= seq![t0]);
    assert(seq![t0].push(t1) =~= seq![t0, t1]);
    assert(seq![t0, t1].push(t2) =~= seq![t0, t1, t2]);
    assert(seq![t0, t1, t2].push(t3) =~= seq![t0, t1, t2, t3]);
    assert(seq![t0, t1, t2, t3].push(t4) =~= seq![t0, t1, t2, t3, t4]);
    assert(seq![t0, t1, t2, t3, t4].push(t5) =~= seq![t0, t1, t2, t3, t4, t5]);
    assert(seq![t0, t1, t2, t3, t4, t5].push(t6) =~= seq![t0, t1, t2, t3, t4, t5, t6]);
    assert(seq![t0, t1, t2, t3, t4, t5, t6].push(t7) =~= seq![t0, t1, t2, t3, t4, t5, t6, t7]);
    assert(scan_from(src, n1, l, seq![t0]) == scan_from(src, n1 + 1, l, seq![t0]));
    assert(scan_from(src, n2, l, seq![t0, t1]) == scan_from(src, n2 + 1, l, seq![t0, t1]));
    assert(scan_from(src, n3, l, seq![t0, t1, t2]) == scan_from(src, n3 + 1, l, seq![t0, t1, t2]));
    assert(scan_from(src, n3 + 1, l, seq![t0, t1, t2]) == scan_from(src, n3 + 2, l, seq![t0, t1, t2, t3]));
    assert(scan_from(src, n4, l, seq![t0, t1, t2, t3, t4]) == scan_from(src, n4 + 1, l, seq![t0, t1, t2, t3, t4]));
    assert(scan_from(src, n4 + 1, l, seq![t0, t1, t2, t3, t4]) == scan_from(src, n4 + 3, l, seq![t0, t1, t2, t3, t4, t5]));
    assert(scan_from(src, n5, l, seq![t0, t1, t2, t3, t4, t5, t6]) == Ok::<Seq<TokenV>, nat>(seq![t0, t1, t2, t3, t4, t5, t6, t7]));
    assert(scan(src) == Ok::<Seq<TokenV>, nat>(seq![t0, t1, t2, t3, t4, t5, t6, t7]));
    lemma_single_command(cmd, a, b, x, f, seq!['-'], seq!['-', '-'], l);
}

/// `a | b -x` written out as text: the flag goes to `b`, the command still open, and `a`
/// keeps no flag.
pub proof fn lemma_flag_goes_right_text(a: Seq<char>, b: Seq<char>, x: Seq<char>)
    requires
        is_bare_word(a),
        is_bare_word(b),
        is_bare_word(x),
    ensures
        ({
            let src = a + seq![' ', '|', ' '] + b + seq![' ', '-'] + x;
            &&& scan(src) is Ok
            &&& parse(scan(src)->Ok_0) == Ok::<Seq<ExprV>, (nat, Seq<char>)>(
                seq![
                    stmt_tree(
                        StmtV {
                            symbol: Symbol::Pipe,
                            op: seq!['|'],
                            left: Some(cmd_slot(a, seq![], seq![])),
                            right: Some(cmd_slot(b, seq![seq!['-'] + x], seq![])),
                        },
                    ),
                ],
            )
        }),
{
    let src = a + seq![' ', '|', ' '] + b + seq![' ', '-'] + x;
    let n1 = a.len() as int;
    let n2 = n1 + 3 + b.len();
    let n3 = n2 + 2 + x.len();
    assert(src.len() == n3);
    assert(src.subrange(0, n1) =~= a);
    assert(src.subrange(n1 + 3, n2) =~= b);
    assert(src.subrange(n2 + 2, n3) =~= x);
    assert(src[n1] == ' ');
    assert(src[n1 + 1] == '|');
    assert(src[n1 + 2] == ' ');
    assert(src[n2] == ' ');
    assert(src[n2 + 1] == '-');
    assert(src[n2 + 2] == x[0]);
    assert(src.subrange(n1 + 1, n1 + 2) =~= seq!['|']);
    assert(src.subrange(n2 + 1, n2 + 2) =~= seq!['-']);
    let l: nat = 1;
    let t0 = word_token(a, l);
    let t1 = mark_token(TokenType::Pipe, seq!['|'], l);
    let t2 = word_token(b, l);
    let t3 = mark_token(TokenType::ShortFlag, seq!['-'], l);
    let t4 = word_token(x, l);
    let t5 = mark_token(TokenType::EOF, Seq::empty(), l);
    let e: Seq<TokenV> = Seq::empty();
    lemma_scan_word(src, 0, n1, l, e);
    lemma_scan_word(src, n1 + 3, n2, l, seq![t0, t1]);
    lemma_scan_word(src, n2 + 2, n3, l, seq![t0, t1, t2, t3]);
    assert(e.push(t0) =~= seq![t0]);
    assert(seq![t0].push(t1) =~= seq![t0, t1]);
    assert(seq![t0, t1].push(t2) =~= seq![t0, t1, t2]);
    assert(seq![t0, t1, t2].push(t3) =~= seq![t0, t1, t2, t3]);
    assert(seq![t0, t1, t2, t3].push(t4) =~= seq![t0, t1, t2, t3, t4]);
    assert(seq![t0, t1, t2, t3, t4].push(t5) =~= seq![t0, t1, t2, t3, t4, t5]);
    assert(scan_from(src, n1, l, seq![t0]) == scan_from(src, n1 + 1, l, seq![t0]));
    assert(scan_from(src, n1 + 1, l, seq![t0]) == scan_from(src, n1 + 2, l, seq![t0, t1]));
    assert(scan_from(src, n1 + 2, l, seq![t0, t1]) == scan_from(src, n1 + 3, l, seq![t0, t1]));
    assert(scan_from(src, n2, l, seq![t0, t1, t2]) == scan_from(src, n2 + 1, l, seq![t0, t1, t2]));
    assert(scan_from(src, n2 + 1, l, seq![t0, t1, t2]) == scan_from(src, n2 + 2, l, seq![t0, t1, t2, t3]));
    assert(scan_from(src, n3, l, seq![t0, t1, t2, t3, t4]) == Ok::<Seq<TokenV>, nat>(seq![t0, t1, t2, t3, t4, t5]));
    assert(scan(src) == Ok::<Seq<TokenV>, nat>(seq![t0, t1, t2, t3, t4, t5]));
    lemma_flag_goes_right(a, seq!['|'], b, seq!['-'], x, l);
}

/// `a; b; c` written out as text gives three statements, one per command, in that order.
pub proof fn lemma_three_statements_text(a: Seq<char>, b: Seq<char>, c: Seq<char>)
    requires
        is_bare_word(a),
        is_bare_word(b),
        is_bare_word(c),
    ensures
        ({
            let src = a + seq![';', ' '] + b + seq![';', ' '] + c;
            &&& scan(src) is Ok
            &&& parse(scan(src)->Ok_0) == Ok::<Seq<ExprV>, (nat, Seq<char>)>(
                seq![lone_command(a), lone_command(b), lone_command(c)],
            )
        }),
{
    let src = a + seq![';', ' '] + b + seq![';', ' '] + c;
    let n1 = a.len() as int;
    let n2 = n1 + 2 + b.len();
    let n3 = n2 + 2 + c.len();
    assert(src.len() == n3);
    assert(src.subrange(0, n1) =~= a);
    assert(src.subrange(n1 + 2, n2) =~= b);
    assert(src.subrange(n2 + 2, n3) =~= c);
    assert(src[n1] == ';');
    assert(src[n1 + 1] == ' ');
    assert(src[n2] == ';');
    assert(src[n2 + 1] == ' ');
    assert(src.subrange(n1, n1 + 1) =~= seq![';']);
    assert(src.subrange(n2, n2 + 1) =~= seq![';']);
    let l: nat = 1;
    let t0 = word_token(a, l);
    let t1 = mark_token(TokenType::Semicolon, seq![';'], l);
    let t2 = word_token(b, l);
    let t4 = word_token(c, l);
    let t5 = mark_token(TokenType::EOF, Seq::empty(), l);
    let e: Seq<TokenV> = Seq::empty();
    lemma_scan_word(src, 0, n1, l, e);
    lemma_scan_word(src, n1 + 2, n2, l, seq![t0, t1]);
    lemma_scan_word(src, n2 + 2, n3, l, seq![t0, t1, t2, t1]);
    assert(e.push(t0) =~= seq![t0]);
    assert(seq![t0].push(t1) =~= seq![t0, t1]);
    assert(seq![t0, t1].push(t2) =~= seq![t0, t1, t2]);
    assert(seq![t0, t1, t2].push(t1) =~= seq![t0, t1, t2, t1]);
    assert(seq![t0, t1, t2, t1].push(t4) =~= seq![t0, t1, t2, t1, t4]);
    assert(seq![t0, t1, t2, t1, t4].push(t5) =~= seq![t0, t1, t2, t1, t4, t5]);
    assert(scan_from(src, n1, l, seq![t0]) == scan_from(src, n1 + 1, l, seq![t0, t1]));
    assert(scan_from(src, n1 + 1, l, seq![t0, t1]) == scan_from(src, n1 + 2, l, seq![t0, t1]));
    assert(scan_from(src, n2, l, seq![t0, t1, t2]) == scan_from(src, n2 + 1, l, seq![t0, t1, t2, t1]));
    assert(scan_from(src, n2 + 1, l, seq![t0, t1, t2, t1]) == scan_from(src, n2 + 2, l, seq![t0, t1, t2, t1]));
    assert(scan_from(src, n3, l, seq![t0, t1, t2, t1, t4]) == Ok::<Seq<TokenV>, nat>(seq![t0, t1, t2, t1, t4, t5]));
    assert(scan(src) == Ok::<Seq<TokenV>, nat>(seq![t0, t1, t2, t1, t4, t5]));
    lemma_three_statements(a, b, c, seq![';'], l);
}

/// One item written after a command: a positional argument, or a short or long flag with its
/// name.
pub enum CmdItem {
    Arg(Seq<char>),
    Short(Seq<char>),
    Long(Seq<char>),
}

/// The tokens an item scans to.
pub open spec fn item_tokens(it: CmdItem, line: nat) -> Seq<TokenV> {
    match it {
        CmdItem::Arg(w) => seq![word_token(w, line)],
        CmdItem::Short(n) => seq![mark_token(TokenType::ShortFlag, seq!['-'], line), word_token(n, line)],
        CmdItem::Long(n) => seq![mark_token(TokenType::LongFlag, seq!['-', '-'], line), word_token(n, line)],
    }
}

/// The tokens of `items`, one item after another.
pub open spec fn items_tokens(items: Seq<CmdItem>, line: nat) -> Seq<TokenV>
    decreases items.len(),
{
    if items.len() == 0 {
        Seq::empty()
    } else {
        items_tokens(items.drop_last(), line) + item_tokens(items.last(), line)
    }
}

/// The positional arguments among `items`, in order.
pub open spec fn items_args(items: Seq<CmdItem>) -> Seq<Seq<char>>
    decreases items.len(),
{
    if items.len() == 0 {
        Seq::empty()
    } else {
        let r = items_args(items.drop_last());
        match items.last() {
            CmdItem::Arg(w) => r.push(w),
            _ => r,
        }
    }
}

/// The flags among `items` with their `-` or `--` prefix, in order.
pub open spec fn items_flags(items: Seq<CmdItem>) -> Seq<Seq<char>>
    decreases items.len(),
{
    if items.len() == 0 {
        Seq::empty()
    } else {
        let r = items_flags(items.drop_last());
        match items.last() {
            CmdItem::Arg(_) => r,
            CmdItem::Short(n) => r.push(seq!['-'] + n),
            CmdItem::Long(n) => r.push(seq!['-', '-'] + n),
        }
    }
}

proof fn lemma_items_prefix(items: Seq<CmdItem>, line: nat, j: int)
    requires
        0 <= j <= items.len(),
    ensures
        items_tokens(items.subrange(0, j), line).len() <= items_tokens(items, line).len(),
        forall|d: int|
            0 <= d < items_tokens(items.subrange(0, j), line).len() ==> #[trigger] items_tokens(items, line)[d]
                == items_tokens(items.subrange(0, j), line)[d],
    decreases items.len() - j,
{
    if j == items.len() {
        assert(items.subrange(0, j) =~= items);
    } else {
        lemma_items_prefix(items, line, j + 1);
        assert(items.subrange(0, j + 1).drop_last() =~= items.subrange(0, j));
    }
}

proof fn lemma_items_step(cmd: Seq<char>, items: Seq<CmdItem>, line: nat, k: int)
    requires
        0 <= k < items.len(),
    ensures
        ({
            let t = seq![word_token(cmd, line)] + items_tokens(items, line) + seq![mark_token(TokenType::EOF, Seq::empty(), line)];
            let pk = items.subrange(0, k);
            let pk1 = items.subrange(0, k + 1);
            let st = |p: Seq<CmdItem>|
                ParseV {
                    done: Seq::empty(),
                    cur: StmtV { left: Some(cmd_slot(cmd, items_flags(p), items_args(p))), ..fresh_stmt() },
                    comment: false,
                };
            parse_from(t, 1 + items_tokens(pk, line).len() as int, false, st(pk)) == parse_from(
                t,
                1 + items_tokens(pk1, line).len() as int,
                false,
                st(pk1),
            )
        }),
{
    let t = seq![word_token(cmd, line)] + items_tokens(items, line) + seq![mark_token(TokenType::EOF, Seq::empty(), line)];
    let pk = items.subrange(0, k);
    let pk1 = items.subrange(0, k + 1);
    assert(pk1.drop_last() =~= pk);
    assert(pk1.last() == items[k]);
    lemma_items_prefix(items, line, k + 1);
    let base = items_tokens(pk, line).len() as int;
    let it = item_tokens(items[k], line);
    let all = items_tokens(items, line);
    assert(items_tokens(pk1, line) == items_tokens(pk, line) + it);
    assert forall|d: int| 0 <= d < it.len() implies #[trigger] t[1 + base + d] == it[d] by {
        assert(t[1 + base + d] == all[base + d]);
        assert(all[base + d] == items_tokens(pk1, line)[base + d]);
    }
    match items[k] {
        CmdItem::Arg(w) => {
            assert(t[1 + base] == it[0]);
        },
        CmdItem::Short(n) => {
            assert(t[1 + base] == it[0]);
            assert(t[1 + base + 1] == it[1]);
        },
        CmdItem::Long(n) => {
            assert(t[1 + base] == it[0]);
            assert(t[1 + base + 1] == it[1]);
        },
    }
}

proof fn lemma_items_upto(cmd: Seq<char>, items: Seq<CmdItem>, line: nat, k: int)
    requires
        0 <= k <= items.len(),
    ensures
        ({
            let t = seq![word_token(cmd, line)] + items_tokens(items, line) + seq![mark_token(TokenType::EOF, Seq::empty(), line)];
            let pk = items.subrange(0, k);
            let st = |p: Seq<CmdItem>|
                ParseV {
                    done: Seq::empty(),
                    cur: StmtV { left: Some(cmd_slot(cmd, items_flags(p), items_args(p))), ..fresh_stmt() },
                    comment: false,
                };
            parse_from(t, 1, false, st(items.subrange(0, 0))) == parse_from(
                t,
                1 + items_tokens(pk, line).len() as int,
                false,
                st(pk),
            )
        }),
    decreases k,
{
    if k > 0 {
        lemma_items_upto(cmd, items, line, k - 1);
        lemma_items_step(cmd, items, line, k - 1);
    }
}

/// A command followed by any mix of positional arguments and flags, `cmd i1 i2 ...`, parses
/// to one statement with no operator whose command is `cmd`, with the arguments as its
/// arguments and the flags (with their `-` or `--`) as its flags, each in the order met.
pub proof fn lemma_command_items(cmd: Seq<char>, items: Seq<CmdItem>, line: nat)
    ensures
        parse(seq![word_token(cmd, line)] + items_tokens(items, line) + seq![mark_token(TokenType::EOF, Seq::empty(), line)])
            == Ok::<Seq<ExprV>, (nat, Seq<char>)>(
            seq![
                stmt_tree(
                    StmtV {
                        symbol: Symbol::Sequence,
                        op: Seq::empty(),
                        left: Some(cmd_slot(cmd, items_flags(items), items_args(items))),
                        right: None,
                    },
                ),
            ],
        ),
{
    let t = seq![word_token(cmd, line)] + items_tokens(items, line) + seq![mark_token(TokenType::EOF, Seq::empty(), line)];
    let n = items.len() as int;
    let e = items.subrange(0, 0);
    assert(e =~= Seq::<CmdItem>::empty());
    assert(items_flags(e) == Seq::<Seq<char>>::empty());
    assert(items_args(e) == Seq::<Seq<char>>::empty());
    let st = |p: Seq<CmdItem>|
        ParseV {
            done: Seq::empty(),
            cur: StmtV { left: Some(cmd_slot(cmd, items_flags(p), items_args(p))), ..fresh_stmt() },
            comment: false,
        };
    assert(t[0] == word_token(cmd, line));
    assert(parse_from(t, 0, false, fresh_state()) == parse_from(t, 1, false, st(e)));
    lemma_items_upto(cmd, items, line, n);
    assert(items.subrange(0, n) =~= items);
    let m = items_tokens(items, line).len() as int;
    assert(t.len() == m + 2);
    assert(t[1 + m] == mark_token(TokenType::EOF, Seq::empty(), line));
    assert(parse_from(t, 1 + m, false, st(items)) == parse_from(t, 2 + m, false, st(items)));
    assert(Seq::<ExprV>::empty().push(stmt_tree(st(items).cur)) =~= seq![stmt_tree(st(items).cur)]);
}

} // verus!
