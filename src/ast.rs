use vstd::prelude::*;

verus! {

broadcast use vstd::std_specs::vec::axiom_vec_index_decreases;

/// A sequence of sibling expressions: the statements of a program, or the single node that
/// fills an operand slot.
#[derive(Debug)]
pub struct AST {
    pub exprs: Vec<Expr>,
}

/// A node of the tree: an operator node (`Kind::Expr`) with optional left and right operands,
/// or a leaf (`Kind::Value`) naming a command, a literal string or a file.
#[derive(Debug)]
pub struct Expr {
    pub kind: Kind,
    pub flags: Vec<String>,
    pub args: Vec<String>,
    pub symbol: Symbol,
    pub value: Option<String>,
    pub left: Option<AST>,
    pub right: Option<AST>,
}

/// Whether a node is an operator node or a leaf.
#[derive(Debug, Clone, Copy, PartialEq, Eq, Structural)]
pub enum Kind {
    Expr,
    Value,
}

/// An operator node's operator, or what a leaf names.
#[derive(Debug, Clone, Copy, PartialEq, Eq, Structural)]
pub enum Symbol {
    RedirLeft,
    RedirRight,
    DoubleRedirRight,
    DoubleRedirLeft,
    Pipe,
    Cmd,
    String,
    File,
    /// No operator: a plain statement or a parenthesized group.
    Sequence,
}

/// A node of the tree, with its strings seen as character sequences.
pub struct ExprV {
    pub kind: Kind,
    pub flags: Seq<Seq<char>>,
    pub args: Seq<Seq<char>>,
    pub symbol: Symbol,
    pub value: Option<Seq<char>>,
    pub left: Option<Seq<ExprV>>,
    pub right: Option<Seq<ExprV>>,
}

pub open spec fn strings_view(v: Seq<String>) -> Seq<Seq<char>> {
    v.map_values(|s: String| s@)
}

impl Expr {
    pub open spec fn view(&self) -> ExprV
        decreases self,
    {
        ExprV {
            kind: self.kind,
            flags: strings_view(self.flags@),
            args: strings_view(self.args@),
            symbol: self.symbol,
            value: match &self.value {
                Some(s) => Some(s@),
                None => None,
            },
            left: match &self.left {
                Some(a) => Some(a.view()),
                None => None,
            },
            right: match &self.right {
                Some(a) => Some(a.view()),
                None => None,
            },
        }
    }
}

impl AST {
    pub open spec fn view(&self) -> Seq<ExprV>
        decreases self,
    {
        Seq::new(
            self.exprs.len() as nat,
            |i: int|
                if 0 <= i < self.exprs.len() {
                    self.exprs[i].view()
                } else {
                    vstd::pervasive::arbitrary()
                },
        )
    }
}

} // verus!
