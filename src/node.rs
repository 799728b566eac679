//! The syntax tree of a template.

use vstd::prelude::*;
use crate::syntax::WhitespaceHandling;

verus! {

/// Whitespace intent of a tag: `flush` is for the text just before it,
/// `prepare` for the text just after it. `None` defers to the project's
/// configured default, which is not the same as preserving.
#[derive(Clone, Copy, Debug, PartialEq, Eq, Structural)]
pub struct Ws {
    pub flush: Option<WhitespaceHandling>,
    pub prepare: Option<WhitespaceHandling>,
}

impl Ws {
    pub fn new(flush: Option<WhitespaceHandling>, prepare: Option<WhitespaceHandling>) -> (r: Ws)
        ensures
            r.flush == flush,
            r.prepare == prepare,
    {
        Ws { flush, prepare }
    }
}

/// A run of literal text split into leading whitespace, its core and
/// trailing whitespace.
#[derive(Debug, PartialEq, Eq)]
pub struct Lit {
    pub lws: Vec<char>,
    pub val: Vec<char>,
    pub rws: Vec<char>,
}

/// An expression.
#[derive(Debug, PartialEq, Eq)]
pub enum Expr {
    BoolLit(bool),
    /// Digits, with an optional fractional part.
    NumLit(Vec<char>),
    /// The body of a string literal, escapes kept as written.
    StrLit(Vec<char>),
    /// The body of a character literal, escapes kept as written.
    CharLit(Vec<char>),
    /// A variable.
    Var(Vec<char>),
    /// A path of segments; a leading `::` gives an empty first segment.
    Path(Vec<Vec<char>>),
    /// A parenthesised expression.
    Group(Box<Expr>),
    /// A filter applied to an expression: its name, and the text of its
    /// argument list where it has one.
    Filter(Vec<char>, Option<Vec<char>>, Box<Expr>),
    /// An attribute of an expression: `e.name`.
    Attr(Box<Expr>, Vec<char>),
    /// An index into an expression: `e[i]`.
    Index(Box<Expr>, Box<Expr>),
    /// A call: `e(args)`.
    Call(Box<Expr>, Vec<Expr>),
    /// A unary operation, `!` or `-`.
    Unary(char, Box<Expr>),
    /// A binary operation: the operator and its operands.
    BinOp(Vec<char>, Box<Expr>, Box<Expr>),
}

/// One branch of a conditional: the `if`, `elif` or `else` tag's whitespace
/// intent, its test (none for `else`) and its nodes.
#[derive(Debug, PartialEq, Eq)]
pub struct CondBranch {
    pub ws: Ws,
    pub test: Option<Expr>,
    pub nodes: Vec<Node>,
}

/// A `for` loop: the whitespace intents of its opening and closing tags, the
/// loop variable, the iterated expression and the body.
#[derive(Debug, PartialEq, Eq)]
pub struct Loop {
    pub ws1: Ws,
    pub var: Vec<char>,
    pub iter: Expr,
    pub body: Vec<Node>,
    pub ws2: Ws,
}

/// A named block, which a child template may override: the whitespace
/// intents of its opening and closing tags, its name and its nodes.
#[derive(Debug, PartialEq, Eq)]
pub struct BlockDef {
    pub ws1: Ws,
    pub name: Vec<char>,
    pub nodes: Vec<Node>,
    pub ws2: Ws,
}

/// A macro definition: the whitespace intents of its opening and closing
/// tags, its name, its parameter names and its body.
#[derive(Debug, PartialEq, Eq)]
pub struct Macro {
    pub ws1: Ws,
    pub name: Vec<char>,
    pub params: Vec<Vec<char>>,
    pub nodes: Vec<Node>,
    pub ws2: Ws,
}

/// One arm of a pattern match: its `when` tag's whitespace intent, its
/// pattern and its nodes.
#[derive(Debug, PartialEq, Eq)]
pub struct When {
    pub ws: Ws,
    pub pattern: Expr,
    pub nodes: Vec<Node>,
}

/// A pattern match: the `match` tag's whitespace intent, the matched
/// expression, the arms, and the `endmatch` tag's whitespace intent.
#[derive(Debug, PartialEq, Eq)]
pub struct Match {
    pub ws1: Ws,
    pub expr: Expr,
    pub arms: Vec<When>,
    pub ws2: Ws,
}

/// A node of the tree.
#[derive(Debug, PartialEq, Eq)]
pub enum Node {
    Lit(Lit),
    Comment(Ws),
    Expr(Ws, Expr),
    /// The branches of a conditional, and the `endif` tag's whitespace intent.
    Cond(Vec<CondBranch>, Ws),
    Loop(Loop),
    Break(Ws),
    Continue(Ws),
    /// Text kept verbatim between `raw` and `endraw`, with the two tags'
    /// whitespace intents.
    Raw(Ws, Lit, Ws),
    BlockDef(BlockDef),
    /// A reference to another template to render here, by its path.
    Include(Ws, Vec<char>),
    /// The parent template, by its path.
    Extends(Ws, Vec<char>),
    /// A variable binding, with its value where one is given.
    Let(Ws, Vec<char>, Option<Expr>),
    /// A macro invocation: the macro's name and the arguments.
    Call(Ws, Vec<char>, Vec<Expr>),
    Macro(Macro),
    Match(Match),
}

/// A sequence of nodes and the whitespace intent of its enclosing tag.
#[derive(Debug, PartialEq, Eq)]
pub struct Block {
    pub nodes: Vec<Node>,
    pub ws: Ws,
}

} // verus!
