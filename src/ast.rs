use vstd::prelude::*;
use crate::token::{Token, TokenView};

verus! {

/// An identifier: the token it was read from and its name.
#[derive(Debug, Clone)]
pub struct Identifier {
    pub token: Token,
    pub value: String,
}

/// What an identifier stands for in contracts: its token and its name.
pub type IdentifierView = (TokenView, Seq<char>);

impl View for Identifier {
    type V = IdentifierView;

    open spec fn view(&self) -> IdentifierView {
        (self.token@, self.value@)
    }
}

/// An expression node. A program keeps its expressions in one arena (see
/// `Program`); a node names its sub-expressions by their index there, and
/// in a parsed program every index it holds is smaller than its own (see
/// `arena_ordered`).
#[derive(Debug, Clone)]
pub enum Expression {
    Ident(Identifier),
    Integer(Token),
    Boolean(Token),
    /// `!right` or `-right`; the token is the operator.
    Prefix { token: Token, right: usize },
    /// `left op right`; the token is the operator.
    Infix { token: Token, left: usize, right: usize },
    /// `function(arguments)`; the token is the opening parenthesis.
    Call { token: Token, function: usize, arguments: Vec<usize> },
    /// `fn(parameters) { body }`; the token is `fn`.
    Function { token: Token, parameters: Vec<Identifier>, body: Vec<Statement> },
}

/// A statement.
#[derive(Debug, Clone)]
pub enum Statement {
    Let(LetStatement),
    Expression(ExpressionStatement),
}

/// `let name = value;`; the token is `let`.
#[derive(Debug, Clone)]
pub struct LetStatement {
    pub token: Token,
    pub name: Identifier,
    pub value: usize,
}

/// An expression used as a statement; the token is its first one.
#[derive(Debug, Clone)]
pub struct ExpressionStatement {
    pub token: Token,
    pub expression: usize,
}

/// A parsed program: its statements in order, and the arena that holds
/// every expression they refer to.
#[derive(Debug, Clone)]
pub struct Program {
    pub statements: Vec<Statement>,
    pub expressions: Vec<Expression>,
}

pub enum ExpressionView {
    Ident(IdentifierView),
    Integer(TokenView),
    Boolean(TokenView),
    Prefix(TokenView, nat),
    Infix(TokenView, nat, nat),
    Call(TokenView, nat, Seq<nat>),
    Function(TokenView, Seq<IdentifierView>, Seq<StatementView>),
}

pub enum StatementView {
    Let(TokenView, IdentifierView, nat),
    Expression(TokenView, nat),
}

pub open spec fn index_views(v: Seq<usize>) -> Seq<nat> {
    v.map_values(|i: usize| i as nat)
}

pub open spec fn identifier_views(v: Seq<Identifier>) -> Seq<IdentifierView> {
    v.map_values(|i: Identifier| i@)
}

pub open spec fn statement_views(v: Seq<Statement>) -> Seq<StatementView> {
    v.map_values(|s: Statement| s@)
}

pub open spec fn expression_views(v: Seq<Expression>) -> Seq<ExpressionView> {
    v.map_values(|e: Expression| e@)
}

impl View for Statement {
    type V = StatementView;

    open spec fn view(&self) -> StatementView {
        match self {
            Statement::Let(s) => StatementView::Let(s.token@, s.name@, s.value as nat),
            Statement::Expression(s) => StatementView::Expression(s.token@, s.expression as nat),
        }
    }
}

impl View for Expression {
    type V = ExpressionView;

    open spec fn view(&self) -> ExpressionView {
        match self {
            Expression::Ident(i) => ExpressionView::Ident(i@),
            Expression::Integer(t) => ExpressionView::Integer(t@),
            Expression::Boolean(t) => ExpressionView::Boolean(t@),
            Expression::Prefix { token, right } => ExpressionView::Prefix(token@, *right as nat),
            Expression::Infix { token, left, right } => ExpressionView::Infix(
                token@,
                *left as nat,
                *right as nat,
            ),
            Expression::Call { token, function, arguments } => ExpressionView::Call(
                token@,
                *function as nat,
                index_views(arguments@),
            ),
            Expression::Function { token, parameters, body } => ExpressionView::Function(
                token@,
                identifier_views(parameters@),
                statement_views(body@),
            ),
        }
    }
}

/// Whether every index in `s` is below `n`.
pub open spec fn indices_below(s: Seq<nat>, n: nat) -> bool {
    forall|j: int| 0 <= j < s.len() ==> #[trigger] s[j] < n
}

/// Whether the expression that `s` holds has an index below `n`.
pub open spec fn statement_below(s: StatementView, n: nat) -> bool {
    match s {
        StatementView::Let(_, _, value) => value < n,
        StatementView::Expression(_, e) => e < n,
    }
}

/// Whether every statement of `s` refers to expressions below `n`.
pub open spec fn statements_below(s: Seq<StatementView>, n: nat) -> bool {
    forall|j: int| 0 <= j < s.len() ==> statement_below(#[trigger] s[j], n)
}

/// Whether every sub-expression that `e` names has an index below `n`.
pub open spec fn children_below(e: ExpressionView, n: nat) -> bool {
    match e {
        ExpressionView::Prefix(_, right) => right < n,
        ExpressionView::Infix(_, left, right) => left < n && right < n,
        ExpressionView::Call(_, function, arguments) => function < n && indices_below(arguments, n),
        ExpressionView::Function(_, _, body) => statements_below(body, n),
        _ => true,
    }
}

/// Whether each node of the arena names only nodes that come before it, so
/// that following indices always ends.
pub open spec fn arena_ordered(a: Seq<ExpressionView>) -> bool {
    forall|i: int| 0 <= i < a.len() ==> children_below(#[trigger] a[i], i as nat)
}

/// Appending a node whose children are all in the arena keeps it ordered.
pub proof fn lemma_push_ordered(a: Seq<ExpressionView>, e: ExpressionView)
    requires
        arena_ordered(a),
        children_below(e, a.len()),
    ensures
        arena_ordered(a.push(e)),
{
    assert forall|i: int| 0 <= i < a.push(e).len() implies children_below(#[trigger] a.push(e)[i], i as nat) by {
        if i < a.len() {
            assert(a.push(e)[i] == a[i]);
        }
    }
}

/// What a program stands for: its statements and its arena.
pub type ProgramView = (Seq<StatementView>, Seq<ExpressionView>);

impl Program {
    /// The arena is ordered and every statement refers to a node of it.
    pub open spec fn wf(&self) -> bool {
        &&& arena_ordered(self@.1)
        &&& statements_below(self@.0, self@.1.len())
    }
}

impl View for Program {
    type V = ProgramView;

    open spec fn view(&self) -> ProgramView {
        (statement_views(self.statements@), expression_views(self.expressions@))
    }
}

/// A node of the tree that can say which token introduced it.
pub trait Node {
    spec fn literal_view(&self) -> Seq<char>;

    /// The text of the token that introduced this node.
    fn token_literal(&self) -> (r: &str)
        ensures
            r@ == self.literal_view(),
    ;
}

impl Node for Identifier {
    open spec fn literal_view(&self) -> Seq<char> {
        self.token.literal@
    }

    fn token_literal(&self) -> (r: &str) {
        self.token.literal.as_str()
    }
}

impl Node for LetStatement {
    open spec fn literal_view(&self) -> Seq<char> {
        self.token.literal@
    }

    fn token_literal(&self) -> (r: &str) {
        self.token.literal.as_str()
    }
}

impl Node for ExpressionStatement {
    open spec fn literal_view(&self) -> Seq<char> {
        self.token.literal@
    }

    fn token_literal(&self) -> (r: &str) {
        self.token.literal.as_str()
    }
}

impl Node for Statement {
    open spec fn literal_view(&self) -> Seq<char> {
        match self {
            Statement::Let(s) => s.token.literal@,
            Statement::Expression(s) => s.token.literal@,
        }
    }

    fn token_literal(&self) -> (r: &str) {
        match self {
            Statement::Let(s) => s.token.literal.as_str(),
            Statement::Expression(s) => s.token.literal.as_str(),
        }
    }
}

impl Node for Expression {
    open spec fn literal_view(&self) -> Seq<char> {
        match self {
            Expression::Ident(i) => i.token.literal@,
            Expression::Integer(t) => t.literal@,
            Expression::Boolean(t) => t.literal@,
            Expression::Prefix { token, .. } => token.literal@,
            Expression::Infix { token, .. } => token.literal@,
            Expression::Call { token, .. } => token.literal@,
            Expression::Function { token, .. } => token.literal@,
        }
    }

    fn token_literal(&self) -> (r: &str) {
        match self {
            Expression::Ident(i) => i.token.literal.as_str(),
            Expression::Integer(t) => t.literal.as_str(),
            Expression::Boolean(t) => t.literal.as_str(),
            Expression::Prefix { token, .. } => token.literal.as_str(),
            Expression::Infix { token, .. } => token.literal.as_str(),
            Expression::Call { token, .. } => token.literal.as_str(),
            Expression::Function { token, .. } => token.literal.as_str(),
        }
    }
}

} // verus!
