//! The syntax tree that the parser produces and the later passes walk.

use vstd::prelude::*;
use crate::source::Span;
use crate::value::Value;

verus! {

/// A lexical token. Operators in the tree are tokens too.
#[derive(Debug, PartialEq)]
pub enum Token {
    NumberLit(Value),
    BoolLit(bool),
    Identifier(String),
    Plus,
    Minus,
    Asterisk,
    Slash,
    Equals,
    EqualsEquals,
    NotEquals,
    LessThan,
    LessThanEquals,
    GreaterThan,
    GreaterThanEquals,
    LogicalNot,
    OpenParen,
    CloseParen,
    OpenBrace,
    CloseBrace,
    Comma,
    Semi,
    Let,
    Fn,
    If,
    Else,
    While,
    Return,
    Eof,
    Error,
}

impl Token {
    /// The number of the token's variant, whatever the token carries.
    pub open spec fn variant(self) -> u8 {
        match self {
            Token::NumberLit(_) => 0,
            Token::BoolLit(_) => 1,
            Token::Identifier(_) => 2,
            Token::Plus => 3,
            Token::Minus => 4,
            Token::Asterisk => 5,
            Token::Slash => 6,
            Token::Equals => 7,
            Token::EqualsEquals => 8,
            Token::NotEquals => 9,
            Token::LessThan => 10,
            Token::LessThanEquals => 11,
            Token::GreaterThan => 12,
            Token::GreaterThanEquals => 13,
            Token::LogicalNot => 14,
            Token::OpenParen => 15,
            Token::CloseParen => 16,
            Token::OpenBrace => 17,
            Token::CloseBrace => 18,
            Token::Comma => 19,
            Token::Semi => 20,
            Token::Let => 21,
            Token::Fn => 22,
            Token::If => 23,
            Token::Else => 24,
            Token::While => 25,
            Token::Return => 26,
            Token::Eof => 27,
            Token::Error => 28,
        }
    }

    /// Whether the two tokens are of the same variant, whatever they carry.
    pub open spec fn same_variant(self, other: Token) -> bool {
        self.variant() == other.variant()
    }

    /// Computes the number of the token's variant.
    pub fn variant_index(&self) -> (index: u8)
        ensures
            index == self.variant(),
    {
        match self {
            Token::NumberLit(_) => 0,
            Token::BoolLit(_) => 1,
            Token::Identifier(_) => 2,
            Token::Plus => 3,
            Token::Minus => 4,
            Token::Asterisk => 5,
            Token::Slash => 6,
            Token::Equals => 7,
            Token::EqualsEquals => 8,
            Token::NotEquals => 9,
            Token::LessThan => 10,
            Token::LessThanEquals => 11,
            Token::GreaterThan => 12,
            Token::GreaterThanEquals => 13,
            Token::LogicalNot => 14,
            Token::OpenParen => 15,
            Token::CloseParen => 16,
            Token::OpenBrace => 17,
            Token::CloseBrace => 18,
            Token::Comma => 19,
            Token::Semi => 20,
            Token::Let => 21,
            Token::Fn => 22,
            Token::If => 23,
            Token::Else => 24,
            Token::While => 25,
            Token::Return => 26,
            Token::Eof => 27,
            Token::Error => 28,
        }
    }

    /// Tests whether the two tokens are of the same variant.
    pub fn is_same_variant(&self, other: &Token) -> (same: bool)
        ensures
            same == self.same_variant(*other),
    {
        self.variant_index() == other.variant_index()
    }
}

impl Clone for Token {
    fn clone(&self) -> (token: Self)
        ensures
            token == *self,
    {
        match self {
            Token::NumberLit(value) => Token::NumberLit(*value),
            Token::BoolLit(value) => Token::BoolLit(*value),
            Token::Identifier(ident) => Token::Identifier(ident.clone()),
            Token::Plus => Token::Plus,
            Token::Minus => Token::Minus,
            Token::Asterisk => Token::Asterisk,
            Token::Slash => Token::Slash,
            Token::Equals => Token::Equals,
            Token::EqualsEquals => Token::EqualsEquals,
            Token::NotEquals => Token::NotEquals,
            Token::LessThan => Token::LessThan,
            Token::LessThanEquals => Token::LessThanEquals,
            Token::GreaterThan => Token::GreaterThan,
            Token::GreaterThanEquals => Token::GreaterThanEquals,
            Token::LogicalNot => Token::LogicalNot,
            Token::OpenParen => Token::OpenParen,
            Token::CloseParen => Token::CloseParen,
            Token::OpenBrace => Token::OpenBrace,
            Token::CloseBrace => Token::CloseBrace,
            Token::Comma => Token::Comma,
            Token::Semi => Token::Semi,
            Token::Let => Token::Let,
            Token::Fn => Token::Fn,
            Token::If => Token::If,
            Token::Else => Token::Else,
            Token::While => Token::While,
            Token::Return => Token::Return,
            Token::Eof => Token::Eof,
            Token::Error => Token::Error,
        }
    }
}

/// An expression, with its identity in the tree and its place in the source.
#[derive(Debug, PartialEq)]
pub struct Expr {
    pub id: u64,
    pub kind: ExprKind,
    pub span: Span,
}

#[derive(Debug, PartialEq)]
pub enum ExprKind {
    NumberLit(Value),
    BoolLit(bool),
    Identifier(String),
    FnCall { callee: Box<Expr>, args: Vec<Expr> },
    Binary { lhs: Box<Expr>, op: Token, rhs: Box<Expr> },
    Unary { op: Token, arg: Box<Expr> },
    /// An anonymous function. `inner_stmt` is a statement of kind
    /// [`StmtKind::Lambda`] that stands for the function's declaration.
    Lambda { inner_stmt: Box<Stmt>, params: Vec<Stmt>, body: Vec<Stmt> },
    Error,
}

/// A statement, with its identity in the tree and its place in the source.
#[derive(Debug, PartialEq)]
pub struct Stmt {
    pub id: u64,
    pub kind: StmtKind,
    pub span: Span,
}

#[derive(Debug, PartialEq)]
pub enum StmtKind {
    LetDeclaration { ident: String, initializer: Expr, ty: Option<String> },
    FnParam { ident: String },
    FnDeclaration { ident: String, params: Vec<Stmt>, body: Vec<Stmt> },
    Block(Vec<Stmt>),
    IfElseStmt { condition: Expr, if_block: Vec<Stmt>, else_block: Option<Vec<Stmt>> },
    WhileStmt { condition: Expr, body: Vec<Stmt> },
    ExprStmt(Expr),
    ReturnStmt(Expr),
    /// The declaration that a lambda expression carries. It never stands
    /// among the statements of a body.
    Lambda,
    Error,
}

/// Whether the expression can be resolved at scope depth `depth`: no scope
/// that it opens lies deeper than a `u32` counts, and no statement in it has
/// the kind `Lambda`.
pub open spec fn expr_resolvable(expr: Expr, depth: nat) -> bool
    decreases expr,
{
    match expr.kind {
        ExprKind::FnCall { callee, args } => {
            &&& expr_resolvable(*callee, depth)
            &&& forall|i: int| 0 <= i < args@.len() ==> expr_resolvable(#[trigger] args@[i], depth)
        },
        ExprKind::Binary { lhs, op, rhs } => {
            &&& expr_resolvable(*lhs, depth)
            &&& expr_resolvable(*rhs, depth)
        },
        ExprKind::Unary { op, arg } => expr_resolvable(*arg, depth),
        ExprKind::Lambda { inner_stmt, params, body } => {
            &&& depth < u32::MAX
            &&& stmts_resolvable(params@, depth + 1)
            &&& stmts_resolvable(body@, depth + 1)
        },
        _ => true,
    }
}

/// Whether the statement can be resolved at scope depth `depth`.
pub open spec fn stmt_resolvable(stmt: Stmt, depth: nat) -> bool
    decreases stmt,
{
    match stmt.kind {
        StmtKind::LetDeclaration { ident, initializer, ty } => expr_resolvable(initializer, depth),
        StmtKind::FnParam { ident } => true,
        StmtKind::FnDeclaration { ident, params, body } => {
            &&& depth < u32::MAX
            &&& stmts_resolvable(params@, depth + 1)
            &&& stmts_resolvable(body@, depth + 1)
        },
        StmtKind::Block(body) => depth < u32::MAX && stmts_resolvable(body@, depth + 1),
        StmtKind::IfElseStmt { condition, if_block, else_block } => {
            &&& expr_resolvable(condition, depth)
            &&& depth < u32::MAX
            &&& stmts_resolvable(if_block@, depth + 1)
            &&& match else_block {
                Some(block) => stmts_resolvable(block@, depth + 1),
                None => true,
            }
        },
        StmtKind::WhileStmt { condition, body } => {
            &&& expr_resolvable(condition, depth)
            &&& depth < u32::MAX
            &&& stmts_resolvable(body@, depth + 1)
        },
        StmtKind::ExprStmt(expr) => expr_resolvable(expr, depth),
        StmtKind::ReturnStmt(expr) => expr_resolvable(expr, depth),
        StmtKind::Lambda => false,
        StmtKind::Error => true,
    }
}

/// Whether each of the statements can be resolved at scope depth `depth`.
pub open spec fn stmts_resolvable(stmts: Seq<Stmt>, depth: nat) -> bool
    decreases stmts,
{
    forall|i: int| 0 <= i < stmts.len() ==> stmt_resolvable(#[trigger] stmts[i], depth)
}

impl Expr {
    /// Tests whether the expression can be resolved at scope depth `depth`.
    pub fn is_resolvable(&self, depth: u32) -> (ok: bool)
        ensures
            ok == expr_resolvable(*self, depth as nat),
        decreases self, 0nat,
    {
        match &self.kind {
            ExprKind::FnCall { callee, args } => callee.is_resolvable(depth) && all_exprs_resolvable(
                args,
                depth,
            ),
            ExprKind::Binary { lhs, op, rhs } => lhs.is_resolvable(depth) && rhs.is_resolvable(depth),
            ExprKind::Unary { op, arg } => arg.is_resolvable(depth),
            ExprKind::Lambda { inner_stmt, params, body } => depth < u32::MAX && all_resolvable(
                params,
                depth + 1,
            ) && all_resolvable(body, depth + 1),
            _ => true,
        }
    }
}

/// Tests whether each of the expressions can be resolved at scope depth
/// `depth`.
pub fn all_exprs_resolvable(exprs: &Vec<Expr>, depth: u32) -> (ok: bool)
    ensures
        ok == (forall|i: int| 0 <= i < exprs@.len() ==> expr_resolvable(#[trigger] exprs@[i], depth as nat)),
    decreases exprs, 1nat,
{
    let mut i: usize = 0;
    while i < exprs.len()
        invariant
            i <= exprs.len(),
            forall|j: int| 0 <= j < i ==> expr_resolvable(#[trigger] exprs@[j], depth as nat),
        decreases exprs.len() - i,
    {
        if !exprs[i].is_resolvable(depth) {
            return false;
        }
        i += 1;
    }
    true
}

impl Stmt {
    /// Tests whether the statement can be resolved at scope depth `depth`.
    pub fn is_resolvable(&self, depth: u32) -> (ok: bool)
        ensures
            ok == stmt_resolvable(*self, depth as nat),
        decreases self, 0nat,
    {
        match &self.kind {
            StmtKind::LetDeclaration { ident, initializer, ty } => initializer.is_resolvable(depth),
            StmtKind::FnParam { ident } => true,
            StmtKind::FnDeclaration { ident, params, body } => depth < u32::MAX && all_resolvable(
                params,
                depth + 1,
            ) && all_resolvable(body, depth + 1),
            StmtKind::Block(body) => depth < u32::MAX && all_resolvable(body, depth + 1),
            StmtKind::IfElseStmt { condition, if_block, else_block } => {
                condition.is_resolvable(depth) && depth < u32::MAX && all_resolvable(if_block, depth + 1)
                    && match else_block {
                    Some(block) => all_resolvable(block, depth + 1),
                    None => true,
                }
            },
            StmtKind::WhileStmt { condition, body } => condition.is_resolvable(depth) && depth
                < u32::MAX && all_resolvable(body, depth + 1),
            StmtKind::ExprStmt(expr) => expr.is_resolvable(depth),
            StmtKind::ReturnStmt(expr) => expr.is_resolvable(depth),
            StmtKind::Lambda => false,
            StmtKind::Error => true,
        }
    }

    /// The body of a function declaration; of any other statement, nothing.
    pub open spec fn function_body(self) -> Seq<Stmt> {
        match self.kind {
            StmtKind::FnDeclaration { ident, params, body } => body@,
            _ => Seq::empty(),
        }
    }

    /// Tests whether the statement is a function declaration whose body can
    /// be resolved at scope depth `depth`.
    pub fn is_resolvable_function(&self, depth: u32) -> (ok: bool)
        ensures
            ok == (self.kind is FnDeclaration && stmts_resolvable(self.function_body(), depth as nat)),
    {
        match &self.kind {
            StmtKind::FnDeclaration { ident, params, body } => all_resolvable(body, depth),
            _ => false,
        }
    }
}

/// Tests whether each of the statements can be resolved at scope depth
/// `depth`.
pub fn all_resolvable(stmts: &Vec<Stmt>, depth: u32) -> (ok: bool)
    ensures
        ok == stmts_resolvable(stmts@, depth as nat),
    decreases stmts, 1nat,
{
    let mut i: usize = 0;
    while i < stmts.len()
        invariant
            i <= stmts.len(),
            forall|j: int| 0 <= j < i ==> stmt_resolvable(#[trigger] stmts@[j], depth as nat),
        decreases stmts.len() - i,
    {
        if !stmts[i].is_resolvable(depth) {
            return false;
        }
        i += 1;
    }
    true
}

} // verus!
