//! The abstract syntax tree: one top-level statement wrapping an arithmetic
//! expression over integer, float and string literals and four binary
//! operators. A float literal keeps its exact source text; reading it as a
//! machine float is left to the embedding program, since this library states
//! its contracts over exact values only.

use vstd::prelude::*;

verus! {

/// The four binary operators of the expression grammar.
#[derive(Clone, Copy, PartialEq, Eq, Structural, Debug)]
pub enum BinaryOp {
    Add,
    Sub,
    Mul,
    Div,
}

/// An expression: a literal, or an operator applied to two subtrees. Every
/// `BinaryOp` node owns exactly two operand subtrees; the tree is strict.
#[derive(PartialEq, Eq, Debug)]
pub enum Expr {
    Integer(i64),
    Float(String),
    String(String),
    BinaryOp(Box<Expr>, BinaryOp, Box<Expr>),
}

/// A statement. The grammar only ever produces `Expr`; the function
/// declaration variant is part of the data model's documented shape but no
/// parsing path constructs it.
#[derive(PartialEq, Eq, Debug)]
pub enum Stmt {
    Expr(Expr),
    FunctionStmt(String, Vec<String>, Box<Stmt>),
}

/// The root of a parse: a single statement.
#[derive(PartialEq, Eq, Debug)]
pub enum Ast {
    Stmt(Stmt),
}

/// The mathematical value of an expression: literals as unbounded integers
/// and character sequences.
pub enum ExprModel {
    Integer(int),
    Float(Seq<char>),
    String(Seq<char>),
    BinaryOp(Box<ExprModel>, BinaryOp, Box<ExprModel>),
}

pub enum StmtModel {
    Expr(ExprModel),
    FunctionStmt(Seq<char>, Seq<Seq<char>>, Box<StmtModel>),
}

pub enum AstModel {
    Stmt(StmtModel),
}

pub open spec fn expr_model(e: Expr) -> ExprModel
    decreases e,
{
    match e {
        Expr::Integer(v) => ExprModel::Integer(v as int),
        Expr::Float(s) => ExprModel::Float(s@),
        Expr::String(s) => ExprModel::String(s@),
        Expr::BinaryOp(l, op, r) => ExprModel::BinaryOp(
            Box::new(expr_model(*l)),
            op,
            Box::new(expr_model(*r)),
        ),
    }
}

pub open spec fn stmt_model(s: Stmt) -> StmtModel
    decreases s,
{
    match s {
        Stmt::Expr(e) => StmtModel::Expr(expr_model(e)),
        Stmt::FunctionStmt(name, params, body) => StmtModel::FunctionStmt(
            name@,
            params@.map(|i: int, p: String| p@),
            Box::new(stmt_model(*body)),
        ),
    }
}

pub open spec fn ast_model(a: Ast) -> AstModel {
    match a {
        Ast::Stmt(s) => AstModel::Stmt(stmt_model(s)),
    }
}

} // verus!
