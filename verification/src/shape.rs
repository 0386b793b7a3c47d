//! The shape of a syntax tree: its structure, spans, operators, integer
//! values and comments. Together with well-formedness against the text
//! (which fixes every name and string by its span), a shape determines a
//! tree.

use vstd::prelude::*;

use crate::ast::{
    AssignOp, BinaryOp, Block, Call, Condition, ElseBlock, Expr, LValue, PrimaryExpr, Span, Statement, SyntaxError,
    UnaryOp,
};

verus! {

pub enum ExprShape {
    Identifier(Span),
    Integer(i64, Span),
    String(Seq<ExprShape>, Span),
    Call(CallShape),
    ArrayAccess(Span, Box<ExprShape>, Span),
    ScopeAccess(Span, Span, Span),
    Block(BlockShape),
    Paren(Box<ExprShape>, Span),
    List(Seq<ExprShape>, Span),
    Error(SyntaxError),
    Unary(UnaryOp, Box<ExprShape>, Span),
    Binary(Box<ExprShape>, BinaryOp, Box<ExprShape>, Span),
}

/// A call: the function's span, the arguments, the block, the comments
/// before it, and its span.
pub struct CallShape {
    pub function: Span,
    pub args: Seq<ExprShape>,
    pub block: Option<BlockShape>,
    pub comments: Seq<Seq<u8>>,
    pub span: Span,
}

pub struct BlockShape {
    pub statements: Seq<StatementShape>,
    pub span: Span,
}

pub enum LValueShape {
    Identifier(Span),
    ArrayAccess(Span, ExprShape, Span),
    ScopeAccess(Span, Span, Span),
}

pub enum StatementShape {
    Assignment(LValueShape, AssignOp, ExprShape, Seq<Seq<u8>>, Span),
    Call(CallShape),
    Condition(ConditionShape),
    Error(SyntaxError),
}

pub struct ConditionShape {
    pub condition: ExprShape,
    pub then_block: BlockShape,
    pub else_block: Option<ElseShape>,
    pub span: Span,
}

pub enum ElseShape {
    Condition(Box<ConditionShape>),
    Block(BlockShape),
}

pub open spec fn comments_shape(lines: Seq<Vec<u8>>) -> Seq<Seq<u8>> {
    lines.map_values(|l: Vec<u8>| l@)
}

pub open spec fn exprs_shape(es: Seq<Expr>) -> Seq<ExprShape>
    decreases es,
{
    if es.len() == 0 {
        seq![]
    } else {
        exprs_shape(es.drop_last()).push(expr_shape(es.last()))
    }
}

pub open spec fn expr_shape(e: Expr) -> ExprShape
    decreases e,
{
    match e {
        Expr::Primary(p) => primary_shape(*p),
        Expr::Unary(u) => ExprShape::Unary(u.op, Box::new(expr_shape(*u.expr)), u.span),
        Expr::Binary(b) => ExprShape::Binary(Box::new(expr_shape(*b.lhs)), b.op, Box::new(expr_shape(*b.rhs)), b.span),
    }
}

pub open spec fn primary_shape(p: PrimaryExpr) -> ExprShape
    decreases p,
{
    match p {
        PrimaryExpr::Identifier(i) => ExprShape::Identifier(i.span),
        PrimaryExpr::Integer(x) => ExprShape::Integer(x.value, x.span),
        PrimaryExpr::String(l) => ExprShape::String(exprs_shape(l.embedded_exprs@), l.span),
        PrimaryExpr::Call(c) => ExprShape::Call(call_shape(*c)),
        PrimaryExpr::ArrayAccess(a) => ExprShape::ArrayAccess(a.array.span, Box::new(expr_shape(*a.index)), a.span),
        PrimaryExpr::ScopeAccess(a) => ExprShape::ScopeAccess(a.scope.span, a.member.span, a.span),
        PrimaryExpr::Block(b) => ExprShape::Block(block_shape(*b)),
        PrimaryExpr::ParenExpr(x) => ExprShape::Paren(Box::new(expr_shape(*x.expr)), x.span),
        PrimaryExpr::List(l) => ExprShape::List(exprs_shape(l.values@), l.span),
        PrimaryExpr::Error(e) => ExprShape::Error(*e),
    }
}

pub open spec fn call_shape(c: Call) -> CallShape
    decreases c,
{
    CallShape {
        function: c.function.span,
        args: exprs_shape(c.args@),
        block: match c.block {
            Some(b) => Some(block_shape(b)),
            None => None,
        },
        comments: comments_shape(c.comments.lines@),
        span: c.span,
    }
}

pub open spec fn block_shape(b: Block) -> BlockShape
    decreases b,
{
    BlockShape { statements: statements_shape(b.statements@), span: b.span }
}

pub open spec fn statements_shape(sts: Seq<Statement>) -> Seq<StatementShape>
    decreases sts,
{
    if sts.len() == 0 {
        seq![]
    } else {
        statements_shape(sts.drop_last()).push(statement_shape(sts.last()))
    }
}

pub open spec fn lvalue_shape(l: LValue) -> LValueShape
    decreases l,
{
    match l {
        LValue::Identifier(i) => LValueShape::Identifier(i.span),
        LValue::ArrayAccess(a) => LValueShape::ArrayAccess(a.array.span, expr_shape(*a.index), a.span),
        LValue::ScopeAccess(a) => LValueShape::ScopeAccess(a.scope.span, a.member.span, a.span),
    }
}

pub open spec fn statement_shape(st: Statement) -> StatementShape
    decreases st,
{
    match st {
        Statement::Assignment(a) => StatementShape::Assignment(
            lvalue_shape(a.lvalue),
            a.op,
            expr_shape(*a.rvalue),
            comments_shape(a.comments.lines@),
            a.span,
        ),
        Statement::Call(c) => StatementShape::Call(call_shape(*c)),
        Statement::Condition(c) => StatementShape::Condition(condition_shape(*c)),
        Statement::Error(e) => StatementShape::Error(e.error),
    }
}

pub open spec fn condition_shape(c: Condition) -> ConditionShape
    decreases c,
{
    ConditionShape {
        condition: expr_shape(*c.condition),
        then_block: block_shape(c.then_block),
        else_block: match c.else_block {
            Some(ElseBlock::Condition(n)) => Some(ElseShape::Condition(Box::new(condition_shape(*n)))),
            Some(ElseBlock::Block(b)) => Some(ElseShape::Block(block_shape(*b))),
            None => None,
        },
        span: c.span,
    }
}

} // verus!
