//! Syntax tree of GN files. Names and literals keep their bytes; every node
//! knows the byte range of the text it was parsed from.

use vstd::prelude::*;

use crate::util::is_simple_literal;

verus! {

/// A half-open byte range `[start, end)` of the parsed text.
#[derive(Clone, Copy, Debug, PartialEq, Eq, Structural, Default)]
pub struct Span {
    pub start: usize,
    pub end: usize,
}

/// Kinds of syntax errors the parser recovers from.
#[derive(Clone, Copy, Debug, PartialEq, Eq, Structural)]
pub enum SyntaxErrorKind {
    /// Text at statement level that is not a statement.
    UnknownStatement,
    /// A closing brace at file level without an opening one.
    UnmatchedBrace,
    /// Two list items not separated by a comma.
    MissingComma,
    /// A string literal cut off by the end of its line.
    UnterminatedString,
}

/// A syntax error and where it is.
#[derive(Clone, Copy, Debug, PartialEq, Eq, Structural)]
pub struct SyntaxError {
    pub kind: SyntaxErrorKind,
    pub span: Span,
}

#[derive(Clone, Copy, Debug, PartialEq, Eq, Structural)]
pub enum AssignOp {
    Assign,
    AddAssign,
    SubAssign,
}

#[derive(Clone, Copy, Debug, PartialEq, Eq, Structural)]
pub enum UnaryOp {
    Not,
}

#[derive(Clone, Copy, Debug, PartialEq, Eq, Structural)]
pub enum BinaryOp {
    Add,
    Sub,
    Lt,
    Le,
    Gt,
    Ge,
    Eq,
    Ne,
    And,
    Or,
}

#[derive(Debug)]
pub struct Identifier {
    pub name: Vec<u8>,
    pub span: Span,
}

#[derive(Debug)]
pub struct IntegerLiteral {
    pub value: i64,
    pub span: Span,
}

#[derive(Debug)]
pub struct StringLiteral {
    /// The text between the quotes, escapes and expansions kept as written.
    pub raw_value: Vec<u8>,
    /// Expressions expanded in the string (`$name`, `${name}`, `${scope.name}`).
    pub embedded_exprs: Vec<Expr>,
    pub span: Span,
}

/// Comment lines (the text after `#`) written just before a statement.
#[derive(Debug, Default)]
pub struct Comments {
    pub lines: Vec<Vec<u8>>,
}

#[derive(Debug)]
pub enum Statement {
    Assignment(Box<Assignment>),
    Call(Box<Call>),
    Condition(Box<Condition>),
    Error(Box<ErrorStatement>),
}

#[derive(Debug)]
pub enum LValue {
    Identifier(Box<Identifier>),
    ArrayAccess(Box<ArrayAccess>),
    ScopeAccess(Box<ScopeAccess>),
}

#[derive(Debug)]
pub struct Assignment {
    pub lvalue: LValue,
    pub op: AssignOp,
    pub rvalue: Box<Expr>,
    pub comments: Comments,
    pub span: Span,
}

#[derive(Debug)]
pub struct Call {
    pub function: Identifier,
    pub args: Vec<Expr>,
    pub block: Option<Block>,
    pub comments: Comments,
    pub span: Span,
}

/// What follows `else`: another condition or a block.
#[derive(Debug)]
pub enum ElseBlock {
    Condition(Box<Condition>),
    Block(Box<Block>),
}

#[derive(Debug)]
pub struct Condition {
    pub condition: Box<Expr>,
    pub then_block: Block,
    pub else_block: Option<ElseBlock>,
    pub span: Span,
}

#[derive(Debug)]
pub struct Block {
    pub statements: Vec<Statement>,
    pub span: Span,
}

#[derive(Debug)]
pub struct ArrayAccess {
    pub array: Identifier,
    pub index: Box<Expr>,
    pub span: Span,
}

#[derive(Debug)]
pub struct ScopeAccess {
    pub scope: Identifier,
    pub member: Identifier,
    pub span: Span,
}

#[derive(Debug)]
pub enum Expr {
    Primary(Box<PrimaryExpr>),
    Unary(Box<UnaryExpr>),
    Binary(Box<BinaryExpr>),
}

#[derive(Debug)]
pub enum PrimaryExpr {
    Identifier(Box<Identifier>),
    Integer(Box<IntegerLiteral>),
    String(Box<StringLiteral>),
    Call(Box<Call>),
    ArrayAccess(Box<ArrayAccess>),
    ScopeAccess(Box<ScopeAccess>),
    Block(Box<Block>),
    ParenExpr(Box<ParenExpr>),
    List(Box<ListLiteral>),
    /// A place where the parser recovered from an error inside an expression.
    Error(Box<SyntaxError>),
}

#[derive(Debug)]
pub struct UnaryExpr {
    pub op: UnaryOp,
    pub expr: Box<Expr>,
    pub span: Span,
}

#[derive(Debug)]
pub struct BinaryExpr {
    pub lhs: Box<Expr>,
    pub op: BinaryOp,
    pub rhs: Box<Expr>,
    pub span: Span,
}

#[derive(Debug)]
pub struct ParenExpr {
    pub expr: Box<Expr>,
    pub span: Span,
}

#[derive(Debug)]
pub struct ListLiteral {
    pub values: Vec<Expr>,
    pub span: Span,
}

/// A statement the parser could not read: an unknown statement (with its
/// text) or an unmatched closing brace.
#[derive(Debug)]
pub struct ErrorStatement {
    pub error: SyntaxError,
    pub text: Vec<u8>,
}

// ---------------------------------------------------------------------------
// Spans.

impl Expr {
    pub open spec fn spec_span(self) -> Span {
        match self {
            Expr::Primary(p) => p.spec_span(),
            Expr::Unary(u) => u.span,
            Expr::Binary(b) => b.span,
        }
    }

    pub fn span(&self) -> (r: Span)
        ensures
            r == self.spec_span(),
    {
        match self {
            Expr::Primary(p) => p.span(),
            Expr::Unary(u) => u.span,
            Expr::Binary(b) => b.span,
        }
    }
}

impl PrimaryExpr {
    pub open spec fn spec_span(self) -> Span {
        match self {
            PrimaryExpr::Identifier(x) => x.span,
            PrimaryExpr::Integer(x) => x.span,
            PrimaryExpr::String(x) => x.span,
            PrimaryExpr::Call(x) => x.span,
            PrimaryExpr::ArrayAccess(x) => x.span,
            PrimaryExpr::ScopeAccess(x) => x.span,
            PrimaryExpr::Block(x) => x.span,
            PrimaryExpr::ParenExpr(x) => x.span,
            PrimaryExpr::List(x) => x.span,
            PrimaryExpr::Error(x) => x.span,
        }
    }

    pub fn span(&self) -> (r: Span)
        ensures
            r == self.spec_span(),
    {
        match self {
            PrimaryExpr::Identifier(x) => x.span,
            PrimaryExpr::Integer(x) => x.span,
            PrimaryExpr::String(x) => x.span,
            PrimaryExpr::Call(x) => x.span,
            PrimaryExpr::ArrayAccess(x) => x.span,
            PrimaryExpr::ScopeAccess(x) => x.span,
            PrimaryExpr::Block(x) => x.span,
            PrimaryExpr::ParenExpr(x) => x.span,
            PrimaryExpr::List(x) => x.span,
            PrimaryExpr::Error(x) => x.span,
        }
    }
}

impl Statement {
    pub open spec fn spec_span(self) -> Span {
        match self {
            Statement::Assignment(x) => x.span,
            Statement::Call(x) => x.span,
            Statement::Condition(x) => x.span,
            Statement::Error(x) => x.error.span,
        }
    }

    pub fn span(&self) -> (r: Span)
        ensures
            r == self.spec_span(),
    {
        match self {
            Statement::Assignment(x) => x.span,
            Statement::Call(x) => x.span,
            Statement::Condition(x) => x.span,
            Statement::Error(x) => x.error.span,
        }
    }
}

impl LValue {
    pub open spec fn spec_span(self) -> Span {
        match self {
            LValue::Identifier(x) => x.span,
            LValue::ArrayAccess(x) => x.span,
            LValue::ScopeAccess(x) => x.span,
        }
    }

    pub fn span(&self) -> (r: Span)
        ensures
            r == self.spec_span(),
    {
        match self {
            LValue::Identifier(x) => x.span,
            LValue::ArrayAccess(x) => x.span,
            LValue::ScopeAccess(x) => x.span,
        }
    }

    /// The variable an assignment to this lvalue writes: the identifier, the
    /// array, or the scope.
    pub open spec fn spec_primary(self) -> Identifier {
        match self {
            LValue::Identifier(x) => *x,
            LValue::ArrayAccess(x) => x.array,
            LValue::ScopeAccess(x) => x.scope,
        }
    }

    pub fn primary(&self) -> (r: &Identifier)
        ensures
            *r == self.spec_primary(),
    {
        match self {
            LValue::Identifier(x) => x,
            LValue::ArrayAccess(x) => &x.array,
            LValue::ScopeAccess(x) => &x.scope,
        }
    }
}

// ---------------------------------------------------------------------------
// Accessors.

/// Drops the reference inside an option.
pub open spec fn opt_deref<'a, T>(o: Option<&'a T>) -> Option<T> {
    match o {
        Some(x) => Some(*x),
        None => None,
    }
}

/// Drops the references of a sequence.
pub open spec fn derefs<'a, T>(s: Seq<&'a T>) -> Seq<T> {
    s.map_values(|x: &'a T| *x)
}

impl Expr {
    pub open spec fn spec_as_primary(self) -> Option<PrimaryExpr> {
        match self {
            Expr::Primary(p) => Some(*p),
            _ => None,
        }
    }

    pub fn as_primary(&self) -> (r: Option<&PrimaryExpr>)
        ensures
            opt_deref(r) == self.spec_as_primary(),
    {
        match self {
            Expr::Primary(p) => Some(p),
            _ => None,
        }
    }

    pub open spec fn spec_as_primary_string(self) -> Option<StringLiteral> {
        match self {
            Expr::Primary(p) => match *p {
                PrimaryExpr::String(s) => Some(*s),
                _ => None,
            },
            _ => None,
        }
    }

    pub fn as_primary_string(&self) -> (r: Option<&StringLiteral>)
        ensures
            opt_deref(r) == self.spec_as_primary_string(),
    {
        match self {
            Expr::Primary(p) => match &**p {
                PrimaryExpr::String(s) => Some(s),
                _ => None,
            },
            _ => None,
        }
    }

    pub open spec fn spec_as_primary_list(self) -> Option<ListLiteral> {
        match self {
            Expr::Primary(p) => match *p {
                PrimaryExpr::List(l) => Some(*l),
                _ => None,
            },
            _ => None,
        }
    }

    pub fn as_primary_list(&self) -> (r: Option<&ListLiteral>)
        ensures
            opt_deref(r) == self.spec_as_primary_list(),
    {
        match self {
            Expr::Primary(p) => match &**p {
                PrimaryExpr::List(l) => Some(l),
                _ => None,
            },
            _ => None,
        }
    }

    pub open spec fn spec_as_identifier(self) -> Option<Identifier> {
        match self {
            Expr::Primary(p) => match *p {
                PrimaryExpr::Identifier(i) => Some(*i),
                _ => None,
            },
            _ => None,
        }
    }

    pub fn as_identifier(&self) -> (r: Option<&Identifier>)
        ensures
            opt_deref(r) == self.spec_as_identifier(),
    {
        match self {
            Expr::Primary(p) => match &**p {
                PrimaryExpr::Identifier(i) => Some(i),
                _ => None,
            },
            _ => None,
        }
    }

    /// The contents of a string literal without escapes or expansions.
    pub open spec fn spec_as_simple_string(self) -> Option<Seq<u8>> {
        match self.spec_as_primary_string() {
            Some(s) => if is_simple_literal(s.raw_value@) {
                Some(s.raw_value@)
            } else {
                None
            },
            None => None,
        }
    }

    pub fn as_simple_string(&self) -> (r: Option<&[u8]>)
        ensures
            match r {
                Some(v) => self.spec_as_simple_string() == Some(v@),
                None => self.spec_as_simple_string() is None,
            },
    {
        match self.as_primary_string() {
            Some(s) => crate::util::parse_simple_literal(s.raw_value.as_slice()),
            None => None,
        }
    }

    /// A list literal all of whose items are simple strings, as those strings.
    pub open spec fn spec_as_simple_string_list(self) -> Option<Seq<Seq<u8>>> {
        match self.spec_as_primary_list() {
            Some(l) => if forall|i: int|
                0 <= i < l.values@.len() ==> (#[trigger] l.values@[i]).spec_as_simple_string()
                    is Some {
                Some(l.values@.map_values(|e: Expr| e.spec_as_simple_string().unwrap()))
            } else {
                None
            },
            None => None,
        }
    }

    pub fn as_simple_string_list(&self) -> (r: Option<Vec<&[u8]>>)
        ensures
            match r {
                Some(v) => self.spec_as_simple_string_list() == Some(
                    v@.map_values(|x: &[u8]| x@),
                ),
                None => self.spec_as_simple_string_list() is None,
            },
    {
        let list = match self.as_primary_list() {
            Some(l) => l,
            None => return None,
        };
        let mut out: Vec<&[u8]> = Vec::new();
        let mut i: usize = 0;
        while i < list.values.len()
            invariant
                i <= list.values@.len(),
                self.spec_as_primary_list() == Some(*list),
                out@.len() == i,
                forall|j: int|
                    0 <= j < i ==> (#[trigger] list.values@[j]).spec_as_simple_string() == Some(
                        out@[j]@,
                    ),
            decreases list.values.len() - i,
        {
            match list.values[i].as_simple_string() {
                Some(s) => out.push(s),
                None => {
                    assert(self.spec_as_primary_list() == Some(*list));
                    assert(list.values@[i as int].spec_as_simple_string() is None);
                    return None;
                },
            }
            i += 1;
        }
        assert(out@.map_values(|x: &[u8]| x@) =~= list.values@.map_values(
            |e: Expr| e.spec_as_simple_string().unwrap(),
        ));
        Some(out)
    }
}

impl Call {
    pub open spec fn spec_only_arg(self) -> Option<Expr> {
        if self.args@.len() == 1 {
            Some(self.args@[0])
        } else {
            None
        }
    }

    /// The argument of a call with exactly one.
    pub fn only_arg(&self) -> (r: Option<&Expr>)
        ensures
            opt_deref(r) == self.spec_only_arg(),
    {
        if self.args.len() == 1 {
            Some(&self.args[0])
        } else {
            None
        }
    }
}

impl Comments {
    pub fn is_empty(&self) -> (r: bool)
        ensures
            r == (self.lines@.len() == 0),
    {
        self.lines.len() == 0
    }

    /// The comment lines, each followed by a newline.
    pub open spec fn spec_text(self) -> Seq<u8> {
        lines_text(self.lines@.map_values(|l: Vec<u8>| l@))
    }

    pub fn text(&self) -> (r: Vec<u8>)
        ensures
            r@ == self.spec_text(),
    {
        let mut out: Vec<u8> = Vec::new();
        let mut i: usize = 0;
        let ghost lines = self.lines@.map_values(|l: Vec<u8>| l@);
        while i < self.lines.len()
            invariant
                i <= self.lines@.len(),
                lines == self.lines@.map_values(|l: Vec<u8>| l@),
                out@ == lines_text(lines.take(i as int)),
            decreases self.lines.len() - i,
        {
            let line = &self.lines[i];
            let mut j: usize = 0;
            let ghost before = out@;
            while j < line.len()
                invariant
                    j <= line@.len(),
                    out@ == before + line@.take(j as int),
                decreases line.len() - j,
            {
                out.push(line[j]);
                j += 1;
                assert(out@ =~= before + line@.take(j as int));
            }
            out.push(crate::util::NEWLINE);
            assert(lines.take(i + 1).drop_last() =~= lines.take(i as int));
            assert(line@.take(line@.len() as int) =~= line@);
            assert(out@ =~= lines_text(lines.take(i + 1)));
            i += 1;
        }
        assert(lines.take(self.lines@.len() as int) =~= lines);
        out
    }
}

/// Lines, each followed by a newline.
pub open spec fn lines_text(lines: Seq<Seq<u8>>) -> Seq<u8>
    decreases lines.len(),
{
    if lines.len() == 0 {
        seq![]
    } else {
        lines_text(lines.drop_last()) + lines.last() + seq![crate::util::NEWLINE]
    }
}

} // verus!
