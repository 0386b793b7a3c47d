//! Pre-order traversal of the syntax tree, collecting identifiers, string
//! literals and syntax errors in the order they appear.

use vstd::prelude::*;

use crate::ast::{
    derefs, ArrayAccess, Block, Call, Condition, ElseBlock, Expr, Identifier, LValue, PrimaryExpr,
    ScopeAccess, Statement, StringLiteral, SyntaxError,
};

verus! {

/// What a traversal collects: identifiers, strings, and errors, each in pre-order.
pub type Found = (Seq<Identifier>, Seq<StringLiteral>, Seq<SyntaxError>);

pub open spec fn none() -> Found {
    (seq![], seq![], seq![])
}

pub open spec fn cat(a: Found, b: Found) -> Found {
    (a.0 + b.0, a.1 + b.1, a.2 + b.2)
}

pub open spec fn ident_found(i: Identifier) -> Found {
    (seq![i], seq![], seq![])
}

pub open spec fn error_found(e: SyntaxError) -> Found {
    (seq![], seq![], seq![e])
}

pub open spec fn found_in_statement(s: Statement) -> Found
    decreases s,
{
    match s {
        Statement::Assignment(a) => cat(found_in_lvalue(a.lvalue), found_in_expr(*a.rvalue)),
        Statement::Call(c) => found_in_call(*c),
        Statement::Condition(c) => found_in_condition(*c),
        Statement::Error(e) => error_found(e.error),
    }
}

pub open spec fn found_in_lvalue(l: LValue) -> Found
    decreases l,
{
    match l {
        LValue::Identifier(i) => ident_found(*i),
        LValue::ArrayAccess(a) => found_in_array_access(*a),
        LValue::ScopeAccess(s) => found_in_scope_access(*s),
    }
}

pub open spec fn found_in_array_access(a: ArrayAccess) -> Found
    decreases a,
{
    cat(ident_found(a.array), found_in_expr(*a.index))
}

pub open spec fn found_in_scope_access(s: ScopeAccess) -> Found {
    cat(ident_found(s.scope), ident_found(s.member))
}

pub open spec fn found_in_call(c: Call) -> Found
    decreases c,
{
    cat(
        cat(ident_found(c.function), found_in_exprs(c.args@)),
        found_in_opt_block(c.block),
    )
}

pub open spec fn found_in_opt_block(b: Option<Block>) -> Found
    decreases b,
{
    match b {
        Some(b) => found_in_block(b),
        None => none(),
    }
}

pub open spec fn found_in_condition(c: Condition) -> Found
    decreases c,
{
    cat(
        cat(found_in_expr(*c.condition), found_in_block(c.then_block)),
        found_in_else(c.else_block),
    )
}

pub open spec fn found_in_else(e: Option<ElseBlock>) -> Found
    decreases e,
{
    match e {
        Some(ElseBlock::Condition(n)) => found_in_condition(*n),
        Some(ElseBlock::Block(b)) => found_in_block(*b),
        None => none(),
    }
}

pub open spec fn found_in_block(b: Block) -> Found
    decreases b,
{
    found_in_statements(b.statements@)
}

pub open spec fn found_in_statements(s: Seq<Statement>) -> Found
    decreases s,
{
    if s.len() == 0 {
        none()
    } else {
        cat(found_in_statements(s.drop_last()), found_in_statement(s.last()))
    }
}

pub open spec fn found_in_exprs(s: Seq<Expr>) -> Found
    decreases s,
{
    if s.len() == 0 {
        none()
    } else {
        cat(found_in_exprs(s.drop_last()), found_in_expr(s.last()))
    }
}

pub open spec fn found_in_expr(e: Expr) -> Found
    decreases e,
{
    match e {
        Expr::Primary(p) => found_in_primary(*p),
        Expr::Unary(u) => found_in_expr(*u.expr),
        Expr::Binary(b) => cat(found_in_expr(*b.lhs), found_in_expr(*b.rhs)),
    }
}

pub open spec fn found_in_string(s: StringLiteral) -> Found
    decreases s,
{
    cat((seq![], seq![s], seq![]), found_in_exprs(s.embedded_exprs@))
}

pub open spec fn found_in_primary(p: PrimaryExpr) -> Found
    decreases p,
{
    match p {
        PrimaryExpr::Identifier(i) => ident_found(*i),
        PrimaryExpr::Integer(_) => none(),
        PrimaryExpr::String(s) => found_in_string(*s),
        PrimaryExpr::Call(c) => found_in_call(*c),
        PrimaryExpr::ArrayAccess(a) => found_in_array_access(*a),
        PrimaryExpr::ScopeAccess(s) => found_in_scope_access(*s),
        PrimaryExpr::Block(b) => found_in_block(*b),
        PrimaryExpr::ParenExpr(x) => found_in_expr(*x.expr),
        PrimaryExpr::List(l) => found_in_exprs(l.values@),
        PrimaryExpr::Error(e) => error_found(*e),
    }
}

/// Accumulates what a traversal finds.
pub struct Collector<'a> {
    pub identifiers: Vec<&'a Identifier>,
    pub strings: Vec<&'a StringLiteral>,
    pub errors: Vec<SyntaxError>,
}

impl<'a> Collector<'a> {
    pub open spec fn found(self) -> Found {
        (derefs(self.identifiers@), derefs(self.strings@), self.errors@)
    }

    pub fn new() -> (r: Collector<'a>)
        ensures
            r.found() == none(),
    {
        let r = Collector { identifiers: Vec::new(), strings: Vec::new(), errors: Vec::new() };
        assert(r.found().0 =~= seq![]);
        assert(r.found().1 =~= seq![]);
        r
    }

    fn add_identifier(&mut self, i: &'a Identifier)
        ensures
            final(self).found() == cat(old(self).found(), ident_found(*i)),
    {
        self.identifiers.push(i);
        assert(final(self).found().0 =~= old(self).found().0 + seq![*i]);
        assert(final(self).found().1 =~= old(self).found().1 + seq![]);
        assert(final(self).found().2 =~= old(self).found().2 + seq![]);
    }

    fn add_error(&mut self, e: SyntaxError)
        ensures
            final(self).found() == cat(old(self).found(), error_found(e)),
    {
        self.errors.push(e);
        assert(final(self).found().0 =~= old(self).found().0 + seq![]);
        assert(final(self).found().1 =~= old(self).found().1 + seq![]);
        assert(final(self).found().2 =~= old(self).found().2 + seq![e]);
    }

    pub fn visit_statement(&mut self, s: &'a Statement)
        ensures
            final(self).found() == cat(old(self).found(), found_in_statement(*s)),
        decreases s,
    {
        match s {
            Statement::Assignment(a) => {
                let ghost f0 = self.found();
                self.visit_lvalue(&a.lvalue);
                self.visit_expr(&a.rvalue);
                proof {
                    lemma_cat_assoc(f0, found_in_lvalue(a.lvalue), found_in_expr(*a.rvalue));
                }
            },
            Statement::Call(c) => self.visit_call(c),
            Statement::Condition(c) => self.visit_condition(c),
            Statement::Error(e) => self.add_error(e.error),
        }
    }

    fn visit_lvalue(&mut self, l: &'a LValue)
        ensures
            final(self).found() == cat(old(self).found(), found_in_lvalue(*l)),
        decreases l,
    {
        match l {
            LValue::Identifier(i) => self.add_identifier(i),
            LValue::ArrayAccess(a) => self.visit_array_access(a),
            LValue::ScopeAccess(s) => self.visit_scope_access(s),
        }
    }

    fn visit_array_access(&mut self, a: &'a ArrayAccess)
        ensures
            final(self).found() == cat(old(self).found(), found_in_array_access(*a)),
        decreases a,
    {
        let ghost f0 = self.found();
        self.add_identifier(&a.array);
        self.visit_expr(&a.index);
        proof {
            lemma_cat_assoc(f0, ident_found(a.array), found_in_expr(*a.index));
        }
    }

    fn visit_scope_access(&mut self, s: &'a ScopeAccess)
        ensures
            final(self).found() == cat(old(self).found(), found_in_scope_access(*s)),
    {
        let ghost f0 = self.found();
        self.add_identifier(&s.scope);
        self.add_identifier(&s.member);
        proof {
            lemma_cat_assoc(f0, ident_found(s.scope), ident_found(s.member));
        }
    }

    pub fn visit_call(&mut self, c: &'a Call)
        ensures
            final(self).found() == cat(old(self).found(), found_in_call(*c)),
        decreases c,
    {
        let ghost f0 = self.found();
        self.add_identifier(&c.function);
        self.visit_exprs(&c.args);
        proof {
            lemma_cat_assoc(f0, ident_found(c.function), found_in_exprs(c.args@));
        }
        let ghost f1 = self.found();
        match &c.block {
            Some(b) => self.visit_block(b),
            None => {
                proof {
                    lemma_cat_none(f1);
                }
            },
        }
        proof {
            lemma_cat_assoc(
                f0,
                cat(ident_found(c.function), found_in_exprs(c.args@)),
                found_in_opt_block(c.block),
            );
        }
    }

    fn visit_condition(&mut self, c: &'a Condition)
        ensures
            final(self).found() == cat(old(self).found(), found_in_condition(*c)),
        decreases c,
    {
        let ghost f0 = self.found();
        self.visit_expr(&c.condition);
        self.visit_block(&c.then_block);
        proof {
            lemma_cat_assoc(f0, found_in_expr(*c.condition), found_in_block(c.then_block));
        }
        let ghost f1 = self.found();
        match &c.else_block {
            Some(ElseBlock::Condition(n)) => self.visit_condition(n),
            Some(ElseBlock::Block(b)) => self.visit_block(b),
            None => {
                proof {
                    lemma_cat_none(f1);
                }
            },
        }
        proof {
            lemma_cat_assoc(
                f0,
                cat(found_in_expr(*c.condition), found_in_block(c.then_block)),
                found_in_else(c.else_block),
            );
        }
    }

    pub fn visit_block(&mut self, b: &'a Block)
        ensures
            final(self).found() == cat(old(self).found(), found_in_block(*b)),
        decreases b,
    {
        let ghost f0 = self.found();
        let mut k: usize = 0;
        proof {
            lemma_cat_none(f0);
            assert(b.statements@.take(0) =~= Seq::<Statement>::empty());
        }
        while k < b.statements.len()
            invariant
                k <= b.statements@.len(),
                self.found() == cat(f0, found_in_statements(b.statements@.take(k as int))),
            decreases b.statements.len() - k,
        {
            let ghost f1 = self.found();
            assert(b.statements@.take(k + 1).drop_last() == b.statements@.take(k as int));
            self.visit_statement(&b.statements[k]);
            proof {
                lemma_cat_assoc(
                    f0,
                    found_in_statements(b.statements@.take(k as int)),
                    found_in_statement(b.statements@[k as int]),
                );
            }
            k += 1;
        }
        assert(b.statements@.take(b.statements.len() as int) == b.statements@);
    }

    fn visit_exprs(&mut self, es: &'a Vec<Expr>)
        ensures
            final(self).found() == cat(old(self).found(), found_in_exprs(es@)),
        decreases es,
    {
        let ghost f0 = self.found();
        let mut k: usize = 0;
        proof {
            lemma_cat_none(f0);
            assert(es@.take(0) =~= Seq::<Expr>::empty());
        }
        while k < es.len()
            invariant
                k <= es@.len(),
                self.found() == cat(f0, found_in_exprs(es@.take(k as int))),
            decreases es.len() - k,
        {
            assert(es@.take(k + 1).drop_last() == es@.take(k as int));
            self.visit_expr(&es[k]);
            proof {
                lemma_cat_assoc(f0, found_in_exprs(es@.take(k as int)), found_in_expr(es@[k as int]));
            }
            k += 1;
        }
        assert(es@.take(es.len() as int) == es@);
    }

    pub fn visit_expr(&mut self, e: &'a Expr)
        ensures
            final(self).found() == cat(old(self).found(), found_in_expr(*e)),
        decreases e,
    {
        match e {
            Expr::Primary(p) => self.visit_primary(p),
            Expr::Unary(u) => self.visit_expr(&u.expr),
            Expr::Binary(b) => {
                let ghost f0 = self.found();
                self.visit_expr(&b.lhs);
                self.visit_expr(&b.rhs);
                proof {
                    lemma_cat_assoc(f0, found_in_expr(*b.lhs), found_in_expr(*b.rhs));
                }
            },
        }
    }

    fn visit_string(&mut self, s: &'a StringLiteral)
        ensures
            final(self).found() == cat(old(self).found(), found_in_string(*s)),
        decreases s,
    {
        let ghost f0 = self.found();
        self.strings.push(s);
        assert(self.found() == cat(f0, (seq![], seq![*s], seq![]))) by {
            assert(self.found().0 =~= f0.0 + seq![]);
            assert(self.found().1 =~= f0.1 + seq![*s]);
            assert(self.found().2 =~= f0.2 + seq![]);
        }
        self.visit_exprs(&s.embedded_exprs);
        proof {
            lemma_cat_assoc(f0, (seq![], seq![*s], seq![]), found_in_exprs(s.embedded_exprs@));
        }
    }

    fn visit_primary(&mut self, p: &'a PrimaryExpr)
        ensures
            final(self).found() == cat(old(self).found(), found_in_primary(*p)),
        decreases p,
    {
        match p {
            PrimaryExpr::Identifier(i) => self.add_identifier(i),
            PrimaryExpr::Integer(_) => {
                proof {
                    lemma_cat_none(self.found());
                }
            },
            PrimaryExpr::String(s) => self.visit_string(s),
            PrimaryExpr::Call(c) => self.visit_call(c),
            PrimaryExpr::ArrayAccess(a) => self.visit_array_access(a),
            PrimaryExpr::ScopeAccess(s) => self.visit_scope_access(s),
            PrimaryExpr::Block(b) => self.visit_block(b),
            PrimaryExpr::ParenExpr(x) => self.visit_expr(&x.expr),
            PrimaryExpr::List(l) => self.visit_exprs(&l.values),
            PrimaryExpr::Error(e) => self.add_error(**e),
        }
    }
}

pub proof fn lemma_cat_assoc(a: Found, b: Found, c: Found)
    ensures
        cat(cat(a, b), c) == cat(a, cat(b, c)),
{
    assert(cat(cat(a, b), c).0 =~= cat(a, cat(b, c)).0);
    assert(cat(cat(a, b), c).1 =~= cat(a, cat(b, c)).1);
    assert(cat(cat(a, b), c).2 =~= cat(a, cat(b, c)).2);
}

pub proof fn lemma_cat_none(a: Found)
    ensures
        cat(a, none()) == a,
        cat(none(), a) == a,
{
    assert(cat(a, none()).0 =~= a.0);
    assert(cat(a, none()).1 =~= a.1);
    assert(cat(a, none()).2 =~= a.2);
    assert(cat(none(), a).0 =~= a.0);
    assert(cat(none(), a).1 =~= a.1);
    assert(cat(none(), a).2 =~= a.2);
}

impl Block {
    /// Identifiers of the tree, in pre-order.
    pub fn identifiers(&self) -> (r: Vec<&Identifier>)
        ensures
            derefs(r@) == found_in_block(*self).0,
    {
        let mut c = Collector::new();
        c.visit_block(self);
        proof {
            lemma_cat_none(found_in_block(*self));
        }
        c.identifiers
    }

    /// String literals of the tree, in pre-order.
    pub fn strings(&self) -> (r: Vec<&StringLiteral>)
        ensures
            derefs(r@) == found_in_block(*self).1,
    {
        let mut c = Collector::new();
        c.visit_block(self);
        proof {
            lemma_cat_none(found_in_block(*self));
        }
        c.strings
    }

    /// Syntax errors of the tree, in pre-order.
    pub fn errors(&self) -> (r: Vec<SyntaxError>)
        ensures
            r@ == found_in_block(*self).2,
    {
        let mut c = Collector::new();
        c.visit_block(self);
        proof {
            lemma_cat_none(found_in_block(*self));
        }
        c.errors
    }
}

} // verus!
