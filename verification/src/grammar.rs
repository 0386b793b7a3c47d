//! GN's grammar as functions on a token sequence: what the parser makes of
//! the tokens from a position on, as a tree shape and the position after it,
//! or nothing where the tokens do not fit. Statements that do not fit become
//! error statements up to the end of their line.

use vstd::prelude::*;

use crate::ast::{AssignOp, BinaryOp, Span, SyntaxError, SyntaxErrorKind, UnaryOp};
use crate::lexer::{Token, TokenKind};
use crate::parser::{binary_op, decimal};
use crate::shape::{BlockShape, CallShape, ConditionShape, ElseShape, ExprShape, LValueShape, StatementShape};
use crate::util::{is_ident_byte, BACKSLASH, DOLLAR, DOT};

verus! {

/// The text, its tokens without comments, and for each token the comment
/// lines written just before it.
pub struct TokenText {
    pub src: Seq<u8>,
    pub toks: Seq<Token>,
    pub coms: Seq<Seq<Seq<u8>>>,
}

/// `if`
pub open spec fn if_word() -> Seq<u8> {
    seq![105u8, 102u8]
}

/// `else`
pub open spec fn else_word() -> Seq<u8> {
    seq![101u8, 108u8, 115u8, 101u8]
}

/// Value of the digits `d` as an integer literal (negated when
/// `negative`), when it fits in 64 bits.
pub open spec fn int_value(d: Seq<u8>, negative: bool) -> Option<i64> {
    let v = decimal(d);
    if negative {
        if v <= 0x8000_0000_0000_0000 {
            Some((-v) as i64)
        } else {
            None
        }
    } else if v <= 0x7FFF_FFFF_FFFF_FFFF {
        Some(v as i64)
    } else {
        None
    }
}

impl TokenText {
    pub open spec fn n(self) -> int {
        self.toks.len() as int
    }

    pub open spec fn kind(self, p: int) -> Option<TokenKind> {
        if 0 <= p < self.n() {
            Some(self.toks[p].kind)
        } else {
            None
        }
    }

    pub open spec fn at(self, p: int, k: TokenKind) -> bool {
        0 <= p < self.n() && self.toks[p].kind == k
    }

    /// Token `p` is the identifier `w`.
    pub open spec fn word(self, p: int, w: Seq<u8>) -> bool {
        self.at(p, TokenKind::Identifier) && self.src.subrange(self.toks[p].start as int, self.toks[p].end as int) == w
    }

    pub open spec fn tok_span(self, p: int) -> Span {
        Span { start: self.toks[p].start, end: self.toks[p].end }
    }

    /// From the start of token `a` to the end of token `b`.
    pub open spec fn span(self, a: int, b: int) -> Span {
        Span { start: self.toks[a].start, end: self.toks[b].end }
    }

    /// The end of the run of identifier bytes from `i`, not past `b`.
    pub open spec fn ident_run(self, i: int, b: int) -> int
        decreases b - i,
    {
        if i < b && 0 <= i < self.src.len() && is_ident_byte(self.src[i]) {
            self.ident_run(i + 1, b)
        } else {
            i
        }
    }

    /// The first `}` at or after `j`, or `b`.
    pub open spec fn close_brace(self, j: int, b: int) -> int
        decreases b - j,
    {
        if j < b && 0 <= j < self.src.len() && self.src[j] != 125 {
            self.close_brace(j + 1, b)
        } else {
            j
        }
    }

    /// The expansions in `[i, b)` of a string body, after those in `acc`:
    /// `$name`, `${name}` and `${scope.name}`; a backslash escapes the next
    /// byte.
    pub open spec fn expansions(self, acc: Seq<ExprShape>, i: int, b: int) -> Seq<ExprShape>
        decreases b - i,
    {
        if i >= b || i < 0 || b > self.src.len() {
            acc
        } else {
            let c = self.src[i];
            if c == BACKSLASH {
                self.expansions(acc, if b - i >= 2 { i + 2 } else { b }, b)
            } else if c == DOLLAR && i + 1 < b {
                let d = self.src[i + 1];
                if d == 123 {
                    let j = self.close_brace(i + 2, b);
                    if j >= b {
                        acc
                    } else {
                        let k = self.ident_run(i + 2, j);
                        let next = if k > i + 2 && k == j {
                            acc.push(ExprShape::Identifier(Span { start: (i + 2) as usize, end: j as usize }))
                        } else if k > i + 2 && k + 1 < j && self.src[k] == DOT && self.ident_run(k + 1, j) == j {
                            acc.push(
                                ExprShape::ScopeAccess(
                                    Span { start: (i + 2) as usize, end: k as usize },
                                    Span { start: (k + 1) as usize, end: j as usize },
                                    Span { start: (i + 2) as usize, end: j as usize },
                                ),
                            )
                        } else {
                            acc
                        };
                        if j + 1 > i {
                            self.expansions(next, j + 1, b)
                        } else {
                            next
                        }
                    }
                } else if is_ident_byte(d) && !(48 <= d && d <= 57) {
                    let k = self.ident_run(i + 1, b);
                    let next = acc.push(ExprShape::Identifier(Span { start: (i + 1) as usize, end: k as usize }));
                    self.expansions(next, if i + 1 < k && k <= b { k } else { i + 2 }, b)
                } else {
                    self.expansions(acc, i + 1, b)
                }
            } else {
                self.expansions(acc, i + 1, b)
            }
        }
    }

    /// The tokens from `pos` to the next line break or closing brace: the
    /// position after them.
    pub open spec fn line_end(self, q: int) -> int
        decreases self.n() - q,
    {
        if 0 <= q < self.n() && !self.toks[q].line_break_before && self.toks[q].kind != TokenKind::RBrace {
            self.line_end(q + 1)
        } else {
            q
        }
    }

    pub open spec fn primary(self, pos: int) -> Option<(ExprShape, int)>
        decreases self.n() - pos, 1int,
    {
        match self.kind(pos) {
            None => None,
            Some(k) => {
                let t = self.toks[pos];
                match k {
                    TokenKind::Identifier => if self.at(pos + 1, TokenKind::LParen) {
                        match self.call(pos, seq![]) {
                            Some((c, p)) => Some((ExprShape::Call(c), p)),
                            None => None,
                        }
                    } else if self.at(pos + 1, TokenKind::LBracket) {
                        match self.array_access(pos) {
                            Some((a, i, s, p)) => Some((ExprShape::ArrayAccess(a, Box::new(i), s), p)),
                            None => None,
                        }
                    } else if self.at(pos + 1, TokenKind::Dot) {
                        match self.scope_access(pos) {
                            Some((a, m, s, p)) => Some((ExprShape::ScopeAccess(a, m, s), p)),
                            None => None,
                        }
                    } else {
                        Some((ExprShape::Identifier(self.tok_span(pos)), pos + 1))
                    },
                    TokenKind::Integer => match int_value(
                        self.src.subrange(t.start as int, t.end as int),
                        false,
                    ) {
                        Some(v) => Some((ExprShape::Integer(v, self.tok_span(pos)), pos + 1)),
                        None => None,
                    },
                    TokenKind::Minus => if self.at(pos + 1, TokenKind::Integer) && self.toks[pos + 1].start == t.end {
                        let d = self.toks[pos + 1];
                        match int_value(self.src.subrange(d.start as int, d.end as int), true) {
                            Some(v) => Some((ExprShape::Integer(v, Span { start: t.start, end: d.end }), pos + 2)),
                            None => None,
                        }
                    } else {
                        None
                    },
                    TokenKind::String => Some(
                        (
                            ExprShape::String(
                                self.expansions(seq![], t.start + 1, t.end - 1),
                                self.tok_span(pos),
                            ),
                            pos + 1,
                        ),
                    ),
                    TokenKind::UnterminatedString => Some(
                        (
                            ExprShape::Error(
                                SyntaxError { kind: SyntaxErrorKind::UnterminatedString, span: self.tok_span(pos) },
                            ),
                            pos + 1,
                        ),
                    ),
                    TokenKind::LBrace => match self.block(pos) {
                        Some((b, p)) => Some((ExprShape::Block(b), p)),
                        None => None,
                    },
                    TokenKind::LParen => match self.expr(pos + 1, 1) {
                        Some((e, q)) => if self.at(q, TokenKind::RParen) {
                            Some((ExprShape::Paren(Box::new(e), self.span(pos, q)), q + 1))
                        } else {
                            None
                        },
                        None => None,
                    },
                    TokenKind::LBracket => match self.items(pos + 1, TokenKind::RBracket) {
                        Some((v, q)) => if q >= pos + 1 {
                            Some((ExprShape::List(v, self.span(pos, q)), q + 1))
                        } else {
                            None
                        },
                        None => None,
                    },
                    _ => None,
                }
            },
        }
    }

    pub open spec fn unary(self, pos: int) -> Option<(ExprShape, int)>
        decreases self.n() - pos, 3int,
    {
        if self.at(pos, TokenKind::Not) {
            match self.unary(pos + 1) {
                Some((e, p)) => Some((ExprShape::Unary(UnaryOp::Not, Box::new(e), self.span(pos, p - 1)), p)),
                None => None,
            }
        } else {
            self.primary(pos)
        }
    }

    /// An expression whose binary operators bind at least as tightly as
    /// `min_prec`.
    pub open spec fn expr(self, pos: int, min_prec: int) -> Option<(ExprShape, int)>
        decreases self.n() - pos, 4int,
    {
        match self.unary(pos) {
            Some((lhs, p)) => if pos < p <= self.n() {
                self.climb(lhs, pos, p, min_prec)
            } else {
                None
            },
            None => None,
        }
    }

    /// The binary operators that follow `lhs` (which starts at token
    /// `start` and ends before `p`), left to right.
    pub open spec fn climb(self, lhs: ExprShape, start: int, p: int, min_prec: int) -> Option<(ExprShape, int)>
        decreases self.n() - p, 4int,
    {
        match self.kind(p) {
            None => Some((lhs, p)),
            Some(k) => match binary_op(k) {
                None => Some((lhs, p)),
                Some((op, prec)) => if prec < min_prec || prec >= 6 {
                    Some((lhs, p))
                } else {
                    match self.expr(p + 1, prec + 1) {
                        Some((rhs, q)) => if p + 1 < q <= self.n() {
                            self.climb(
                                ExprShape::Binary(Box::new(lhs), op, Box::new(rhs), self.span(start, q - 1)),
                                start,
                                q,
                                min_prec,
                            )
                        } else {
                            None
                        },
                        None => None,
                    }
                },
            },
        }
    }

    /// Comma-separated expressions up to the token `closer` (not consumed),
    /// after those in `acc`.
    pub open spec fn items_from(self, acc: Seq<ExprShape>, p: int, closer: TokenKind) -> Option<(Seq<ExprShape>, int)>
        decreases self.n() - p, 5int,
    {
        match self.kind(p) {
            None => None,
            Some(k) => if k == closer {
                Some((acc, p))
            } else {
                match self.expr(p, 1) {
                    Some((e, q)) => if p < q {
                        match self.kind(q) {
                            Some(TokenKind::Comma) => self.items_from(acc.push(e), q + 1, closer),
                            Some(k2) => if k2 != closer {
                                let end = self.toks[q - 1].end;
                                self.items_from(
                                    acc.push(e).push(
                                        ExprShape::Error(
                                            SyntaxError {
                                                kind: SyntaxErrorKind::MissingComma,
                                                span: Span { start: end, end },
                                            },
                                        ),
                                    ),
                                    q,
                                    closer,
                                )
                            } else {
                                self.items_from(acc.push(e), q, closer)
                            },
                            None => None,
                        }
                    } else {
                        None
                    },
                    None => None,
                }
            },
        }
    }

    pub open spec fn items(self, pos: int, closer: TokenKind) -> Option<(Seq<ExprShape>, int)>
        decreases self.n() - pos, 6int,
    {
        self.items_from(seq![], pos, closer)
    }

    /// A call at `pos` with the comments `comments`.
    pub open spec fn call(self, pos: int, comments: Seq<Seq<u8>>) -> Option<(CallShape, int)>
        decreases self.n() - pos, 0int,
    {
        if !self.at(pos, TokenKind::Identifier) || !self.at(pos + 1, TokenKind::LParen) {
            None
        } else {
            match self.items(pos + 2, TokenKind::RParen) {
                Some((args, q)) => if q >= pos + 2 {
                    if self.at(q + 1, TokenKind::LBrace) {
                        match self.block(q + 1) {
                            Some((b, p)) => Some(
                                (
                                    CallShape {
                                        function: self.tok_span(pos),
                                        args,
                                        block: Some(b),
                                        comments,
                                        span: self.span(pos, p - 1),
                                    },
                                    p,
                                ),
                            ),
                            None => None,
                        }
                    } else {
                        Some(
                            (
                                CallShape {
                                    function: self.tok_span(pos),
                                    args,
                                    block: None,
                                    comments,
                                    span: self.span(pos, q),
                                },
                                q + 1,
                            ),
                        )
                    }
                } else {
                    None
                },
                None => None,
            }
        }
    }

    /// `a[i]` at `pos`: the array's span, the index, the whole span, and the
    /// position after.
    pub open spec fn array_access(self, pos: int) -> Option<(Span, ExprShape, Span, int)>
        decreases self.n() - pos, 0int,
    {
        if !self.at(pos, TokenKind::Identifier) || !self.at(pos + 1, TokenKind::LBracket) {
            None
        } else {
            match self.expr(pos + 2, 1) {
                Some((index, q)) => if self.at(q, TokenKind::RBracket) {
                    Some((self.tok_span(pos), index, self.span(pos, q), q + 1))
                } else {
                    None
                },
                None => None,
            }
        }
    }

    /// `a.b` at `pos`: the scope's span, the member's, the whole span, and
    /// the position after.
    pub open spec fn scope_access(self, pos: int) -> Option<(Span, Span, Span, int)> {
        if !self.at(pos, TokenKind::Identifier) || !self.at(pos + 1, TokenKind::Dot) || !self.at(
            pos + 2,
            TokenKind::Identifier,
        ) {
            None
        } else {
            Some((self.tok_span(pos), self.tok_span(pos + 2), self.span(pos, pos + 2), pos + 3))
        }
    }

    pub open spec fn block(self, pos: int) -> Option<(BlockShape, int)>
        decreases self.n() - pos, 0int,
    {
        if !self.at(pos, TokenKind::LBrace) {
            None
        } else {
            match self.statements(pos + 1, true) {
                Some((sts, q)) => if q >= pos + 1 {
                    Some((BlockShape { statements: sts, span: self.span(pos, q) }, q + 1))
                } else {
                    None
                },
                None => None,
            }
        }
    }

    /// Statements from `p`, after those in `acc`, until the end of the
    /// tokens or, in a block, a closing brace (not consumed).
    pub open spec fn statements_from(self, acc: Seq<StatementShape>, p: int, in_block: bool) -> Option<
        (Seq<StatementShape>, int),
    >
        decreases self.n() - p, 8int,
    {
        match self.kind(p) {
            None => if in_block {
                None
            } else {
                Some((acc, p))
            },
            Some(k) => if k == TokenKind::RBrace {
                if in_block {
                    Some((acc, p))
                } else {
                    self.statements_from(
                        acc.push(
                            StatementShape::Error(
                                SyntaxError { kind: SyntaxErrorKind::UnmatchedBrace, span: self.span(p, p) },
                            ),
                        ),
                        p + 1,
                        in_block,
                    )
                }
            } else {
                match self.statement(p) {
                    Some((st, q)) => if p < q <= self.n() {
                        self.statements_from(acc.push(st), q, in_block)
                    } else {
                        None
                    },
                    None => {
                        let q = self.line_end(p + 1);
                        if p < q <= self.n() {
                            self.statements_from(
                                acc.push(
                                    StatementShape::Error(
                                        SyntaxError {
                                            kind: SyntaxErrorKind::UnknownStatement,
                                            span: self.span(p, q - 1),
                                        },
                                    ),
                                ),
                                q,
                                in_block,
                            )
                        } else {
                            None
                        }
                    },
                }
            },
        }
    }

    pub open spec fn statements(self, pos: int, in_block: bool) -> Option<(Seq<StatementShape>, int)>
        decreases self.n() - pos, 9int,
    {
        self.statements_from(seq![], pos, in_block)
    }

    pub open spec fn lvalue(self, pos: int) -> Option<(LValueShape, int)>
        decreases self.n() - pos, 1int,
    {
        if !self.at(pos, TokenKind::Identifier) {
            None
        } else if self.at(pos + 1, TokenKind::LBracket) {
            match self.array_access(pos) {
                Some((a, i, s, p)) => Some((LValueShape::ArrayAccess(a, i, s), p)),
                None => None,
            }
        } else if self.at(pos + 1, TokenKind::Dot) {
            match self.scope_access(pos) {
                Some((a, m, s, p)) => Some((LValueShape::ScopeAccess(a, m, s), p)),
                None => None,
            }
        } else {
            Some((LValueShape::Identifier(self.tok_span(pos)), pos + 1))
        }
    }

    pub open spec fn statement(self, pos: int) -> Option<(StatementShape, int)>
        decreases self.n() - pos, 7int,
    {
        if !self.at(pos, TokenKind::Identifier) {
            None
        } else if self.word(pos, if_word()) {
            match self.condition(pos) {
                Some((c, p)) => Some((StatementShape::Condition(c), p)),
                None => None,
            }
        } else if self.at(pos + 1, TokenKind::LParen) {
            match self.call(pos, self.coms[pos]) {
                Some((c, p)) => Some((StatementShape::Call(c), p)),
                None => None,
            }
        } else {
            match self.lvalue(pos) {
                Some((l, p)) => {
                    let op = match self.kind(p) {
                        Some(TokenKind::Assign) => Some(AssignOp::Assign),
                        Some(TokenKind::AddAssign) => Some(AssignOp::AddAssign),
                        Some(TokenKind::SubAssign) => Some(AssignOp::SubAssign),
                        _ => None,
                    };
                    match op {
                        Some(op) => if pos < p {
                            match self.expr(p + 1, 1) {
                                Some((r, q)) => Some(
                                    (
                                        StatementShape::Assignment(l, op, r, self.coms[pos], self.span(pos, q - 1)),
                                        q,
                                    ),
                                ),
                                None => None,
                            }
                        } else {
                            None
                        },
                        None => None,
                    }
                },
                None => None,
            }
        }
    }

    pub open spec fn condition(self, pos: int) -> Option<(ConditionShape, int)>
        decreases self.n() - pos, 0int,
    {
        if !self.word(pos, if_word()) || !self.at(pos + 1, TokenKind::LParen) {
            None
        } else {
            match self.expr(pos + 2, 1) {
                Some((cond, q)) => if self.at(q, TokenKind::RParen) && q >= pos + 2 {
                    match self.block(q + 1) {
                        Some((then_block, r)) => if r > q + 1 {
                            let rest: Option<(Option<ElseShape>, int)> = if self.word(r, else_word()) {
                                if self.word(r + 1, if_word()) {
                                    match self.condition(r + 1) {
                                        Some((c, p)) => Some((Some(ElseShape::Condition(Box::new(c))), p)),
                                        None => None,
                                    }
                                } else {
                                    match self.block(r + 1) {
                                        Some((b, p)) => Some((Some(ElseShape::Block(b)), p)),
                                        None => None,
                                    }
                                }
                            } else {
                                Some((None, r))
                            };
                            match rest {
                                Some((else_block, end)) => Some(
                                    (
                                        ConditionShape {
                                            condition: cond,
                                            then_block,
                                            else_block,
                                            span: self.span(pos, end - 1),
                                        },
                                        end,
                                    ),
                                ),
                                None => None,
                            }
                        } else {
                            None
                        },
                        None => None,
                    }
                } else {
                    None
                },
                None => None,
            }
        }
    }

    /// The whole file.
    pub open spec fn file(self) -> BlockShape {
        BlockShape {
            statements: match self.statements(0, false) {
                Some((v, _)) => v,
                None => seq![],
            },
            span: Span { start: 0, end: self.src.len() as usize },
        }
    }
}

} // verus!
