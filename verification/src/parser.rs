//! The recursive-descent parser: consumes the token sequence and builds the
//! statement and expression tree of a fixed precedence grammar, reporting
//! syntax errors and recovering at statement boundaries.
use vstd::prelude::*;

use crate::interpreter::Expr;
use crate::interpreter::ExprM;
use crate::interpreter::Stmt;
use crate::interpreter::stmts_view;
use crate::interpreter::StmtM;
use crate::lox::render_error_at;
use crate::lox::sink_after;
use crate::lox::Lox;
use crate::scanner::eof_tok;
use crate::scanner::toks_wf;
use crate::token::toks_view;
use crate::token::LitM;
use crate::token::Literal;
use crate::token::Token;
use crate::token::TokenM;
use crate::token::TokenType;

verus! {

/// The distinguished value a failed sub-parse returns, so that recovery
/// stays local: the error itself has already been reported to the sink.
#[derive(Debug, Clone, Copy)]
pub struct ParseError {}

/// How many tokens remain from a position.
pub open spec fn rem(toks: Seq<TokenM>, pos: int) -> nat {
    if 0 <= pos <= toks.len() {
        (toks.len() - pos) as nat
    } else {
        0
    }
}

/// The rank of one precedence level, for termination measures.
pub open spec fn lrank(level: int) -> nat {
    if level <= 0 {
        2
    } else if level == 1 {
        4
    } else if level == 2 {
        6
    } else if level == 3 {
        8
    } else {
        10
    }
}

/// Whether a position is at (or past) the end-of-input token.
pub open spec fn at_end_at(toks: Seq<TokenM>, pos: int) -> bool {
    !(0 <= pos < toks.len()) || toks[pos].kind == TokenType::Eof
}

/// The token at a position (end-of-input out of range; unreachable for
/// well-formed sequences).
pub open spec fn tok_at(toks: Seq<TokenM>, pos: int) -> TokenM {
    if 0 <= pos < toks.len() {
        toks[pos]
    } else {
        eof_tok(0)
    }
}

/// The operators of one binary-precedence level, low to high: equality (3),
/// comparison (2), term (1), factor (0).
pub open spec fn level_matches(kind: TokenType, level: int) -> bool {
    if level == 0 {
        kind == TokenType::Slash || kind == TokenType::Star
    } else if level == 1 {
        kind == TokenType::Minus || kind == TokenType::Plus
    } else if level == 2 {
        kind == TokenType::Greater || kind == TokenType::GreaterEqual || kind == TokenType::Less
            || kind == TokenType::LessEqual
    } else {
        kind == TokenType::BangEqual || kind == TokenType::EqualEqual
    }
}

/// The literal expression a number or string token parses to.
pub open spec fn lit_expr(t: TokenM) -> ExprM {
    match t.literal {
        Some(l) => ExprM::Literal(l),
        None => ExprM::Literal(LitM::Nil),
    }
}

/// The outcome of parsing one expression: the tree (`None` on a parse
/// error), the position after it, and the syntax errors reported.
pub struct PExpr {
    pub r: Option<ExprM>,
    pub pos: int,
    pub diags: Seq<Seq<char>>,
}

/// The outcome of parsing one statement.
pub struct PStmt {
    pub r: Option<StmtM>,
    pub pos: int,
    pub diags: Seq<Seq<char>>,
}

/// The outcome of parsing a whole program: the statements that parsed and
/// every syntax error reported along the way.
pub struct PProg {
    pub stmts: Seq<StmtM>,
    pub diags: Seq<Seq<char>>,
}

/// `primary → NUMBER | STRING | "true" | "false" | "nil" | "(" expression ")"`.
/// Any other token reports "Expect expression." and fails without consuming
/// input; a grouping missing its `)` reports "Expect ')' after expression."
/// but still yields the grouped expression.
pub open spec fn spec_primary(toks: Seq<TokenM>, pos: int) -> PExpr
    decreases rem(toks, pos), 0nat,
{
    if !(0 <= pos < toks.len()) {
        PExpr { r: None, pos, diags: Seq::empty() }
    } else {
        let t = toks[pos];
        if t.kind == TokenType::False {
            PExpr { r: Some(ExprM::Literal(LitM::Bool(false))), pos: pos + 1, diags: Seq::empty() }
        } else if t.kind == TokenType::True {
            PExpr { r: Some(ExprM::Literal(LitM::Bool(true))), pos: pos + 1, diags: Seq::empty() }
        } else if t.kind == TokenType::Nil {
            PExpr { r: Some(ExprM::Literal(LitM::Nil)), pos: pos + 1, diags: Seq::empty() }
        } else if t.kind == TokenType::Number || t.kind == TokenType::String {
            PExpr { r: Some(lit_expr(t)), pos: pos + 1, diags: Seq::empty() }
        } else if t.kind == TokenType::LeftParen {
            let e = spec_expression(toks, pos + 1);
            match e.r {
                None => PExpr { r: None, pos: e.pos, diags: e.diags },
                Some(inner) => {
                    if 0 <= e.pos < toks.len() && toks[e.pos].kind == TokenType::RightParen {
                        PExpr {
                            r: Some(ExprM::Grouping(Box::new(inner))),
                            pos: e.pos + 1,
                            diags: e.diags,
                        }
                    } else {
                        PExpr {
                            r: Some(ExprM::Grouping(Box::new(inner))),
                            pos: e.pos,
                            diags: e.diags.push(
                                render_error_at(tok_at(toks, e.pos), "Expect ')' after expression."@),
                            ),
                        }
                    }
                },
            }
        } else {
            PExpr { r: None, pos, diags: seq![render_error_at(t, "Expect expression."@)] }
        }
    }
}

/// `unary → ( "!" | "-" ) unary | primary`, right-associative by direct
/// recursion.
pub open spec fn spec_unary(toks: Seq<TokenM>, pos: int) -> PExpr
    decreases rem(toks, pos), 1nat,
{
    if 0 <= pos < toks.len() && (toks[pos].kind == TokenType::Bang || toks[pos].kind
        == TokenType::Minus) {
        let op = toks[pos];
        let r = spec_unary(toks, pos + 1);
        match r.r {
            None => r,
            Some(right) => PExpr {
                r: Some(ExprM::Unary { operator: op, right: Box::new(right) }),
                pos: r.pos,
                diags: r.diags,
            },
        }
    } else {
        spec_primary(toks, pos)
    }
}

/// One left-associative binary-operator level: one operand at the next
/// higher level, then folding further operands around each matching
/// operator.
pub open spec fn spec_binop(toks: Seq<TokenM>, pos: int, level: int) -> PExpr
    decreases rem(toks, pos), lrank(level),
{
    if level > 3 {
        spec_binop(toks, pos, 3)
    } else {
        let first = if level <= 0 {
            spec_unary(toks, pos)
        } else {
            spec_binop(toks, pos, level - 1)
        };
        match first.r {
            None => first,
            Some(e) => {
                // The bound guards the termination measure; a successful
                // sub-parse always consumes at least one token, so the other
                // arm is never taken for an in-range position.
                if 0 <= pos && pos < first.pos <= toks.len() {
                    let t = spec_binop_tail(toks, first.pos, level, e);
                    PExpr { r: t.r, pos: t.pos, diags: first.diags + t.diags }
                } else {
                    first
                }
            },
        }
    }
}

/// The fold of one binary level around an already-parsed left operand.
pub open spec fn spec_binop_tail(toks: Seq<TokenM>, pos: int, level: int, acc: ExprM) -> PExpr
    decreases rem(toks, pos), lrank(level) + 1,
{
    if 0 <= pos < toks.len() && level_matches(toks[pos].kind, level) {
        let op = toks[pos];
        let right = if level <= 0 {
            spec_unary(toks, pos + 1)
        } else {
            spec_binop(toks, pos + 1, level - 1)
        };
        match right.r {
            None => PExpr { r: None, pos: right.pos, diags: right.diags },
            Some(re) => {
                let combined = ExprM::Binary {
                    left: Box::new(acc),
                    operator: op,
                    right: Box::new(re),
                };
                if pos + 1 <= right.pos <= toks.len() {
                    let t = spec_binop_tail(toks, right.pos, level, combined);
                    PExpr { r: t.r, pos: t.pos, diags: right.diags + t.diags }
                } else {
                    PExpr { r: Some(combined), pos: right.pos, diags: right.diags }
                }
            },
        }
    } else {
        PExpr { r: Some(acc), pos, diags: Seq::empty() }
    }
}

/// `expression → equality`.
pub open spec fn spec_expression(toks: Seq<TokenM>, pos: int) -> PExpr
    decreases rem(toks, pos), 12nat,
{
    spec_binop(toks, pos, 3)
}

/// A statement: `print` expression `;`, or an expression `;`; a missing
/// semicolon is a hard syntax error.
pub open spec fn spec_statement(toks: Seq<TokenM>, pos: int) -> PStmt
    decreases rem(toks, pos), 14nat,
{
    if 0 <= pos < toks.len() && toks[pos].kind == TokenType::Print {
        let e = spec_expression(toks, pos + 1);
        match e.r {
            None => PStmt { r: None, pos: e.pos, diags: e.diags },
            Some(ex) => {
                if 0 <= e.pos < toks.len() && toks[e.pos].kind == TokenType::Semicolon {
                    PStmt { r: Some(StmtM::Print(ex)), pos: e.pos + 1, diags: e.diags }
                } else {
                    PStmt {
                        r: None,
                        pos: e.pos,
                        diags: e.diags.push(
                            render_error_at(tok_at(toks, e.pos), "Expect ';' after value."@),
                        ),
                    }
                }
            },
        }
    } else {
        let e = spec_expression(toks, pos);
        match e.r {
            None => PStmt { r: None, pos: e.pos, diags: e.diags },
            Some(ex) => {
                if 0 <= e.pos < toks.len() && toks[e.pos].kind == TokenType::Semicolon {
                    PStmt { r: Some(StmtM::Expression(ex)), pos: e.pos + 1, diags: e.diags }
                } else {
                    PStmt {
                        r: None,
                        pos: e.pos,
                        diags: e.diags.push(
                            render_error_at(tok_at(toks, e.pos), "Expect ';' after expression."@),
                        ),
                    }
                }
            },
        }
    }
}

/// The keywords that begin a new statement, where recovery may resume.
pub open spec fn is_sync_kind(k: TokenType) -> bool {
    k == TokenType::Class || k == TokenType::Fun || k == TokenType::Var || k == TokenType::For || k
        == TokenType::If || k == TokenType::While || k == TokenType::Print || k
        == TokenType::Return
}

pub open spec fn spec_sync_loop(toks: Seq<TokenM>, pos: int) -> int
    decreases rem(toks, pos), 0nat,
{
    if !(0 <= pos < toks.len()) {
        pos
    } else if toks[pos].kind == TokenType::Eof {
        pos
    } else if pos >= 1 && toks[pos - 1].kind == TokenType::Semicolon {
        pos
    } else if is_sync_kind(toks[pos].kind) {
        pos
    } else {
        spec_sync_loop(toks, pos + 1)
    }
}

/// Error recovery: discard tokens until just past a semicolon or at a
/// keyword that begins a statement.
pub open spec fn spec_sync(toks: Seq<TokenM>, pos: int) -> int {
    if at_end_at(toks, pos) {
        pos
    } else {
        spec_sync_loop(toks, pos + 1)
    }
}

pub proof fn lemma_sync_loop_bounds(toks: Seq<TokenM>, pos: int)
    requires
        0 <= pos <= toks.len(),
    ensures
        pos <= spec_sync_loop(toks, pos) <= toks.len(),
    decreases rem(toks, pos),
{
    if 0 <= pos < toks.len() && toks[pos].kind != TokenType::Eof && !(pos >= 1 && toks[pos
        - 1].kind == TokenType::Semicolon) && !is_sync_kind(toks[pos].kind) {
        lemma_sync_loop_bounds(toks, pos + 1);
    }
}

/// A program: statements until end of input; a failed statement is
/// recovered from at the next statement boundary, so each malformed
/// statement reports its errors and parsing continues.
pub open spec fn spec_program(toks: Seq<TokenM>, pos: int) -> PProg
    decreases rem(toks, pos), 16nat,
{
    if at_end_at(toks, pos) {
        PProg { stmts: Seq::empty(), diags: Seq::empty() }
    } else {
        let s = spec_statement(toks, pos);
        match s.r {
            Some(st) => {
                if pos < s.pos <= toks.len() {
                    let rest = spec_program(toks, s.pos);
                    PProg { stmts: seq![st] + rest.stmts, diags: s.diags + rest.diags }
                } else {
                    PProg { stmts: seq![st], diags: s.diags }
                }
            },
            None => {
                let sp = spec_sync(toks, s.pos);
                if pos < sp <= toks.len() {
                    let rest = spec_program(toks, sp);
                    PProg { stmts: rest.stmts, diags: s.diags + rest.diags }
                } else {
                    PProg { stmts: Seq::empty(), diags: s.diags }
                }
            },
        }
    }
}

/// The parser: the token sequence it owns and a cursor into it.
pub struct Parser {
    pub tokens: Vec<Token>,
    pub current: usize,
}

impl Parser {
    /// Well-formed: the tokens end in end-of-input, literal tokens carry
    /// their values, and the cursor is in range.
    pub open spec fn wf(self) -> bool {
        &&& toks_wf(toks_view(self.tokens@))
        &&& self.current < self.tokens@.len()
    }

    pub open spec fn toks(self) -> Seq<TokenM> {
        toks_view(self.tokens@)
    }

    pub fn new(tokens: Vec<Token>) -> (p: Parser)
        requires
            toks_wf(toks_view(tokens@)),
        ensures
            p.wf(),
            p.tokens == tokens,
            p.current == 0,
    {
        Parser { tokens, current: 0 }
    }

    fn peek(&self) -> (t: &Token)
        requires
            self.wf(),
        ensures
            t@ == self.toks()[self.current as int],
    {
        let t = &self.tokens[self.current];
        proof {
            assert(self.toks()[self.current as int] == self.tokens@[self.current as int]@);
        }
        t
    }

    fn previous(&self) -> (t: &Token)
        requires
            self.wf(),
            self.current >= 1,
        ensures
            t@ == self.toks()[self.current as int - 1],
    {
        let t = &self.tokens[self.current - 1];
        proof {
            assert(self.toks()[self.current as int - 1] == self.tokens@[self.current as int - 1]@);
        }
        t
    }

    fn is_at_end(&self) -> (r: bool)
        requires
            self.wf(),
        ensures
            r == at_end_at(self.toks(), self.current as int),
    {
        self.peek().kind == TokenType::Eof
    }

    fn check(&self, kind: TokenType) -> (r: bool)
        requires
            self.wf(),
        ensures
            r == (!at_end_at(self.toks(), self.current as int) && self.toks()[self.current as int].kind
                == kind),
    {
        if self.is_at_end() {
            return false;
        }
        self.peek().kind == kind
    }

    fn advance(&mut self)
        requires
            old(self).wf(),
            !at_end_at(old(self).toks(), old(self).current as int),
        ensures
            final(self).wf(),
            final(self).tokens == old(self).tokens,
            final(self).current == old(self).current + 1,
    {
        let n = self.tokens.len();
        proof {
            let toks = self.toks();
            assert(toks[toks.len() - 1].kind == TokenType::Eof);
            assert(self.current < n);
        }
        self.current = self.current + 1;
    }

    /// Whether the current token is one of this level's operators.
    fn check_level(&self, level: usize) -> (r: bool)
        requires
            self.wf(),
            level <= 3,
        ensures
            r == level_matches(self.toks()[self.current as int].kind, level as int),
    {
        let k = self.peek().kind;
        if level == 0 {
            k == TokenType::Slash || k == TokenType::Star
        } else if level == 1 {
            k == TokenType::Minus || k == TokenType::Plus
        } else if level == 2 {
            k == TokenType::Greater || k == TokenType::GreaterEqual || k == TokenType::Less || k
                == TokenType::LessEqual
        } else {
            k == TokenType::BangEqual || k == TokenType::EqualEqual
        }
    }

    /// Report a syntax error at a token and hand back the distinguished
    /// parse-error value.
    fn error(&self, lox: &mut Lox, token: &Token, message: &str) -> (e: ParseError)
        ensures
            sink_after(old(lox)@, final(lox)@, seq![render_error_at(token@, message@)]),
    {
        lox.error_at(token, message);
        proof {
            assert(old(lox)@.diags.push(render_error_at(token@, message@)) =~= old(lox)@.diags
                + seq![render_error_at(token@, message@)]);
        }
        ParseError {  }
    }

    fn primary(&mut self, lox: &mut Lox) -> (r: Result<Expr, ParseError>)
        requires
            old(self).wf(),
        ensures
            final(self).wf(),
            final(self).tokens == old(self).tokens,
            old(self).current <= final(self).current,
            ({
                let m = spec_primary(old(self).toks(), old(self).current as int);
                &&& final(self).current as int == m.pos
                &&& sink_after(old(lox)@, final(lox)@, m.diags)
                &&& match r {
                    Ok(e) => m.r == Some(e@) && old(self).current < final(self).current,
                    Err(_) => m.r is None,
                }
            }),
        decreases self.tokens@.len() - self.current, 0nat,
    {
        let ghost m = spec_primary(old(self).toks(), old(self).current as int);
        if self.check(TokenType::False) {
            self.advance();
            proof {
                assert(lox@.diags =~= old(lox)@.diags + m.diags);
            }
            return Ok(Expr::Literal(Literal::Bool(false)));
        }
        if self.check(TokenType::True) {
            self.advance();
            proof {
                assert(lox@.diags =~= old(lox)@.diags + m.diags);
            }
            return Ok(Expr::Literal(Literal::Bool(true)));
        }
        if self.check(TokenType::Nil) {
            self.advance();
            proof {
                assert(lox@.diags =~= old(lox)@.diags + m.diags);
            }
            return Ok(Expr::Literal(Literal::Nil));
        }
        if self.check(TokenType::Number) || self.check(TokenType::String) {
            self.advance();
            let t = self.previous();
            match &t.literal {
                Some(l) => {
                    let lit = l.clone();
                    proof {
                        assert(lox@.diags =~= old(lox)@.diags + m.diags);
                    }
                    return Ok(Expr::Literal(lit));
                },
                None => {
                    proof {
                        assert(crate::scanner::lit_ok(
                            old(self).toks()[old(self).current as int],
                        ));
                        assert(false);
                    }
                    return Err(ParseError {  });
                },
            }
        }
        if self.check(TokenType::LeftParen) {
            self.advance();
            let e = match self.expression(lox) {
                Ok(e) => e,
                Err(er) => {
                    return Err(er);
                },
            };
            if self.check(TokenType::RightParen) {
                self.advance();
            } else {
                let tk = self.peek().clone();
                let _ignored = self.error(lox, &tk, "Expect ')' after expression.");
            }
            proof {
                let e1 = spec_expression(old(self).toks(), old(self).current as int + 1);
                assert(e1.diags.push(render_error_at(
                    tok_at(old(self).toks(), e1.pos),
                    "Expect ')' after expression."@,
                )) =~= m.diags || e1.diags =~= m.diags);
                assert(lox@.diags =~= old(lox)@.diags + m.diags);
            }
            return Ok(Expr::Grouping(Box::new(e)));
        }
        let tk = self.peek().clone();
        let er = self.error(lox, &tk, "Expect expression.");
        Err(er)
    }

    fn unary(&mut self, lox: &mut Lox) -> (r: Result<Expr, ParseError>)
        requires
            old(self).wf(),
        ensures
            final(self).wf(),
            final(self).tokens == old(self).tokens,
            old(self).current <= final(self).current,
            ({
                let m = spec_unary(old(self).toks(), old(self).current as int);
                &&& final(self).current as int == m.pos
                &&& sink_after(old(lox)@, final(lox)@, m.diags)
                &&& match r {
                    Ok(e) => m.r == Some(e@) && old(self).current < final(self).current,
                    Err(_) => m.r is None,
                }
            }),
        decreases self.tokens@.len() - self.current, 1nat,
    {
        if self.check(TokenType::Bang) || self.check(TokenType::Minus) {
            self.advance();
            let operator = self.previous().clone();
            let right = match self.unary(lox) {
                Ok(e) => e,
                Err(er) => {
                    return Err(er);
                },
            };
            Ok(Expr::Unary { operator, right: Box::new(right) })
        } else {
            self.primary(lox)
        }
    }

    fn factor(&mut self, lox: &mut Lox) -> (r: Result<Expr, ParseError>)
        requires
            old(self).wf(),
        ensures
            final(self).wf(),
            final(self).tokens == old(self).tokens,
            old(self).current <= final(self).current,
            ({
                let m = spec_binop(old(self).toks(), old(self).current as int, 0);
                &&& final(self).current as int == m.pos
                &&& sink_after(old(lox)@, final(lox)@, m.diags)
                &&& match r {
                    Ok(e) => m.r == Some(e@) && old(self).current < final(self).current,
                    Err(_) => m.r is None,
                }
            }),
        decreases self.tokens@.len() - self.current, 3nat,
    {
        self.left_binop(lox, 0)
    }

    fn term(&mut self, lox: &mut Lox) -> (r: Result<Expr, ParseError>)
        requires
            old(self).wf(),
        ensures
            final(self).wf(),
            final(self).tokens == old(self).tokens,
            old(self).current <= final(self).current,
            ({
                let m = spec_binop(old(self).toks(), old(self).current as int, 1);
                &&& final(self).current as int == m.pos
                &&& sink_after(old(lox)@, final(lox)@, m.diags)
                &&& match r {
                    Ok(e) => m.r == Some(e@) && old(self).current < final(self).current,
                    Err(_) => m.r is None,
                }
            }),
        decreases self.tokens@.len() - self.current, 5nat,
    {
        self.left_binop(lox, 1)
    }

    fn comparison(&mut self, lox: &mut Lox) -> (r: Result<Expr, ParseError>)
        requires
            old(self).wf(),
        ensures
            final(self).wf(),
            final(self).tokens == old(self).tokens,
            old(self).current <= final(self).current,
            ({
                let m = spec_binop(old(self).toks(), old(self).current as int, 2);
                &&& final(self).current as int == m.pos
                &&& sink_after(old(lox)@, final(lox)@, m.diags)
                &&& match r {
                    Ok(e) => m.r == Some(e@) && old(self).current < final(self).current,
                    Err(_) => m.r is None,
                }
            }),
        decreases self.tokens@.len() - self.current, 7nat,
    {
        self.left_binop(lox, 2)
    }

    fn equality(&mut self, lox: &mut Lox) -> (r: Result<Expr, ParseError>)
        requires
            old(self).wf(),
        ensures
            final(self).wf(),
            final(self).tokens == old(self).tokens,
            old(self).current <= final(self).current,
            ({
                let m = spec_binop(old(self).toks(), old(self).current as int, 3);
                &&& final(self).current as int == m.pos
                &&& sink_after(old(lox)@, final(lox)@, m.diags)
                &&& match r {
                    Ok(e) => m.r == Some(e@) && old(self).current < final(self).current,
                    Err(_) => m.r is None,
                }
            }),
        decreases self.tokens@.len() - self.current, 9nat,
    {
        self.left_binop(lox, 3)
    }

    fn expression(&mut self, lox: &mut Lox) -> (r: Result<Expr, ParseError>)
        requires
            old(self).wf(),
        ensures
            final(self).wf(),
            final(self).tokens == old(self).tokens,
            old(self).current <= final(self).current,
            ({
                let m = spec_expression(old(self).toks(), old(self).current as int);
                &&& final(self).current as int == m.pos
                &&& sink_after(old(lox)@, final(lox)@, m.diags)
                &&& match r {
                    Ok(e) => m.r == Some(e@) && old(self).current < final(self).current,
                    Err(_) => m.r is None,
                }
            }),
        decreases self.tokens@.len() - self.current, 10nat,
    {
        self.equality(lox)
    }

    /// One left-associative binary level: parse one operand at the next
    /// higher level, then while the current token is one of this level's
    /// operators, consume it and fold a Binary node around the accumulated
    /// expression and a freshly parsed right operand.
    fn left_binop(&mut self, lox: &mut Lox, level: usize) -> (r: Result<Expr, ParseError>)
        requires
            old(self).wf(),
            level <= 3,
        ensures
            final(self).wf(),
            final(self).tokens == old(self).tokens,
            old(self).current <= final(self).current,
            ({
                let m = spec_binop(old(self).toks(), old(self).current as int, level as int);
                &&& final(self).current as int == m.pos
                &&& sink_after(old(lox)@, final(lox)@, m.diags)
                &&& match r {
                    Ok(e) => m.r == Some(e@) && old(self).current < final(self).current,
                    Err(_) => m.r is None,
                }
            }),
        decreases self.tokens@.len() - self.current, 2 + 2 * level,
    {
        let ghost toks = old(self).toks();
        let ghost cur0 = old(self).current as int;
        let ghost m = spec_binop(toks, cur0, level as int);
        let first = if level == 0 {
            self.unary(lox)
        } else if level == 1 {
            self.factor(lox)
        } else if level == 2 {
            self.term(lox)
        } else {
            self.comparison(lox)
        };
        let mut expr = match first {
            Ok(e) => e,
            Err(er) => {
                return Err(er);
            },
        };
        let ghost mut gdiags = (if level as int <= 0 {
            spec_unary(toks, cur0)
        } else {
            spec_binop(toks, cur0, level as int - 1)
        }).diags;
        while self.check_level(level)
            invariant
                self.wf(),
                level <= 3,
                self.tokens == old(self).tokens,
                toks == old(self).toks(),
                cur0 == old(self).current as int,
                m == spec_binop(toks, cur0, level as int),
                cur0 < self.current as int,
                ({
                    let t = spec_binop_tail(toks, self.current as int, level as int, expr@);
                    &&& m.r == t.r
                    &&& m.pos == t.pos
                    &&& m.diags == gdiags + t.diags
                }),
                sink_after(old(lox)@, lox@, gdiags),
            decreases self.tokens@.len() - self.current,
        {
            let ghost cur_it = self.current as int;
            let ghost accv = expr@;
            let ghost t_cur = spec_binop_tail(toks, cur_it, level as int, accv);
            self.advance();
            let operator = self.previous().clone();
            let next = if level == 0 {
                self.unary(lox)
            } else if level == 1 {
                self.factor(lox)
            } else if level == 2 {
                self.term(lox)
            } else {
                self.comparison(lox)
            };
            let ghost rightm = if level as int <= 0 {
                spec_unary(toks, cur_it + 1)
            } else {
                spec_binop(toks, cur_it + 1, level as int - 1)
            };
            let right = match next {
                Ok(e) => e,
                Err(er) => {
                    proof {
                        assert(t_cur.r is None && t_cur.pos == rightm.pos && t_cur.diags
                            == rightm.diags);
                        assert(old(lox)@.diags + (gdiags + rightm.diags) =~= (old(lox)@.diags
                            + gdiags) + rightm.diags);
                    }
                    return Err(er);
                },
            };
            expr = Expr::Binary { left: Box::new(expr), operator, right: Box::new(right) };
            proof {
                let t_next = spec_binop_tail(toks, self.current as int, level as int, expr@);
                assert(expr@ == (ExprM::Binary {
                    left: Box::new(accv),
                    operator: toks[cur_it],
                    right: Box::new(right@),
                }));
                assert(t_cur.r == t_next.r && t_cur.pos == t_next.pos && t_cur.diags
                    == rightm.diags + t_next.diags);
                assert(gdiags + (rightm.diags + t_next.diags) =~= (gdiags + rightm.diags)
                    + t_next.diags);
                gdiags = gdiags + rightm.diags;
                assert(old(lox)@.diags + gdiags =~= lox@.diags);
            }
        }
        proof {
            let t = spec_binop_tail(toks, self.current as int, level as int, expr@);
            assert(t.diags =~= Seq::<Seq<char>>::empty());
            assert(gdiags + t.diags =~= gdiags);
            assert(lox@.diags =~= old(lox)@.diags + m.diags);
        }
        Ok(expr)
    }

    /// Consume the expected token kind, or report the given message at the
    /// current token and fail without consuming it.
    fn consume(&mut self, lox: &mut Lox, kind: TokenType, message: &str) -> (r: Result<
        (),
        ParseError,
    >)
        requires
            old(self).wf(),
        ensures
            final(self).wf(),
            final(self).tokens == old(self).tokens,
            ({
                let tks = old(self).toks();
                let cur = old(self).current as int;
                if !at_end_at(tks, cur) && tks[cur].kind == kind {
                    &&& r is Ok
                    &&& final(self).current == old(self).current + 1
                    &&& sink_after(old(lox)@, final(lox)@, Seq::empty())
                } else {
                    &&& r is Err
                    &&& final(self).current == old(self).current
                    &&& sink_after(
                        old(lox)@,
                        final(lox)@,
                        seq![render_error_at(tks[cur], message@)],
                    )
                }
            }),
    {
        if self.check(kind) {
            self.advance();
            proof {
                assert(lox@.diags =~= old(lox)@.diags + Seq::<Seq<char>>::empty());
            }
            Ok(())
        } else {
            let tk = self.peek().clone();
            Err(self.error(lox, &tk, message))
        }
    }

    fn statement(&mut self, lox: &mut Lox) -> (r: Result<Stmt, ParseError>)
        requires
            old(self).wf(),
        ensures
            final(self).wf(),
            final(self).tokens == old(self).tokens,
            old(self).current <= final(self).current,
            ({
                let m = spec_statement(old(self).toks(), old(self).current as int);
                &&& final(self).current as int == m.pos
                &&& sink_after(old(lox)@, final(lox)@, m.diags)
                &&& match r {
                    Ok(s) => m.r == Some(s@) && old(self).current < final(self).current,
                    Err(_) => m.r is None,
                }
            }),
    {
        let ghost m = spec_statement(old(self).toks(), old(self).current as int);
        if self.check(TokenType::Print) {
            self.advance();
            let ghost e = spec_expression(old(self).toks(), old(self).current as int + 1);
            let value = match self.expression(lox) {
                Ok(e) => e,
                Err(er) => {
                    return Err(er);
                },
            };
            match self.consume(lox, TokenType::Semicolon, "Expect ';' after value.") {
                Ok(_) => {
                    proof {
                        assert(lox@.diags =~= old(lox)@.diags + m.diags);
                    }
                    Ok(Stmt::Print(value))
                },
                Err(er) => {
                    proof {
                        assert(m.diags =~= e.diags.push(
                            render_error_at(
                                tok_at(old(self).toks(), e.pos),
                                "Expect ';' after value."@,
                            ),
                        ));
                        assert(lox@.diags =~= old(lox)@.diags + m.diags);
                    }
                    Err(er)
                },
            }
        } else {
            let ghost e = spec_expression(old(self).toks(), old(self).current as int);
            let value = match self.expression(lox) {
                Ok(e) => e,
                Err(er) => {
                    return Err(er);
                },
            };
            match self.consume(lox, TokenType::Semicolon, "Expect ';' after expression.") {
                Ok(_) => {
                    proof {
                        assert(lox@.diags =~= old(lox)@.diags + m.diags);
                    }
                    Ok(Stmt::Expression(value))
                },
                Err(er) => {
                    proof {
                        assert(m.diags =~= e.diags.push(
                            render_error_at(
                                tok_at(old(self).toks(), e.pos),
                                "Expect ';' after expression."@,
                            ),
                        ));
                        assert(lox@.diags =~= old(lox)@.diags + m.diags);
                    }
                    Err(er)
                },
            }
        }
    }

    /// Discard tokens until just past a semicolon or at a keyword that
    /// begins a statement, so that one malformed statement reports one error
    /// rather than one per token.
    fn synchronize(&mut self)
        requires
            old(self).wf(),
        ensures
            final(self).wf(),
            final(self).tokens == old(self).tokens,
            old(self).current <= final(self).current,
            final(self).current as int == spec_sync(old(self).toks(), old(self).current as int),
    {
        if self.is_at_end() {
            return ;
        }
        self.advance();
        while !self.is_at_end()
            invariant
                self.wf(),
                self.tokens == old(self).tokens,
                old(self).current < self.current,
                spec_sync(old(self).toks(), old(self).current as int) == spec_sync_loop(
                    old(self).toks(),
                    self.current as int,
                ),
            decreases self.tokens@.len() - self.current,
        {
            let prev = self.previous();
            if prev.kind == TokenType::Semicolon {
                return ;
            }
            let k = self.peek().kind;
            if k == TokenType::Class || k == TokenType::Fun || k == TokenType::Var || k
                == TokenType::For || k == TokenType::If || k == TokenType::While || k
                == TokenType::Print || k == TokenType::Return {
                return ;
            }
            self.advance();
        }
    }

    /// Parse a program: statements until end of input, recovering at
    /// statement boundaries after an error. The statements that parsed, and
    /// every syntax error reported, are exactly what the grammar model
    /// yields.
    pub fn parse(&mut self, lox: &mut Lox) -> (r: Vec<Stmt>)
        requires
            old(self).wf(),
        ensures
            final(self).wf(),
            final(self).tokens == old(self).tokens,
            ({
                let m = spec_program(old(self).toks(), old(self).current as int);
                &&& stmts_view(r@) == m.stmts
                &&& sink_after(old(lox)@, final(lox)@, m.diags)
            }),
    {
        let ghost toks = old(self).toks();
        let ghost cur0 = old(self).current as int;
        let ghost full = spec_program(toks, cur0);
        let mut statements: Vec<Stmt> = Vec::new();
        let ghost mut gdiags: Seq<Seq<char>> = Seq::empty();
        proof {
            assert(stmts_view(statements@) =~= Seq::<StmtM>::empty());
            assert(stmts_view(statements@) + spec_program(toks, cur0).stmts =~= full.stmts);
            assert(gdiags + spec_program(toks, cur0).diags =~= full.diags);
            assert(lox@.diags =~= old(lox)@.diags + gdiags);
        }
        while !self.is_at_end()
            invariant
                self.wf(),
                self.tokens == old(self).tokens,
                toks == old(self).toks(),
                cur0 == old(self).current as int,
                full == spec_program(toks, cur0),
                stmts_view(statements@) + spec_program(toks, self.current as int).stmts
                    == full.stmts,
                gdiags + spec_program(toks, self.current as int).diags == full.diags,
                sink_after(old(lox)@, lox@, gdiags),
            decreases self.tokens@.len() - self.current,
        {
            let ghost cur_it = self.current as int;
            let ghost mst = spec_statement(toks, cur_it);
            let ghost prog_it = spec_program(toks, cur_it);
            match self.statement(lox) {
                Ok(s) => {
                    let ghost pre = statements@;
                    statements.push(s);
                    proof {
                        crate::interpreter::lemma_stmts_view_push(pre, s);
                        let rest = spec_program(toks, self.current as int);
                        assert(prog_it.stmts =~= seq![s@] + rest.stmts);
                        assert(stmts_view(pre).push(s@) + rest.stmts =~= stmts_view(pre) + (seq![
                            s@,
                        ] + rest.stmts));
                        gdiags = gdiags + mst.diags;
                        assert(gdiags + rest.diags =~= full.diags);
                        assert(lox@.diags =~= old(lox)@.diags + gdiags);
                    }
                },
                Err(_) => {
                    self.synchronize();
                    proof {
                        if mst.pos == cur_it {
                            lemma_sync_loop_bounds(toks, cur_it + 1);
                        } else if !at_end_at(toks, mst.pos) {
                            lemma_sync_loop_bounds(toks, mst.pos + 1);
                        }
                        let rest = spec_program(toks, self.current as int);
                        assert(prog_it.stmts =~= rest.stmts);
                        gdiags = gdiags + mst.diags;
                        assert(gdiags + rest.diags =~= full.diags);
                        assert(stmts_view(statements@) + rest.stmts =~= full.stmts);
                        assert(lox@.diags =~= old(lox)@.diags + gdiags);
                    }
                },
            }
        }
        proof {
            assert(spec_program(toks, self.current as int).stmts =~= Seq::<StmtM>::empty());
            assert(spec_program(toks, self.current as int).diags =~= Seq::<Seq<char>>::empty());
            assert(stmts_view(statements@) =~= full.stmts);
            assert(gdiags =~= full.diags);
            assert(lox@.diags =~= old(lox)@.diags + full.diags);
        }
        statements
    }
}

} // verus!
