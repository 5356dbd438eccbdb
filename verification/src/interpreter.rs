//! The syntax tree and the tree-walking evaluator: runtime values, the
//! dynamic type rules of the language, and runtime-error reporting.
use vstd::prelude::*;

use crate::lox::render_runtime;
use crate::lox::Lox;
use crate::num::add_bits;
use crate::num::add_double;
use crate::num::div_bits;
use crate::num::div_double;
use crate::num::eq_bits;
use crate::num::eq_double;
use crate::num::fmt_bits;
use crate::num::fmt_double;
use crate::num::ge_bits;
use crate::num::ge_double;
use crate::num::gt_bits;
use crate::num::gt_double;
use crate::num::le_bits;
use crate::num::le_double;
use crate::num::lt_bits;
use crate::num::lt_double;
use crate::num::mul_bits;
use crate::num::mul_double;
use crate::num::neg_bits;
use crate::num::neg_double;
use crate::num::sub_bits;
use crate::num::sub_double;
use crate::token::strs_view;
use crate::token::LitM;
use crate::token::Literal;
use crate::token::Token;
use crate::token::TokenM;
use crate::token::TokenType;

verus! {

/// An expression node: a tree built once by the parser and walked read-only
/// by the evaluator.
pub enum Expr {
    Binary { left: Box<Expr>, operator: Token, right: Box<Expr> },
    Grouping(Box<Expr>),
    Literal(Literal),
    Unary { operator: Token, right: Box<Expr> },
}

/// Mathematical model of an expression node.
pub enum ExprM {
    Binary { left: Box<ExprM>, operator: TokenM, right: Box<ExprM> },
    Grouping(Box<ExprM>),
    Literal(LitM),
    Unary { operator: TokenM, right: Box<ExprM> },
}

impl View for Expr {
    type V = ExprM;

    open spec fn view(&self) -> ExprM
        decreases self,
    {
        match self {
            Expr::Binary { left, operator, right } => ExprM::Binary {
                left: Box::new((**left)@),
                operator: (*operator)@,
                right: Box::new((**right)@),
            },
            Expr::Grouping(inner) => ExprM::Grouping(Box::new((**inner)@)),
            Expr::Literal(l) => ExprM::Literal((*l)@),
            Expr::Unary { operator, right } => ExprM::Unary {
                operator: (*operator)@,
                right: Box::new((**right)@),
            },
        }
    }
}

/// A statement node. A program is an ordered sequence of statements.
pub enum Stmt {
    Expression(Expr),
    Print(Expr),
}

/// Mathematical model of a statement node.
pub enum StmtM {
    Expression(ExprM),
    Print(ExprM),
}

impl View for Stmt {
    type V = StmtM;

    open spec fn view(&self) -> StmtM {
        match self {
            Stmt::Expression(e) => StmtM::Expression((*e)@),
            Stmt::Print(e) => StmtM::Print((*e)@),
        }
    }
}

/// The models of a sequence of statements.
pub open spec fn stmts_view(ss: Seq<Stmt>) -> Seq<StmtM> {
    ss.map_values(|s: Stmt| s@)
}

pub broadcast proof fn lemma_stmts_view_push(ss: Seq<Stmt>, s: Stmt)
    ensures
        #[trigger] stmts_view(ss.push(s)) == stmts_view(ss).push(s@),
{
    assert(stmts_view(ss.push(s)) =~= stmts_view(ss).push(s@));
}

/// A runtime value. Numbers are carried as IEEE 754 binary64 bit patterns.
#[derive(Debug)]
pub enum Value {
    Nil,
    Bool(bool),
    Number(u64),
    Str(String),
}

/// Mathematical model of a runtime value.
pub enum ValM {
    Nil,
    Bool(bool),
    Number(u64),
    Str(Seq<char>),
}

impl View for Value {
    type V = ValM;

    open spec fn view(&self) -> ValM {
        match self {
            Value::Nil => ValM::Nil,
            Value::Bool(b) => ValM::Bool(*b),
            Value::Number(n) => ValM::Number(*n),
            Value::Str(s) => ValM::Str(s@),
        }
    }
}

/// A runtime error: the offending operator token and a message.
pub struct RuntimeError {
    pub token: Token,
    pub message: String,
}

/// Mathematical model of a runtime error.
pub struct RErrM {
    pub token: TokenM,
    pub message: Seq<char>,
}

impl View for RuntimeError {
    type V = RErrM;

    open spec fn view(&self) -> RErrM {
        RErrM { token: self.token@, message: self.message@ }
    }
}

impl RuntimeError {
    pub fn new(token: Token, message: &str) -> (e: Self)
        ensures
            e@ == (RErrM { token: token@, message: message@ }),
    {
        RuntimeError { token, message: String::from_str(message) }
    }
}

/// The value of a literal expression.
pub open spec fn lit_val(l: LitM) -> ValM {
    match l {
        LitM::Number(n) => ValM::Number(n),
        LitM::Str(s) => ValM::Str(s),
        LitM::Bool(b) => ValM::Bool(b),
        LitM::Nil => ValM::Nil,
    }
}

/// Truthiness: nil and false are falsy, every other value is truthy.
pub open spec fn truthy(v: ValM) -> bool {
    match v {
        ValM::Nil => false,
        ValM::Bool(b) => b,
        _ => true,
    }
}

/// Strict equality: values of different kinds are never equal; nil equals
/// only nil; booleans and strings compare by value, numbers by IEEE 754
/// equality.
pub open spec fn val_eq(l: ValM, r: ValM) -> bool {
    match (l, r) {
        (ValM::Nil, ValM::Nil) => true,
        (ValM::Bool(a), ValM::Bool(b)) => a == b,
        (ValM::Number(a), ValM::Number(b)) => eq_bits(a, b),
        (ValM::Str(a), ValM::Str(b)) => a == b,
        _ => false,
    }
}

/// The result of a binary operator on two already-evaluated operands.
pub open spec fn eval_binop(op: TokenM, l: ValM, r: ValM) -> Result<ValM, RErrM> {
    let k = op.kind;
    if k == TokenType::Minus || k == TokenType::Slash || k == TokenType::Star || k
        == TokenType::Greater || k == TokenType::GreaterEqual || k == TokenType::Less || k
        == TokenType::LessEqual {
        match (l, r) {
            (ValM::Number(a), ValM::Number(b)) => Ok(num_binop(k, a, b)),
            _ => Err(RErrM { token: op, message: "Operands must be a number."@ }),
        }
    } else if k == TokenType::Plus {
        match (l, r) {
            (ValM::Number(a), ValM::Number(b)) => Ok(ValM::Number(add_bits(a, b))),
            (ValM::Str(a), ValM::Str(b)) => Ok(ValM::Str(a + b)),
            _ => Err(
                RErrM { token: op, message: "Operands must be two numbers or two strings."@ },
            ),
        }
    } else if k == TokenType::BangEqual {
        Ok(ValM::Bool(!val_eq(l, r)))
    } else if k == TokenType::EqualEqual {
        Ok(ValM::Bool(val_eq(l, r)))
    } else {
        Ok(ValM::Nil)
    }
}

/// The result of an arithmetic or comparison operator on two numbers.
pub open spec fn num_binop(k: TokenType, a: u64, b: u64) -> ValM {
    if k == TokenType::Minus {
        ValM::Number(sub_bits(a, b))
    } else if k == TokenType::Slash {
        ValM::Number(div_bits(a, b))
    } else if k == TokenType::Star {
        ValM::Number(mul_bits(a, b))
    } else if k == TokenType::Greater {
        ValM::Bool(gt_bits(a, b))
    } else if k == TokenType::GreaterEqual {
        ValM::Bool(ge_bits(a, b))
    } else if k == TokenType::Less {
        ValM::Bool(lt_bits(a, b))
    } else {
        ValM::Bool(le_bits(a, b))
    }
}

/// The value an expression evaluates to, or the first runtime error raised
/// while walking it (operands evaluate left to right, before the operator's
/// type rule is checked).
pub open spec fn eval_expr(e: ExprM) -> Result<ValM, RErrM>
    decreases e,
{
    match e {
        ExprM::Literal(l) => Ok(lit_val(l)),
        ExprM::Grouping(inner) => eval_expr(*inner),
        ExprM::Unary { operator, right } => match eval_expr(*right) {
            Err(er) => Err(er),
            Ok(rv) => {
                if operator.kind == TokenType::Minus {
                    match rv {
                        ValM::Number(n) => Ok(ValM::Number(neg_bits(n))),
                        _ => Err(RErrM { token: operator, message: "Operand must be a number."@ }),
                    }
                } else if operator.kind == TokenType::Bang {
                    Ok(ValM::Bool(!truthy(rv)))
                } else {
                    Ok(ValM::Nil)
                }
            },
        },
        ExprM::Binary { left, operator, right } => match eval_expr(*left) {
            Err(er) => Err(er),
            Ok(lv) => match eval_expr(*right) {
                Err(er) => Err(er),
                Ok(rv) => eval_binop(operator, lv, rv),
            },
        },
    }
}

/// The display text of a number: its decimal text with every trailing `.0`
/// stripped.
pub open spec fn trim_dot_zero(s: Seq<char>) -> Seq<char>
    decreases s.len(),
{
    if s.len() >= 2 && s[s.len() - 2] == '.' && s[s.len() - 1] == '0' {
        trim_dot_zero(s.take(s.len() - 2))
    } else {
        s
    }
}

/// Value-to-display conversion: nil prints as `nil`, booleans as `true` and
/// `false`, a string as itself, a number as its decimal text with a trailing
/// `.0` stripped.
pub open spec fn stringify_m(v: ValM) -> Seq<char> {
    match v {
        ValM::Nil => "nil"@,
        ValM::Bool(b) => if b {
            "true"@
        } else {
            "false"@
        },
        ValM::Str(s) => s,
        ValM::Number(n) => trim_dot_zero(fmt_bits(n)),
    }
}

/// What executing one statement does: nothing, one printed line, or a
/// runtime error.
pub open spec fn exec_stmt_m(s: StmtM) -> Result<Option<Seq<char>>, RErrM> {
    match s {
        StmtM::Expression(e) => match eval_expr(e) {
            Ok(_) => Ok(None),
            Err(er) => Err(er),
        },
        StmtM::Print(e) => match eval_expr(e) {
            Ok(v) => Ok(Some(stringify_m(v))),
            Err(er) => Err(er),
        },
    }
}

/// What a whole program prints and reports: statements run in order; a
/// runtime error aborts only the statement it occurred in and is recorded as
/// a diagnostic.
pub struct InterpOut {
    pub outputs: Seq<Seq<char>>,
    pub diags: Seq<Seq<char>>,
}

pub open spec fn interpret_m(stmts: Seq<StmtM>) -> InterpOut
    decreases stmts.len(),
{
    if stmts.len() == 0 {
        InterpOut { outputs: Seq::empty(), diags: Seq::empty() }
    } else {
        let rest = interpret_m(stmts.drop_first());
        match exec_stmt_m(stmts[0]) {
            Ok(None) => rest,
            Ok(Some(l)) => InterpOut { outputs: seq![l] + rest.outputs, diags: rest.diags },
            Err(er) => InterpOut {
                outputs: rest.outputs,
                diags: seq![render_runtime(er.message, er.token.line)] + rest.diags,
            },
        }
    }
}

/// The tree-walking evaluator.
pub struct Interpreter {}

impl Interpreter {
    pub fn new() -> (r: Self)
        ensures
            r == (Interpreter {  }),
    {
        Interpreter {  }
    }

    fn number_operand_error(&self, operator: &Token) -> (e: RuntimeError)
        ensures
            e@ == (RErrM { token: operator@, message: "Operand must be a number."@ }),
    {
        RuntimeError::new(operator.clone(), "Operand must be a number.")
    }

    fn number_operands_error(&self, operator: &Token) -> (e: RuntimeError)
        ensures
            e@ == (RErrM { token: operator@, message: "Operands must be a number."@ }),
    {
        RuntimeError::new(operator.clone(), "Operands must be a number.")
    }

    fn is_truthy(&self, val: &Value) -> (r: bool)
        ensures
            r == truthy(val@),
    {
        match val {
            Value::Nil => false,
            Value::Bool(b) => *b,
            _ => true,
        }
    }

    fn is_equal(&self, left: &Value, right: &Value) -> (r: bool)
        ensures
            r == val_eq(left@, right@),
    {
        match (left, right) {
            (Value::Nil, Value::Nil) => true,
            (Value::Bool(a), Value::Bool(b)) => *a == *b,
            (Value::Number(a), Value::Number(b)) => eq_double(*a, *b),
            (Value::Str(a), Value::Str(b)) => a.eq(b),
            _ => false,
        }
    }

    /// The runtime value of a literal expression node.
    fn lit_value(&self, l: &Literal) -> (v: Value)
        ensures
            v@ == lit_val(l@),
    {
        match l {
            Literal::Number(n) => Value::Number(*n),
            Literal::Str(s) => Value::Str(s.clone()),
            Literal::Bool(b) => Value::Bool(*b),
            Literal::Nil => Value::Nil,
        }
    }

    fn evaluate(&self, expr: &Expr) -> (r: Result<Value, RuntimeError>)
        ensures
            match r {
                Ok(v) => eval_expr(expr@) == Ok::<ValM, RErrM>(v@),
                Err(e) => eval_expr(expr@) == Err::<ValM, RErrM>(e@),
            },
        decreases expr,
    {
        match expr {
            Expr::Literal(l) => Ok(self.lit_value(l)),
            Expr::Grouping(inner) => self.evaluate(inner),
            Expr::Unary { operator, right } => {
                let rv = match self.evaluate(right) {
                    Ok(v) => v,
                    Err(e) => {
                        return Err(e);
                    },
                };
                match operator.kind {
                    TokenType::Minus => match rv {
                        Value::Number(n) => Ok(Value::Number(neg_double(n))),
                        _ => Err(self.number_operand_error(operator)),
                    },
                    TokenType::Bang => {
                        let t = self.is_truthy(&rv);
                        Ok(Value::Bool(!t))
                    },
                    _ => Ok(Value::Nil),
                }
            },
            Expr::Binary { left, operator, right } => {
                let lv = match self.evaluate(left) {
                    Ok(v) => v,
                    Err(e) => {
                        return Err(e);
                    },
                };
                let rv = match self.evaluate(right) {
                    Ok(v) => v,
                    Err(e) => {
                        return Err(e);
                    },
                };
                self.binary_op(operator, lv, rv)
            },
        }
    }

    /// Apply a binary operator's dynamic type rule to two operand values.
    fn binary_op(&self, operator: &Token, left: Value, right: Value) -> (r: Result<
        Value,
        RuntimeError,
    >)
        ensures
            match r {
                Ok(v) => eval_binop(operator@, left@, right@) == Ok::<ValM, RErrM>(v@),
                Err(e) => eval_binop(operator@, left@, right@) == Err::<ValM, RErrM>(e@),
            },
    {
        match operator.kind {
            TokenType::Minus => match (left, right) {
                (Value::Number(a), Value::Number(b)) => Ok(Value::Number(sub_double(a, b))),
                _ => Err(self.number_operands_error(operator)),
            },
            TokenType::Slash => match (left, right) {
                (Value::Number(a), Value::Number(b)) => Ok(Value::Number(div_double(a, b))),
                _ => Err(self.number_operands_error(operator)),
            },
            TokenType::Star => match (left, right) {
                (Value::Number(a), Value::Number(b)) => Ok(Value::Number(mul_double(a, b))),
                _ => Err(self.number_operands_error(operator)),
            },
            TokenType::Greater => match (left, right) {
                (Value::Number(a), Value::Number(b)) => Ok(Value::Bool(gt_double(a, b))),
                _ => Err(self.number_operands_error(operator)),
            },
            TokenType::GreaterEqual => match (left, right) {
                (Value::Number(a), Value::Number(b)) => Ok(Value::Bool(ge_double(a, b))),
                _ => Err(self.number_operands_error(operator)),
            },
            TokenType::Less => match (left, right) {
                (Value::Number(a), Value::Number(b)) => Ok(Value::Bool(lt_double(a, b))),
                _ => Err(self.number_operands_error(operator)),
            },
            TokenType::LessEqual => match (left, right) {
                (Value::Number(a), Value::Number(b)) => Ok(Value::Bool(le_double(a, b))),
                _ => Err(self.number_operands_error(operator)),
            },
            TokenType::Plus => match (left, right) {
                (Value::Number(a), Value::Number(b)) => Ok(Value::Number(add_double(a, b))),
                (Value::Str(a), Value::Str(b)) => Ok(Value::Str(a.concat(b.as_str()))),
                _ => Err(
                    RuntimeError::new(
                        operator.clone(),
                        "Operands must be two numbers or two strings.",
                    ),
                ),
            },
            TokenType::BangEqual => {
                let eq = self.is_equal(&left, &right);
                Ok(Value::Bool(!eq))
            },
            TokenType::EqualEqual => {
                let eq = self.is_equal(&left, &right);
                Ok(Value::Bool(eq))
            },
            _ => Ok(Value::Nil),
        }
    }

    /// Strip every trailing `.0` from a number's decimal text.
    fn trim_zero(&self, s: String) -> (r: String)
        ensures
            r@ == trim_dot_zero(s@),
        decreases s@.len(),
    {
        let len = s.as_str().unicode_len();
        if len >= 2 && s.as_str().get_char(len - 2) == '.' && s.as_str().get_char(len - 1) == '0' {
            let shorter = s.as_str().substring_char(0, len - 2).to_owned();
            proof {
                assert(shorter@ =~= s@.take(s@.len() - 2));
            }
            self.trim_zero(shorter)
        } else {
            s
        }
    }

    fn stringify(&self, value: Value) -> (r: String)
        ensures
            r@ == stringify_m(value@),
    {
        match value {
            Value::Nil => String::from_str("nil"),
            Value::Str(s) => s,
            Value::Bool(b) => if b {
                String::from_str("true")
            } else {
                String::from_str("false")
            },
            Value::Number(n) => {
                let text = fmt_double(n);
                self.trim_zero(text)
            },
        }
    }

    fn execute(&self, stmt: &Stmt, out: &mut Vec<String>) -> (r: Result<(), RuntimeError>)
        ensures
            ({
                let m = exec_stmt_m(stmt@);
                match r {
                    Ok(_) => m is Ok && (match m {
                        Ok(None) => final(out)@ == old(out)@,
                        Ok(Some(l)) => strs_view(final(out)@) == strs_view(old(out)@).push(l),
                        Err(_) => false,
                    }),
                    Err(e) => m == Err::<Option<Seq<char>>, RErrM>(e@) && final(out)@ == old(
                        out,
                    )@,
                }
            }),
    {
        match stmt {
            Stmt::Expression(expr) => match self.evaluate(expr) {
                Ok(_) => Ok(()),
                Err(error) => Err(error),
            },
            Stmt::Print(expr) => {
                let value = match self.evaluate(expr) {
                    Ok(v) => v,
                    Err(e) => {
                        return Err(e);
                    },
                };
                let line = self.stringify(value);
                proof {
                    crate::token::lemma_strs_view_push(out@, line);
                }
                out.push(line);
                Ok(())
            },
        }
    }

    /// Execute each statement in order; a runtime error is reported to the
    /// sink and aborts only the statement it occurred in. Returns the lines
    /// printed by `print` statements, in order.
    pub fn interpret(&mut self, lox: &mut Lox, statements: &Vec<Stmt>) -> (out: Vec<String>)
        ensures
            ({
                let m = interpret_m(stmts_view(statements@));
                &&& strs_view(out@) == m.outputs
                &&& final(lox)@.diags == old(lox)@.diags + m.diags
                &&& final(lox)@.had_runtime_error == (old(lox)@.had_runtime_error || m.diags.len()
                    > 0)
                &&& final(lox)@.had_error == old(lox)@.had_error
            }),
    {
        let ghost full = interpret_m(stmts_view(statements@));
        let mut out: Vec<String> = Vec::new();
        let ghost mut gdiags: Seq<Seq<char>> = Seq::empty();
        let mut i: usize = 0;
        proof {
            assert(strs_view(out@) =~= Seq::<Seq<char>>::empty());
            assert(stmts_view(statements@).skip(0) =~= stmts_view(statements@));
            assert(lox@.diags =~= old(lox)@.diags + gdiags);
        }
        while i < statements.len()
            invariant
                i <= statements.len(),
                strs_view(out@) + interpret_m(stmts_view(statements@).skip(i as int)).outputs
                    == full.outputs,
                gdiags + interpret_m(stmts_view(statements@).skip(i as int)).diags == full.diags,
                lox@.diags == old(lox)@.diags + gdiags,
                lox@.had_runtime_error == (old(lox)@.had_runtime_error || gdiags.len() > 0),
                lox@.had_error == old(lox)@.had_error,
            decreases statements.len() - i,
        {
            let ghost rest = stmts_view(statements@).skip(i as int);
            proof {
                assert(rest[0] == statements@[i as int]@);
                assert(rest.drop_first() =~= stmts_view(statements@).skip(i as int + 1));
            }
            match self.execute(&statements[i], &mut out) {
                Ok(()) => {},
                Err(error) => {
                    proof {
                        gdiags = gdiags.push(
                            render_runtime(error@.message, error@.token.line),
                        );
                    }
                    lox.runtime_error(error);
                },
            }
            proof {
                assert(gdiags + interpret_m(stmts_view(statements@).skip(i as int + 1)).diags
                    =~= full.diags);
                assert(strs_view(out@) + interpret_m(
                    stmts_view(statements@).skip(i as int + 1),
                ).outputs =~= full.outputs);
            }
            i = i + 1;
        }
        proof {
            assert(stmts_view(statements@).skip(statements@.len() as int)
                =~= Seq::<StmtM>::empty());
            assert(strs_view(out@) =~= full.outputs);
            assert(gdiags =~= full.diags);
        }
        out
    }
}

} // verus!
