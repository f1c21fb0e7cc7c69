use vstd::prelude::*;

use crate::text::{decimal, decimal_string, parse_i32, parse_i32_spec};
use crate::lexer::{law_tokens, lex_from};
use crate::token::{Token, TokenType, TokenView, tokens_view};

verus! {

broadcast use vstd::std_specs::vec::group_vec_axioms;

/// Statements.
#[derive(Debug)]
pub enum Stmt {
    Block(Vec<Stmt>),
    Let(String, Expr),
    While(Expr, Box<Stmt>),
    For { init: Box<Stmt>, cond: Expr, step: Box<Stmt>, block: Box<Stmt> },
    Fn { name: String, args: Vec<String>, block: Box<Stmt> },
    If { cond: Expr, then_branch: Box<Stmt>, else_branch: Option<Box<Stmt>> },
    Expr(Expr),
    Assignment(String, Expr),
    Return(Option<Expr>),
    Continue,
    Break,
    Call(String, Vec<Expr>),
}

/// Expressions.
#[derive(Debug)]
pub enum Expr {
    Binary(Box<Expr>, TokenType, Box<Expr>),
    Unary(TokenType, Box<Expr>),
    Number(i32),
    Ident(String),
    String(String),
    Group(Box<Expr>),
    Bool(bool),
    Null,
    Callable { name: Box<Expr>, args: Vec<Expr> },
}

/// The mathematical content of an expression.
pub enum ExprV {
    Binary(Box<ExprV>, TokenType, Box<ExprV>),
    Unary(TokenType, Box<ExprV>),
    Number(i32),
    Ident(Seq<char>),
    Str(Seq<char>),
    Group(Box<ExprV>),
    Bool(bool),
    Null,
    Callable(Box<ExprV>, Seq<ExprV>),
}

/// The mathematical content of a statement.
pub enum StmtV {
    Block(Seq<StmtV>),
    Let(Seq<char>, ExprV),
    While(ExprV, Box<StmtV>),
    For(Box<StmtV>, ExprV, Box<StmtV>, Box<StmtV>),
    Fn(Seq<char>, Seq<Seq<char>>, Box<StmtV>),
    If(ExprV, Box<StmtV>, Option<Box<StmtV>>),
    Expr(ExprV),
    Assignment(Seq<char>, ExprV),
    Return(Option<ExprV>),
    Continue,
    Break,
    Call(Seq<char>, Seq<ExprV>),
}

impl Expr {
    pub open spec fn view(&self) -> ExprV
        decreases self,
    {
        match self {
            Expr::Binary(l, op, r) => ExprV::Binary(Box::new(l.view()), *op, Box::new(r.view())),
            Expr::Unary(op, e) => ExprV::Unary(*op, Box::new(e.view())),
            Expr::Number(n) => ExprV::Number(*n),
            Expr::Ident(s) => ExprV::Ident(s@),
            Expr::String(s) => ExprV::Str(s@),
            Expr::Group(e) => ExprV::Group(Box::new(e.view())),
            Expr::Bool(b) => ExprV::Bool(*b),
            Expr::Null => ExprV::Null,
            Expr::Callable { name, args } => ExprV::Callable(
                Box::new(name.view()),
                Seq::new(args@.len(), |i: int| if 0 <= i < args@.len() { args@[i].view() } else { ExprV::Null }),
            ),
        }
    }
}

pub open spec fn exprs_view(es: Seq<Expr>) -> Seq<ExprV> {
    Seq::new(es.len(), |i: int| if 0 <= i < es.len() { es[i].view() } else { ExprV::Null })
}

pub open spec fn strings_view(ss: Seq<String>) -> Seq<Seq<char>> {
    Seq::new(ss.len(), |i: int| ss[i]@)
}

impl Stmt {
    pub open spec fn view(&self) -> StmtV
        decreases self,
    {
        match self {
            Stmt::Block(ss) => StmtV::Block(
                Seq::new(ss@.len(), |i: int| if 0 <= i < ss@.len() { ss@[i].view() } else { StmtV::Continue }),
            ),
            Stmt::Let(n, e) => StmtV::Let(n@, e.view()),
            Stmt::While(c, b) => StmtV::While(c.view(), Box::new(b.view())),
            Stmt::For { init, cond, step, block } => StmtV::For(
                Box::new(init.view()),
                cond.view(),
                Box::new(step.view()),
                Box::new(block.view()),
            ),
            Stmt::Fn { name, args, block } => StmtV::Fn(
                name@,
                strings_view(args@),
                Box::new(block.view()),
            ),
            Stmt::If { cond, then_branch, else_branch } => StmtV::If(
                cond.view(),
                Box::new(then_branch.view()),
                match else_branch {
                    Some(b) => Some(Box::new(b.view())),
                    None => None,
                },
            ),
            Stmt::Expr(e) => StmtV::Expr(e.view()),
            Stmt::Assignment(n, e) => StmtV::Assignment(n@, e.view()),
            Stmt::Return(e) => StmtV::Return(
                match e {
                    Some(e) => Some(e.view()),
                    None => None,
                },
            ),
            Stmt::Continue => StmtV::Continue,
            Stmt::Break => StmtV::Break,
            Stmt::Call(n, args) => StmtV::Call(n@, exprs_view(args@)),
        }
    }
}

pub open spec fn stmts_view(ss: Seq<Stmt>) -> Seq<StmtV> {
    Seq::new(ss.len(), |i: int| if 0 <= i < ss.len() { ss[i].view() } else { StmtV::Continue })
}

pub proof fn lemma_view_callable(name: Box<Expr>, args: Vec<Expr>)
    ensures
        (Expr::Callable { name, args }).view() == ExprV::Callable(Box::new(name.view()), exprs_view(args@)),
{
    let v = (Expr::Callable { name, args }).view();
    match v {
        ExprV::Callable(n, a) => {
            assert(a =~= exprs_view(args@));
        },
        _ => {},
    }
}

pub proof fn lemma_view_block(ss: Vec<Stmt>)
    ensures
        Stmt::Block(ss).view() == StmtV::Block(stmts_view(ss@)),
{
    let v = Stmt::Block(ss).view();
    match v {
        StmtV::Block(a) => {
            assert(a =~= stmts_view(ss@));
        },
        _ => {},
    }
}

impl Expr {
    /// A copy of the expression.
    #[verifier::loop_isolation(false)]
    pub fn dup(&self) -> (r: Expr)
        ensures
            r.view() == self.view(),
        decreases self,
    {
        match self {
            Expr::Binary(l, op, r) => Expr::Binary(Box::new(l.dup()), *op, Box::new(r.dup())),
            Expr::Unary(op, e) => Expr::Unary(*op, Box::new(e.dup())),
            Expr::Number(n) => Expr::Number(*n),
            Expr::Ident(s) => Expr::Ident(s.clone()),
            Expr::String(s) => Expr::String(s.clone()),
            Expr::Group(e) => Expr::Group(Box::new(e.dup())),
            Expr::Bool(b) => Expr::Bool(*b),
            Expr::Null => Expr::Null,
            Expr::Callable { name, args } => {
                let n = name.dup();
                let mut v: Vec<Expr> = Vec::new();
                let mut i: usize = 0;
                while i < args.len()
                    invariant
                        i <= args@.len(),
                        v@.len() == i,
                        forall|j: int| 0 <= j < i ==> #[trigger] v@[j].view() == args@[j].view(),
                    decreases args@.len() - i,
                {
                    v.push(args[i].dup());
                    i = i + 1;
                }
                proof {
                    lemma_view_callable(Box::new(n), v);
                    lemma_view_callable(*name, *args);
                    assert(exprs_view(v@) =~= exprs_view(args@));
                }
                Expr::Callable { name: Box::new(n), args: v }
            },
        }
    }
}

/// A copy of a list of names.
pub fn dup_strings(v: &Vec<String>) -> (r: Vec<String>)
    ensures
        strings_view(r@) == strings_view(v@),
{
    let mut out: Vec<String> = Vec::new();
    let mut i: usize = 0;
    while i < v.len()
        invariant
            i <= v@.len(),
            out@.len() == i,
            forall|j: int| 0 <= j < i ==> #[trigger] out@[j]@ == v@[j]@,
        decreases v@.len() - i,
    {
        out.push(v[i].clone());
        i = i + 1;
    }
    assert(strings_view(out@) =~= strings_view(v@));
    out
}

/// A copy of a list of expressions.
pub fn dup_exprs(v: &Vec<Expr>) -> (r: Vec<Expr>)
    ensures
        exprs_view(r@) == exprs_view(v@),
{
    let mut out: Vec<Expr> = Vec::new();
    let mut i: usize = 0;
    while i < v.len()
        invariant
            i <= v@.len(),
            out@.len() == i,
            forall|j: int| 0 <= j < i ==> #[trigger] out@[j].view() == v@[j].view(),
        decreases v@.len() - i,
    {
        out.push(v[i].dup());
        i = i + 1;
    }
    assert(exprs_view(out@) =~= exprs_view(v@));
    out
}

impl Stmt {
    /// A copy of the statement.
    #[verifier::loop_isolation(false)]
    pub fn dup(&self) -> (r: Stmt)
        ensures
            r.view() == self.view(),
        decreases self,
    {
        match self {
            Stmt::Block(ss) => {
                let mut v: Vec<Stmt> = Vec::new();
                let mut i: usize = 0;
                while i < ss.len()
                    invariant
                        i <= ss@.len(),
                        v@.len() == i,
                        forall|j: int| 0 <= j < i ==> #[trigger] v@[j].view() == ss@[j].view(),
                    decreases ss@.len() - i,
                {
                    v.push(ss[i].dup());
                    i = i + 1;
                }
                proof {
                    lemma_view_block(v);
                    lemma_view_block(*ss);
                    assert(stmts_view(v@) =~= stmts_view(ss@));
                }
                Stmt::Block(v)
            },
            Stmt::Let(n, e) => Stmt::Let(n.clone(), e.dup()),
            Stmt::While(c, b) => Stmt::While(c.dup(), Box::new(b.dup())),
            Stmt::For { init, cond, step, block } => Stmt::For {
                init: Box::new(init.dup()),
                cond: cond.dup(),
                step: Box::new(step.dup()),
                block: Box::new(block.dup()),
            },
            Stmt::Fn { name, args, block } => Stmt::Fn {
                name: name.clone(),
                args: dup_strings(args),
                block: Box::new(block.dup()),
            },
            Stmt::If { cond, then_branch, else_branch } => Stmt::If {
                cond: cond.dup(),
                then_branch: Box::new(then_branch.dup()),
                else_branch: match else_branch {
                    Some(b) => Some(Box::new(b.dup())),
                    None => None,
                },
            },
            Stmt::Expr(e) => Stmt::Expr(e.dup()),
            Stmt::Assignment(n, e) => Stmt::Assignment(n.clone(), e.dup()),
            Stmt::Return(e) => Stmt::Return(
                match e {
                    Some(e) => Some(e.dup()),
                    None => None,
                },
            ),
            Stmt::Continue => Stmt::Continue,
            Stmt::Break => Stmt::Break,
            Stmt::Call(n, args) => Stmt::Call(n.clone(), dup_exprs(args)),
        }
    }
}

/// How parsing can fail: with an error message, or where parsing cannot go on
/// (it would read past the last token, or a number literal does not parse).
pub enum Fail {
    Error(Seq<char>),
    Panic,
}

/// A parse result: the value and the position after it, or a failure.
pub type Parsed<T> = Result<(T, nat), Fail>;

/// An error message that points at a token: `"<msg> at <start>..<end>"`.
pub open spec fn at_msg(msg: Seq<char>, t: TokenView) -> Seq<char> {
    msg + " at "@ + decimal(t.start) + ".."@ + decimal(t.end)
}

pub open spec fn sp_check(ts: Seq<TokenView>, p: nat, k: TokenType) -> bool {
    p < ts.len() && ts[p as int].kind == k
}

pub open spec fn sp_next(ts: Seq<TokenView>, p: nat) -> Parsed<TokenView> {
    if p < ts.len() {
        Ok((ts[p as int], p + 1))
    } else {
        Err(Fail::Panic)
    }
}

pub open spec fn sp_expect(ts: Seq<TokenView>, p: nat, k: TokenType, msg: Seq<char>) -> Parsed<TokenView> {
    if sp_check(ts, p, k) {
        Ok((ts[p as int], p + 1))
    } else if p < ts.len() {
        Err(Fail::Error(at_msg(msg, ts[p as int])))
    } else {
        Err(Fail::Panic)
    }
}

/// Left and right binding powers of the infix operators.
pub open spec fn binding_power(k: TokenType) -> Option<(nat, nat)> {
    match k {
        TokenType::Plus | TokenType::Minus => Some((10, 11)),
        TokenType::Times | TokenType::Divide | TokenType::Modulo => Some((20, 21)),
        TokenType::Assign => Some((1, 2)),
        TokenType::Bang => Some((40, 41)),
        TokenType::Less | TokenType::Greater | TokenType::LessEqual | TokenType::GreaterEqual => Some((6, 7)),
        TokenType::EqualEqual | TokenType::NotEqual => Some((5, 6)),
        TokenType::Or => Some((3, 4)),
        TokenType::And => Some((4, 5)),
        _ => None,
    }
}

/// The operator that a compound assignment applies.
pub open spec fn compound_op(k: TokenType) -> Option<TokenType> {
    match k {
        TokenType::PlusEqual => Some(TokenType::Plus),
        TokenType::MinusEqual => Some(TokenType::Minus),
        TokenType::TimesEqual => Some(TokenType::Times),
        TokenType::DivEqual => Some(TokenType::Divide),
        TokenType::ModuloEqual => Some(TokenType::Modulo),
        _ => None,
    }
}

pub open spec fn is_assign_kind(k: TokenType) -> bool {
    k == TokenType::Assign || compound_op(k) is Some
}

/// Whether a sub-parse that started at `p` ended at a later position within the tokens.
pub open spec fn advanced(ts: Seq<TokenView>, p: nat, q: nat) -> bool {
    p < q <= ts.len()
}

/// `expr` parsed with binding power `min_bp` from `p` (Pratt parsing).
pub open spec fn sp_pratt(ts: Seq<TokenView>, min_bp: nat, p: nat) -> Parsed<ExprV>
    decreases ts.len() - p, 0nat,
{
    if p >= ts.len() {
        Err(Fail::Panic)
    } else {
        match sp_nud(ts, ts[p as int], p + 1) {
            Err(f) => Err(f),
            Ok((lhs, q)) => if advanced(ts, p, q) {
                sp_pratt_loop(ts, min_bp, lhs, q)
            } else {
                Err(Fail::Panic)
            },
        }
    }
}

/// The prefix part of an expression, whose first token `tok` was just taken.
pub open spec fn sp_nud(ts: Seq<TokenView>, tok: TokenView, p: nat) -> Parsed<ExprV>
    decreases ts.len() - p, 1nat,
{
    match tok.kind {
        TokenType::Number => match parse_i32_spec(tok.lexeme) {
            Some(n) => Ok((ExprV::Number(n), p)),
            None => Err(Fail::Panic),
        },
        TokenType::String => Ok((ExprV::Str(tok.lexeme), p)),
        TokenType::True => Ok((ExprV::Bool(true), p)),
        TokenType::False => Ok((ExprV::Bool(false), p)),
        TokenType::Identifier => Ok((ExprV::Ident(tok.lexeme), p)),
        TokenType::Minus | TokenType::Bang => if p > ts.len() {
            Err(Fail::Panic)
        } else {
            match sp_pratt(ts, 30, p) {
                Err(f) => Err(f),
                Ok((rhs, q)) => Ok((ExprV::Unary(tok.kind, Box::new(rhs)), q)),
            }
        },
        TokenType::LParen => if p > ts.len() {
            Err(Fail::Panic)
        } else {
            match sp_pratt(ts, 0, p) {
                Err(f) => Err(f),
                Ok((rhs, q)) => match sp_expect(ts, q, TokenType::RParen, "expected ')' after expression"@) {
                    Err(f) => Err(f),
                    Ok((_, q2)) => Ok((ExprV::Group(Box::new(rhs)), q2)),
                },
            }
        },
        _ => if p < ts.len() {
            Err(Fail::Error("unexpected token in nud: "@ + tok.kind.spec_name() + " "@
                + decimal(ts[p as int].start) + ".."@ + decimal(ts[p as int].end)))
        } else {
            Err(Fail::Panic)
        },
    }
}

/// The postfix calls and infix operators that follow `lhs` at `p`.
pub open spec fn sp_pratt_loop(ts: Seq<TokenView>, min_bp: nat, lhs: ExprV, p: nat) -> Parsed<ExprV>
    decreases ts.len() - p, 1nat,
{
    if p >= ts.len() {
        Err(Fail::Panic)
    } else if ts[p as int].kind == TokenType::LParen {
        match sp_args(ts, p) {
            Err(f) => Err(f),
            Ok((args, q)) => if advanced(ts, p, q) {
                sp_pratt_loop(ts, min_bp, ExprV::Callable(Box::new(lhs), args), q)
            } else {
                Err(Fail::Panic)
            },
        }
    } else {
        match binding_power(ts[p as int].kind) {
            None => Ok((lhs, p)),
            Some((lbp, rbp)) => if min_bp > lbp {
                Ok((lhs, p))
            } else {
                match sp_pratt(ts, rbp, p + 1) {
                    Err(f) => Err(f),
                    Ok((rhs, q)) => if advanced(ts, p, q) {
                        sp_pratt_loop(
                            ts,
                            min_bp,
                            ExprV::Binary(Box::new(lhs), ts[p as int].kind, Box::new(rhs)),
                            q,
                        )
                    } else {
                        Err(Fail::Panic)
                    },
                }
            },
        }
    }
}

/// `"(" (expr ("," expr)*)? ")"` at `p`.
pub open spec fn sp_args(ts: Seq<TokenView>, p: nat) -> Parsed<Seq<ExprV>>
    decreases ts.len() - p, 0nat,
{
    match sp_expect(ts, p, TokenType::LParen, "expected '(' after function"@) {
        Err(f) => Err(f),
        Ok((_, p1)) => if sp_check(ts, p1, TokenType::RParen) {
            Ok((seq![], p1 + 1))
        } else {
            match sp_expr(ts, p1) {
                Err(f) => Err(f),
                Ok((a, q)) => if advanced(ts, p, q) {
                    sp_args_rest(ts, seq![a], q)
                } else {
                    Err(Fail::Panic)
                },
            }
        },
    }
}

/// The arguments after the first: `("," expr)* ")"`.
pub open spec fn sp_args_rest(ts: Seq<TokenView>, acc: Seq<ExprV>, p: nat) -> Parsed<Seq<ExprV>>
    decreases ts.len() - p, 0nat,
{
    if p >= ts.len() {
        Err(Fail::Panic)
    } else if ts[p as int].kind == TokenType::Comma {
        match sp_expr(ts, p + 1) {
            Err(f) => Err(f),
            Ok((a, q)) => if advanced(ts, p, q) {
                sp_args_rest(ts, acc.push(a), q)
            } else {
                Err(Fail::Panic)
            },
        }
    } else {
        match sp_expect(ts, p, TokenType::RParen, "expected ')' after function call"@) {
            Err(f) => Err(f),
            Ok((_, q)) => Ok((acc, q)),
        }
    }
}

pub open spec fn sp_expr(ts: Seq<TokenView>, p: nat) -> Parsed<ExprV>
    decreases ts.len() - p, 1nat,
{
    if p > ts.len() {
        Err(Fail::Panic)
    } else {
        sp_pratt(ts, 0, p)
    }
}

/// An expression followed by the `;` that `msg` asks for.
pub open spec fn sp_expr_semi(ts: Seq<TokenView>, p: nat, msg: Seq<char>) -> Parsed<ExprV>
    decreases ts.len() - p, 2nat,
{
    if p > ts.len() {
        Err(Fail::Panic)
    } else {
        match sp_expr(ts, p) {
            Err(f) => Err(f),
            Ok((e, q)) => match sp_expect(ts, q, TokenType::Semicolon, msg) {
                Err(f) => Err(f),
                Ok((_, q2)) => Ok((e, q2)),
            },
        }
    }
}

/// A statement at `p`.
pub open spec fn sp_statement(ts: Seq<TokenView>, p: nat) -> Parsed<StmtV>
    decreases ts.len() - p, 3nat,
{
    if p >= ts.len() {
        Err(Fail::Panic)
    } else {
        match ts[p as int].kind {
            TokenType::LBrace => sp_block(ts, p),
            TokenType::Let => sp_let(ts, p),
            TokenType::While => sp_while(ts, p),
            TokenType::For => sp_for(ts, p),
            TokenType::If => sp_if(ts, p),
            TokenType::Fn => sp_fn(ts, p),
            TokenType::Identifier => if p + 1 >= ts.len() {
                Err(Fail::Panic)
            } else if is_assign_kind(ts[p + 1 as int].kind) {
                match sp_assign(ts, p) {
                    Err(f) => Err(f),
                    Ok((st, q)) => match sp_expect(ts, q, TokenType::Semicolon, "expected ';' after assignment"@) {
                        Err(f) => Err(f),
                        Ok((_, q2)) => Ok((st, q2)),
                    },
                }
            } else if ts[p + 1 as int].kind == TokenType::LParen {
                match sp_args(ts, p + 1) {
                    Err(f) => Err(f),
                    Ok((args, q)) => match sp_expect(ts, q, TokenType::Semicolon, "expected ';' after expression"@) {
                        Err(f) => Err(f),
                        Ok((_, q2)) => Ok((StmtV::Call(ts[p as int].lexeme, args), q2)),
                    },
                }
            } else {
                match sp_expr_semi(ts, p, "expected ';' after expression"@) {
                    Err(f) => Err(f),
                    Ok((e, q)) => Ok((StmtV::Expr(e), q)),
                }
            },
            TokenType::Continue => match sp_expect(ts, p + 1, TokenType::Semicolon, "expected ';' after continue"@) {
                Err(f) => Err(f),
                Ok((_, q)) => Ok((StmtV::Continue, q)),
            },
            TokenType::Break => match sp_expect(ts, p + 1, TokenType::Semicolon, "expected ';' after break"@) {
                Err(f) => Err(f),
                Ok((_, q)) => Ok((StmtV::Break, q)),
            },
            TokenType::Return => if p + 1 >= ts.len() {
                Err(Fail::Panic)
            } else if ts[p + 1 as int].kind != TokenType::Semicolon {
                match sp_expr_semi(ts, p + 1, "expected ';' after return"@) {
                    Err(f) => Err(f),
                    Ok((e, q)) => Ok((StmtV::Return(Some(e)), q)),
                }
            } else {
                Ok((StmtV::Return(None), p + 2))
            },
            _ => match sp_expr_semi(ts, p, "expected ';' after expression"@) {
                Err(f) => Err(f),
                Ok((e, q)) => Ok((StmtV::Expr(e), q)),
            },
        }
    }
}

/// `"{" statement* "}"` at `p`.
pub open spec fn sp_block(ts: Seq<TokenView>, p: nat) -> Parsed<StmtV>
    decreases ts.len() - p, 2nat,
{
    match sp_expect(ts, p, TokenType::LBrace, "expected '{'"@) {
        Err(f) => Err(f),
        Ok((_, p1)) => match sp_block_items(ts, seq![], p1) {
            Err(f) => Err(f),
            Ok((items, q)) => Ok((StmtV::Block(items), q)),
        },
    }
}

/// The statements of a block up to and including its `}`.
pub open spec fn sp_block_items(ts: Seq<TokenView>, acc: Seq<StmtV>, p: nat) -> Parsed<Seq<StmtV>>
    decreases ts.len() - p, 4nat,
{
    if p > ts.len() {
        Err(Fail::Panic)
    } else if sp_check(ts, p, TokenType::RBrace) {
        Ok((acc, p + 1))
    } else {
        match sp_statement(ts, p) {
            Err(f) => Err(f),
            Ok((st, q)) => if advanced(ts, p, q) {
                sp_block_items(ts, acc.push(st), q)
            } else {
                Err(Fail::Panic)
            },
        }
    }
}

/// `"let" IDENT "=" expr ";"` at `p`.
pub open spec fn sp_let(ts: Seq<TokenView>, p: nat) -> Parsed<StmtV>
    decreases ts.len() - p, 2nat,
{
    match sp_expect(ts, p, TokenType::Let, "expected 'let'"@) {
        Err(f) => Err(f),
        Ok((_, p1)) => match sp_expect(ts, p1, TokenType::Identifier, "expected identifier after let"@) {
            Err(f) => Err(f),
            Ok((ident, p2)) => match sp_expect(ts, p2, TokenType::Assign, "expected assignment after identifier"@) {
                Err(f) => Err(f),
                Ok((_, p3)) => match sp_expr_semi(ts, p3, "expected semicolon after let statement"@) {
                    Err(f) => Err(f),
                    Ok((e, q)) => Ok((StmtV::Let(ident.lexeme, e), q)),
                },
            },
        },
    }
}

/// `"(" expr ")" block` at `p`, the condition and body shared by `while` and `if`.
pub open spec fn sp_cond(ts: Seq<TokenView>, p: nat, open_msg: Seq<char>) -> Parsed<ExprV>
    decreases ts.len() - p, 2nat,
{
    match sp_expect(ts, p, TokenType::LParen, open_msg) {
        Err(f) => Err(f),
        Ok((_, p1)) => match sp_expr(ts, p1) {
            Err(f) => Err(f),
            Ok((c, p2)) => match sp_expect(ts, p2, TokenType::RParen, "expected ')' after condition"@) {
                Err(f) => Err(f),
                Ok((_, p3)) => Ok((c, p3)),
            },
        },
    }
}

/// `"while" "(" expr ")" block` at `p`.
pub open spec fn sp_while(ts: Seq<TokenView>, p: nat) -> Parsed<StmtV>
    decreases ts.len() - p, 2nat,
{
    match sp_expect(ts, p, TokenType::While, "expected 'while'"@) {
        Err(f) => Err(f),
        Ok((_, p1)) => match sp_cond(ts, p1, "expected '(' after while"@) {
            Err(f) => Err(f),
            Ok((c, p2)) => if advanced(ts, p, p2) {
                match sp_block(ts, p2) {
                    Err(f) => Err(f),
                    Ok((b, q)) => Ok((StmtV::While(c, Box::new(b)), q)),
                }
            } else {
                Err(Fail::Panic)
            },
        },
    }
}

/// `"for" "(" (letStmt | ";") expr ";" (assignStmt)? ")" block` at `p`.
pub open spec fn sp_for(ts: Seq<TokenView>, p: nat) -> Parsed<StmtV>
    decreases ts.len() - p, 2nat,
{
    match sp_expect(ts, p, TokenType::For, "expected 'for'"@) {
        Err(f) => Err(f),
        Ok((_, p1)) => match sp_expect(ts, p1, TokenType::LParen, "expected '(' after for"@) {
            Err(f) => Err(f),
            Ok((_, p2)) => match sp_for_init(ts, p2) {
                Err(f) => Err(f),
                Ok((init, p3)) => if advanced(ts, p, p3) {
                    match sp_expr_semi(ts, p3, "expected ';' after end condition"@) {
                        Err(f) => Err(f),
                        Ok((cond, p4)) => if advanced(ts, p, p4) {
                            match sp_for_step(ts, p4) {
                                Err(f) => Err(f),
                                Ok((step, p5)) => match sp_expect(ts, p5, TokenType::RParen, "expected ')' after condition"@) {
                                    Err(f) => Err(f),
                                    Ok((_, p6)) => if advanced(ts, p, p6) {
                                        match sp_block(ts, p6) {
                                            Err(f) => Err(f),
                                            Ok((b, q)) => Ok((StmtV::For(Box::new(init), cond, Box::new(step), Box::new(b)), q)),
                                        }
                                    } else {
                                        Err(Fail::Panic)
                                    },
                                },
                            }
                        } else {
                            Err(Fail::Panic)
                        },
                    }
                } else {
                    Err(Fail::Panic)
                },
            },
        },
    }
}

/// The initialisation of a `for` loop: a `let` statement, or `;` alone.
pub open spec fn sp_for_init(ts: Seq<TokenView>, p: nat) -> Parsed<StmtV>
    decreases ts.len() - p, 3nat,
{
    if p >= ts.len() {
        Err(Fail::Panic)
    } else if ts[p as int].kind == TokenType::Let {
        sp_let(ts, p)
    } else if ts[p as int].kind == TokenType::Semicolon {
        Ok((StmtV::Expr(ExprV::Null), p + 1))
    } else {
        Err(Fail::Error("unexpected error while parsing init in for loop, found "@
            + ts[p as int].kind.spec_name() + " expected ';'"@))
    }
}

/// The step of a `for` loop: an assignment, or nothing before `)`.
pub open spec fn sp_for_step(ts: Seq<TokenView>, p: nat) -> Parsed<StmtV>
    decreases ts.len() - p, 3nat,
{
    if p >= ts.len() {
        Err(Fail::Panic)
    } else if ts[p as int].kind == TokenType::Identifier {
        sp_assign(ts, p)
    } else if ts[p as int].kind == TokenType::RParen {
        Ok((StmtV::Expr(ExprV::Null), p))
    } else {
        Err(Fail::Error("unexpected error while parsing step in for loop, found "@
            + ts[p as int].kind.spec_name() + " expected ')'"@))
    }
}

/// `("if" | "elif") "(" expr ")" block ("elif" ... | "else" block)?` at `p`.
pub open spec fn sp_if(ts: Seq<TokenView>, p: nat) -> Parsed<StmtV>
    decreases ts.len() - p, 2nat,
{
    match sp_next(ts, p) {
        Err(f) => Err(f),
        Ok((_, p1)) => match sp_cond(ts, p1, "expected '(' after while"@) {
            Err(f) => Err(f),
            Ok((c, p2)) => if advanced(ts, p, p2) {
                match sp_block(ts, p2) {
                    Err(f) => Err(f),
                    Ok((b, p3)) => if advanced(ts, p, p3) {
                        match sp_else(ts, p3) {
                            Err(f) => Err(f),
                            Ok((e, q)) => Ok((StmtV::If(c, Box::new(b), e), q)),
                        }
                    } else {
                        Err(Fail::Panic)
                    },
                }
            } else {
                Err(Fail::Panic)
            },
        },
    }
}

/// What follows the block of an `if`: an `elif` chain, an `else` block (kept
/// as an `if (true)`), or nothing.
pub open spec fn sp_else(ts: Seq<TokenView>, p: nat) -> Parsed<Option<Box<StmtV>>>
    decreases ts.len() - p, 3nat,
{
    if p >= ts.len() {
        Err(Fail::Panic)
    } else if ts[p as int].kind == TokenType::Elif {
        match sp_if(ts, p) {
            Err(f) => Err(f),
            Ok((e, q)) => Ok((Some(Box::new(e)), q)),
        }
    } else if ts[p as int].kind == TokenType::Else {
        match sp_block(ts, p + 1) {
            Err(f) => Err(f),
            Ok((eb, q)) => Ok((Some(Box::new(StmtV::If(ExprV::Bool(true), Box::new(eb), None))), q)),
        }
    } else {
        Ok((None, p))
    }
}

/// `"fn" IDENT "(" (IDENT ("," IDENT)*)? ")" block` at `p`.
pub open spec fn sp_fn(ts: Seq<TokenView>, p: nat) -> Parsed<StmtV>
    decreases ts.len() - p, 2nat,
{
    match sp_next(ts, p) {
        Err(f) => Err(f),
        Ok((_, p1)) => match sp_next(ts, p1) {
            Err(f) => Err(f),
            Ok((name, p2)) => match sp_expect(ts, p2, TokenType::LParen, "expected '(' after fn definition"@) {
                Err(f) => Err(f),
                Ok((_, p3)) => match sp_params(ts, p3) {
                    Err(f) => Err(f),
                    Ok((params, p4)) => if advanced(ts, p, p4) {
                        match sp_block(ts, p4) {
                            Err(f) => Err(f),
                            Ok((b, q)) => Ok((StmtV::Fn(name.lexeme, params, Box::new(b)), q)),
                        }
                    } else {
                        Err(Fail::Panic)
                    },
                },
            },
        },
    }
}

/// The parameter names of a function up to and including `)`.
pub open spec fn sp_params(ts: Seq<TokenView>, p: nat) -> Parsed<Seq<Seq<char>>> {
    if sp_check(ts, p, TokenType::RParen) {
        Ok((seq![], p + 1))
    } else {
        match sp_expect(ts, p, TokenType::Identifier, "func arg names can only be identifiers"@) {
            Err(f) => Err(f),
            Ok((first, p1)) => sp_params_rest(ts, seq![first.lexeme], p1),
        }
    }
}

pub open spec fn sp_params_rest(ts: Seq<TokenView>, acc: Seq<Seq<char>>, p: nat) -> Parsed<Seq<Seq<char>>>
    decreases ts.len() - p,
{
    if p >= ts.len() {
        Err(Fail::Panic)
    } else if ts[p as int].kind == TokenType::RParen {
        Ok((acc, p + 1))
    } else {
        match sp_expect(ts, p, TokenType::Comma, "expected ',' between args"@) {
            Err(f) => Err(f),
            Ok((_, p1)) => match sp_expect(ts, p1, TokenType::Identifier, "func arg names can only be identifiers"@) {
                Err(f) => Err(f),
                Ok((id, p2)) => sp_params_rest(ts, acc.push(id.lexeme), p2),
            },
        }
    }
}

/// `IDENT ("=" | "+=" | "-=" | "*=" | "/=" | "%=") expr` at `p`.
pub open spec fn sp_assign(ts: Seq<TokenView>, p: nat) -> Parsed<StmtV>
    decreases ts.len() - p, 2nat,
{
    match sp_next(ts, p) {
        Err(f) => Err(f),
        Ok((name, p1)) => if p1 >= ts.len() {
            Err(Fail::Panic)
        } else {
            match compound_op(ts[p1 as int].kind) {
                Some(op) => match sp_expr(ts, p1 + 1) {
                    Err(f) => Err(f),
                    Ok((e, q)) => Ok((
                        StmtV::Assignment(
                            name.lexeme,
                            ExprV::Binary(Box::new(ExprV::Ident(name.lexeme)), op, Box::new(e)),
                        ),
                        q,
                    )),
                },
                None => match sp_expect(ts, p1, TokenType::Assign, "expected assignment"@) {
                    Err(f) => Err(f),
                    Ok((_, p2)) => match sp_expr(ts, p2) {
                        Err(f) => Err(f),
                        Ok((e, q)) => Ok((StmtV::Assignment(name.lexeme, e), q)),
                    },
                },
            }
        },
    }
}

/// The statements from `p` up to the end of the tokens or an `EOF` token.
pub open spec fn sp_program(ts: Seq<TokenView>, acc: Seq<StmtV>, p: nat) -> Parsed<Seq<StmtV>>
    decreases ts.len() - p, 5nat,
{
    if p < ts.len() && ts[p as int].kind != TokenType::EOF {
        match sp_statement(ts, p) {
            Err(f) => Err(f),
            Ok((st, q)) => if advanced(ts, p, q) {
                sp_program(ts, acc.push(st), q)
            } else {
                Err(Fail::Panic)
            },
        }
    } else {
        Ok((acc, p))
    }
}

proof fn lemma_pratt_loop_pos(ts: Seq<TokenView>, min_bp: nat, lhs: ExprV, p: nat)
    ensures
        sp_pratt_loop(ts, min_bp, lhs, p) matches Ok((e, q)) ==> p <= q < ts.len(),
    decreases ts.len() - p,
{
    if p < ts.len() {
        if ts[p as int].kind == TokenType::LParen {
            match sp_args(ts, p) {
                Ok((args, q)) => if advanced(ts, p, q) {
                    lemma_pratt_loop_pos(ts, min_bp, ExprV::Callable(Box::new(lhs), args), q);
                },
                Err(_) => {},
            }
        } else {
            match binding_power(ts[p as int].kind) {
                Some((lbp, rbp)) => if min_bp <= lbp {
                    match sp_pratt(ts, rbp, p + 1) {
                        Ok((rhs, q)) => if advanced(ts, p, q) {
                            lemma_pratt_loop_pos(
                                ts,
                                min_bp,
                                ExprV::Binary(Box::new(lhs), ts[p as int].kind, Box::new(rhs)),
                                q,
                            );
                        },
                        Err(_) => {},
                    }
                },
                None => {},
            }
        }
    }
}

proof fn lemma_expr_pos(ts: Seq<TokenView>, p: nat)
    ensures
        sp_expr(ts, p) matches Ok((e, q)) ==> p < q < ts.len(),
{
    if p < ts.len() {
        match sp_nud(ts, ts[p as int], p + 1) {
            Ok((lhs, q)) => if advanced(ts, p, q) {
                lemma_pratt_loop_pos(ts, 0, lhs, q);
            },
            Err(_) => {},
        }
    }
}

proof fn lemma_expr_semi_pos(ts: Seq<TokenView>, p: nat, msg: Seq<char>)
    ensures
        sp_expr_semi(ts, p, msg) matches Ok((e, q)) ==> p < q <= ts.len()
            && ts[q - 1].kind == TokenType::Semicolon,
{
    lemma_expr_pos(ts, p);
}

proof fn lemma_block_items_pos(ts: Seq<TokenView>, acc: Seq<StmtV>, p: nat)
    ensures
        sp_block_items(ts, acc, p) matches Ok((items, q)) ==> p < q <= ts.len()
            && ts[q - 1].kind == TokenType::RBrace,
    decreases ts.len() - p,
{
    if p <= ts.len() && !sp_check(ts, p, TokenType::RBrace) {
        match sp_statement(ts, p) {
            Ok((st, q)) => if advanced(ts, p, q) {
                lemma_block_items_pos(ts, acc.push(st), q);
            },
            Err(_) => {},
        }
    }
}

proof fn lemma_block_pos(ts: Seq<TokenView>, p: nat)
    ensures
        sp_block(ts, p) matches Ok((b, q)) ==> p < q <= ts.len() && ts[q - 1].kind == TokenType::RBrace,
{
    lemma_block_items_pos(ts, seq![], p + 1);
}

proof fn lemma_if_pos(ts: Seq<TokenView>, p: nat)
    ensures
        sp_if(ts, p) matches Ok((s, q)) ==> p < q <= ts.len() && ts[q - 1].kind == TokenType::RBrace,
    decreases ts.len() - p,
{
    match sp_next(ts, p) {
        Ok((_, p1)) => match sp_cond(ts, p1, "expected '(' after while"@) {
            Ok((c, p2)) => if advanced(ts, p, p2) {
                lemma_block_pos(ts, p2);
                match sp_block(ts, p2) {
                    Ok((b, p3)) => if advanced(ts, p, p3) {
                        if p3 < ts.len() && ts[p3 as int].kind == TokenType::Elif {
                            lemma_if_pos(ts, p3);
                        } else if p3 < ts.len() && ts[p3 as int].kind == TokenType::Else {
                            lemma_block_pos(ts, p3 + 1);
                        }
                    },
                    Err(_) => {},
                }
            },
            Err(_) => {},
        },
        Err(_) => {},
    }
}

proof fn lemma_args_rest_pos(ts: Seq<TokenView>, acc: Seq<ExprV>, p: nat)
    ensures
        sp_args_rest(ts, acc, p) matches Ok((a, q)) ==> p < q <= ts.len(),
    decreases ts.len() - p,
{
    if p < ts.len() && ts[p as int].kind == TokenType::Comma {
        match sp_expr(ts, p + 1) {
            Ok((a, q)) => if advanced(ts, p, q) {
                lemma_args_rest_pos(ts, acc.push(a), q);
            },
            Err(_) => {},
        }
    }
}

proof fn lemma_args_pos(ts: Seq<TokenView>, p: nat)
    ensures
        sp_args(ts, p) matches Ok((a, q)) ==> p < q <= ts.len(),
{
    if sp_check(ts, p, TokenType::LParen) && !sp_check(ts, p + 1, TokenType::RParen) {
        match sp_expr(ts, p + 1) {
            Ok((a, q)) => if advanced(ts, p, q) {
                lemma_args_rest_pos(ts, seq![a], q);
            },
            Err(_) => {},
        }
    }
}

proof fn lemma_assign_pos(ts: Seq<TokenView>, p: nat)
    ensures
        sp_assign(ts, p) matches Ok((st, q)) ==> p < q <= ts.len(),
{
    if p + 1 < ts.len() {
        lemma_expr_pos(ts, p + 2);
    }
}

proof fn lemma_let_pos(ts: Seq<TokenView>, p: nat)
    ensures
        sp_let(ts, p) matches Ok((st, q)) ==> p < q <= ts.len() && ts[q - 1].kind == TokenType::Semicolon,
{
    lemma_expr_semi_pos(ts, p + 3, "expected semicolon after let statement"@);
}

proof fn lemma_while_pos(ts: Seq<TokenView>, p: nat)
    ensures
        sp_while(ts, p) matches Ok((st, q)) ==> p < q <= ts.len() && ts[q - 1].kind == TokenType::RBrace,
{
    match sp_cond(ts, p + 1, "expected '(' after while"@) {
        Ok((c, p2)) => lemma_block_pos(ts, p2),
        Err(_) => {},
    }
}

proof fn lemma_for_pos(ts: Seq<TokenView>, p: nat)
    ensures
        sp_for(ts, p) matches Ok((st, q)) ==> p < q <= ts.len() && ts[q - 1].kind == TokenType::RBrace,
{
    match sp_for_init(ts, p + 2) {
        Ok((init, p3)) => match sp_expr_semi(ts, p3, "expected ';' after end condition"@) {
            Ok((cond, p4)) => match sp_for_step(ts, p4) {
                Ok((step, p5)) => lemma_block_pos(ts, p5 + 1),
                Err(_) => {},
            },
            Err(_) => {},
        },
        Err(_) => {},
    }
}

proof fn lemma_fn_pos(ts: Seq<TokenView>, p: nat)
    ensures
        sp_fn(ts, p) matches Ok((st, q)) ==> p < q <= ts.len() && ts[q - 1].kind == TokenType::RBrace,
{
    match sp_params(ts, p + 3) {
        Ok((params, p4)) => lemma_block_pos(ts, p4),
        Err(_) => {},
    }
}

/// A statement that parses takes at least one token and ends with the `;`
/// or `}` that it took last; so where the tokens end with `EOF`, as lexing
/// gives them, a statement never takes the `EOF`.
#[verifier::spinoff_prover]
#[verifier::rlimit(50)]
pub proof fn law_statement_progress(ts: Seq<TokenView>, p: nat)
    ensures
        sp_statement(ts, p) matches Ok((st, q)) ==> {
            &&& p < q <= ts.len()
            &&& ts[q - 1].kind == TokenType::Semicolon || ts[q - 1].kind == TokenType::RBrace
            &&& (ts.len() > 0 && ts.last().kind == TokenType::EOF ==> q < ts.len())
        },
{
    if p < ts.len() {
        let k = ts[p as int].kind;
        if k == TokenType::LBrace {
            lemma_block_pos(ts, p);
        } else if k == TokenType::Let {
            lemma_let_pos(ts, p);
        } else if k == TokenType::While {
            lemma_while_pos(ts, p);
        } else if k == TokenType::For {
            lemma_for_pos(ts, p);
        } else if k == TokenType::If {
            lemma_if_pos(ts, p);
        } else if k == TokenType::Fn {
            lemma_fn_pos(ts, p);
        } else if k == TokenType::Identifier {
            lemma_assign_pos(ts, p);
            lemma_args_pos(ts, p + 1);
            lemma_expr_semi_pos(ts, p, "expected ';' after expression"@);
        } else if k == TokenType::Return {
            lemma_expr_semi_pos(ts, p + 1, "expected ';' after return"@);
        } else {
            lemma_expr_semi_pos(ts, p, "expected ';' after expression"@);
        }
    }
}

/// Parsing a program reads statements until the `EOF` token: where it
/// succeeds, it stops at an `EOF` token or past the last token, never before.
pub proof fn law_parse_stops_at_eof(ts: Seq<TokenView>, acc: Seq<StmtV>, p: nat)
    requires
        p <= ts.len(),
    ensures
        sp_program(ts, acc, p) matches Ok((ss, q)) ==> p <= q <= ts.len()
            && (q == ts.len() || ts[q as int].kind == TokenType::EOF),
    decreases ts.len() - p,
{
    if p < ts.len() && ts[p as int].kind != TokenType::EOF {
        match sp_statement(ts, p) {
            Ok((st, q)) => if advanced(ts, p, q) {
                law_parse_stops_at_eof(ts, acc.push(st), q);
            },
            Err(_) => {},
        }
    }
}

proof fn lemma_program_end(ts: Seq<TokenView>, acc: Seq<StmtV>, p: nat)
    requires
        ts.len() > 0,
        ts.last().kind == TokenType::EOF,
        p < ts.len(),
    ensures
        sp_program(ts, acc, p) matches Ok((ss, q)) ==> q < ts.len() && ts[q as int].kind == TokenType::EOF,
    decreases ts.len() - p,
{
    if ts[p as int].kind != TokenType::EOF {
        law_statement_progress(ts, p);
        match sp_statement(ts, p) {
            Ok((st, q)) => if advanced(ts, p, q) {
                lemma_program_end(ts, acc.push(st), q);
            },
            Err(_) => {},
        }
    }
}

/// The parser reads the whole of what the lexer gives: where lexing and
/// parsing both succeed, parsing stops at the final `EOF`, having taken every
/// token before it.
pub proof fn law_parse_reads_all_tokens(cs: Seq<char>)
    ensures
        lex_from(cs, 0) matches Some(ts) ==> (sp_program(ts, seq![], 0) matches Ok((ss, q)) ==> q == ts.len() - 1),
{
    law_tokens(cs, 0);
    match lex_from(cs, 0) {
        Some(ts) => {
            lemma_program_end(ts, seq![], 0);
        },
        None => {},
    }
}

/// How tightly an infix operator binds on its left.
pub open spec fn left_bp(k: TokenType) -> nat {
    match binding_power(k) {
        Some((l, _)) => l,
        None => 0,
    }
}

/// A token that is a whole expression on its own: a number that fits in
/// `i32`, a string, `true`, `false` or a name.
pub open spec fn is_atom(t: TokenView) -> bool {
    ||| t.kind == TokenType::Number && parse_i32_spec(t.lexeme) is Some
    ||| t.kind == TokenType::String
    ||| t.kind == TokenType::True
    ||| t.kind == TokenType::False
    ||| t.kind == TokenType::Identifier
}

/// The expression of an atom.
pub open spec fn atom_expr(t: TokenView) -> ExprV {
    if t.kind == TokenType::Number {
        ExprV::Number(parse_i32_spec(t.lexeme)->0)
    } else if t.kind == TokenType::String {
        ExprV::Str(t.lexeme)
    } else if t.kind == TokenType::True {
        ExprV::Bool(true)
    } else if t.kind == TokenType::False {
        ExprV::Bool(false)
    } else {
        ExprV::Ident(t.lexeme)
    }
}

proof fn lemma_atom_then(ts: Seq<TokenView>, min_bp: nat, p: nat)
    requires
        p + 1 < ts.len(),
        is_atom(ts[p as int]),
        ts[p + 1 as int].kind != TokenType::LParen,
    ensures
        sp_pratt(ts, min_bp, p) == sp_pratt_loop(ts, min_bp, atom_expr(ts[p as int]), p + 1),
{
}

/// Binary operators group by precedence, and operators of the same
/// precedence group to the left: `x o1 y o2 z;` (three atoms) parses as
/// `(x o1 y) o2 z` when `o1` binds at least as tightly as `o2`, and as
/// `x o1 (y o2 z)` otherwise.
pub proof fn law_precedence(ts: Seq<TokenView>)
    requires
        ts.len() >= 6,
        is_atom(ts[0]),
        is_atom(ts[2]),
        is_atom(ts[4]),
        binding_power(ts[1].kind) is Some,
        binding_power(ts[3].kind) is Some,
        ts[5].kind == TokenType::Semicolon,
    ensures
        ({
            let (x, y, z) = (atom_expr(ts[0]), atom_expr(ts[2]), atom_expr(ts[4]));
            let (o1, o2) = (ts[1].kind, ts[3].kind);
            sp_expr(ts, 0) == Ok::<(ExprV, nat), Fail>((
                if left_bp(o1) >= left_bp(o2) {
                    ExprV::Binary(Box::new(ExprV::Binary(Box::new(x), o1, Box::new(y))), o2, Box::new(z))
                } else {
                    ExprV::Binary(Box::new(x), o1, Box::new(ExprV::Binary(Box::new(y), o2, Box::new(z))))
                },
                5nat,
            ))
        }),
{
    let (x, y, z) = (atom_expr(ts[0]), atom_expr(ts[2]), atom_expr(ts[4]));
    let (o1, o2) = (ts[1].kind, ts[3].kind);
    let (l1, r1) = binding_power(o1)->0;
    let (l2, r2) = binding_power(o2)->0;
    assert(r1 == l1 + 1 && r2 == l2 + 1);
    assert(o1 != TokenType::LParen && o2 != TokenType::LParen);
    assert(binding_power(TokenType::Semicolon) is None);
    lemma_atom_then(ts, 0, 0);
    lemma_atom_then(ts, r1, 2);
    lemma_atom_then(ts, r2, 4);
    let yz = ExprV::Binary(Box::new(y), o2, Box::new(z));
    let xy = ExprV::Binary(Box::new(x), o1, Box::new(y));
    assert(sp_pratt_loop(ts, r2, z, 5) == Ok::<(ExprV, nat), Fail>((z, 5nat)));
    assert(sp_pratt(ts, r2, 4) == Ok::<(ExprV, nat), Fail>((z, 5nat)));
    if l1 >= l2 {
        assert(sp_pratt_loop(ts, r1, y, 3) == Ok::<(ExprV, nat), Fail>((y, 3nat)));
        assert(sp_pratt(ts, r1, 2) == Ok::<(ExprV, nat), Fail>((y, 3nat)));
        let e = ExprV::Binary(Box::new(xy), o2, Box::new(z));
        assert(sp_pratt_loop(ts, 0, e, 5) == Ok::<(ExprV, nat), Fail>((e, 5nat)));
        assert(sp_pratt_loop(ts, 0, xy, 3) == Ok::<(ExprV, nat), Fail>((e, 5nat)));
        assert(sp_pratt_loop(ts, 0, x, 1) == Ok::<(ExprV, nat), Fail>((e, 5nat)));
    } else {
        assert(sp_pratt_loop(ts, r1, yz, 5) == Ok::<(ExprV, nat), Fail>((yz, 5nat)));
        assert(sp_pratt_loop(ts, r1, y, 3) == Ok::<(ExprV, nat), Fail>((yz, 5nat)));
        assert(sp_pratt(ts, r1, 2) == Ok::<(ExprV, nat), Fail>((yz, 5nat)));
        let e = ExprV::Binary(Box::new(x), o1, Box::new(yz));
        assert(sp_pratt_loop(ts, 0, e, 5) == Ok::<(ExprV, nat), Fail>((e, 5nat)));
        assert(sp_pratt_loop(ts, 0, x, 1) == Ok::<(ExprV, nat), Fail>((e, 5nat)));
    }
}

/// The precedence of the infix operators, loosest first: assignment, `||`,
/// `&&`, `==` and `!=`, the orderings `<`, `>`, `<=` and `>=`, `+` and `-`,
/// and last `*`, `/` and `%`, which bind alike.
pub proof fn law_precedence_levels()
    ensures
        binding_power(TokenType::Assign) is Some && binding_power(TokenType::Or) is Some
            && binding_power(TokenType::And) is Some && binding_power(TokenType::EqualEqual) is Some
            && binding_power(TokenType::NotEqual) is Some && binding_power(TokenType::Less) is Some
            && binding_power(TokenType::Greater) is Some && binding_power(TokenType::LessEqual) is Some
            && binding_power(TokenType::GreaterEqual) is Some && binding_power(TokenType::Plus) is Some
            && binding_power(TokenType::Minus) is Some && binding_power(TokenType::Times) is Some
            && binding_power(TokenType::Divide) is Some && binding_power(TokenType::Modulo) is Some,
        left_bp(TokenType::Assign) < left_bp(TokenType::Or),
        left_bp(TokenType::Or) < left_bp(TokenType::And),
        left_bp(TokenType::And) < left_bp(TokenType::EqualEqual),
        left_bp(TokenType::EqualEqual) < left_bp(TokenType::Less),
        left_bp(TokenType::Less) < left_bp(TokenType::Plus),
        left_bp(TokenType::Plus) < left_bp(TokenType::Times),
        left_bp(TokenType::EqualEqual) == left_bp(TokenType::NotEqual),
        left_bp(TokenType::Less) == left_bp(TokenType::Greater),
        left_bp(TokenType::Less) == left_bp(TokenType::LessEqual),
        left_bp(TokenType::Less) == left_bp(TokenType::GreaterEqual),
        left_bp(TokenType::Plus) == left_bp(TokenType::Minus),
        left_bp(TokenType::Times) == left_bp(TokenType::Divide),
        left_bp(TokenType::Times) == left_bp(TokenType::Modulo),
{
}

/// Whether `k` is `+` or `-`.
pub open spec fn additive(k: TokenType) -> bool {
    k == TokenType::Plus || k == TokenType::Minus
}

/// Whether `k` is `*`, `/` or `%`.
pub open spec fn multiplicative(k: TokenType) -> bool {
    k == TokenType::Times || k == TokenType::Divide || k == TokenType::Modulo
}

/// `*`, `/` and `%` bind tighter than `+` and `-`, on either side: with
/// three atoms, `x + y % z;` parses as `x + (y % z)` and `x % y + z;` as
/// `(x % y) + z`.
pub proof fn law_multiplicative_binds_tighter(ts: Seq<TokenView>)
    requires
        ts.len() >= 6,
        is_atom(ts[0]),
        is_atom(ts[2]),
        is_atom(ts[4]),
        ts[5].kind == TokenType::Semicolon,
        (additive(ts[1].kind) && multiplicative(ts[3].kind)) || (multiplicative(ts[1].kind) && additive(ts[3].kind)),
    ensures
        ({
            let (x, y, z) = (atom_expr(ts[0]), atom_expr(ts[2]), atom_expr(ts[4]));
            let (o1, o2) = (ts[1].kind, ts[3].kind);
            sp_expr(ts, 0) == Ok::<(ExprV, nat), Fail>((
                if additive(o1) {
                    ExprV::Binary(Box::new(x), o1, Box::new(ExprV::Binary(Box::new(y), o2, Box::new(z))))
                } else {
                    ExprV::Binary(Box::new(ExprV::Binary(Box::new(x), o1, Box::new(y))), o2, Box::new(z))
                },
                5nat,
            ))
        }),
{
    law_precedence_levels();
    law_precedence(ts);
}

/// How a parse step failed: an error message for the user, or a point where
/// parsing cannot go on (past the last token, or a malformed number).
pub enum Failure {
    Error(String),
    Panic,
}

impl Failure {
    pub open spec fn view(&self) -> Fail {
        match self {
            Failure::Error(m) => Fail::Error(m@),
            Failure::Panic => Fail::Panic,
        }
    }
}

/// The mathematical content of a parse step's result and end position.
pub open spec fn lift<T, V>(r: Result<T, Failure>, q: nat, f: spec_fn(T) -> V) -> Parsed<V> {
    match r {
        Ok(v) => Ok((f(v), q)),
        Err(e) => Err(e.view()),
    }
}

pub open spec fn view_expr(e: Expr) -> ExprV {
    e.view()
}

pub open spec fn view_stmt(s: Stmt) -> StmtV {
    s.view()
}

pub open spec fn view_exprs(v: Vec<Expr>) -> Seq<ExprV> {
    exprs_view(v@)
}

pub open spec fn view_stmts(v: Vec<Stmt>) -> Seq<StmtV> {
    stmts_view(v@)
}

pub open spec fn view_token(t: Token) -> TokenView {
    t@
}

pub open spec fn view_else(e: Option<Box<Stmt>>) -> Option<Box<StmtV>> {
    match e {
        Some(b) => Some(Box::new(b.view())),
        None => None,
    }
}

pub open spec fn view_strings(v: Vec<String>) -> Seq<Seq<char>> {
    strings_view(v@)
}

/// `"<msg> at <start>..<end>"`.
fn at_message(msg: &str, start: usize, end: usize) -> (s: String)
    ensures
        s@ == msg@ + " at "@ + decimal(start as nat) + ".."@ + decimal(end as nat),
{
    let mut s = String::from_str(msg);
    s.append(" at ");
    let a = decimal_string(start);
    s.append(a.as_str());
    s.append("..");
    let b = decimal_string(end);
    s.append(b.as_str());
    s
}

/// Turns tokens into statements.
pub struct Parser {
    tokens: Vec<Token>,
    pos: usize,
}

impl Parser {
    /// The tokens being parsed.
    pub closed spec fn toks(&self) -> Seq<TokenView> {
        tokens_view(self.tokens@)
    }

    /// The position of the next token to parse.
    pub closed spec fn position(&self) -> nat {
        self.pos as nat
    }

    pub closed spec fn wf(&self) -> bool {
        self.pos <= self.tokens@.len()
    }

    pub fn new(tokens: Vec<Token>) -> (p: Self)
        ensures
            p.wf(),
            p.toks() == tokens_view(tokens@),
            p.position() == 0,
    {
        Self { tokens, pos: 0 }
    }

    /// All statements up to the end of the tokens or `EOF`.
    pub fn parse(&mut self) -> (r: Result<Vec<Stmt>, String>)
        requires
            old(self).wf(),
            sp_program(old(self).toks(), seq![], old(self).position()) != Err::<(Seq<StmtV>, nat), Fail>(Fail::Panic),
        ensures
            final(self).wf(),
            final(self).toks() == old(self).toks(),
            match sp_program(old(self).toks(), seq![], old(self).position()) {
                Ok((ss, q)) => r matches Ok(v) && stmts_view(v@) == ss && final(self).position() == q,
                Err(Fail::Error(m)) => r matches Err(e) && e@ == m,
                Err(Fail::Panic) => false,
            },
    {
        match self.parse_program() {
            Ok(v) => Ok(v),
            Err(Failure::Error(m)) => Err(m),
            Err(Failure::Panic) => Err(String::new()),
        }
    }

    /// As `parse`, or `None` where parsing these tokens would panic.
    pub fn try_parse(&mut self) -> (r: Option<Result<Vec<Stmt>, String>>)
        requires
            old(self).wf(),
        ensures
            final(self).wf(),
            final(self).toks() == old(self).toks(),
            match sp_program(old(self).toks(), seq![], old(self).position()) {
                Ok((ss, q)) => r matches Some(Ok(v)) && stmts_view(v@) == ss && final(self).position() == q,
                Err(Fail::Error(m)) => r matches Some(Err(e)) && e@ == m,
                Err(Fail::Panic) => r is None,
            },
    {
        match self.parse_program() {
            Ok(v) => Some(Ok(v)),
            Err(Failure::Error(m)) => Some(Err(m)),
            Err(Failure::Panic) => None,
        }
    }

    fn parse_program(&mut self) -> (r: Result<Vec<Stmt>, Failure>)
        requires
            old(self).wf(),
        ensures
            final(self).wf(),
            final(self).tokens@ == old(self).tokens@,
            lift(r, final(self).pos as nat, |v: Vec<Stmt>| view_stmts(v))
                == sp_program(old(self).toks(), seq![], old(self).pos as nat),
    {
        let mut statements: Vec<Stmt> = Vec::new();
        let ghost ts = self.toks();
        let ghost p0 = self.pos as nat;
        assert(stmts_view(statements@) =~= seq![]);
        while self.pos < self.tokens.len() && self.peek().kind != TokenType::EOF
            invariant
                self.wf(),
                self.tokens@ == old(self).tokens@,
                ts == self.toks(),
                p0 == old(self).pos,
                sp_program(ts, seq![], p0) == sp_program(ts, stmts_view(statements@), self.pos as nat),
            decreases self.tokens@.len() - self.pos,
        {
            let ghost p = self.pos as nat;
            let ghost before = statements@;
            match self.parse_statement_inner() {
                Ok(st) => {
                    statements.push(st);
                    assert(stmts_view(statements@) =~= stmts_view(before).push(st.view()));
                },
                Err(f) => {
                    return Err(f);
                },
            }
        }
        Ok(statements)
    }

    /// One statement.
    pub fn parse_statement(&mut self) -> (r: Result<Stmt, String>)
        requires
            old(self).wf(),
            sp_statement(old(self).toks(), old(self).position()) != Err::<(StmtV, nat), Fail>(Fail::Panic),
        ensures
            final(self).wf(),
            final(self).toks() == old(self).toks(),
            match sp_statement(old(self).toks(), old(self).position()) {
                Ok((st, q)) => r matches Ok(v) && v.view() == st && final(self).position() == q,
                Err(Fail::Error(m)) => r matches Err(e) && e@ == m,
                Err(Fail::Panic) => false,
            },
    {
        match self.parse_statement_inner() {
            Ok(v) => Ok(v),
            Err(Failure::Error(m)) => Err(m),
            Err(Failure::Panic) => Err(String::new()),
        }
    }

    #[verifier::spinoff_prover]
    #[verifier::rlimit(30)]
    fn parse_statement_inner(&mut self) -> (r: Result<Stmt, Failure>)
        requires
            old(self).wf(),
        ensures
            final(self).wf(),
            final(self).tokens@ == old(self).tokens@,
            lift(r, final(self).pos as nat, |s: Stmt| view_stmt(s))
                == sp_statement(old(self).toks(), old(self).pos as nat),
            r is Ok ==> old(self).pos < final(self).pos,
        decreases old(self).tokens@.len() - old(self).pos, 3nat,
    {
        if self.pos >= self.tokens.len() {
            return Err(Failure::Panic);
        }
        let kind = self.peek().kind;
        match kind {
            TokenType::LBrace => self.parse_block(),
            TokenType::Let => self.parse_let(),
            TokenType::While => self.parse_while(),
            TokenType::For => self.parse_for(),
            TokenType::If => self.parse_if(),
            TokenType::Fn => self.parse_fn(),
            TokenType::Identifier => {
                if self.pos + 1 >= self.tokens.len() {
                    return Err(Failure::Panic);
                }
                let next_kind = self.at(1).kind;
                if is_assign(next_kind) {
                    let ret = match self.parse_assign() {
                        Ok(st) => st,
                        Err(f) => return Err(f),
                    };
                    match self.expect(TokenType::Semicolon, "expected ';' after assignment") {
                        Ok(_) => Ok(ret),
                        Err(f) => Err(f),
                    }
                } else if next_kind == TokenType::LParen {
                    let name = self.next().lexeme;
                    let args = match self.parse_args() {
                        Ok(a) => a,
                        Err(f) => return Err(f),
                    };
                    match self.expect(TokenType::Semicolon, "expected ';' after expression") {
                        Ok(_) => {
                            let st = Stmt::Call(name, args);
                            assert(st.view() == StmtV::Call(name@, exprs_view(args@)));
                            Ok(st)
                        },
                        Err(f) => Err(f),
                    }
                } else {
                    match self.parse_expr_semi("expected ';' after expression") {
                        Ok(e) => Ok(Stmt::Expr(e)),
                        Err(f) => Err(f),
                    }
                }
            },
            TokenType::Continue => {
                self.next();
                match self.expect(TokenType::Semicolon, "expected ';' after continue") {
                    Ok(_) => Ok(Stmt::Continue),
                    Err(f) => Err(f),
                }
            },
            TokenType::Break => {
                self.next();
                match self.expect(TokenType::Semicolon, "expected ';' after break") {
                    Ok(_) => Ok(Stmt::Break),
                    Err(f) => Err(f),
                }
            },
            TokenType::Return => {
                self.next();
                if self.pos >= self.tokens.len() {
                    return Err(Failure::Panic);
                }
                if self.peek().kind != TokenType::Semicolon {
                    match self.parse_expr_semi("expected ';' after return") {
                        Ok(e) => Ok(Stmt::Return(Some(e))),
                        Err(f) => Err(f),
                    }
                } else {
                    match self.expect(TokenType::Semicolon, "expected ';' after return") {
                        Ok(_) => Ok(Stmt::Return(None)),
                        Err(f) => Err(f),
                    }
                }
            },
            _ => {
                match self.parse_expr_semi("expected ';' after expression") {
                    Ok(e) => Ok(Stmt::Expr(e)),
                    Err(f) => Err(f),
                }
            },
        }
    }

    /// An expression followed by `;`.
    fn parse_expr_semi(&mut self, msg: &str) -> (r: Result<Expr, Failure>)
        requires
            old(self).wf(),
        ensures
            final(self).wf(),
            final(self).tokens@ == old(self).tokens@,
            lift(r, final(self).pos as nat, |e: Expr| view_expr(e))
                == sp_expr_semi(old(self).toks(), old(self).pos as nat, msg@),
            r is Ok ==> old(self).pos < final(self).pos,
        decreases old(self).tokens@.len() - old(self).pos, 2nat,
    {
        let e = match self.parse_expr() {
            Ok(e) => e,
            Err(f) => return Err(f),
        };
        match self.expect(TokenType::Semicolon, msg) {
            Ok(_) => Ok(e),
            Err(f) => Err(f),
        }
    }

    // fnDecl -> "fn" IDENT "(" (IDENT ("," IDENT)*)? ")" block
    fn parse_fn(&mut self) -> (r: Result<Stmt, Failure>)
        requires
            old(self).wf(),
        ensures
            final(self).wf(),
            final(self).tokens@ == old(self).tokens@,
            lift(r, final(self).pos as nat, |s: Stmt| view_stmt(s))
                == sp_fn(old(self).toks(), old(self).pos as nat),
            r is Ok ==> old(self).pos < final(self).pos,
        decreases old(self).tokens@.len() - old(self).pos, 2nat,
    {
        if self.pos >= self.tokens.len() {
            return Err(Failure::Panic);
        }
        self.next();
        if self.pos >= self.tokens.len() {
            return Err(Failure::Panic);
        }
        let name = self.next().lexeme;
        match self.expect(TokenType::LParen, "expected '(' after fn definition") {
            Ok(_) => {},
            Err(f) => return Err(f),
        }
        let args = match self.parse_params() {
            Ok(a) => a,
            Err(f) => return Err(f),
        };
        let block = match self.parse_block() {
            Ok(b) => b,
            Err(f) => return Err(f),
        };
        Ok(Stmt::Fn { name, args, block: Box::new(block) })
    }

    /// The parameter names of a function, up to and including `)`.
    fn parse_params(&mut self) -> (r: Result<Vec<String>, Failure>)
        requires
            old(self).wf(),
        ensures
            final(self).wf(),
            final(self).tokens@ == old(self).tokens@,
            lift(r, final(self).pos as nat, |v: Vec<String>| view_strings(v))
                == sp_params(old(self).toks(), old(self).pos as nat),
            r is Ok ==> old(self).pos < final(self).pos,
    {
        let ghost ts = self.toks();
        let ghost p0 = self.pos as nat;
        let mut args: Vec<String> = Vec::new();
        if self.check(TokenType::RParen) {
            self.next();
            assert(strings_view(args@) =~= seq![]);
            return Ok(args);
        }
        match self.expect(TokenType::Identifier, "func arg names can only be identifiers") {
            Ok(t) => {
                args.push(t.lexeme);
            },
            Err(f) => return Err(f),
        }
        assert(strings_view(args@) =~= seq![args@[0]@]);
        loop
            invariant
                self.wf(),
                self.tokens@ == old(self).tokens@,
                ts == self.toks(),
                p0 == old(self).pos,
                p0 < self.pos,
                sp_params(ts, p0) == sp_params_rest(ts, strings_view(args@), self.pos as nat),
            decreases self.tokens@.len() - self.pos,
        {
            if self.pos >= self.tokens.len() {
                return Err(Failure::Panic);
            }
            if self.peek().kind == TokenType::RParen {
                return match self.expect(TokenType::RParen, "expected ')' after args") {
                    Ok(_) => Ok(args),
                    Err(f) => Err(f),
                };
            }
            match self.expect(TokenType::Comma, "expected ',' between args") {
                Ok(_) => {},
                Err(f) => return Err(f),
            }
            let ghost before = args@;
            match self.expect(TokenType::Identifier, "func arg names can only be identifiers") {
                Ok(t) => {
                    args.push(t.lexeme);
                    assert(strings_view(args@) =~= strings_view(before).push(t.lexeme@));
                },
                Err(f) => return Err(f),
            }
        }
    }

    // assignStmt -> IDENT "=" expr
    fn parse_assign(&mut self) -> (r: Result<Stmt, Failure>)
        requires
            old(self).wf(),
        ensures
            final(self).wf(),
            final(self).tokens@ == old(self).tokens@,
            lift(r, final(self).pos as nat, |s: Stmt| view_stmt(s))
                == sp_assign(old(self).toks(), old(self).pos as nat),
            r is Ok ==> old(self).pos < final(self).pos,
        decreases old(self).tokens@.len() - old(self).pos, 2nat,
    {
        if self.pos >= self.tokens.len() {
            return Err(Failure::Panic);
        }
        let name = self.next().lexeme;
        if self.pos >= self.tokens.len() {
            return Err(Failure::Panic);
        }
        let assign_op: Option<TokenType> = match self.peek().kind {
            TokenType::PlusEqual => Some(TokenType::Plus),
            TokenType::MinusEqual => Some(TokenType::Minus),
            TokenType::TimesEqual => Some(TokenType::Times),
            TokenType::DivEqual => Some(TokenType::Divide),
            TokenType::ModuloEqual => Some(TokenType::Modulo),
            _ => {
                match self.expect(TokenType::Assign, "expected assignment") {
                    Ok(_) => {},
                    Err(f) => return Err(f),
                }
                None
            },
        };
        if let Some(op) = assign_op {
            self.next();
            let expr = match self.parse_expr() {
                Ok(e) => e,
                Err(f) => return Err(f),
            };
            let n2 = name.clone();
            let id = Expr::Ident(name);
            assert(id.view() == ExprV::Ident(n2@));
            let bin = Expr::Binary(Box::new(id), op, Box::new(expr));
            assert(bin.view() == ExprV::Binary(Box::new(ExprV::Ident(n2@)), op, Box::new(expr.view())));
            Ok(Stmt::Assignment(n2, bin))
        } else {
            let expr = match self.parse_expr() {
                Ok(e) => e,
                Err(f) => return Err(f),
            };
            Ok(Stmt::Assignment(name, expr))
        }
    }

    // block -> "{" statement* "}"
    fn parse_block(&mut self) -> (r: Result<Stmt, Failure>)
        requires
            old(self).wf(),
        ensures
            final(self).wf(),
            final(self).tokens@ == old(self).tokens@,
            lift(r, final(self).pos as nat, |s: Stmt| view_stmt(s))
                == sp_block(old(self).toks(), old(self).pos as nat),
            r is Ok ==> old(self).pos < final(self).pos,
        decreases old(self).tokens@.len() - old(self).pos, 2nat,
    {
        let ghost ts = self.toks();
        let ghost p0 = self.pos as nat;
        let mut statements: Vec<Stmt> = Vec::new();
        match self.expect(TokenType::LBrace, "expected '{'") {
            Ok(_) => {},
            Err(f) => return Err(f),
        }
        assert(stmts_view(statements@) =~= seq![]);
        while !self.check(TokenType::RBrace)
            invariant
                self.wf(),
                self.tokens@ == old(self).tokens@,
                ts == self.toks(),
                p0 == old(self).pos,
                p0 < self.pos,
                sp_check(ts, p0, TokenType::LBrace),
                sp_block_items(ts, seq![], (p0 + 1) as nat)
                    == sp_block_items(ts, stmts_view(statements@), self.pos as nat),
            decreases self.tokens@.len() - self.pos,
        {
            let ghost before = statements@;
            match self.parse_statement_inner() {
                Ok(st) => {
                    statements.push(st);
                    assert(stmts_view(statements@) =~= stmts_view(before).push(st.view()));
                },
                Err(f) => return Err(f),
            }
        }
        match self.expect(TokenType::RBrace, "expected '}'") {
            Ok(_) => {},
            Err(f) => return Err(f),
        }
        proof {
            lemma_view_block(statements);
        }
        Ok(Stmt::Block(statements))
    }

    // params -> "(" (expr ("," expr)*)? ")"
    fn parse_args(&mut self) -> (r: Result<Vec<Expr>, Failure>)
        requires
            old(self).wf(),
        ensures
            final(self).wf(),
            final(self).tokens@ == old(self).tokens@,
            lift(r, final(self).pos as nat, |v: Vec<Expr>| view_exprs(v))
                == sp_args(old(self).toks(), old(self).pos as nat),
            r is Ok ==> old(self).pos < final(self).pos,
        decreases old(self).tokens@.len() - old(self).pos, 0nat,
    {
        let ghost ts = self.toks();
        let ghost p0 = self.pos as nat;
        match self.expect(TokenType::LParen, "expected '(' after function") {
            Ok(_) => {},
            Err(f) => return Err(f),
        }
        let mut args: Vec<Expr> = Vec::new();
        if self.check(TokenType::RParen) {
            self.next();
            assert(exprs_view(args@) =~= seq![]);
            return Ok(args);
        }
        let arg = match self.parse_expr() {
            Ok(e) => e,
            Err(f) => return Err(f),
        };
        args.push(arg);
        assert(exprs_view(args@) =~= seq![arg.view()]);
        loop
            invariant
                self.wf(),
                self.tokens@ == old(self).tokens@,
                ts == self.toks(),
                p0 == old(self).pos,
                p0 < self.pos,
                sp_args(ts, p0) == sp_args_rest(ts, exprs_view(args@), self.pos as nat),
            decreases self.tokens@.len() - self.pos,
        {
            if self.pos >= self.tokens.len() {
                return Err(Failure::Panic);
            }
            if self.peek().kind != TokenType::Comma {
                return match self.expect(TokenType::RParen, "expected ')' after function call") {
                    Ok(_) => Ok(args),
                    Err(f) => Err(f),
                };
            }
            self.next();
            let ghost before = args@;
            let arg = match self.parse_expr() {
                Ok(e) => e,
                Err(f) => return Err(f),
            };
            args.push(arg);
            assert(exprs_view(args@) =~= exprs_view(before).push(arg.view()));
        }
    }

    // letStmt -> "let" IDENT "=" expr ";"
    fn parse_let(&mut self) -> (r: Result<Stmt, Failure>)
        requires
            old(self).wf(),
        ensures
            final(self).wf(),
            final(self).tokens@ == old(self).tokens@,
            lift(r, final(self).pos as nat, |s: Stmt| view_stmt(s))
                == sp_let(old(self).toks(), old(self).pos as nat),
            r is Ok ==> old(self).pos < final(self).pos,
        decreases old(self).tokens@.len() - old(self).pos, 2nat,
    {
        match self.expect(TokenType::Let, "expected 'let'") {
            Ok(_) => {},
            Err(f) => return Err(f),
        }
        let ident = match self.expect(TokenType::Identifier, "expected identifier after let") {
            Ok(t) => t,
            Err(f) => return Err(f),
        };
        let name = ident.lexeme;
        match self.expect(TokenType::Assign, "expected assignment after identifier") {
            Ok(_) => {},
            Err(f) => return Err(f),
        }
        match self.parse_expr_semi("expected semicolon after let statement") {
            Ok(e) => Ok(Stmt::Let(name, e)),
            Err(f) => Err(f),
        }
    }

    /// `"(" expr ")"`, the condition of `while` and `if`.
    fn parse_cond(&mut self, open_msg: &str) -> (r: Result<Expr, Failure>)
        requires
            old(self).wf(),
        ensures
            final(self).wf(),
            final(self).tokens@ == old(self).tokens@,
            lift(r, final(self).pos as nat, |e: Expr| view_expr(e))
                == sp_cond(old(self).toks(), old(self).pos as nat, open_msg@),
            r is Ok ==> old(self).pos < final(self).pos,
        decreases old(self).tokens@.len() - old(self).pos, 2nat,
    {
        match self.expect(TokenType::LParen, open_msg) {
            Ok(_) => {},
            Err(f) => return Err(f),
        }
        let cond = match self.parse_expr() {
            Ok(e) => e,
            Err(f) => return Err(f),
        };
        match self.expect(TokenType::RParen, "expected ')' after condition") {
            Ok(_) => Ok(cond),
            Err(f) => Err(f),
        }
    }

    // whileStmt -> "while" "(" expr ")" statement
    fn parse_while(&mut self) -> (r: Result<Stmt, Failure>)
        requires
            old(self).wf(),
        ensures
            final(self).wf(),
            final(self).tokens@ == old(self).tokens@,
            lift(r, final(self).pos as nat, |s: Stmt| view_stmt(s))
                == sp_while(old(self).toks(), old(self).pos as nat),
            r is Ok ==> old(self).pos < final(self).pos,
        decreases old(self).tokens@.len() - old(self).pos, 2nat,
    {
        match self.expect(TokenType::While, "expected 'while'") {
            Ok(_) => {},
            Err(f) => return Err(f),
        }
        let cond = match self.parse_cond("expected '(' after while") {
            Ok(e) => e,
            Err(f) => return Err(f),
        };
        let block = match self.parse_block() {
            Ok(b) => b,
            Err(f) => return Err(f),
        };
        Ok(Stmt::While(cond, Box::new(block)))
    }

    // forStmt -> "for" "(" letStmt expr ";" expr ")" statement
    fn parse_for(&mut self) -> (r: Result<Stmt, Failure>)
        requires
            old(self).wf(),
        ensures
            final(self).wf(),
            final(self).tokens@ == old(self).tokens@,
            lift(r, final(self).pos as nat, |s: Stmt| view_stmt(s))
                == sp_for(old(self).toks(), old(self).pos as nat),
            r is Ok ==> old(self).pos < final(self).pos,
        decreases old(self).tokens@.len() - old(self).pos, 2nat,
    {
        let ghost ts = self.toks();
        let ghost p0 = self.pos as nat;
        match self.expect(TokenType::For, "expected 'for'") {
            Ok(_) => {},
            Err(f) => return Err(f),
        }
        match self.expect(TokenType::LParen, "expected '(' after for") {
            Ok(_) => {},
            Err(f) => return Err(f),
        }
        let ghost p2 = self.pos as nat;
        let init = match self.parse_for_init() {
            Ok(s) => s,
            Err(f) => return Err(f),
        };
        let ghost p3 = self.pos as nat;
        let cond = match self.parse_expr_semi("expected ';' after end condition") {
            Ok(e) => e,
            Err(f) => return Err(f),
        };
        let ghost p4 = self.pos as nat;
        let step = match self.parse_for_step() {
            Ok(s) => s,
            Err(f) => return Err(f),
        };
        let ghost p5 = self.pos as nat;
        match self.expect(TokenType::RParen, "expected ')' after condition") {
            Ok(_) => {},
            Err(f) => return Err(f),
        }
        let ghost p6 = self.pos as nat;
        let block = match self.parse_block() {
            Ok(b) => b,
            Err(f) => return Err(f),
        };
        let st = Stmt::For { init: Box::new(init), cond, step: Box::new(step), block: Box::new(block) };
        assert(sp_for(ts, p0) == Ok::<(StmtV, nat), Fail>((st.view(), self.pos as nat)));
        Ok(st)
    }

    /// The initialisation of a `for` loop.
    fn parse_for_init(&mut self) -> (r: Result<Stmt, Failure>)
        requires
            old(self).wf(),
        ensures
            final(self).wf(),
            final(self).tokens@ == old(self).tokens@,
            lift(r, final(self).pos as nat, |s: Stmt| view_stmt(s))
                == sp_for_init(old(self).toks(), old(self).pos as nat),
            r is Ok ==> old(self).pos < final(self).pos,
        decreases old(self).tokens@.len() - old(self).pos, 3nat,
    {
        if self.pos >= self.tokens.len() {
            return Err(Failure::Panic);
        }
        match self.peek().kind {
            TokenType::Let => self.parse_let(),
            TokenType::Semicolon => {
                self.next();
                Ok(Stmt::Expr(Expr::Null))
            },
            _ => {
                let mut m = String::from_str("unexpected error while parsing init in for loop, found ");
                m.append(self.peek().kind.name());
                m.append(" expected ';'");
                Err(Failure::Error(m))
            },
        }
    }

    /// The step of a `for` loop.
    fn parse_for_step(&mut self) -> (r: Result<Stmt, Failure>)
        requires
            old(self).wf(),
        ensures
            final(self).wf(),
            final(self).tokens@ == old(self).tokens@,
            lift(r, final(self).pos as nat, |s: Stmt| view_stmt(s))
                == sp_for_step(old(self).toks(), old(self).pos as nat),
            r is Ok ==> old(self).pos <= final(self).pos,
        decreases old(self).tokens@.len() - old(self).pos, 3nat,
    {
        if self.pos >= self.tokens.len() {
            return Err(Failure::Panic);
        }
        match self.peek().kind {
            TokenType::Identifier => self.parse_assign(),
            TokenType::RParen => Ok(Stmt::Expr(Expr::Null)),
            _ => {
                let mut m = String::from_str("unexpected error while parsing step in for loop, found ");
                m.append(self.peek().kind.name());
                m.append(" expected ')'");
                Err(Failure::Error(m))
            },
        }
    }

    // ifStmt -> "if" "(" expr ")" block ("elif" block)* ("else" block)?
    fn parse_if(&mut self) -> (r: Result<Stmt, Failure>)
        requires
            old(self).wf(),
        ensures
            final(self).wf(),
            final(self).tokens@ == old(self).tokens@,
            lift(r, final(self).pos as nat, |s: Stmt| view_stmt(s))
                == sp_if(old(self).toks(), old(self).pos as nat),
            r is Ok ==> old(self).pos < final(self).pos,
        decreases old(self).tokens@.len() - old(self).pos, 2nat,
    {
        let ghost ts = self.toks();
        let ghost p0 = self.pos as nat;
        if self.pos >= self.tokens.len() {
            return Err(Failure::Panic);
        }
        self.next();
        let cond = match self.parse_cond("expected '(' after while") {
            Ok(e) => e,
            Err(f) => return Err(f),
        };
        let block = match self.parse_block() {
            Ok(b) => b,
            Err(f) => return Err(f),
        };
        let else_branches = match self.parse_else() {
            Ok(e) => e,
            Err(f) => return Err(f),
        };
        let st = Stmt::If { cond, then_branch: Box::new(block), else_branch: else_branches };
        assert(sp_if(ts, p0) == Ok::<(StmtV, nat), Fail>((st.view(), self.pos as nat)));
        Ok(st)
    }

    /// What follows the block of an `if`.
    fn parse_else(&mut self) -> (r: Result<Option<Box<Stmt>>, Failure>)
        requires
            old(self).wf(),
        ensures
            final(self).wf(),
            final(self).tokens@ == old(self).tokens@,
            lift(r, final(self).pos as nat, |e: Option<Box<Stmt>>| view_else(e))
                == sp_else(old(self).toks(), old(self).pos as nat),
            r is Ok ==> old(self).pos <= final(self).pos,
        decreases old(self).tokens@.len() - old(self).pos, 3nat,
    {
        if self.pos >= self.tokens.len() {
            return Err(Failure::Panic);
        }
        match self.peek().kind {
            TokenType::Elif => match self.parse_if() {
                Ok(s) => Ok(Some(Box::new(s))),
                Err(f) => Err(f),
            },
            TokenType::Else => {
                self.next();
                match self.parse_block() {
                    Ok(b) => {
                        let inner = Stmt::If { cond: Expr::Bool(true), then_branch: Box::new(b), else_branch: None };
                        assert(inner.view() == StmtV::If(ExprV::Bool(true), Box::new(b.view()), None));
                        Ok(Some(Box::new(inner)))
                    },
                    Err(f) => Err(f),
                }
            },
            _ => Ok(None),
        }
    }

    fn parse_expr(&mut self) -> (r: Result<Expr, Failure>)
        requires
            old(self).wf(),
        ensures
            final(self).wf(),
            final(self).tokens@ == old(self).tokens@,
            lift(r, final(self).pos as nat, |e: Expr| view_expr(e))
                == sp_expr(old(self).toks(), old(self).pos as nat),
            r is Ok ==> old(self).pos < final(self).pos,
        decreases old(self).tokens@.len() - old(self).pos, 1nat,
    {
        self.pratt(0)
    }

    fn pratt(&mut self, min_bp: usize) -> (r: Result<Expr, Failure>)
        requires
            old(self).wf(),
        ensures
            final(self).wf(),
            final(self).tokens@ == old(self).tokens@,
            lift(r, final(self).pos as nat, |e: Expr| view_expr(e))
                == sp_pratt(old(self).toks(), min_bp as nat, old(self).pos as nat),
            r is Ok ==> old(self).pos < final(self).pos,
        decreases old(self).tokens@.len() - old(self).pos, 0nat,
    {
        let ghost ts = self.toks();
        let ghost p0 = self.pos as nat;
        if self.pos >= self.tokens.len() {
            return Err(Failure::Panic);
        }
        let start: Token = self.next();
        let mut lhs = match self.nud(start) {
            Ok(e) => e,
            Err(f) => return Err(f),
        };
        loop
            invariant
                self.wf(),
                self.tokens@ == old(self).tokens@,
                ts == self.toks(),
                p0 == old(self).pos,
                p0 < self.pos,
                sp_pratt(ts, min_bp as nat, p0) == sp_pratt_loop(ts, min_bp as nat, lhs.view(), self.pos as nat),
            decreases self.tokens@.len() - self.pos,
        {
            if self.pos >= self.tokens.len() {
                return Err(Failure::Panic);
            }
            if self.peek().kind == TokenType::LParen {
                let args: Vec<Expr> = match self.parse_args() {
                    Ok(a) => a,
                    Err(f) => return Err(f),
                };
                let ghost lhs_prev = lhs;
                let ghost args_g = args;
                proof {
                    lemma_view_callable(Box::new(lhs_prev), args_g);
                }
                lhs = Expr::Callable { name: Box::new(lhs), args };
                continue;
            }
            let op = self.peek().kind;
            if !self.is_infix(&op) {
                return Ok(lhs);
            }
            let (lbp, rbp) = self.bp(&op);
            if min_bp > lbp {
                return Ok(lhs);
            }
            self.next();
            let rhs = match self.pratt(rbp) {
                Ok(e) => e,
                Err(f) => return Err(f),
            };
            lhs = Expr::Binary(Box::new(lhs), op, Box::new(rhs));
        }
    }

    fn bp(&self, op: &TokenType) -> (r: (usize, usize))
        requires
            binding_power(*op) is Some,
        ensures
            binding_power(*op) == Some((r.0 as nat, r.1 as nat)),
    {
        match op {
            TokenType::Plus | TokenType::Minus => (10, 11),
            TokenType::Times | TokenType::Divide | TokenType::Modulo => (20, 21),
            TokenType::Assign => (1, 2),
            TokenType::Bang => (40, 41),
            TokenType::Less | TokenType::Greater | TokenType::LessEqual | TokenType::GreaterEqual => (6, 7),
            TokenType::EqualEqual | TokenType::NotEqual => (5, 6),
            TokenType::Or => (3, 4),
            _ => (4, 5),
        }
    }

    fn is_infix(&self, op: &TokenType) -> (b: bool)
        ensures
            b == (binding_power(*op) is Some),
    {
        match op {
            TokenType::Plus | TokenType::Minus | TokenType::Times | TokenType::Divide | TokenType::Modulo
            | TokenType::Assign | TokenType::Bang | TokenType::Less | TokenType::Greater
            | TokenType::LessEqual | TokenType::GreaterEqual | TokenType::EqualEqual
            | TokenType::NotEqual | TokenType::Or | TokenType::And => true,
            _ => false,
        }
    }

    fn nud(&mut self, token: Token) -> (r: Result<Expr, Failure>)
        requires
            old(self).wf(),
        ensures
            final(self).wf(),
            final(self).tokens@ == old(self).tokens@,
            lift(r, final(self).pos as nat, |e: Expr| view_expr(e))
                == sp_nud(old(self).toks(), token@, old(self).pos as nat),
            r is Ok ==> old(self).pos <= final(self).pos,
        decreases old(self).tokens@.len() - old(self).pos, 1nat,
    {
        match token.kind {
            TokenType::Number => match parse_i32(token.lexeme.as_str()) {
                Some(n) => Ok(Expr::Number(n)),
                None => Err(Failure::Panic),
            },
            TokenType::String => Ok(Expr::String(token.lexeme)),
            TokenType::True => Ok(Expr::Bool(true)),
            TokenType::False => Ok(Expr::Bool(false)),
            TokenType::Identifier => Ok(Expr::Ident(token.lexeme)),
            TokenType::Minus | TokenType::Bang => {
                let rhs = match self.pratt(30) {
                    Ok(e) => e,
                    Err(f) => return Err(f),
                };
                Ok(Expr::Unary(token.kind, Box::new(rhs)))
            },
            TokenType::LParen => {
                let rhs = match self.pratt(0) {
                    Ok(e) => e,
                    Err(f) => return Err(f),
                };
                match self.expect(TokenType::RParen, "expected ')' after expression") {
                    Ok(_) => Ok(Expr::Group(Box::new(rhs))),
                    Err(f) => Err(f),
                }
            },
            other => {
                if self.pos >= self.tokens.len() {
                    return Err(Failure::Panic);
                }
                let mut m = String::from_str("unexpected token in nud: ");
                m.append(other.name());
                m.append(" ");
                let a = decimal_string(self.peek().span.start);
                m.append(a.as_str());
                m.append("..");
                let b = decimal_string(self.peek().span.end);
                m.append(b.as_str());
                Err(Failure::Error(m))
            },
        }
    }

    fn check(&self, kind: TokenType) -> (b: bool)
        requires
            self.wf(),
        ensures
            b == sp_check(self.toks(), self.pos as nat, kind),
    {
        if self.pos >= self.tokens.len() {
            return false;
        }
        self.peek().kind == kind
    }

    fn expect(&mut self, kind: TokenType, msg: &str) -> (r: Result<Token, Failure>)
        requires
            old(self).wf(),
        ensures
            final(self).wf(),
            final(self).tokens@ == old(self).tokens@,
            lift(r, final(self).pos as nat, |t: Token| view_token(t))
                == sp_expect(old(self).toks(), old(self).pos as nat, kind, msg@),
            r is Ok ==> final(self).pos == old(self).pos + 1,
    {
        if !self.check(kind) {
            if self.pos >= self.tokens.len() {
                return Err(Failure::Panic);
            }
            let span_start = self.peek().span.start;
            let span_end = self.peek().span.end;
            return Err(Failure::Error(at_message(msg, span_start, span_end)));
        }
        Ok(self.next())
    }

    fn peek(&self) -> (t: &Token)
        requires
            self.pos < self.tokens@.len(),
        ensures
            t@ == self.toks()[self.pos as int],
    {
        &self.tokens[self.pos]
    }

    fn at(&self, offset: usize) -> (t: &Token)
        requires
            self.pos + offset < self.tokens@.len(),
        ensures
            t@ == self.toks()[self.pos + offset],
    {
        let n = self.tokens.len();
        assert(self.pos + offset < n);
        &self.tokens[self.pos + offset]
    }

    fn next(&mut self) -> (t: Token)
        requires
            old(self).pos < old(self).tokens@.len(),
        ensures
            final(self).tokens@ == old(self).tokens@,
            final(self).pos == old(self).pos + 1,
            t@ == old(self).toks()[old(self).pos as int],
    {
        let n = self.tokens.len();
        assert(self.pos < n);
        self.pos = self.pos + 1;
        self.tokens[self.pos - 1].clone()
    }
}

fn is_assign(k: TokenType) -> (b: bool)
    ensures
        b == is_assign_kind(k),
{
    match k {
        TokenType::Assign | TokenType::PlusEqual | TokenType::MinusEqual | TokenType::TimesEqual
        | TokenType::DivEqual | TokenType::ModuloEqual => true,
        _ => false,
    }
}

} // verus!
