use vstd::prelude::*;

use crate::env::{Env, FrameV, bucket_names, frames_view, lookup};
use crate::lexer::Lexer;
use crate::parser::{
    Expr, Parser, Stmt, dup_strings, exprs_view, lemma_view_block, lemma_view_callable,
    stmts_view, strings_view,
};
use crate::semantics::{
    run_returns, valid,
    Flow, RunV, State, binop, bind_params, ev_block, ev_call, ev_args, ev_expr, ev_for,
    ev_for_loop, ev_items, ev_program, ev_stmt, ev_while, spec_run, top_level_message, flow_debug, stmt_debug,
    unop,
};
use crate::text::{chars_of, decimal_string, spells};
use crate::token::TokenType;
use crate::value::{Order, Res, RuntimeError, Value, ValueV, values_view};

verus! {

broadcast use vstd::std_specs::vec::group_vec_axioms;

/// How a statement ends: normally, or with `continue`, `break` or `return`.
#[derive(Debug)]
pub enum ControlFlow {
    Normal,
    Continue,
    Break,
    Return(Value),
}

impl ControlFlow {
    pub open spec fn view(&self) -> Flow {
        match self {
            ControlFlow::Normal => Flow::Normal,
            ControlFlow::Continue => Flow::Continue,
            ControlFlow::Break => Flow::Break,
            ControlFlow::Return(v) => Flow::Return(v.view()),
        }
    }
}

/// Why running a program failed: the source did not lex or parse, or its
/// evaluation stopped with an error.
#[derive(Debug)]
pub enum LangError {
    Parse(String),
    Runtime(RuntimeError),
}

/// The outcome of `Interpreter::run` as a mathematical value.
pub open spec fn run_view(r: Result<(), LangError>) -> RunV {
    match r {
        Ok(()) => RunV::Done,
        Err(LangError::Parse(m)) => RunV::Parse(m@),
        Err(LangError::Runtime(e)) => RunV::Runtime(e.view()),
    }
}

/// The names bound in scope `i` and in each scope around it, innermost
/// first, following at most `n` links to an enclosing scope.
pub open spec fn scope_names_within(fs: Seq<FrameV>, i: nat, n: nat) -> Seq<Seq<Seq<char>>>
    decreases n,
{
    if i >= fs.len() {
        seq![]
    } else {
        let here = seq![bucket_names(fs[i as int].bucket)];
        match fs[i as int].parent {
            Some(p) => if n > 0 { here + scope_names_within(fs, p, (n - 1) as nat) } else { here },
            None => here,
        }
    }
}

/// The names bound in scope `i` and in each scope around it, innermost first.
pub open spec fn scope_names(fs: Seq<FrameV>, i: nat) -> Seq<Seq<Seq<char>>> {
    scope_names_within(fs, i, fs.len())
}

pub open spec fn names_view(v: Seq<Vec<String>>) -> Seq<Seq<Seq<char>>> {
    Seq::new(v.len(), |i: int| strings_view(v[i]@))
}

/// Why an evaluation stopped early.
enum Halt {
    Error(String),
    Fault(String),
    Exhausted,
}

spec fn halt_res<T>(h: Halt) -> Res<T> {
    match h {
        Halt::Error(m) => Res::Error(m@),
        Halt::Fault(m) => Res::Fault(m@),
        Halt::Exhausted => Res::Exhausted,
    }
}

spec fn value_res(r: Result<Value, Halt>) -> Res<ValueV> {
    match r {
        Ok(v) => Res::Done(v.view()),
        Err(h) => halt_res(h),
    }
}

spec fn values_res(r: Result<Vec<Value>, Halt>) -> Res<Seq<ValueV>> {
    match r {
        Ok(v) => Res::Done(values_view(v@)),
        Err(h) => halt_res(h),
    }
}

spec fn flow_res(r: Result<ControlFlow, Halt>) -> Res<Flow> {
    match r {
        Ok(cf) => Res::Done(cf.view()),
        Err(h) => halt_res(h),
    }
}

spec fn unit_res(r: Result<(), Halt>) -> Res<()> {
    match r {
        Ok(()) => Res::Done(()),
        Err(h) => halt_res(h),
    }
}

/// `format!("{:?}", cf)`: the flow as its derived `Debug` shows it. The text
/// depends on the flow's view alone; what it is, is left unsaid.
#[verifier::external_body]
fn debug_flow(cf: &ControlFlow) -> (s: String)
    ensures
        s@ == flow_debug(cf.view()),
{
    format!("{:?}", cf)
}

/// `format!("{:#?}", stmt)`: the statement as its derived `Debug` shows it,
/// pretty-printed. The text depends on the statement's view alone; what it
/// is, is left unsaid.
#[verifier::external_body]
fn debug_stmt(stmt: &Stmt) -> (s: String)
    ensures
        s@ == stmt_debug(stmt.view()),
{
    format!("{:#?}", stmt)
}

/// The error for a statement that ends the program with `break`, `continue`
/// or `return`.
fn top_level_error(cf: &ControlFlow, stmt: &Stmt) -> (s: String)
    ensures
        s@ == top_level_message(cf.view(), stmt.view()),
{
    let mut s = String::from_str("invalid control flow at top level ");
    s.append(debug_flow(cf).as_str());
    s.append(" in statement ");
    s.append(debug_stmt(stmt).as_str());
    s
}

/// A value-level outcome carried over into an evaluation outcome.
fn lift(r: Result<Value, RuntimeError>) -> (h: Result<Value, Halt>)
    ensures
        value_res(h) == match r {
            Ok(v) => Res::Done(v.view()),
            Err(e) => Res::<ValueV>::Error(e.view()),
        },
{
    match r {
        Ok(v) => Ok(v),
        Err(RuntimeError::Message(m)) => Err(Halt::Error(m)),
    }
}

fn fault(msg: &str) -> (h: Halt)
    ensures
        halt_res::<ValueV>(h) == Res::<ValueV>::Fault(msg@),
{
    Halt::Fault(String::from_str(msg))
}

/// Whether `a` and `b` are both integers whose exact result under `op`
/// (`+`, `-` or `*`) lies outside `i32`.
fn int_overflow(op: TokenType, l: &Value, r: &Value) -> (b: bool)
    requires
        op == TokenType::Plus || op == TokenType::Minus || op == TokenType::Times,
    ensures
        b == match (l.view(), r.view()) {
            (ValueV::Int(a), ValueV::Int(c)) => {
                let x: int = if op == TokenType::Plus {
                    a + c
                } else if op == TokenType::Minus {
                    a - c
                } else {
                    a * c
                };
                !(i32::MIN <= x <= i32::MAX)
            },
            _ => false,
        },
{
    match (l, r) {
        (Value::Int(a), Value::Int(c)) => {
            let a64 = *a as i64;
            let c64 = *c as i64;
            let x: i64 = if op == TokenType::Plus {
                a64 + c64
            } else if op == TokenType::Minus {
                a64 - c64
            } else {
                assert(-0x4000_0000_0000_0000 <= a64 * c64 <= 0x4000_0000_0000_0000) by (nonlinear_arith)
                    requires
                        -0x8000_0000 <= a64 <= 0x7fff_ffff,
                        -0x8000_0000 <= c64 <= 0x7fff_ffff,
                ;
                a64 * c64
            };
            x < -0x8000_0000 || x > 0x7fff_ffff
        },
        _ => false,
    }
}

/// A binary operator applied to two values, with the faults of integer
/// arithmetic reported rather than raised.
fn apply_binop(op: TokenType, l: Value, r: Value) -> (res: Result<Value, Halt>)
    ensures
        value_res(res) == binop(op, l.view(), r.view()),
{
    match op {
        TokenType::Plus => {
            if int_overflow(op, &l, &r) {
                return Err(fault("attempt to add with overflow"));
            }
            lift(l.add(r))
        },
        TokenType::Minus => {
            if int_overflow(op, &l, &r) {
                return Err(fault("attempt to subtract with overflow"));
            }
            lift(l.sub(r))
        },
        TokenType::Times => {
            if int_overflow(op, &l, &r) {
                return Err(fault("attempt to multiply with overflow"));
            }
            lift(l.mul(r))
        },
        TokenType::Divide => {
            match (&l, &r) {
                (Value::Int(a), Value::Int(b)) => {
                    if *a == i32::MIN && *b == -1 {
                        return Err(fault("attempt to divide with overflow"));
                    }
                },
                _ => {},
            }
            lift(l.div(r))
        },
        TokenType::Modulo => {
            match (&l, &r) {
                (Value::Int(a), Value::Int(b)) => {
                    if *b == 0 {
                        return Err(fault("attempt to calculate the remainder with a divisor of zero"));
                    }
                    if *a == i32::MIN && *b == -1 {
                        return Err(fault("attempt to calculate the remainder with overflow"));
                    }
                },
                _ => {},
            }
            lift(l.rem(r))
        },
        TokenType::Less => {
            let o = l.order(&r);
            Ok(Value::Bool(matches!(o, Some(Order::Less))))
        },
        TokenType::Greater => {
            let o = l.order(&r);
            Ok(Value::Bool(matches!(o, Some(Order::Greater))))
        },
        TokenType::LessEqual => {
            let o = l.order(&r);
            Ok(Value::Bool(matches!(o, Some(Order::Less)) || matches!(o, Some(Order::Equal))))
        },
        TokenType::GreaterEqual => {
            let o = l.order(&r);
            Ok(Value::Bool(matches!(o, Some(Order::Greater)) || matches!(o, Some(Order::Equal))))
        },
        TokenType::EqualEqual => Ok(Value::Bool(l == r)),
        TokenType::NotEqual => Ok(Value::Bool(!(l == r))),
        _ => {
            let mut m = String::from_str("unimplemented ");
            m.append(op.name());
            Err(Halt::Error(m))
        },
    }
}

/// A unary operator applied to a value.
fn apply_unop(op: TokenType, v: Value) -> (res: Result<Value, Halt>)
    ensures
        value_res(res) == unop(op, v.view()),
{
    match op {
        TokenType::Minus => {
            match &v {
                Value::Int(a) => {
                    if *a == i32::MIN {
                        return Err(fault("attempt to negate with overflow"));
                    }
                },
                _ => {},
            }
            lift(v.neg())
        },
        TokenType::Bang => lift(v.not()),
        _ => Err(Halt::Error(String::from_str("unimplemented"))),
    }
}

/// Runs programs: the scopes are kept in one list, each naming the scope it
/// sits in, with the global scope first.
pub struct Interpreter {
    curr_env: usize,
    global: usize,
    envs: Vec<Env>,
    output: Vec<Value>,
}

impl Interpreter {
    /// The interpreter's state: its scopes, the current scope and what the
    /// program has printed.
    pub closed spec fn state(&self) -> State {
        State {
            frames: frames_view(self.envs@),
            curr: self.curr_env as nat,
            output: values_view(self.output@),
        }
    }

    /// The current scope exists, and the global scope is the first.
    pub closed spec fn wf(&self) -> bool {
        &&& self.curr_env < self.envs@.len()
        &&& self.global == 0
    }

    /// An interpreter with one empty global scope.
    pub fn new() -> (i: Self)
        ensures
            i.wf(),
            valid(i.state()),
            i.state() == (State {
                frames: seq![FrameV { parent: None, bucket: seq![] }],
                curr: 0,
                output: seq![],
            }),
    {
        let mut envs: Vec<Env> = Vec::new();
        envs.push(Env::new(None));
        let i = Self { curr_env: 0, global: 0, envs, output: Vec::new() };
        assert(frames_view(i.envs@) =~= seq![FrameV { parent: None, bucket: seq![] }]);
        assert(values_view(i.output@) =~= seq![]);
        i
    }

    /// A copy of the interpreter.
    fn dup(&self) -> (c: Self)
        requires
            self.wf(),
        ensures
            c.wf(),
            c.state() == self.state(),
    {
        let mut envs: Vec<Env> = Vec::new();
        let mut i: usize = 0;
        while i < self.envs.len()
            invariant
                i <= self.envs@.len(),
                envs@.len() == i,
                forall|m: int| 0 <= m < i ==> #[trigger] envs@[m].view() == self.envs@[m].view(),
            decreases self.envs@.len() - i,
        {
            envs.push(self.envs[i].dup());
            i = i + 1;
        }
        let mut output: Vec<Value> = Vec::new();
        let mut j: usize = 0;
        while j < self.output.len()
            invariant
                j <= self.output@.len(),
                output@.len() == j,
                forall|m: int| 0 <= m < j ==> #[trigger] output@[m].view() == self.output@[m].view(),
            decreases self.output@.len() - j,
        {
            output.push(self.output[j].dup());
            j = j + 1;
        }
        let c = Interpreter { curr_env: self.curr_env, global: self.global, envs, output };
        assert(frames_view(c.envs@) =~= frames_view(self.envs@));
        assert(values_view(c.output@) =~= values_view(self.output@));
        c
    }

    /// Lexes, parses and evaluates `src`; `None` where the run would not come
    /// back with a result (see `run_returns`), the state then being what the
    /// evaluation left.
    fn run_any(&mut self, src: String) -> (r: Option<Result<(), LangError>>)
        requires
            old(self).wf(),
            src@.len() < usize::MAX,
        ensures
            final(self).wf(),
            final(self).state() == spec_run(old(self).state(), src@).1,
            (r is Some) == run_returns(old(self).state(), src@),
            r matches Some(res) ==> run_view(res) == spec_run(old(self).state(), src@).0,
    {
        let mut lexer = Lexer::new(src);
        let tokens = match lexer.try_tokenize() {
            Some(ts) => ts,
            None => {
                return None;
            },
        };
        let mut parser = Parser::new(tokens);
        let ast = match parser.try_parse() {
            None => {
                return None;
            },
            Some(Err(m)) => {
                return Some(Err(LangError::Parse(m)));
            },
            Some(Ok(ast)) => ast,
        };
        match self.eval(&ast) {
            Ok(()) => Some(Ok(())),
            Err(Halt::Error(m)) => Some(Err(LangError::Runtime(RuntimeError::Message(m)))),
            Err(Halt::Fault(_)) => None,
            Err(Halt::Exhausted) => None,
        }
    }

    /// Lexes, parses and evaluates `src`, on a source that the run comes back
    /// from (`run_returns`): a lexing or parsing error is a parse error, an
    /// error in evaluation a runtime error.
    pub fn run(&mut self, src: String) -> (r: Result<(), LangError>)
        requires
            old(self).wf(),
            src@.len() < usize::MAX,
            run_returns(old(self).state(), src@),
        ensures
            final(self).wf(),
            (run_view(r), final(self).state()) == spec_run(old(self).state(), src@),
    {
        match self.run_any(src) {
            Some(r) => r,
            None => {
                proof {
                    assert(false);
                }
                Ok(())
            },
        }
    }

    /// Whether running `src` now would come back with a result; the
    /// interpreter is left as it is.
    pub fn can_run(&self, src: &String) -> (b: bool)
        requires
            self.wf(),
            src@.len() < usize::MAX,
        ensures
            b == run_returns(self.state(), src@),
    {
        let mut copy = self.dup();
        copy.run_any(src.clone()).is_some()
    }

    /// Runs `src` where the run comes back with a result; `None`, the
    /// interpreter left as it is, where it would not (a character that starts
    /// no token or a token sliced off a character boundary, a parse past the
    /// last token or of a number that does not fit in `i32`, integer overflow,
    /// `%` by zero, a call of a value that is not a function, or more than
    /// `u64::MAX` steps in one top-level statement).
    pub fn run_checked(&mut self, src: String) -> (r: Option<Result<(), LangError>>)
        requires
            old(self).wf(),
            src@.len() < usize::MAX,
        ensures
            final(self).wf(),
            match r {
                Some(res) => run_returns(old(self).state(), src@) && (run_view(res), final(self).state())
                    == spec_run(old(self).state(), src@),
                None => !run_returns(old(self).state(), src@) && final(self).state() == old(self).state(),
            },
    {
        if self.can_run(&src) {
            Some(self.run(src))
        } else {
            None
        }
    }

    /// The top-level statements, each given the full step budget.
    fn eval(&mut self, ast: &Vec<Stmt>) -> (r: Result<(), Halt>)
        requires
            old(self).wf(),
        ensures
            final(self).wf(),
            (unit_res(r), final(self).state()) == ev_program(old(self).state(), stmts_view(ast@), 0),
    {
        let ghost sv = stmts_view(ast@);
        let mut i: usize = 0;
        while i < ast.len()
            invariant
                self.wf(),
                i <= ast@.len(),
                sv == stmts_view(ast@),
                ev_program(old(self).state(), sv, 0) == ev_program(self.state(), sv, i as nat),
            decreases ast@.len() - i,
        {
            assert(sv[i as int] == ast@[i as int].view());
            match self.eval_stmt(&ast[i], u64::MAX) {
                Ok(ControlFlow::Normal) => {},
                Ok(cf) => {
                    return Err(Halt::Error(top_level_error(&cf, &ast[i])));
                },
                Err(h) => {
                    return Err(h);
                },
            }
            i = i + 1;
        }
        Ok(())
    }

    /// What `name` means in the current scope.
    pub fn get(&self, name: &str) -> (r: Option<Value>)
        ensures
            match lookup(self.state().frames, self.state().curr, name@) {
                Some(v) => r matches Some(x) && x.view() == v,
                None => r is None,
            },
    {
        Env::get(&self.envs, self.curr_env, name)
    }

    /// The values printed since the last call, oldest first; they are
    /// removed from the interpreter.
    pub fn take_output(&mut self) -> (out: Vec<Value>)
        ensures
            values_view(out@) == old(self).state().output,
            final(self).state() == (State { output: seq![], ..old(self).state() }),
            final(self).wf() == old(self).wf(),
    {
        let mut out: Vec<Value> = Vec::new();
        std::mem::swap(&mut out, &mut self.output);
        assert(values_view(self.output@) =~= seq![]);
        out
    }

    /// The names bound in each scope, from the current scope outward to the
    /// global scope.
    pub fn env_dump(&self) -> (names: Vec<Vec<String>>)
        ensures
            names_view(names@) == scope_names(self.state().frames, self.state().curr),
    {
        let ghost fs = frames_view(self.envs@);
        let mut out: Vec<Vec<String>> = Vec::new();
        let mut curr = self.curr_env;
        let mut steps = self.envs.len();
        assert(names_view(out@) =~= seq![]);
        loop
            invariant
                fs == frames_view(self.envs@),
                scope_names(fs, self.curr_env as nat) == names_view(out@) + scope_names_within(fs, curr as nat, steps as nat),
            decreases steps,
        {
            if curr >= self.envs.len() {
                assert(names_view(out@) + scope_names_within(fs, curr as nat, steps as nat) =~= names_view(out@));
                return out;
            }
            let env = &self.envs[curr];
            assert(fs[curr as int] == env.view());
            let mut keys: Vec<String> = Vec::new();
            let mut j: usize = 0;
            while j < env.bucket.len()
                invariant
                    j <= env.bucket@.len(),
                    keys@.len() == j,
                    forall|k: int| 0 <= k < j ==> #[trigger] keys@[k]@ == env.bucket@[k].0@,
                decreases env.bucket@.len() - j,
            {
                keys.push(env.bucket[j].0.clone());
                j = j + 1;
            }
            let ghost before = out@;
            assert(strings_view(keys@) =~= bucket_names(fs[curr as int].bucket));
            out.push(keys);
            assert(names_view(out@) =~= names_view(before).push(bucket_names(fs[curr as int].bucket)));
            match env.parent {
                Some(p) => {
                    if steps > 0 {
                        curr = p;
                        steps = steps - 1;
                    } else {
                        assert(scope_names_within(fs, curr as nat, steps as nat) =~= seq![bucket_names(fs[curr as int].bucket)]);
                        return out;
                    }
                },
                None => {
                    return out;
                },
            }
        }
    }

    fn eval_expr(&mut self, e: &Expr, fuel: u64) -> (r: Result<Value, Halt>)
        requires
            old(self).wf(),
        ensures
            final(self).wf(),
            old(self).envs@.len() <= final(self).envs@.len(),
            (value_res(r), final(self).state()) == ev_expr(old(self).state(), e.view(), fuel as nat),
        decreases fuel,
    {
        if fuel == 0 {
            return Err(Halt::Exhausted);
        }
        let f = fuel - 1;
        match e {
            Expr::Binary(l, op, r) => {
                let lv = match self.eval_expr(l, f) {
                    Ok(v) => v,
                    Err(h) => {
                        return Err(h);
                    },
                };
                if *op == TokenType::And && !lv.is_truthy() {
                    return Ok(Value::Bool(false));
                }
                if *op == TokenType::Or && lv.is_truthy() {
                    return Ok(Value::Bool(true));
                }
                let rv = match self.eval_expr(r, f) {
                    Ok(v) => v,
                    Err(h) => {
                        return Err(h);
                    },
                };
                if *op == TokenType::And || *op == TokenType::Or {
                    return Ok(Value::Bool(rv.is_truthy()));
                }
                apply_binop(*op, lv, rv)
            },
            Expr::Unary(op, x) => {
                let v = match self.eval_expr(x, f) {
                    Ok(v) => v,
                    Err(h) => {
                        return Err(h);
                    },
                };
                apply_unop(*op, v)
            },
            Expr::Number(n) => Ok(Value::Int(*n)),
            Expr::String(s) => Ok(Value::Str(s.clone())),
            Expr::Bool(b) => Ok(Value::Bool(*b)),
            Expr::Null => Ok(Value::Null),
            Expr::Ident(n) => {
                match Env::get(&self.envs, self.curr_env, n.as_str()) {
                    Some(v) => Ok(v),
                    None => {
                        let mut m = String::from_str("undefined variable '");
                        m.append(n.as_str());
                        m.append("'");
                        Err(Halt::Error(m))
                    },
                }
            },
            Expr::Group(x) => self.eval_expr(x, f),
            Expr::Callable { name, args } => {
                proof {
                    lemma_view_callable(*name, *args);
                }
                match &**name {
                    Expr::Ident(n) => {
                        match self.eval_call(n, args, f) {
                            Ok(ControlFlow::Return(v)) => Ok(v),
                            Ok(_) => Ok(Value::Null),
                            Err(h) => Err(h),
                        }
                    },
                    _ => Err(Halt::Error(String::from_str("expression is not callable"))),
                }
            },
        }
    }

    /// The values of `args`, evaluated in order.
    fn eval_args(&mut self, args: &Vec<Expr>, fuel: u64) -> (r: Result<Vec<Value>, Halt>)
        requires
            old(self).wf(),
        ensures
            final(self).wf(),
            old(self).envs@.len() <= final(self).envs@.len(),
            (values_res(r), final(self).state()) == ev_args(old(self).state(), exprs_view(args@), 0, seq![], fuel as nat),
        decreases fuel,
    {
        let ghost av = exprs_view(args@);
        let mut acc: Vec<Value> = Vec::new();
        let mut i: usize = 0;
        let mut f: u64 = fuel;
        assert(values_view(acc@) =~= seq![]);
        loop
            invariant
                self.wf(),
                old(self).envs@.len() <= self.envs@.len(),
                f <= fuel,
                i <= args@.len(),
                av == exprs_view(args@),
                ev_args(old(self).state(), av, 0, seq![], fuel as nat)
                    == ev_args(self.state(), av, i as nat, values_view(acc@), f as nat),
            decreases f,
        {
            if f == 0 {
                return Err(Halt::Exhausted);
            }
            if i >= args.len() {
                return Ok(acc);
            }
            assert(av[i as int] == args@[i as int].view());
            let ghost before = acc@;
            match self.eval_expr(&args[i], f - 1) {
                Ok(v) => {
                    acc.push(v);
                    assert(values_view(acc@) =~= values_view(before).push(v.view()));
                },
                Err(h) => {
                    return Err(h);
                },
            }
            i = i + 1;
            f = f - 1;
        }
    }

    /// A call of the function `name` (or of the built-in `print`) on `args`.
    fn eval_call(&mut self, name: &String, args: &Vec<Expr>, fuel: u64) -> (r: Result<ControlFlow, Halt>)
        requires
            old(self).wf(),
        ensures
            final(self).wf(),
            old(self).envs@.len() <= final(self).envs@.len(),
            (flow_res(r), final(self).state()) == ev_call(old(self).state(), name@, exprs_view(args@), fuel as nat),
        decreases fuel,
    {
        if fuel == 0 {
            return Err(Halt::Exhausted);
        }
        let f = fuel - 1;
        let mut vals = match self.eval_args(args, f) {
            Ok(vs) => vs,
            Err(h) => {
                return Err(h);
            },
        };
        let cs = chars_of(name);
        if spells(&cs, 0, cs.len(), "print") {
            assert(cs@.subrange(0, cs@.len() as int) =~= cs@);
            let ghost before = self.output@;
            let ghost vv = vals@;
            self.output.append(&mut vals);
            assert(values_view(self.output@) =~= values_view(before) + values_view(vv));
            return Ok(ControlFlow::Normal);
        }
        assert(cs@.subrange(0, cs@.len() as int) =~= cs@);
        match Env::get(&self.envs, self.curr_env, name.as_str()) {
            None => {
                let mut m = String::from_str("function not defined: ");
                m.append(name.as_str());
                Err(Halt::Error(m))
            },
            Some(Value::Fn { name: _, args: params, body, captured_env }) => {
                let calling = self.curr_env;
                self.curr_env = Env::push_scope(&mut self.envs, captured_env);
                if vals.len() != params.len() {
                    let mut m = String::from_str("expected ");
                    m.append(decimal_string(params.len()).as_str());
                    m.append(" args got ");
                    m.append(decimal_string(vals.len()).as_str());
                    return Err(Halt::Error(m));
                }
                let ghost pv = strings_view(params@);
                let ghost vv = values_view(vals@);
                let ghost st2 = self.state();
                let mut i: usize = 0;
                while i < params.len()
                    invariant
                        self.wf(),
                        calling < self.envs@.len(),
                        old(self).envs@.len() <= self.envs@.len(),
                        i <= params@.len(),
                        params@.len() == vals@.len(),
                        pv == strings_view(params@),
                        vv == values_view(vals@),
                        bind_params(st2, pv, vv, 0) == bind_params(self.state(), pv, vv, i as nat),
                    decreases params@.len() - i,
                {
                    Env::define(&mut self.envs, self.curr_env, params[i].clone(), vals[i].dup());
                    i = i + 1;
                }
                let res = self.eval_stmt(&body, f);
                self.curr_env = calling;
                res
            },
            Some(_) => Err(Halt::Fault(String::from_str("explicit panic"))),
        }
    }

    fn eval_stmt(&mut self, stmt: &Stmt, fuel: u64) -> (r: Result<ControlFlow, Halt>)
        requires
            old(self).wf(),
        ensures
            final(self).wf(),
            old(self).envs@.len() <= final(self).envs@.len(),
            (flow_res(r), final(self).state()) == ev_stmt(old(self).state(), stmt.view(), fuel as nat),
        decreases fuel,
    {
        if fuel == 0 {
            return Err(Halt::Exhausted);
        }
        let f = fuel - 1;
        match stmt {
            Stmt::Block(items) => {
                proof {
                    lemma_view_block(*items);
                }
                self.eval_block(items, f)
            },
            Stmt::Let(n, e) => {
                let v = match self.eval_expr(e, f) {
                    Ok(v) => v,
                    Err(h) => {
                        return Err(h);
                    },
                };
                Env::define(&mut self.envs, self.curr_env, n.clone(), v);
                Ok(ControlFlow::Normal)
            },
            Stmt::While(c, b) => self.eval_while(c, b, f),
            Stmt::For { init, cond, step, block } => self.eval_for(init, cond, step, block, f),
            Stmt::Fn { name, args, block } => {
                let func = Value::Fn {
                    name: name.clone(),
                    args: dup_strings(args),
                    body: Box::new(block.dup()),
                    captured_env: self.curr_env,
                };
                Env::define(&mut self.envs, self.curr_env, name.clone(), func);
                Ok(ControlFlow::Normal)
            },
            Stmt::If { cond, then_branch, else_branch } => {
                let v = match self.eval_expr(cond, f) {
                    Ok(v) => v,
                    Err(h) => {
                        return Err(h);
                    },
                };
                if v.is_truthy() {
                    self.eval_stmt(then_branch, f)
                } else {
                    match else_branch {
                        Some(b) => self.eval_stmt(b, f),
                        None => Ok(ControlFlow::Normal),
                    }
                }
            },
            Stmt::Expr(e) => {
                match self.eval_expr(e, f) {
                    Ok(_) => Ok(ControlFlow::Normal),
                    Err(h) => Err(h),
                }
            },
            Stmt::Assignment(n, e) => {
                let v = match self.eval_expr(e, f) {
                    Ok(v) => v,
                    Err(h) => {
                        return Err(h);
                    },
                };
                match Env::assign(&mut self.envs, self.curr_env, n.clone(), v) {
                    Ok(()) => Ok(ControlFlow::Normal),
                    Err(m) => Err(Halt::Error(m)),
                }
            },
            Stmt::Return(None) => Ok(ControlFlow::Return(Value::Null)),
            Stmt::Return(Some(e)) => {
                match self.eval_expr(e, f) {
                    Ok(v) => Ok(ControlFlow::Return(v)),
                    Err(h) => Err(h),
                }
            },
            Stmt::Continue => Ok(ControlFlow::Continue),
            Stmt::Break => Ok(ControlFlow::Break),
            Stmt::Call(n, args) => self.eval_call(n, args, f),
        }
    }

    /// A block: its statements in a new scope inside the current one.
    fn eval_block(&mut self, items: &Vec<Stmt>, fuel: u64) -> (r: Result<ControlFlow, Halt>)
        requires
            old(self).wf(),
        ensures
            final(self).wf(),
            old(self).envs@.len() <= final(self).envs@.len(),
            (flow_res(r), final(self).state()) == ev_block(old(self).state(), stmts_view(items@), fuel as nat),
        decreases fuel,
    {
        if fuel == 0 {
            return Err(Halt::Exhausted);
        }
        let ghost sv = stmts_view(items@);
        let prev = self.curr_env;
        self.curr_env = Env::push_scope(&mut self.envs, prev);
        let mut i: usize = 0;
        let mut f: u64 = fuel - 1;
        loop
            invariant
                self.wf(),
                prev < self.envs@.len(),
                old(self).envs@.len() <= self.envs@.len(),
                f < fuel,
                i <= items@.len(),
                sv == stmts_view(items@),
                ev_block(old(self).state(), sv, fuel as nat)
                    == ev_items(self.state(), sv, i as nat, prev as nat, f as nat),
            decreases f,
        {
            if f == 0 {
                return Err(Halt::Exhausted);
            }
            if i >= items.len() {
                self.curr_env = prev;
                return Ok(ControlFlow::Normal);
            }
            assert(sv[i as int] == items@[i as int].view());
            match self.eval_stmt(&items[i], f - 1) {
                Ok(ControlFlow::Normal) => {},
                Ok(cf) => {
                    self.curr_env = prev;
                    return Ok(cf);
                },
                Err(h) => {
                    return Err(h);
                },
            }
            i = i + 1;
            f = f - 1;
        }
    }

    /// A `while` loop.
    fn eval_while(&mut self, c: &Expr, b: &Stmt, fuel: u64) -> (r: Result<ControlFlow, Halt>)
        requires
            old(self).wf(),
        ensures
            final(self).wf(),
            old(self).envs@.len() <= final(self).envs@.len(),
            (flow_res(r), final(self).state()) == ev_while(old(self).state(), c.view(), b.view(), fuel as nat),
        decreases fuel,
    {
        let mut f: u64 = fuel;
        loop
            invariant
                self.wf(),
                old(self).envs@.len() <= self.envs@.len(),
                f <= fuel,
                ev_while(old(self).state(), c.view(), b.view(), fuel as nat)
                    == ev_while(self.state(), c.view(), b.view(), f as nat),
            decreases f,
        {
            if f == 0 {
                return Err(Halt::Exhausted);
            }
            let g = f - 1;
            let v = match self.eval_expr(c, g) {
                Ok(v) => v,
                Err(h) => {
                    return Err(h);
                },
            };
            if !v.is_truthy() {
                return Ok(ControlFlow::Normal);
            }
            match self.eval_stmt(b, g) {
                Ok(ControlFlow::Break) => {
                    return Ok(ControlFlow::Normal);
                },
                Ok(ControlFlow::Return(x)) => {
                    return Ok(ControlFlow::Return(x));
                },
                Ok(_) => {},
                Err(h) => {
                    return Err(h);
                },
            }
            f = g;
        }
    }

    /// A `for` loop: its initialisation in a new scope, then its iterations.
    fn eval_for(&mut self, init: &Stmt, c: &Expr, step: &Stmt, b: &Stmt, fuel: u64) -> (r: Result<ControlFlow, Halt>)
        requires
            old(self).wf(),
        ensures
            final(self).wf(),
            old(self).envs@.len() <= final(self).envs@.len(),
            (flow_res(r), final(self).state())
                == ev_for(old(self).state(), init.view(), c.view(), step.view(), b.view(), fuel as nat),
        decreases fuel,
    {
        if fuel == 0 {
            return Err(Halt::Exhausted);
        }
        let f = fuel - 1;
        let prev = self.curr_env;
        self.curr_env = Env::push_scope(&mut self.envs, prev);
        match init {
            Stmt::Let(n, e) => {
                let v = match self.eval_expr(e, f) {
                    Ok(v) => v,
                    Err(h) => {
                        return Err(h);
                    },
                };
                Env::define(&mut self.envs, self.curr_env, n.clone(), v);
            },
            Stmt::Expr(_) => {},
            _ => {
                return Err(Halt::Error(String::from_str("unexpected stmt inside for loop: should be init")));
            },
        }
        let mut h: u64 = f;
        loop
            invariant
                self.wf(),
                prev < self.envs@.len(),
                old(self).envs@.len() <= self.envs@.len(),
                h < fuel,
                ev_for(old(self).state(), init.view(), c.view(), step.view(), b.view(), fuel as nat)
                    == ev_for_loop(self.state(), c.view(), step.view(), b.view(), prev as nat, h as nat),
            decreases h,
        {
            if h == 0 {
                return Err(Halt::Exhausted);
            }
            let g = h - 1;
            let v = match self.eval_expr(c, g) {
                Ok(v) => v,
                Err(e) => {
                    return Err(e);
                },
            };
            if !v.is_truthy() {
                self.curr_env = prev;
                return Ok(ControlFlow::Normal);
            }
            match self.eval_stmt(b, g) {
                Ok(ControlFlow::Break) => {
                    self.curr_env = prev;
                    return Ok(ControlFlow::Normal);
                },
                Ok(ControlFlow::Return(x)) => {
                    return Ok(ControlFlow::Return(x));
                },
                Ok(_) => {},
                Err(e) => {
                    return Err(e);
                },
            }
            match self.eval_stmt(step, g) {
                Ok(_) => {},
                Err(e) => {
                    return Err(e);
                },
            }
            h = g;
        }
    }
}

} // verus!
