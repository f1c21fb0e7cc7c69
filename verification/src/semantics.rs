use vstd::prelude::*;

use crate::env::{
    FrameV, assign_at, bucket_get, bucket_names, define_at, find_key, frames_wf, law_assign_rebinds_nearest,
    lemma_assign_wf, lemma_bucket_put, lemma_lookup_names, lemma_lookup_wf, lemma_put_keeps_names, lemma_put_wf, lookup,
    value_wf,
};
use crate::lexer::{keyword_kind, lex_from};
use crate::parser::{sp_program, ExprV, Fail, StmtV};
use crate::text::decimal;
use crate::token::TokenType;
use crate::value::{
    add_spec, display, div_spec, law_order_antisymmetric, mul_spec, neg_spec, not_spec, rem_spec, sub_spec,
    truthy, value_order, values_eq, Order, Res, ValueV,
};

verus! {

/// The interpreter's state: its scopes, the current scope, and the values
/// printed so far.
pub struct State {
    pub frames: Seq<FrameV>,
    pub curr: nat,
    pub output: Seq<ValueV>,
}

/// How a statement ends.
pub enum Flow {
    Normal,
    Continue,
    Break,
    Return(ValueV),
}

/// The outcome of running a program.
pub enum RunV {
    Done,
    Parse(Seq<char>),
    Runtime(Seq<char>),
}

/// The steps a top-level statement may take before the interpreter gives up.
pub open spec fn max_fuel() -> nat {
    u64::MAX as nat
}

/// How `{:?}` shows a control flow (through the derived `Debug`).
pub uninterp spec fn flow_debug(cf: Flow) -> Seq<char>;

/// How `{:#?}` shows a statement (through the derived `Debug`).
pub uninterp spec fn stmt_debug(stmt: StmtV) -> Seq<char>;

/// The error message for a statement that ends the program with `break`,
/// `continue` or `return`.
pub open spec fn top_level_message(cf: Flow, stmt: StmtV) -> Seq<char> {
    "invalid control flow at top level "@ + flow_debug(cf) + " in statement "@ + stmt_debug(stmt)
}

/// The failure of one outcome carried over to another.
pub open spec fn fail<A, B>(r: Res<A>) -> Res<B> {
    match r {
        Res::Done(_) => Res::Exhausted,
        Res::Error(m) => Res::Error(m),
        Res::Fault(m) => Res::Fault(m),
        Res::Exhausted => Res::Exhausted,
    }
}

pub open spec fn with_curr(st: State, c: nat) -> State {
    State { frames: st.frames, curr: c, output: st.output }
}

/// A new empty scope inside `parent`, which becomes the current scope.
pub open spec fn push_scope(st: State, parent: nat) -> State {
    State {
        frames: st.frames.push(FrameV { parent: Some(parent), bucket: seq![] }),
        curr: st.frames.len(),
        output: st.output,
    }
}

/// `k` bound to `v` in the current scope.
pub open spec fn define_var(st: State, k: Seq<char>, v: ValueV) -> State {
    State { frames: define_at(st.frames, st.curr, k, v), curr: st.curr, output: st.output }
}

/// Binds the parameters `ps[i..]` to the values `vs[i..]` in the current scope, in order.
pub open spec fn bind_params(st: State, ps: Seq<Seq<char>>, vs: Seq<ValueV>, i: nat) -> State
    decreases ps.len() - i,
{
    if i >= ps.len() || i >= vs.len() {
        st
    } else {
        bind_params(define_var(st, ps[i as int], vs[i as int]), ps, vs, i + 1)
    }
}

/// A binary operator applied to two values.
pub open spec fn binop(op: TokenType, l: ValueV, r: ValueV) -> Res<ValueV> {
    match op {
        TokenType::Plus => add_spec(l, r),
        TokenType::Minus => sub_spec(l, r),
        TokenType::Times => mul_spec(l, r),
        TokenType::Divide => div_spec(l, r),
        TokenType::Modulo => rem_spec(l, r),
        TokenType::Less => Res::Done(ValueV::Bool(value_order(l, r) == Some(Order::Less))),
        TokenType::Greater => Res::Done(ValueV::Bool(value_order(l, r) == Some(Order::Greater))),
        TokenType::LessEqual => Res::Done(
            ValueV::Bool(value_order(l, r) == Some(Order::Less) || value_order(l, r) == Some(Order::Equal)),
        ),
        TokenType::GreaterEqual => Res::Done(
            ValueV::Bool(value_order(l, r) == Some(Order::Greater) || value_order(l, r) == Some(Order::Equal)),
        ),
        TokenType::EqualEqual => Res::Done(ValueV::Bool(values_eq(l, r))),
        TokenType::NotEqual => Res::Done(ValueV::Bool(!values_eq(l, r))),
        _ => Res::Error("unimplemented "@ + op.spec_name()),
    }
}

/// A unary operator applied to a value.
pub open spec fn unop(op: TokenType, v: ValueV) -> Res<ValueV> {
    match op {
        TokenType::Minus => neg_spec(v),
        TokenType::Bang => not_spec(v),
        _ => Res::Error("unimplemented"@),
    }
}

/// The value of an expression, and the state after it.
pub open spec fn ev_expr(st: State, e: ExprV, fuel: nat) -> (Res<ValueV>, State)
    decreases fuel,
{
    if fuel == 0 {
        (Res::Exhausted, st)
    } else {
        let f = (fuel - 1) as nat;
        match e {
            ExprV::Binary(l, op, r) => {
                let (lr, st1) = ev_expr(st, *l, f);
                match lr {
                    Res::Done(lv) => if op == TokenType::And && !truthy(lv) {
                        (Res::Done(ValueV::Bool(false)), st1)
                    } else if op == TokenType::Or && truthy(lv) {
                        (Res::Done(ValueV::Bool(true)), st1)
                    } else {
                        let (rr, st2) = ev_expr(st1, *r, f);
                        match rr {
                            Res::Done(rv) => if op == TokenType::And || op == TokenType::Or {
                                (Res::Done(ValueV::Bool(truthy(rv))), st2)
                            } else {
                                (binop(op, lv, rv), st2)
                            },
                            _ => (fail(rr), st2),
                        }
                    },
                    _ => (fail(lr), st1),
                }
            },
            ExprV::Unary(op, x) => {
                let (r, st1) = ev_expr(st, *x, f);
                match r {
                    Res::Done(v) => (unop(op, v), st1),
                    _ => (fail(r), st1),
                }
            },
            ExprV::Number(n) => (Res::Done(ValueV::Int(n)), st),
            ExprV::Str(s) => (Res::Done(ValueV::Str(s)), st),
            ExprV::Bool(b) => (Res::Done(ValueV::Bool(b)), st),
            ExprV::Null => (Res::Done(ValueV::Null), st),
            ExprV::Ident(n) => match lookup(st.frames, st.curr, n) {
                Some(v) => (Res::Done(v), st),
                None => (Res::Error("undefined variable '"@ + n + "'"@), st),
            },
            ExprV::Group(x) => ev_expr(st, *x, f),
            ExprV::Callable(callee, args) => match *callee {
                ExprV::Ident(n) => {
                    let (r, st1) = ev_call(st, n, args, f);
                    match r {
                        Res::Done(Flow::Return(v)) => (Res::Done(v), st1),
                        Res::Done(_) => (Res::Done(ValueV::Null), st1),
                        _ => (fail(r), st1),
                    }
                },
                _ => (Res::Error("expression is not callable"@), st),
            },
        }
    }
}

/// The values of `args[i..]`, evaluated in order, after those in `acc`.
pub open spec fn ev_args(st: State, args: Seq<ExprV>, i: nat, acc: Seq<ValueV>, fuel: nat) -> (Res<Seq<ValueV>>, State)
    decreases fuel,
{
    if fuel == 0 {
        (Res::Exhausted, st)
    } else if i >= args.len() {
        (Res::Done(acc), st)
    } else {
        let (r, st1) = ev_expr(st, args[i as int], (fuel - 1) as nat);
        match r {
            Res::Done(v) => ev_args(st1, args, i + 1, acc.push(v), (fuel - 1) as nat),
            _ => (fail(r), st1),
        }
    }
}

/// A call of the function named `n` (or of the built-in `print`).
pub open spec fn ev_call(st: State, n: Seq<char>, args: Seq<ExprV>, fuel: nat) -> (Res<Flow>, State)
    decreases fuel,
{
    if fuel == 0 {
        (Res::Exhausted, st)
    } else {
        let f = (fuel - 1) as nat;
        let (ar, st1) = ev_args(st, args, 0, seq![], f);
        match ar {
            Res::Done(vals) => if n == "print"@ {
                (Res::Done(Flow::Normal), State { frames: st1.frames, curr: st1.curr, output: st1.output + vals })
            } else {
                match lookup(st1.frames, st1.curr, n) {
                    None => (Res::Error("function not defined: "@ + n), st1),
                    Some(ValueV::Fn(_, params, body, env)) => {
                        let calling = st1.curr;
                        let st2 = push_scope(st1, env);
                        if vals.len() != params.len() {
                            (Res::Error("expected "@ + decimal(params.len()) + " args got "@ + decimal(vals.len())), st2)
                        } else {
                            let st3 = bind_params(st2, params, vals, 0);
                            let (br, st4) = ev_stmt(st3, body, f);
                            (br, with_curr(st4, calling))
                        }
                    },
                    Some(_) => (Res::Fault("explicit panic"@), st1),
                }
            },
            _ => (fail(ar), st1),
        }
    }
}

/// How a statement ends, and the state after it.
pub open spec fn ev_stmt(st: State, s: StmtV, fuel: nat) -> (Res<Flow>, State)
    decreases fuel,
{
    if fuel == 0 {
        (Res::Exhausted, st)
    } else {
        let f = (fuel - 1) as nat;
        match s {
            StmtV::Block(items) => ev_block(st, items, f),
            StmtV::Let(n, e) => {
                let (r, st1) = ev_expr(st, e, f);
                match r {
                    Res::Done(v) => (Res::Done(Flow::Normal), define_var(st1, n, v)),
                    _ => (fail(r), st1),
                }
            },
            StmtV::While(c, b) => ev_while(st, c, *b, f),
            StmtV::For(init, c, step, b) => ev_for(st, *init, c, *step, *b, f),
            StmtV::Fn(n, params, body) => (
                Res::Done(Flow::Normal),
                define_var(st, n, ValueV::Fn(n, params, *body, st.curr)),
            ),
            StmtV::If(c, t, e) => {
                let (r, st1) = ev_expr(st, c, f);
                match r {
                    Res::Done(v) => if truthy(v) {
                        ev_stmt(st1, *t, f)
                    } else {
                        match e {
                            Some(b) => ev_stmt(st1, *b, f),
                            None => (Res::Done(Flow::Normal), st1),
                        }
                    },
                    _ => (fail(r), st1),
                }
            },
            StmtV::Expr(e) => {
                let (r, st1) = ev_expr(st, e, f);
                match r {
                    Res::Done(_) => (Res::Done(Flow::Normal), st1),
                    _ => (fail(r), st1),
                }
            },
            StmtV::Assignment(n, e) => {
                let (r, st1) = ev_expr(st, e, f);
                match r {
                    Res::Done(v) => match assign_at(st1.frames, st1.curr, n, v) {
                        Some(fs) => (Res::Done(Flow::Normal), State { frames: fs, curr: st1.curr, output: st1.output }),
                        None => (Res::Error("cannot reassign value to undefined variable"@), st1),
                    },
                    _ => (fail(r), st1),
                }
            },
            StmtV::Return(None) => (Res::Done(Flow::Return(ValueV::Null)), st),
            StmtV::Return(Some(e)) => {
                let (r, st1) = ev_expr(st, e, f);
                match r {
                    Res::Done(v) => (Res::Done(Flow::Return(v)), st1),
                    _ => (fail(r), st1),
                }
            },
            StmtV::Continue => (Res::Done(Flow::Continue), st),
            StmtV::Break => (Res::Done(Flow::Break), st),
            StmtV::Call(n, args) => ev_call(st, n, args, f),
        }
    }
}

/// A block: its statements in a new scope, which is left again unless an
/// error stops the block.
pub open spec fn ev_block(st: State, items: Seq<StmtV>, fuel: nat) -> (Res<Flow>, State)
    decreases fuel,
{
    if fuel == 0 {
        (Res::Exhausted, st)
    } else {
        ev_items(push_scope(st, st.curr), items, 0, st.curr, (fuel - 1) as nat)
    }
}

/// The statements `items[i..]` of a block whose enclosing scope is `prev`.
pub open spec fn ev_items(st: State, items: Seq<StmtV>, i: nat, prev: nat, fuel: nat) -> (Res<Flow>, State)
    decreases fuel,
{
    if fuel == 0 {
        (Res::Exhausted, st)
    } else if i >= items.len() {
        (Res::Done(Flow::Normal), with_curr(st, prev))
    } else {
        let (r, st1) = ev_stmt(st, items[i as int], (fuel - 1) as nat);
        match r {
            Res::Done(Flow::Normal) => ev_items(st1, items, i + 1, prev, (fuel - 1) as nat),
            Res::Done(cf) => (Res::Done(cf), with_curr(st1, prev)),
            _ => (fail(r), st1),
        }
    }
}

/// A `while` loop.
pub open spec fn ev_while(st: State, c: ExprV, b: StmtV, fuel: nat) -> (Res<Flow>, State)
    decreases fuel,
{
    if fuel == 0 {
        (Res::Exhausted, st)
    } else {
        let f = (fuel - 1) as nat;
        let (r, st1) = ev_expr(st, c, f);
        match r {
            Res::Done(v) => if !truthy(v) {
                (Res::Done(Flow::Normal), st1)
            } else {
                let (r2, st2) = ev_stmt(st1, b, f);
                match r2 {
                    Res::Done(Flow::Break) => (Res::Done(Flow::Normal), st2),
                    Res::Done(Flow::Return(x)) => (Res::Done(Flow::Return(x)), st2),
                    Res::Done(_) => ev_while(st2, c, b, f),
                    _ => (fail(r2), st2),
                }
            },
            _ => (fail(r), st1),
        }
    }
}

/// A `for` loop: its initialisation in a new scope, then the loop.
pub open spec fn ev_for(st: State, init: StmtV, c: ExprV, step: StmtV, b: StmtV, fuel: nat) -> (Res<Flow>, State)
    decreases fuel,
{
    if fuel == 0 {
        (Res::Exhausted, st)
    } else {
        let f = (fuel - 1) as nat;
        let prev = st.curr;
        let st1 = push_scope(st, st.curr);
        match init {
            StmtV::Let(n, e) => {
                let (r, st2) = ev_expr(st1, e, f);
                match r {
                    Res::Done(v) => ev_for_loop(define_var(st2, n, v), c, step, b, prev, f),
                    _ => (fail(r), st2),
                }
            },
            StmtV::Expr(_) => ev_for_loop(st1, c, step, b, prev, f),
            _ => (Res::Error("unexpected stmt inside for loop: should be init"@), st1),
        }
    }
}

/// The iterations of a `for` loop whose enclosing scope is `prev`.
pub open spec fn ev_for_loop(st: State, c: ExprV, step: StmtV, b: StmtV, prev: nat, fuel: nat) -> (Res<Flow>, State)
    decreases fuel,
{
    if fuel == 0 {
        (Res::Exhausted, st)
    } else {
        let f = (fuel - 1) as nat;
        let (r, st1) = ev_expr(st, c, f);
        match r {
            Res::Done(v) => if !truthy(v) {
                (Res::Done(Flow::Normal), with_curr(st1, prev))
            } else {
                let (r2, st2) = ev_stmt(st1, b, f);
                match r2 {
                    Res::Done(Flow::Break) => (Res::Done(Flow::Normal), with_curr(st2, prev)),
                    Res::Done(Flow::Return(x)) => (Res::Done(Flow::Return(x)), st2),
                    Res::Done(_) => {
                        let (r3, st3) = ev_stmt(st2, step, f);
                        match r3 {
                            Res::Done(_) => ev_for_loop(st3, c, step, b, prev, f),
                            _ => (fail(r3), st3),
                        }
                    },
                    _ => (fail(r2), st2),
                }
            },
            _ => (fail(r), st1),
        }
    }
}

/// The top-level statements `ss[i..]`, each with the full step budget; a
/// statement that ends with `break`, `continue` or `return` is an error.
pub open spec fn ev_program(st: State, ss: Seq<StmtV>, i: nat) -> (Res<()>, State)
    decreases ss.len() - i,
{
    if i >= ss.len() {
        (Res::Done(()), st)
    } else {
        let (r, st1) = ev_stmt(st, ss[i as int], max_fuel());
        match r {
            Res::Done(Flow::Normal) => ev_program(st1, ss, i + 1),
            Res::Done(cf) => (Res::Error(top_level_message(cf, ss[i as int])), st1),
            _ => (fail(r), st1),
        }
    }
}

/// Whether running `src` comes back with a result at all: lexing finishes,
/// parsing does not stop short (past the last token, or at a number that does
/// not fit in `i32`), and evaluation neither faults (integer overflow, `%` by
/// zero, calling a value that is not a function) nor runs out of steps.
pub open spec fn run_returns(st: State, src: Seq<char>) -> bool {
    match lex_from(src, 0) {
        None => false,
        Some(ts) => match sp_program(ts, seq![], 0) {
            Err(Fail::Error(_)) => true,
            Err(Fail::Panic) => false,
            Ok((ss, _)) => {
                let r = ev_program(st, ss, 0).0;
                !(r is Fault) && !(r is Exhausted)
            },
        },
    }
}

/// Running source text: lexing, parsing, then evaluating, and the state after
/// it. Where the run would not come back (see `run_returns`) the outcome is an
/// error naming why, and the state is what evaluation had reached.
pub open spec fn spec_run(st: State, src: Seq<char>) -> (RunV, State) {
    match lex_from(src, 0) {
        None => (RunV::Parse("cannot tokenize the input"@), st),
        Some(ts) => match sp_program(ts, seq![], 0) {
            Err(Fail::Error(m)) => (RunV::Parse(m), st),
            Err(Fail::Panic) => (RunV::Parse("input ends too early or holds a malformed number"@), st),
            Ok((ss, _)) => {
                let (r, st1) = ev_program(st, ss, 0);
                match r {
                    Res::Done(_) => (RunV::Done, st1),
                    Res::Error(m) => (RunV::Runtime(m), st1),
                    Res::Fault(m) => (RunV::Runtime(m), st1),
                    Res::Exhausted => (RunV::Runtime("step limit reached"@), st1),
                }
            },
        },
    }
}

/// The current scope exists, every scope sits in an earlier one (so that
/// looking a name up or assigning it walks the whole chain of enclosing
/// scopes up to the global one), and every function value bound refers to an
/// existing scope.
pub open spec fn valid(st: State) -> bool {
    st.curr < st.frames.len() && frames_wf(st.frames)
}

/// A returned value, if any, refers to an existing scope.
pub open spec fn flow_wf(r: Res<Flow>, n: nat) -> bool {
    r matches Res::Done(Flow::Return(v)) ==> value_wf(v, n)
}

proof fn lemma_ops_wf(op: TokenType, l: ValueV, r: ValueV)
    ensures
        binop(op, l, r) matches Res::Done(v) ==> !(v is Fn),
        unop(op, l) matches Res::Done(v) ==> !(v is Fn),
{
}

/// What evaluation never undoes, from `a` to `b`: scopes are only added, no
/// scope's enclosing scope changes, and what was printed stays printed.
pub open spec fn extends(a: State, b: State) -> bool {
    &&& a.frames.len() <= b.frames.len()
    &&& forall|j: int| 0 <= j < a.frames.len() ==> (#[trigger] b.frames[j]).parent == a.frames[j].parent
    &&& a.output.len() <= b.output.len()
    &&& forall|j: int| 0 <= j < a.output.len() ==> #[trigger] b.output[j] == a.output[j]
}

/// The scopes below `base` bind the same names in `b` as in `a` (their values
/// may differ).
pub open spec fn keeps_names(a: State, b: State, base: nat) -> bool {
    forall|j: int| 0 <= j < base ==> bucket_names((#[trigger] b.frames[j]).bucket) == bucket_names(a.frames[j].bucket)
}

/// One evaluation step from `a` to `b`, seen from the scopes below `base`.
pub open spec fn step_ok(a: State, b: State, base: nat) -> bool {
    valid(b) && extends(a, b) && keeps_names(a, b, base)
}

proof fn lemma_step_trans(a: State, b: State, c: State, base: nat)
    requires
        step_ok(a, b, base),
        step_ok(b, c, base),
        base <= a.frames.len(),
    ensures
        step_ok(a, c, base),
{
    assert forall|j: int| 0 <= j < a.frames.len() implies (#[trigger] c.frames[j]).parent == a.frames[j].parent by {
        assert(b.frames[j].parent == a.frames[j].parent);
    }
    assert forall|j: int| 0 <= j < a.output.len() implies #[trigger] c.output[j] == a.output[j] by {
        assert(b.output[j] == a.output[j]);
    }
    assert forall|j: int| 0 <= j < base implies bucket_names((#[trigger] c.frames[j]).bucket) == bucket_names(a.frames[j].bucket) by {
        assert(bucket_names(b.frames[j].bucket) == bucket_names(a.frames[j].bucket));
    }
}

proof fn lemma_define_var(st: State, k: Seq<char>, v: ValueV, base: nat)
    requires
        valid(st),
        base <= st.curr,
        value_wf(v, st.frames.len()),
    ensures
        step_ok(st, define_var(st, k, v), base),
        define_var(st, k, v).curr == st.curr,
{
    lemma_put_wf(st.frames, st.curr, k, v);
    let st2 = define_var(st, k, v);
    assert forall|j: int| 0 <= j < st.frames.len() implies (#[trigger] st2.frames[j]).parent == st.frames[j].parent by {}
    assert forall|j: int| 0 <= j < base implies bucket_names((#[trigger] st2.frames[j]).bucket) == bucket_names(st.frames[j].bucket) by {
        assert(st2.frames[j] == st.frames[j]);
    }
}

proof fn lemma_bind_params(st: State, ps: Seq<Seq<char>>, vs: Seq<ValueV>, i: nat, base: nat)
    requires
        valid(st),
        base <= st.curr,
        forall|j: int| 0 <= j < vs.len() ==> value_wf(#[trigger] vs[j], st.frames.len()),
    ensures
        step_ok(st, bind_params(st, ps, vs, i), base),
        bind_params(st, ps, vs, i).curr == st.curr,
    decreases ps.len() - i,
{
    if i < ps.len() && i < vs.len() {
        let st1 = define_var(st, ps[i as int], vs[i as int]);
        lemma_define_var(st, ps[i as int], vs[i as int], base);
        lemma_bind_params(st1, ps, vs, i + 1, base);
        lemma_step_trans(st, st1, bind_params(st1, ps, vs, i + 1), base);
    }
}

proof fn lemma_push(st: State, parent: nat, base: nat)
    requires
        valid(st),
        base <= st.frames.len(),
        parent < st.frames.len(),
    ensures
        step_ok(st, push_scope(st, parent), base),
        push_scope(st, parent).curr == st.frames.len(),
{
    let st2 = push_scope(st, parent);
    let fs = st2.frames;
    assert forall|i: int| 0 <= i < fs.len() implies match #[trigger] fs[i].parent {
        Some(p) => p < i,
        None => true,
    } by {
        if i < st.frames.len() {
            assert(fs[i] == st.frames[i]);
        }
    }
    assert forall|i: int, j: int| 0 <= i < fs.len() && 0 <= j < fs[i].bucket.len()
        implies value_wf(#[trigger] fs[i].bucket[j].1, fs.len()) by {
        assert(i < st.frames.len());
        assert(fs[i] == st.frames[i]);
        assert(value_wf(st.frames[i].bucket[j].1, st.frames.len()));
    }
    assert forall|j: int| 0 <= j < st.frames.len() implies (#[trigger] st2.frames[j]).parent == st.frames[j].parent by {}
    assert forall|j: int| 0 <= j < base implies bucket_names((#[trigger] st2.frames[j]).bucket) == bucket_names(st.frames[j].bucket) by {}
}

proof fn lemma_assign_step(st: State, k: Seq<char>, v: ValueV, base: nat)
    requires
        valid(st),
        base <= st.frames.len(),
        value_wf(v, st.frames.len()),
    ensures
        assign_at(st.frames, st.curr, k, v) matches Some(fs) ==> step_ok(
            st,
            State { frames: fs, curr: st.curr, output: st.output },
            base,
        ),
{
    law_assign_rebinds_nearest(st.frames, st.curr, k, v);
    lemma_assign_wf(st.frames, st.curr, k, v);
    match assign_at(st.frames, st.curr, k, v) {
        Some(fs) => {
            let q = choose|q: nat| q < st.frames.len() && fs == define_at(st.frames, q, k, v)
                && #[trigger] find_key(st.frames[q as int].bucket, k, 0) is Some
                && lookup(st.frames, st.curr, k) == bucket_get(st.frames[q as int].bucket, k);
            lemma_put_keeps_names(st.frames[q as int].bucket, k, v);
            assert forall|j: int| 0 <= j < st.frames.len() implies (#[trigger] fs[j]).parent == st.frames[j].parent by {}
            assert forall|j: int| 0 <= j < base implies bucket_names((#[trigger] fs[j]).bucket) == bucket_names(st.frames[j].bucket) by {
                if j != q {
                    assert(fs[j] == st.frames[j]);
                }
            }
        },
        None => {},
    }
}

proof fn lemma_ev_expr(st: State, e: ExprV, fuel: nat, base: nat)
    requires
        valid(st),
        base <= st.frames.len(),
    ensures
        step_ok(st, ev_expr(st, e, fuel).1, base),
        ev_expr(st, e, fuel).1.curr == st.curr || ev_expr(st, e, fuel).1.curr >= base,
        ev_expr(st, e, fuel).0 is Done ==> ev_expr(st, e, fuel).1.curr == st.curr,
        ev_expr(st, e, fuel).0 matches Res::Done(v) ==> value_wf(v, ev_expr(st, e, fuel).1.frames.len()),
    decreases fuel, 0nat,
{
    if fuel > 0 {
        let f = (fuel - 1) as nat;
        match e {
            ExprV::Binary(l, op, r) => {
                lemma_ev_expr(st, *l, f, base);
                let (lr, st1) = ev_expr(st, *l, f);
                if lr is Done {
                    lemma_ev_expr(st1, *r, f, base);
                    lemma_step_trans(st, st1, ev_expr(st1, *r, f).1, base);
                    match (lr, ev_expr(st1, *r, f).0) {
                        (Res::Done(lv), Res::Done(rv)) => lemma_ops_wf(op, lv, rv),
                        _ => {},
                    }
                }
            },
            ExprV::Unary(op, x) => {
                lemma_ev_expr(st, *x, f, base);
                match ev_expr(st, *x, f).0 {
                    Res::Done(v) => lemma_ops_wf(op, v, v),
                    _ => {},
                }
            },
            ExprV::Ident(n) => {
                lemma_lookup_wf(st.frames, st.curr, n);
            },
            ExprV::Group(x) => {
                lemma_ev_expr(st, *x, f, base);
            },
            ExprV::Callable(callee, args) => {
                match *callee {
                    ExprV::Ident(n) => {
                        lemma_ev_call(st, n, args, f, base);
                    },
                    _ => {},
                }
            },
            _ => {},
        }
    }
}

proof fn lemma_ev_args(st: State, args: Seq<ExprV>, i: nat, acc: Seq<ValueV>, fuel: nat, base: nat)
    requires
        valid(st),
        base <= st.frames.len(),
        forall|j: int| 0 <= j < acc.len() ==> value_wf(#[trigger] acc[j], st.frames.len()),
    ensures
        ev_args(st, args, i, acc, fuel).0 matches Res::Done(vs) ==> forall|j: int| 0 <= j < vs.len()
            ==> value_wf(#[trigger] vs[j], ev_args(st, args, i, acc, fuel).1.frames.len()),
        step_ok(st, ev_args(st, args, i, acc, fuel).1, base),
        ev_args(st, args, i, acc, fuel).1.curr == st.curr || ev_args(st, args, i, acc, fuel).1.curr >= base,
        ev_args(st, args, i, acc, fuel).0 is Done ==> ev_args(st, args, i, acc, fuel).1.curr == st.curr,
    decreases fuel, 0nat,
{
    if fuel > 0 && i < args.len() {
        let f = (fuel - 1) as nat;
        lemma_ev_expr(st, args[i as int], f, base);
        let (r, st1) = ev_expr(st, args[i as int], f);
        match r {
            Res::Done(v) => {
                lemma_ev_args(st1, args, i + 1, acc.push(v), f, base);
                lemma_step_trans(st, st1, ev_args(st1, args, i + 1, acc.push(v), f).1, base);
            },
            _ => {},
        }
    }
}

proof fn lemma_ev_call(st: State, n: Seq<char>, args: Seq<ExprV>, fuel: nat, base: nat)
    requires
        valid(st),
        base <= st.frames.len(),
    ensures
        step_ok(st, ev_call(st, n, args, fuel).1, base),
        ev_call(st, n, args, fuel).1.curr == st.curr || ev_call(st, n, args, fuel).1.curr >= base,
        ev_call(st, n, args, fuel).0 is Done ==> ev_call(st, n, args, fuel).1.curr == st.curr,
        flow_wf(ev_call(st, n, args, fuel).0, ev_call(st, n, args, fuel).1.frames.len()),
    decreases fuel, 0nat,
{
    if fuel > 0 {
        let f = (fuel - 1) as nat;
        lemma_ev_args(st, args, 0, seq![], f, base);
        let (ar, st1) = ev_args(st, args, 0, seq![], f);
        match ar {
            Res::Done(vals) => {
                if n == "print"@ {
                    let st2 = State { frames: st1.frames, curr: st1.curr, output: st1.output + vals };
                    assert(step_ok(st1, st2, base));
                    lemma_step_trans(st, st1, st2, base);
                } else {
                    match lookup(st1.frames, st1.curr, n) {
                        Some(ValueV::Fn(_, params, body, env)) => {
                            lemma_lookup_wf(st1.frames, st1.curr, n);
                            let calling = st1.curr;
                            let st2 = push_scope(st1, env);
                            lemma_push(st1, env, base);
                            lemma_step_trans(st, st1, st2, base);
                            if vals.len() == params.len() {
                                let st3 = bind_params(st2, params, vals, 0);
                                lemma_bind_params(st2, params, vals, 0, base);
                                lemma_step_trans(st, st2, st3, base);
                                lemma_ev_stmt(st3, body, f, base);
                                let st4 = ev_stmt(st3, body, f).1;
                                lemma_step_trans(st, st3, st4, base);
                                assert(step_ok(st4, with_curr(st4, calling), base));
                                lemma_step_trans(st, st4, with_curr(st4, calling), base);
                            }
                        },
                        _ => {},
                    }
                }
            },
            _ => {},
        }
    }
}

proof fn lemma_ev_stmt(st: State, s: StmtV, fuel: nat, base: nat)
    requires
        valid(st),
        base <= st.curr,
    ensures
        step_ok(st, ev_stmt(st, s, fuel).1, base),
        ev_stmt(st, s, fuel).1.curr >= base,
        ev_stmt(st, s, fuel).0 matches Res::Done(cf) && !(cf is Return) ==> ev_stmt(st, s, fuel).1.curr == st.curr,
        flow_wf(ev_stmt(st, s, fuel).0, ev_stmt(st, s, fuel).1.frames.len()),
    decreases fuel, 0nat,
{
    if fuel > 0 {
        let f = (fuel - 1) as nat;
        match s {
            StmtV::Block(items) => {
                lemma_ev_block(st, items, f, base);
            },
            StmtV::Let(n, e) => {
                lemma_ev_expr(st, e, f, base);
                let (r, st1) = ev_expr(st, e, f);
                match r {
                    Res::Done(v) => {
                        lemma_define_var(st1, n, v, base);
                        lemma_step_trans(st, st1, define_var(st1, n, v), base);
                    },
                    _ => {},
                }
            },
            StmtV::While(c, b) => {
                lemma_ev_while(st, c, *b, f, base);
            },
            StmtV::For(init, c, step, b) => {
                lemma_ev_for(st, *init, c, *step, *b, f, base);
            },
            StmtV::Fn(n, params, body) => {
                lemma_define_var(st, n, ValueV::Fn(n, params, *body, st.curr), base);
            },
            StmtV::If(c, t, e) => {
                lemma_ev_expr(st, c, f, base);
                let (r, st1) = ev_expr(st, c, f);
                match r {
                    Res::Done(v) => {
                        if truthy(v) {
                            lemma_ev_stmt(st1, *t, f, base);
                            lemma_step_trans(st, st1, ev_stmt(st1, *t, f).1, base);
                        } else {
                            match e {
                                Some(b) => {
                                    lemma_ev_stmt(st1, *b, f, base);
                                    lemma_step_trans(st, st1, ev_stmt(st1, *b, f).1, base);
                                },
                                None => {},
                            }
                        }
                    },
                    _ => {},
                }
            },
            StmtV::Expr(e) => {
                lemma_ev_expr(st, e, f, base);
            },
            StmtV::Assignment(n, e) => {
                lemma_ev_expr(st, e, f, base);
                let (r, st1) = ev_expr(st, e, f);
                match r {
                    Res::Done(v) => {
                        lemma_assign_step(st1, n, v, base);
                        match assign_at(st1.frames, st1.curr, n, v) {
                            Some(fs) => {
                                lemma_step_trans(st, st1, State { frames: fs, curr: st1.curr, output: st1.output }, base);
                            },
                            None => {},
                        }
                    },
                    _ => {},
                }
            },
            StmtV::Return(Some(e)) => {
                lemma_ev_expr(st, e, f, base);
            },
            StmtV::Call(n, args) => {
                lemma_ev_call(st, n, args, f, base);
            },
            _ => {},
        }
    }
}

proof fn lemma_ev_block(st: State, items: Seq<StmtV>, fuel: nat, base: nat)
    requires
        valid(st),
        base <= st.curr,
    ensures
        step_ok(st, ev_block(st, items, fuel).1, base),
        ev_block(st, items, fuel).1.curr >= base,
        ev_block(st, items, fuel).0 is Done ==> ev_block(st, items, fuel).1.curr == st.curr,
        flow_wf(ev_block(st, items, fuel).0, ev_block(st, items, fuel).1.frames.len()),
    decreases fuel, 0nat,
{
    if fuel > 0 {
        let st1 = push_scope(st, st.curr);
        lemma_push(st, st.curr, base);
        lemma_ev_items(st1, items, 0, st.curr, (fuel - 1) as nat, base);
        lemma_step_trans(st, st1, ev_items(st1, items, 0, st.curr, (fuel - 1) as nat).1, base);
    }
}

proof fn lemma_ev_items(st: State, items: Seq<StmtV>, i: nat, prev: nat, fuel: nat, base: nat)
    requires
        valid(st),
        base <= st.curr,
        prev < st.frames.len(),
    ensures
        step_ok(st, ev_items(st, items, i, prev, fuel).1, base),
        ev_items(st, items, i, prev, fuel).1.curr >= base || ev_items(st, items, i, prev, fuel).1.curr == prev,
        ev_items(st, items, i, prev, fuel).0 is Done ==> ev_items(st, items, i, prev, fuel).1.curr == prev,
        flow_wf(ev_items(st, items, i, prev, fuel).0, ev_items(st, items, i, prev, fuel).1.frames.len()),
    decreases fuel, 0nat,
{
    if fuel > 0 {
        if i >= items.len() {
            assert(step_ok(st, with_curr(st, prev), base));
        } else {
            let f = (fuel - 1) as nat;
            lemma_ev_stmt(st, items[i as int], f, base);
            let (r, st1) = ev_stmt(st, items[i as int], f);
            match r {
                Res::Done(Flow::Normal) => {
                    lemma_ev_items(st1, items, i + 1, prev, f, base);
                    lemma_step_trans(st, st1, ev_items(st1, items, i + 1, prev, f).1, base);
                },
                Res::Done(cf) => {
                    assert(step_ok(st1, with_curr(st1, prev), base));
                    lemma_step_trans(st, st1, with_curr(st1, prev), base);
                },
                _ => {},
            }
        }
    }
}

proof fn lemma_ev_while(st: State, c: ExprV, b: StmtV, fuel: nat, base: nat)
    requires
        valid(st),
        base <= st.curr,
    ensures
        step_ok(st, ev_while(st, c, b, fuel).1, base),
        ev_while(st, c, b, fuel).1.curr >= base,
        ev_while(st, c, b, fuel).0 matches Res::Done(cf) && !(cf is Return) ==> ev_while(st, c, b, fuel).1.curr == st.curr,
        flow_wf(ev_while(st, c, b, fuel).0, ev_while(st, c, b, fuel).1.frames.len()),
    decreases fuel, 0nat,
{
    if fuel > 0 {
        let f = (fuel - 1) as nat;
        lemma_ev_expr(st, c, f, base);
        let (r, st1) = ev_expr(st, c, f);
        match r {
            Res::Done(v) => {
                if truthy(v) {
                    lemma_ev_stmt(st1, b, f, base);
                    let (r2, st2) = ev_stmt(st1, b, f);
                    lemma_step_trans(st, st1, st2, base);
                    match r2 {
                        Res::Done(Flow::Break) => {},
                        Res::Done(Flow::Return(_)) => {},
                        Res::Done(_) => {
                            lemma_ev_while(st2, c, b, f, base);
                            lemma_step_trans(st, st2, ev_while(st2, c, b, f).1, base);
                        },
                        _ => {},
                    }
                }
            },
            _ => {},
        }
    }
}

proof fn lemma_ev_for(st: State, init: StmtV, c: ExprV, step: StmtV, b: StmtV, fuel: nat, base: nat)
    requires
        valid(st),
        base <= st.curr,
    ensures
        step_ok(st, ev_for(st, init, c, step, b, fuel).1, base),
        ev_for(st, init, c, step, b, fuel).1.curr >= base,
        ev_for(st, init, c, step, b, fuel).0 matches Res::Done(cf) && !(cf is Return)
            ==> ev_for(st, init, c, step, b, fuel).1.curr == st.curr,
        flow_wf(ev_for(st, init, c, step, b, fuel).0, ev_for(st, init, c, step, b, fuel).1.frames.len()),
    decreases fuel, 0nat,
{
    if fuel > 0 {
        let f = (fuel - 1) as nat;
        let prev = st.curr;
        let st1 = push_scope(st, st.curr);
        lemma_push(st, st.curr, base);
        match init {
            StmtV::Let(n, e) => {
                lemma_ev_expr(st1, e, f, base);
                let (r, st2) = ev_expr(st1, e, f);
                lemma_step_trans(st, st1, st2, base);
                match r {
                    Res::Done(v) => {
                        let st3 = define_var(st2, n, v);
                        lemma_define_var(st2, n, v, base);
                        lemma_step_trans(st, st2, st3, base);
                        lemma_ev_for_loop(st3, c, step, b, prev, f, base);
                        lemma_step_trans(st, st3, ev_for_loop(st3, c, step, b, prev, f).1, base);
                    },
                    _ => {},
                }
            },
            StmtV::Expr(_) => {
                lemma_ev_for_loop(st1, c, step, b, prev, f, base);
                lemma_step_trans(st, st1, ev_for_loop(st1, c, step, b, prev, f).1, base);
            },
            _ => {},
        }
    }
}

proof fn lemma_ev_for_loop(st: State, c: ExprV, step: StmtV, b: StmtV, prev: nat, fuel: nat, base: nat)
    requires
        valid(st),
        base <= st.curr,
        prev < st.frames.len(),
    ensures
        step_ok(st, ev_for_loop(st, c, step, b, prev, fuel).1, base),
        ev_for_loop(st, c, step, b, prev, fuel).1.curr >= base
            || ev_for_loop(st, c, step, b, prev, fuel).1.curr == prev,
        ev_for_loop(st, c, step, b, prev, fuel).0 matches Res::Done(cf) && !(cf is Return)
            ==> ev_for_loop(st, c, step, b, prev, fuel).1.curr == prev,
        flow_wf(ev_for_loop(st, c, step, b, prev, fuel).0, ev_for_loop(st, c, step, b, prev, fuel).1.frames.len()),
    decreases fuel, 0nat,
{
    if fuel > 0 {
        let f = (fuel - 1) as nat;
        lemma_ev_expr(st, c, f, base);
        let (r, st1) = ev_expr(st, c, f);
        match r {
            Res::Done(v) => {
                if !truthy(v) {
                    assert(step_ok(st1, with_curr(st1, prev), base));
                    lemma_step_trans(st, st1, with_curr(st1, prev), base);
                } else {
                    lemma_ev_stmt(st1, b, f, base);
                    let (r2, st2) = ev_stmt(st1, b, f);
                    lemma_step_trans(st, st1, st2, base);
                    match r2 {
                        Res::Done(Flow::Break) => {
                            assert(step_ok(st2, with_curr(st2, prev), base));
                            lemma_step_trans(st, st2, with_curr(st2, prev), base);
                        },
                        Res::Done(Flow::Return(_)) => {},
                        Res::Done(_) => {
                            lemma_ev_stmt(st2, step, f, base);
                            let (r3, st3) = ev_stmt(st2, step, f);
                            lemma_step_trans(st, st2, st3, base);
                            match r3 {
                                Res::Done(_) => {
                                    lemma_ev_for_loop(st3, c, step, b, prev, f, base);
                                    lemma_step_trans(st, st3, ev_for_loop(st3, c, step, b, prev, f).1, base);
                                },
                                _ => {},
                            }
                        },
                        _ => {},
                    }
                }
            },
            _ => {},
        }
    }
}

proof fn lemma_ev_program(st: State, ss: Seq<StmtV>, i: nat)
    requires
        valid(st),
    ensures
        step_ok(st, ev_program(st, ss, i).1, 0),
        ev_program(st, ss, i).0 is Done ==> ev_program(st, ss, i).1.curr == st.curr,
    decreases ss.len() - i,
{
    if i < ss.len() {
        lemma_ev_stmt(st, ss[i as int], max_fuel(), 0);
        let (r, st1) = ev_stmt(st, ss[i as int], max_fuel());
        match r {
            Res::Done(Flow::Normal) => {
                lemma_ev_program(st1, ss, i + 1);
                lemma_step_trans(st, st1, ev_program(st1, ss, i + 1).1, 0);
            },
            _ => {},
        }
    }
}

/// Running a program never undoes anything, whatever its outcome: scopes are
/// only added and keep their enclosing scope, what was printed stays printed
/// (the new output extends the old), and the state stays valid (the current
/// scope exists, each scope sits in an earlier one, each function value names
/// an existing scope). A run that succeeds ends in the scope it started in.
pub proof fn law_run(st: State, src: Seq<char>)
    requires
        valid(st),
    ensures
        valid(spec_run(st, src).1),
        extends(st, spec_run(st, src).1),
        spec_run(st, src).0 is Done ==> spec_run(st, src).1.curr == st.curr,
{
    match lex_from(src, 0) {
        None => {},
        Some(ts) => match sp_program(ts, seq![], 0) {
            Ok((ss, _)) => {
                lemma_ev_program(st, ss, 0);
            },
            _ => {},
        },
    }
}

/// A statement, whatever its outcome, never undoes anything and leaves a
/// scope that exists current; one that finishes other than by `return` ends
/// in the scope it started in.
pub proof fn law_statement(st: State, s: StmtV, fuel: nat)
    requires
        valid(st),
    ensures
        valid(ev_stmt(st, s, fuel).1),
        extends(st, ev_stmt(st, s, fuel).1),
        ev_stmt(st, s, fuel).0 matches Res::Done(cf) && !(cf is Return) ==> ev_stmt(st, s, fuel).1.curr == st.curr,
{
    lemma_ev_stmt(st, s, fuel, 0);
}

/// After `from` steps to `to` keeping the names of the scopes that existed
/// (and their enclosing scopes), a name that meant nothing in `from`'s
/// current scope means nothing there in `to`.
proof fn lemma_no_new_names(from: State, to: State, k: Seq<char>)
    requires
        valid(from),
        step_ok(from, to, from.frames.len()),
    ensures
        lookup(from.frames, from.curr, k) is None ==> lookup(to.frames, from.curr, k) is None,
{
    lemma_lookup_names(from.frames, to.frames, from.curr, k);
}

/// Blocks keep their bindings to themselves: a block that finishes ends in
/// the scope it started in, no scope that existed before it gains or loses a
/// name (only the values of names assigned inside it change), and so a name
/// that meant nothing before the block means nothing after it.
pub proof fn law_block_scope(st: State, items: Seq<StmtV>, fuel: nat, k: Seq<char>)
    requires
        valid(st),
    ensures
        ev_block(st, items, fuel).0 is Done ==> {
            &&& ev_block(st, items, fuel).1.curr == st.curr
            &&& keeps_names(st, ev_block(st, items, fuel).1, st.frames.len())
            &&& (lookup(st.frames, st.curr, k) is None ==> lookup(ev_block(st, items, fuel).1.frames, st.curr, k) is None)
        },
{
    if fuel > 0 {
        let base = st.frames.len();
        let st1 = push_scope(st, st.curr);
        lemma_push(st, st.curr, base);
        lemma_ev_items(st1, items, 0, st.curr, (fuel - 1) as nat, base);
        let st2 = ev_items(st1, items, 0, st.curr, (fuel - 1) as nat).1;
        lemma_step_trans(st, st1, st2, base);
        lemma_no_new_names(st, st2, k);
    }
}

/// The same holds of `for` loops, whose variable lives in a scope of its own:
/// a loop that finishes normally ends in the scope it started in, and binds
/// no name in any scope that existed before it.
pub proof fn law_for_scope(st: State, init: StmtV, c: ExprV, step: StmtV, b: StmtV, fuel: nat, k: Seq<char>)
    requires
        valid(st),
    ensures
        ev_for(st, init, c, step, b, fuel).0 == Res::Done(Flow::Normal) ==> {
            &&& ev_for(st, init, c, step, b, fuel).1.curr == st.curr
            &&& keeps_names(st, ev_for(st, init, c, step, b, fuel).1, st.frames.len())
            &&& (lookup(st.frames, st.curr, k) is None
                ==> lookup(ev_for(st, init, c, step, b, fuel).1.frames, st.curr, k) is None)
        },
{
    if fuel > 0 {
        let base = st.frames.len();
        let f = (fuel - 1) as nat;
        let st1 = push_scope(st, st.curr);
        lemma_push(st, st.curr, base);
        match init {
            StmtV::Let(n, e) => {
                lemma_ev_expr(st1, e, f, base);
                let (r, st2) = ev_expr(st1, e, f);
                lemma_step_trans(st, st1, st2, base);
                match r {
                    Res::Done(v) => {
                        let st3 = define_var(st2, n, v);
                        lemma_define_var(st2, n, v, base);
                        lemma_step_trans(st, st2, st3, base);
                        lemma_ev_for_loop(st3, c, step, b, st.curr, f, base);
                        let st4 = ev_for_loop(st3, c, step, b, st.curr, f).1;
                        lemma_step_trans(st, st3, st4, base);
                        lemma_no_new_names(st, st4, k);
                    },
                    _ => {},
                }
            },
            StmtV::Expr(_) => {
                lemma_ev_for_loop(st1, c, step, b, st.curr, f, base);
                let st4 = ev_for_loop(st1, c, step, b, st.curr, f).1;
                lemma_step_trans(st, st1, st4, base);
                lemma_no_new_names(st, st4, k);
            },
            _ => {},
        }
    }
}

/// And of calls: a call that finishes ends in the scope it was made from, and
/// the function's parameters and locals are bound in no scope that existed
/// before the call.
pub proof fn law_call_scope(st: State, n: Seq<char>, args: Seq<ExprV>, fuel: nat, k: Seq<char>)
    requires
        valid(st),
    ensures
        ev_call(st, n, args, fuel).0 is Done ==> {
            &&& ev_call(st, n, args, fuel).1.curr == st.curr
            &&& keeps_names(st, ev_call(st, n, args, fuel).1, st.frames.len())
            &&& (lookup(st.frames, st.curr, k) is None ==> lookup(ev_call(st, n, args, fuel).1.frames, st.curr, k) is None)
        },
{
    lemma_ev_call(st, n, args, fuel, st.frames.len());
    lemma_no_new_names(st, ev_call(st, n, args, fuel).1, k);
}

/// A `return` inside a `while` loop leaves the loop: where the condition
/// holds and the body finishes with `return x`, the loop finishes with
/// `return x` too, in the state the body left.
pub proof fn law_while_return(st: State, c: ExprV, b: StmtV, fuel: nat)
    requires
        fuel > 0,
        ev_expr(st, c, (fuel - 1) as nat).0 matches Res::Done(v) && truthy(v),
        ev_stmt(ev_expr(st, c, (fuel - 1) as nat).1, b, (fuel - 1) as nat).0 is Done,
        ev_stmt(ev_expr(st, c, (fuel - 1) as nat).1, b, (fuel - 1) as nat).0->Done_0 is Return,
    ensures
        ev_while(st, c, b, fuel) == ev_stmt(ev_expr(st, c, (fuel - 1) as nat).1, b, (fuel - 1) as nat),
        ev_while(st, c, b, fuel).0 matches Res::Done(Flow::Return(_)),
{
}

/// The same holds of `for` loops: a `return` in the body leaves the loop.
pub proof fn law_for_return(st: State, c: ExprV, step: StmtV, b: StmtV, prev: nat, fuel: nat)
    requires
        fuel > 0,
        ev_expr(st, c, (fuel - 1) as nat).0 matches Res::Done(v) && truthy(v),
        ev_stmt(ev_expr(st, c, (fuel - 1) as nat).1, b, (fuel - 1) as nat).0 is Done,
        ev_stmt(ev_expr(st, c, (fuel - 1) as nat).1, b, (fuel - 1) as nat).0->Done_0 is Return,
    ensures
        ev_for_loop(st, c, step, b, prev, fuel) == ev_stmt(ev_expr(st, c, (fuel - 1) as nat).1, b, (fuel - 1) as nat),
        ev_for_loop(st, c, step, b, prev, fuel).0 matches Res::Done(Flow::Return(_)),
{
}

/// No name occurs twice.
pub open spec fn distinct_names(ps: Seq<Seq<char>>) -> bool {
    forall|a: int, b: int| 0 <= a < b < ps.len() ==> ps[a] != ps[b]
}

proof fn lemma_bind_params_bucket(st: State, ps: Seq<Seq<char>>, vs: Seq<ValueV>, i: nat)
    requires
        st.curr < st.frames.len(),
        ps.len() == vs.len(),
        distinct_names(ps),
        i <= ps.len(),
    ensures
        bind_params(st, ps, vs, i).curr == st.curr,
        bind_params(st, ps, vs, i).frames.len() == st.frames.len(),
        forall|j: int| i <= j < ps.len() ==> bucket_get(bind_params(st, ps, vs, i).frames[st.curr as int].bucket, #[trigger] ps[j]) == Some(vs[j]),
    decreases ps.len() - i,
{
    if i < ps.len() {
        let st1 = define_var(st, ps[i as int], vs[i as int]);
        lemma_bind_params_bucket(st1, ps, vs, i + 1);
        lemma_bind_params_keeps(st1, ps, vs, i + 1, ps[i as int]);
        lemma_bucket_put(st.frames[st.curr as int].bucket, ps[i as int], vs[i as int], ps[i as int]);
        assert forall|j: int| i <= j < ps.len() implies bucket_get(bind_params(st, ps, vs, i).frames[st.curr as int].bucket, #[trigger] ps[j]) == Some(vs[j]) by {
            if j == i {
                assert forall|m: int| i + 1 <= m < ps.len() implies ps[m] != ps[i as int] by {}
            }
        }
    }
}

/// Binding the later parameters leaves every other name of the scope alone.
proof fn lemma_bind_params_keeps(st: State, ps: Seq<Seq<char>>, vs: Seq<ValueV>, i: nat, k: Seq<char>)
    requires
        st.curr < st.frames.len(),
        ps.len() == vs.len(),
        forall|m: int| i <= m < ps.len() ==> ps[m] != k,
    ensures
        bucket_get(bind_params(st, ps, vs, i).frames[st.curr as int].bucket, k) == bucket_get(st.frames[st.curr as int].bucket, k),
        bind_params(st, ps, vs, i).curr == st.curr,
        bind_params(st, ps, vs, i).frames.len() == st.frames.len(),
    decreases ps.len() - i,
{
    if i < ps.len() {
        let st1 = define_var(st, ps[i as int], vs[i as int]);
        lemma_bucket_put(st.frames[st.curr as int].bucket, ps[i as int], vs[i as int], k);
        lemma_bind_params_keeps(st1, ps, vs, i + 1, k);
    }
}

/// Calling binds the parameters to the arguments in order: after binding,
/// the i-th parameter name means the i-th argument, for every i.
pub proof fn law_bind_params(st: State, ps: Seq<Seq<char>>, vs: Seq<ValueV>)
    requires
        st.curr < st.frames.len(),
        ps.len() == vs.len(),
        distinct_names(ps),
    ensures
        forall|j: int| 0 <= j < ps.len() ==> lookup(bind_params(st, ps, vs, 0).frames, st.curr, #[trigger] ps[j]) == Some(vs[j]),
{
    lemma_bind_params_bucket(st, ps, vs, 0);
    let bp = bind_params(st, ps, vs, 0);
    assert forall|j: int| 0 <= j < ps.len() implies lookup(bp.frames, st.curr, #[trigger] ps[j]) == Some(vs[j]) by {
        assert(bucket_get(bp.frames[st.curr as int].bucket, ps[j]) == Some(vs[j]));
    }
}

/// Whether comparing `a` with `b` by `op` gives `true`.
pub open spec fn cmp_result(op: TokenType, a: ValueV, b: ValueV) -> bool {
    binop(op, a, b) == Res::Done(ValueV::Bool(true))
}

/// How the comparisons relate, for any two values: each gives a boolean;
/// `a >= b` is `!(a < b)` and `a <= b` is `!(a > b)` where the two are of the
/// same kind (and all four are false otherwise); `a <= b` is `b >= a` and
/// `a < b` is `b > a`; `a >= b` holds exactly when `a > b` or `a == b`, and
/// `a <= b` exactly when `a < b` or `a == b`; `!=` is the negation of `==`.
pub proof fn law_comparisons(a: ValueV, b: ValueV)
    ensures
        binop(TokenType::Less, a, b) matches Res::Done(ValueV::Bool(_)),
        binop(TokenType::Greater, a, b) matches Res::Done(ValueV::Bool(_)),
        binop(TokenType::LessEqual, a, b) matches Res::Done(ValueV::Bool(_)),
        binop(TokenType::GreaterEqual, a, b) matches Res::Done(ValueV::Bool(_)),
        binop(TokenType::EqualEqual, a, b) matches Res::Done(ValueV::Bool(_)),
        binop(TokenType::NotEqual, a, b) matches Res::Done(ValueV::Bool(_)),
        value_order(a, b) is Some ==> cmp_result(TokenType::GreaterEqual, a, b) == !cmp_result(TokenType::Less, a, b),
        value_order(a, b) is Some ==> cmp_result(TokenType::LessEqual, a, b) == !cmp_result(TokenType::Greater, a, b),
        value_order(a, b) is None ==> !cmp_result(TokenType::Less, a, b) && !cmp_result(TokenType::Greater, a, b)
            && !cmp_result(TokenType::LessEqual, a, b) && !cmp_result(TokenType::GreaterEqual, a, b),
        cmp_result(TokenType::LessEqual, a, b) == cmp_result(TokenType::GreaterEqual, b, a),
        cmp_result(TokenType::Less, a, b) == cmp_result(TokenType::Greater, b, a),
        cmp_result(TokenType::GreaterEqual, a, b)
            == (cmp_result(TokenType::Greater, a, b) || cmp_result(TokenType::EqualEqual, a, b)),
        cmp_result(TokenType::LessEqual, a, b)
            == (cmp_result(TokenType::Less, a, b) || cmp_result(TokenType::EqualEqual, a, b)),
        cmp_result(TokenType::NotEqual, a, b) == !cmp_result(TokenType::EqualEqual, a, b),
        !(cmp_result(TokenType::Less, a, b) && cmp_result(TokenType::Greater, a, b)),
{
    law_order_antisymmetric(a, b);
}

/// Every integer, string and boolean is equal to itself and compares as
/// both `<=` and `>=` to itself, and neither `<` nor `>`.
pub proof fn law_comparisons_reflexive(v: ValueV)
    requires
        v is Int || v is Str || v is Bool,
    ensures
        cmp_result(TokenType::EqualEqual, v, v),
        cmp_result(TokenType::LessEqual, v, v),
        cmp_result(TokenType::GreaterEqual, v, v),
        !cmp_result(TokenType::Less, v, v),
        !cmp_result(TokenType::Greater, v, v),
{
    law_order_antisymmetric(v, v);
}

/// A printed boolean reads back as the same boolean: the lexer takes the
/// text that printing shows for `b` as the keyword `true` or `false` that
/// `b` is.
pub proof fn law_display_bool(b: bool)
    ensures
        keyword_kind(display(ValueV::Bool(b))) == if b { TokenType::True } else { TokenType::False },
        display(ValueV::Bool(true)) != display(ValueV::Bool(false)),
{
    reveal_strlit("let");
    reveal_strlit("true");
    reveal_strlit("false");
    assert("true"@.len() != "let"@.len());
    assert("false"@.len() != "let"@.len());
    assert("false"@.len() != "true"@.len());
}

/// `break` inside a `while` loop ends the loop normally, and `continue` (or a
/// body that finishes normally) goes on with the next test of the condition;
/// a false condition ends the loop normally.
pub proof fn law_while_break_continue(st: State, c: ExprV, b: StmtV, fuel: nat)
    requires
        fuel > 0,
        ev_expr(st, c, (fuel - 1) as nat).0 is Done,
    ensures
        ({
            let f = (fuel - 1) as nat;
            let (r, st1) = ev_expr(st, c, f);
            let v = r->Done_0;
            let (r2, st2) = ev_stmt(st1, b, f);
            &&& !truthy(v) ==> ev_while(st, c, b, fuel) == (Res::<Flow>::Done(Flow::Normal), st1)
            &&& truthy(v) && r2 == Res::Done(Flow::Break) ==> ev_while(st, c, b, fuel) == (Res::<Flow>::Done(Flow::Normal), st2)
            &&& truthy(v) && (r2 == Res::Done(Flow::Continue) || r2 == Res::Done(Flow::Normal))
                ==> ev_while(st, c, b, fuel) == ev_while(st2, c, b, f)
        }),
{
}

/// In a `for` loop, `break` ends the loop normally back in the scope around
/// it, and `continue` (or a body that finishes normally) runs the step and
/// goes on with the next test of the condition.
pub proof fn law_for_break_continue(st: State, c: ExprV, step: StmtV, b: StmtV, prev: nat, fuel: nat)
    requires
        fuel > 0,
        ev_expr(st, c, (fuel - 1) as nat).0 matches Res::Done(v) && truthy(v),
    ensures
        ({
            let f = (fuel - 1) as nat;
            let st1 = ev_expr(st, c, f).1;
            let (r2, st2) = ev_stmt(st1, b, f);
            let (r3, st3) = ev_stmt(st2, step, f);
            &&& r2 == Res::Done(Flow::Break) ==> ev_for_loop(st, c, step, b, prev, fuel)
                == (Res::<Flow>::Done(Flow::Normal), with_curr(st2, prev))
            &&& (r2 == Res::Done(Flow::Continue) || r2 == Res::Done(Flow::Normal)) && r3 is Done
                ==> ev_for_loop(st, c, step, b, prev, fuel) == ev_for_loop(st3, c, step, b, prev, f)
        }),
{
}

} // verus!
