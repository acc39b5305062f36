use vstd::prelude::*;
use crate::environment::bind;
use crate::environment::lookup;
use crate::environment::resolve;
use crate::environment::ScopeV;
use crate::functions::not_callable;
use crate::functions::StaticFunction;
use crate::interpreter::binary;
use crate::interpreter::ended;
use crate::interpreter::give;
use crate::interpreter::initial;
use crate::interpreter::perform;
use crate::interpreter::plan;
use crate::interpreter::runtime_message;
use crate::interpreter::step;
use crate::interpreter::truthy;
use crate::interpreter::unary;
use crate::interpreter::ActionV;
use crate::interpreter::Applied;
use crate::interpreter::Operator;
use crate::interpreter::StateV;
use crate::interpreter::Task;
use crate::number::NumberV;
use crate::interpreter::leave;
use crate::interpreter::unwind;
use crate::syntax::Expr;
use crate::syntax::Stmt;
use crate::tokens::display;
use crate::tokens::LiteralV;
use crate::tokens::Token;

verus! {

/// The arithmetic of the caller: what it answers when the evaluator asks.
pub struct Host {
    pub compute: spec_fn(Operator, NumberV, NumberV) -> NumberV,
    pub negate: spec_fn(NumberV) -> NumberV,
}

/// An evaluator with its caller: the number that the caller hands to the
/// next step, the lines that it has shown, and the failure that it was told
/// of, if any.
pub struct Config<'a> {
    pub state: StateV<'a>,
    pub answer: Option<NumberV>,
    pub output: Seq<Seq<char>>,
    pub failure: Option<ActionV>,
}

/// The evaluator and its caller after one step.
pub open spec fn next<'a>(c: Config<'a>, functions: &'a Vec<StaticFunction>, host: Host) -> Config<
    'a,
> {
    let o = step(c.state, functions, c.answer);
    match o.action {
        ActionV::Print(line) => Config {
            state: o.state,
            answer: None,
            output: c.output.push(line),
            ..c
        },
        ActionV::Arithmetic(op, l, r) => Config {
            state: o.state,
            answer: Some((host.compute)(op, l, r)),
            ..c
        },
        ActionV::Negate(n) => Config { state: o.state, answer: Some((host.negate)(n)), ..c },
        ActionV::Failed(_) | ActionV::Stray => Config {
            state: o.state,
            answer: None,
            failure: Some(o.action),
            ..c
        },
        _ => Config { state: o.state, answer: None, ..c },
    }
}

/// The evaluator and its caller after `n` steps.
pub open spec fn run<'a>(c: Config<'a>, functions: &'a Vec<StaticFunction>, host: Host, n: nat)
    -> Config<'a>
    decreases n,
{
    if n == 0 {
        c
    } else {
        run(next(c, functions, host), functions, host, (n - 1) as nat)
    }
}

/// Steps add up.
pub proof fn lemma_run_add<'a>(
    c: Config<'a>,
    functions: &'a Vec<StaticFunction>,
    host: Host,
    a: nat,
    b: nat,
)
    ensures
        run(c, functions, host, a + b) == run(run(c, functions, host, a), functions, host, b),
    decreases a,
{
    if a > 0 {
        lemma_run_add(next(c, functions, host), functions, host, (a - 1) as nat, b);
    }
}

/// What the evaluation of an expression comes to: the scopes after it, its
/// value or the text of the error that ends the program, and the number of
/// steps that the evaluator takes for it.
pub struct Evaluated {
    pub scopes: Seq<ScopeV>,
    pub result: Result<LiteralV, Seq<char>>,
    pub steps: nat,
}

/// The evaluation of `e` in `scopes`, in a program that has no functions to
/// call: operands are evaluated from left to right, `and`, `or` and the
/// conditional expression evaluate no more than they need, an assignment
/// yields the value assigned, and the first error ends it all.
pub open spec fn eval(e: Expr, scopes: Seq<ScopeV>, host: Host) -> Evaluated
    decreases e,
{
    match e {
        Expr::Literal(l) => Evaluated { scopes, result: Ok(l@), steps: 1 },
        Expr::Grouping(inner) => {
            let r = eval(*inner, scopes, host);
            Evaluated { steps: r.steps + 1, ..r }
        },
        Expr::Var(name) => Evaluated {
            scopes,
            result: lookup(scopes, name.lexeme@, name.line as nat),
            steps: 1,
        },
        Expr::Unary(op, inner) => {
            let r = eval(*inner, scopes, host);
            match r.result {
                Ok(v) => match unary(op.t_type, v) {
                    None => Evaluated {
                        result: Ok(LiteralV::Number((host.negate)(v->Number_0))),
                        steps: r.steps + 3,
                        ..r
                    },
                    Some(Ok(x)) => Evaluated { result: Ok(x), steps: r.steps + 2, ..r },
                    Some(Err(err)) => Evaluated {
                        result: Err(runtime_message(err, op.lexeme@, op.line as nat)),
                        steps: r.steps + 2,
                        ..r
                    },
                },
                Err(_) => Evaluated { steps: r.steps + 1, ..r },
            }
        },
        Expr::Binary(l, op, r) => {
            let a = eval(*l, scopes, host);
            match a.result {
                Ok(lv) => {
                    let b = eval(*r, a.scopes, host);
                    match b.result {
                        Ok(rv) => match binary(op.t_type, lv, rv) {
                            Applied::Value(v) => Evaluated {
                                result: Ok(v),
                                steps: a.steps + b.steps + 2,
                                ..b
                            },
                            Applied::Ask(o, x, y) => Evaluated {
                                result: Ok(LiteralV::Number((host.compute)(o, x, y))),
                                steps: a.steps + b.steps + 3,
                                ..b
                            },
                            Applied::Error(err) => Evaluated {
                                result: Err(runtime_message(err, op.lexeme@, op.line as nat)),
                                steps: a.steps + b.steps + 2,
                                ..b
                            },
                        },
                        Err(_) => Evaluated { steps: a.steps + b.steps + 1, ..b },
                    }
                },
                Err(_) => Evaluated { steps: a.steps + 1, ..a },
            }
        },
        Expr::Logical(l, op, r) => {
            let a = eval(*l, scopes, host);
            match a.result {
                Ok(lv) => if (op.t_type is Or) == truthy(lv) {
                    Evaluated { steps: a.steps + 2, ..a }
                } else {
                    let b = eval(*r, a.scopes, host);
                    Evaluated { steps: a.steps + b.steps + 2, ..b }
                },
                Err(_) => Evaluated { steps: a.steps + 1, ..a },
            }
        },
        Expr::Ternary(_, c, t, f) => {
            let a = eval(*c, scopes, host);
            match a.result {
                Ok(cv) => {
                    let b = if truthy(cv) {
                        eval(*t, a.scopes, host)
                    } else {
                        eval(*f, a.scopes, host)
                    };
                    Evaluated { steps: a.steps + b.steps + 2, ..b }
                },
                Err(_) => Evaluated { steps: a.steps + 1, ..a },
            }
        },
        Expr::Assignment(name, inner) => {
            let a = eval(*inner, scopes, host);
            match a.result {
                Ok(v) => match resolve(a.scopes, a.scopes.len() - 1, name.lexeme@) {
                    Some(i) => Evaluated {
                        scopes: bind(a.scopes, i, name.lexeme@, Some(v)),
                        result: Ok(v),
                        steps: a.steps + 2,
                    },
                    None => Evaluated {
                        result: Err(
                            runtime_message(
                                " Undefined variable"@,
                                name.lexeme@,
                                name.line as nat,
                            ),
                        ),
                        steps: a.steps + 2,
                        ..a
                    },
                },
                Err(_) => Evaluated { steps: a.steps + 1, ..a },
            }
        },
        Expr::Call(c, paren, _) => {
            let a = eval(*c, scopes, host);
            match a.result {
                Ok(_) => Evaluated {
                    result: Err(runtime_message(not_callable(), paren.lexeme@, paren.line as nat)),
                    steps: a.steps + 2,
                    ..a
                },
                Err(_) => Evaluated { steps: a.steps + 1, ..a },
            }
        },
    }
}

/// The evaluator and its caller after the evaluation `r` of an expression
/// that was planned when they were `c`: the value is on the values, or the
/// program has ended with the error.
pub open spec fn evaluated<'a>(c: Config<'a>, r: Evaluated) -> Config<'a> {
    let after = StateV { scopes: r.scopes, ..c.state };
    match r.result {
        Ok(v) => Config { state: give(after, v), ..c },
        Err(msg) => Config { state: ended(after), failure: Some(ActionV::Failed(msg)), ..c },
    }
}

/// One step does the task that was planned last.
pub proof fn lemma_next<'a>(
    c: Config<'a>,
    task: Task<'a>,
    functions: &'a Vec<StaticFunction>,
    host: Host,
)
    requires
        !c.state.waiting,
    ensures
        step(plan(c.state, task), functions, c.answer) == perform(c.state, functions, task),
{
    assert(plan(c.state, task).tasks.drop_last() =~= c.state.tasks);
}

/// One step of the evaluator and its caller.
pub proof fn lemma_run_one<'a>(c: Config<'a>, functions: &'a Vec<StaticFunction>, host: Host)
    ensures
        run(c, functions, host, 1) == next(c, functions, host),
{
    assert(run(next(c, functions, host), functions, host, 0) == next(c, functions, host));
}

/// One step and then `n` more.
pub proof fn lemma_run_first<'a>(
    c: Config<'a>,
    functions: &'a Vec<StaticFunction>,
    host: Host,
    n: nat,
)
    ensures
        run(c, functions, host, n + 1) == run(next(c, functions, host), functions, host, n),
{
}

/// `n` steps and then one more.
pub proof fn lemma_run_last<'a>(
    c: Config<'a>,
    functions: &'a Vec<StaticFunction>,
    host: Host,
    n: nat,
)
    ensures
        run(c, functions, host, n + 1) == next(run(c, functions, host, n), functions, host),
{
    lemma_run_add(c, functions, host, n, 1);
    lemma_run_one(run(c, functions, host, n), functions, host);
}

/// The evaluator and its caller with `task` planned.
pub open spec fn planned<'a>(c: Config<'a>, task: Task<'a>) -> Config<'a> {
    Config { state: plan(c.state, task), ..c }
}

/// A value on the values is the top value, and the values below are as before.
proof fn lemma_given<'a>(s: StateV<'a>, v: LiteralV)
    ensures
        crate::interpreter::top(give(s, v).values) == v,
        crate::interpreter::shed(give(s, v)) == s,
{
    assert(give(s, v).values.drop_last() =~= s.values);
}

proof fn lemma_eval_unary<'a>(
    c: Config<'a>,
    e: &'a Expr,
    op: &'a Token,
    inner: &'a Box<Expr>,
    functions: &'a Vec<StaticFunction>,
    host: Host,
)
    requires
        !c.state.waiting,
        c.answer is None,
        functions@.len() == 0,
        *e == Expr::Unary(*op, *inner),
    ensures
        run(
            planned(c, Task::Evaluate(e)),
            functions,
            host,
            eval(*e, c.state.scopes, host).steps,
        ) == evaluated(c, eval(*e, c.state.scopes, host)),
    decreases e, 0nat,
{
    let s = c.state;
    let start = planned(c, Task::Evaluate(e));
    lemma_next(c, Task::Evaluate(e), functions, host);
    let first = next(start, functions, host);
        let r = eval(**inner, s.scopes, host);
        let c1 = planned(c, Task::Unary(op));
        lemma_eval(c1, &**inner, functions, host);
        assert(first == planned(c1, Task::Evaluate(&**inner)));
        lemma_run_first(start, functions, host, r.steps);
        let second = run(start, functions, host, r.steps + 1);
        assert(second == evaluated(c1, r));
        match r.result {
            Ok(v) => {
                let after = StateV { scopes: r.scopes, ..s };
                let c2 = Config { state: give(after, v), ..c };
                assert(second.state == plan(c2.state, Task::Unary(op)));
                lemma_next(c2, Task::Unary(op), functions, host);
                lemma_given(after, v);
                lemma_run_last(start, functions, host, r.steps + 1);
                let third = run(start, functions, host, r.steps + 2);
                if unary(op.t_type, v) is None {
                    lemma_run_last(start, functions, host, r.steps + 2);
                }
            },
            Err(_) => {},
        }
}

proof fn lemma_eval_binary<'a>(
    c: Config<'a>,
    e: &'a Expr,
    l: &'a Box<Expr>,
    op: &'a Token,
    r: &'a Box<Expr>,
    functions: &'a Vec<StaticFunction>,
    host: Host,
)
    requires
        !c.state.waiting,
        c.answer is None,
        functions@.len() == 0,
        *e == Expr::Binary(*l, *op, *r),
    ensures
        run(
            planned(c, Task::Evaluate(e)),
            functions,
            host,
            eval(*e, c.state.scopes, host).steps,
        ) == evaluated(c, eval(*e, c.state.scopes, host)),
    decreases e, 0nat,
{
    let s = c.state;
    let start = planned(c, Task::Evaluate(e));
    lemma_next(c, Task::Evaluate(e), functions, host);
    let first = next(start, functions, host);
        let a = eval(**l, s.scopes, host);
        let c1 = planned(planned(c, Task::Binary(op)), Task::Evaluate(&**r));
        lemma_eval(c1, &**l, functions, host);
        assert(first == planned(c1, Task::Evaluate(&**l)));
        lemma_run_first(start, functions, host, a.steps);
        let second = run(start, functions, host, a.steps + 1);
        assert(second == evaluated(c1, a));
        match a.result {
            Ok(lv) => {
                let mid = StateV { scopes: a.scopes, ..s };
                let c2 = Config { state: plan(give(mid, lv), Task::Binary(op)), ..c };
                assert(second == planned(c2, Task::Evaluate(&**r)));
                let b = eval(**r, a.scopes, host);
                lemma_eval(c2, &**r, functions, host);
                lemma_run_add(start, functions, host, a.steps + 1, b.steps);
                let third = run(start, functions, host, a.steps + 1 + b.steps);
                assert(third == evaluated(c2, b));
                match b.result {
                    Ok(rv) => {
                        let after = StateV { scopes: b.scopes, ..s };
                        let both = give(give(after, lv), rv);
                        let c3 = Config { state: both, ..c };
                        assert(third.state == plan(both, Task::Binary(op)));
                        lemma_next(c3, Task::Binary(op), functions, host);
                        lemma_given(give(after, lv), rv);
                        lemma_given(after, lv);
                        lemma_run_last(start, functions, host, a.steps + 1 + b.steps);
                        if binary(op.t_type, lv, rv) is Ask {
                            lemma_run_last(start, functions, host, a.steps + 2 + b.steps);
                        }
                    },
                    Err(_) => {},
                }
            },
            Err(_) => {},
        }
}

proof fn lemma_eval_logical<'a>(
    c: Config<'a>,
    e: &'a Expr,
    l: &'a Box<Expr>,
    op: &'a Token,
    r: &'a Box<Expr>,
    functions: &'a Vec<StaticFunction>,
    host: Host,
)
    requires
        !c.state.waiting,
        c.answer is None,
        functions@.len() == 0,
        *e == Expr::Logical(*l, *op, *r),
    ensures
        run(
            planned(c, Task::Evaluate(e)),
            functions,
            host,
            eval(*e, c.state.scopes, host).steps,
        ) == evaluated(c, eval(*e, c.state.scopes, host)),
    decreases e, 0nat,
{
    let s = c.state;
    let start = planned(c, Task::Evaluate(e));
    lemma_next(c, Task::Evaluate(e), functions, host);
    let first = next(start, functions, host);
        let a = eval(**l, s.scopes, host);
        let c1 = planned(c, Task::Logical(op, &**r));
        lemma_eval(c1, &**l, functions, host);
        assert(first == planned(c1, Task::Evaluate(&**l)));
        lemma_run_first(start, functions, host, a.steps);
        let second = run(start, functions, host, a.steps + 1);
        assert(second == evaluated(c1, a));
        match a.result {
            Ok(lv) => {
                let mid = StateV { scopes: a.scopes, ..s };
                let c2 = Config { state: give(mid, lv), ..c };
                assert(second.state == plan(c2.state, Task::Logical(op, &**r)));
                lemma_next(c2, Task::Logical(op, &**r), functions, host);
                lemma_given(mid, lv);
                lemma_run_last(start, functions, host, a.steps + 1);
                let third = run(start, functions, host, a.steps + 2);
                if (op.t_type is Or) != truthy(lv) {
                    let c3 = Config { state: mid, ..c };
                    assert(third == planned(c3, Task::Evaluate(&**r)));
                    let b = eval(**r, a.scopes, host);
                    lemma_eval(c3, &**r, functions, host);
                    lemma_run_add(start, functions, host, a.steps + 2, b.steps);
                }
            },
            Err(_) => {},
        }
}

proof fn lemma_eval_ternary<'a>(
    c: Config<'a>,
    e: &'a Expr,
    mark: &'a Token,
    cond: &'a Box<Expr>,
    t: &'a Box<Expr>,
    f: &'a Box<Expr>,
    functions: &'a Vec<StaticFunction>,
    host: Host,
)
    requires
        !c.state.waiting,
        c.answer is None,
        functions@.len() == 0,
        *e == Expr::Ternary(*mark, *cond, *t, *f),
    ensures
        run(
            planned(c, Task::Evaluate(e)),
            functions,
            host,
            eval(*e, c.state.scopes, host).steps,
        ) == evaluated(c, eval(*e, c.state.scopes, host)),
    decreases e, 0nat,
{
    let s = c.state;
    let start = planned(c, Task::Evaluate(e));
    lemma_next(c, Task::Evaluate(e), functions, host);
    let first = next(start, functions, host);
        let a = eval(**cond, s.scopes, host);
        let c1 = planned(c, Task::Choose(&**t, &**f));
        lemma_eval(c1, &**cond, functions, host);
        assert(first == planned(c1, Task::Evaluate(&**cond)));
        lemma_run_first(start, functions, host, a.steps);
        let second = run(start, functions, host, a.steps + 1);
        assert(second == evaluated(c1, a));
        match a.result {
            Ok(cv) => {
                let mid = StateV { scopes: a.scopes, ..s };
                let c2 = Config { state: give(mid, cv), ..c };
                assert(second.state == plan(c2.state, Task::Choose(&**t, &**f)));
                lemma_next(c2, Task::Choose(&**t, &**f), functions, host);
                lemma_given(mid, cv);
                lemma_run_last(start, functions, host, a.steps + 1);
                let third = run(start, functions, host, a.steps + 2);
                let c3 = Config { state: mid, ..c };
                if truthy(cv) {
                    assert(third == planned(c3, Task::Evaluate(&**t)));
                    let b = eval(**t, a.scopes, host);
                    lemma_eval(c3, &**t, functions, host);
                    lemma_run_add(start, functions, host, a.steps + 2, b.steps);
                } else {
                    assert(third == planned(c3, Task::Evaluate(&**f)));
                    let b = eval(**f, a.scopes, host);
                    lemma_eval(c3, &**f, functions, host);
                    lemma_run_add(start, functions, host, a.steps + 2, b.steps);
                }
            },
            Err(_) => {},
        }
}

proof fn lemma_eval_assignment<'a>(
    c: Config<'a>,
    e: &'a Expr,
    name: &'a Token,
    inner: &'a Box<Expr>,
    functions: &'a Vec<StaticFunction>,
    host: Host,
)
    requires
        !c.state.waiting,
        c.answer is None,
        functions@.len() == 0,
        *e == Expr::Assignment(*name, *inner),
    ensures
        run(
            planned(c, Task::Evaluate(e)),
            functions,
            host,
            eval(*e, c.state.scopes, host).steps,
        ) == evaluated(c, eval(*e, c.state.scopes, host)),
    decreases e, 0nat,
{
    let s = c.state;
    let start = planned(c, Task::Evaluate(e));
    lemma_next(c, Task::Evaluate(e), functions, host);
    let first = next(start, functions, host);
        let a = eval(**inner, s.scopes, host);
        let c1 = planned(c, Task::Assign(name));
        lemma_eval(c1, &**inner, functions, host);
        assert(first == planned(c1, Task::Evaluate(&**inner)));
        lemma_run_first(start, functions, host, a.steps);
        let second = run(start, functions, host, a.steps + 1);
        assert(second == evaluated(c1, a));
        match a.result {
            Ok(v) => {
                let mid = StateV { scopes: a.scopes, ..s };
                let c2 = Config { state: give(mid, v), ..c };
                assert(second.state == plan(c2.state, Task::Assign(name)));
                lemma_next(c2, Task::Assign(name), functions, host);
                lemma_given(mid, v);
                lemma_run_last(start, functions, host, a.steps + 1);
            },
            Err(_) => {},
        }
}

proof fn lemma_eval_call<'a>(
    c: Config<'a>,
    e: &'a Expr,
    callee: &'a Box<Expr>,
    paren: &'a Token,
    args: &'a Vec<Expr>,
    functions: &'a Vec<StaticFunction>,
    host: Host,
)
    requires
        !c.state.waiting,
        c.answer is None,
        functions@.len() == 0,
        *e == Expr::Call(*callee, *paren, *args),
    ensures
        run(
            planned(c, Task::Evaluate(e)),
            functions,
            host,
            eval(*e, c.state.scopes, host).steps,
        ) == evaluated(c, eval(*e, c.state.scopes, host)),
    decreases e, 0nat,
{
    let s = c.state;
    let start = planned(c, Task::Evaluate(e));
    lemma_next(c, Task::Evaluate(e), functions, host);
    let first = next(start, functions, host);
        let a = eval(**callee, s.scopes, host);
        let c1 = planned(c, Task::Callee(paren, args));
        lemma_eval(c1, &**callee, functions, host);
        assert(first == planned(c1, Task::Evaluate(&**callee)));
        lemma_run_first(start, functions, host, a.steps);
        let second = run(start, functions, host, a.steps + 1);
        assert(second == evaluated(c1, a));
        match a.result {
            Ok(v) => {
                let mid = StateV { scopes: a.scopes, ..s };
                let c2 = Config { state: give(mid, v), ..c };
                assert(second.state == plan(c2.state, Task::Callee(paren, args)));
                lemma_next(c2, Task::Callee(paren, args), functions, host);
                lemma_given(mid, v);
                lemma_run_last(start, functions, host, a.steps + 1);
            },
            Err(_) => {},
        }
}

/// The evaluator takes the steps of `eval` for an expression and comes to
/// what `eval` says: in a program without functions, the value of the
/// expression is put on the values and the scopes are as `eval` leaves them,
/// or the program ends with the error that `eval` gives.
pub proof fn lemma_eval<'a>(
    c: Config<'a>,
    e: &'a Expr,
    functions: &'a Vec<StaticFunction>,
    host: Host,
)
    requires
        !c.state.waiting,
        c.answer is None,
        functions@.len() == 0,
    ensures
        run(
            planned(c, Task::Evaluate(e)),
            functions,
            host,
            eval(*e, c.state.scopes, host).steps,
        ) == evaluated(c, eval(*e, c.state.scopes, host)),
    decreases e, 1nat,
{
    let s = c.state;
    let start = planned(c, Task::Evaluate(e));
    match e {
        Expr::Literal(l) => {
            lemma_next(c, Task::Evaluate(e), functions, host);
            lemma_run_one(start, functions, host);
        },
        Expr::Var(name) => {
            lemma_next(c, Task::Evaluate(e), functions, host);
            lemma_run_one(start, functions, host);
        },
        Expr::Grouping(inner) => {
            lemma_next(c, Task::Evaluate(e), functions, host);
            let first = next(start, functions, host);
            let r = eval(**inner, s.scopes, host);
            lemma_eval(c, &**inner, functions, host);
            lemma_run_first(start, functions, host, r.steps);
            assert(first == planned(c, Task::Evaluate(&**inner)));
        },
        Expr::Unary(op, inner) => lemma_eval_unary(c, e, op, inner, functions, host),
        Expr::Binary(l, op, r) => lemma_eval_binary(c, e, l, op, r, functions, host),
        Expr::Logical(l, op, r) => lemma_eval_logical(c, e, l, op, r, functions, host),
        Expr::Ternary(mark, cond, t, f) => lemma_eval_ternary(
            c,
            e,
            mark,
            cond,
            t,
            f,
            functions,
            host,
        ),
        Expr::Assignment(name, inner) => lemma_eval_assignment(c, e, name, inner, functions, host),
        Expr::Call(callee, paren, args) => lemma_eval_call(
            c,
            e,
            callee,
            paren,
            args,
            functions,
            host,
        ),
    }
}

/// How the run of a statement ends.
pub enum Flow {
    /// The statement has run to its end.
    Normal,
    /// A `break` is on its way to the loop that encloses the statement.
    Break,
    /// The program has failed with an error of this text.
    Fail(Seq<char>),
    /// The statement needs more loop rounds than it was granted.
    Timeout,
}

/// What the run of a statement comes to: the scopes and the output after
/// it, how it ends, and the number of steps that the evaluator takes for it.
pub struct Executed {
    pub scopes: Seq<ScopeV>,
    pub output: Seq<Seq<char>>,
    pub flow: Flow,
    pub steps: nat,
}

/// The run of `stmt` in `scopes`, after `output` was shown, in a program
/// that has no functions to call. `fuel` bounds how deep loop rounds may
/// nest in time: each round of a loop grants its body and the rounds after
/// it one less.
pub open spec fn exec(stmt: Stmt, scopes: Seq<ScopeV>, output: Seq<Seq<char>>, host: Host, fuel: nat)
    -> Executed
    decreases fuel, stmt, 0nat,
{
    match stmt {
        Stmt::Print(e) => {
            let r = eval(e, scopes, host);
            match r.result {
                Ok(v) => Executed {
                    scopes: r.scopes,
                    output: output.push(display(v)),
                    flow: Flow::Normal,
                    steps: r.steps + 2,
                },
                Err(msg) => Executed {
                    scopes: r.scopes,
                    output,
                    flow: Flow::Fail(msg),
                    steps: r.steps + 1,
                },
            }
        },
        Stmt::Expr(e) => {
            let r = eval(e, scopes, host);
            match r.result {
                Ok(_) => Executed {
                    scopes: r.scopes,
                    output,
                    flow: Flow::Normal,
                    steps: r.steps + 2,
                },
                Err(msg) => Executed {
                    scopes: r.scopes,
                    output,
                    flow: Flow::Fail(msg),
                    steps: r.steps + 1,
                },
            }
        },
        Stmt::Var(name, Some(init)) => {
            let r = eval(init, scopes, host);
            match r.result {
                Ok(v) => Executed {
                    scopes: bind(r.scopes, r.scopes.len() - 1, name.lexeme@, Some(v)),
                    output,
                    flow: Flow::Normal,
                    steps: r.steps + 2,
                },
                Err(msg) => Executed {
                    scopes: r.scopes,
                    output,
                    flow: Flow::Fail(msg),
                    steps: r.steps + 1,
                },
            }
        },
        Stmt::Var(name, None) => Executed {
            scopes: bind(scopes, scopes.len() - 1, name.lexeme@, None),
            output,
            flow: Flow::Normal,
            steps: 1,
        },
        Stmt::Block(list) => {
            let inner = exec_list(
                list@,
                0,
                scopes.push(ScopeV { vars: Map::empty(), outer: (scopes.len() - 1) as usize }),
                output,
                host,
                fuel,
            );
            match inner.flow {
                Flow::Normal => Executed {
                    scopes: leave(inner.scopes),
                    steps: inner.steps + 2,
                    ..inner
                },
                Flow::Break => Executed {
                    scopes: leave(inner.scopes),
                    steps: inner.steps + 1,
                    ..inner
                },
                _ => Executed { steps: inner.steps + 1, ..inner },
            }
        },
        Stmt::If(c, t, e) => {
            let r = eval(*c, scopes, host);
            match r.result {
                Ok(cv) => if truthy(cv) {
                    let x = exec(*t, r.scopes, output, host, fuel);
                    Executed { steps: r.steps + 2 + x.steps, ..x }
                } else {
                    match *e {
                        Some(other) => {
                            let x = exec(other, r.scopes, output, host, fuel);
                            Executed { steps: r.steps + 2 + x.steps, ..x }
                        },
                        None => Executed {
                            scopes: r.scopes,
                            output,
                            flow: Flow::Normal,
                            steps: r.steps + 2,
                        },
                    }
                },
                Err(msg) => Executed {
                    scopes: r.scopes,
                    output,
                    flow: Flow::Fail(msg),
                    steps: r.steps + 1,
                },
            }
        },
        Stmt::While(c, b) => {
            let x = spin(*c, *b, scopes, output, host, fuel);
            Executed { steps: x.steps + 1, ..x }
        },
        Stmt::Break(_) => Executed { scopes, output, flow: Flow::Break, steps: 1 },
    }
}

/// The run of the statements of `list` from `from` on, in order, up to the
/// first that does not end normally.
pub open spec fn exec_list(
    list: Seq<Stmt>,
    from: nat,
    scopes: Seq<ScopeV>,
    output: Seq<Seq<char>>,
    host: Host,
    fuel: nat,
) -> Executed
    decreases fuel, list, list.len() - from,
{
    if from >= list.len() {
        Executed { scopes, output, flow: Flow::Normal, steps: 1 }
    } else {
        let x = exec(list[from as int], scopes, output, host, fuel);
        match x.flow {
            Flow::Normal => {
                let rest = exec_list(list, from + 1, x.scopes, x.output, host, fuel);
                Executed { steps: 1 + x.steps + rest.steps, ..rest }
            },
            _ => Executed { steps: 1 + x.steps, ..x },
        }
    }
}

/// The rounds of a loop with the condition `cond` and the body `body`: the
/// condition is evaluated, and while it is true the body runs and the
/// condition is evaluated again. A `break` in the body ends the loop
/// normally.
pub open spec fn spin(
    cond: Expr,
    body: Stmt,
    scopes: Seq<ScopeV>,
    output: Seq<Seq<char>>,
    host: Host,
    fuel: nat,
) -> Executed
    decreases fuel, body, 1nat,
{
    let r = eval(cond, scopes, host);
    match r.result {
        Ok(cv) => if !truthy(cv) {
            Executed { scopes: r.scopes, output, flow: Flow::Normal, steps: r.steps + 2 }
        } else if fuel == 0 {
            Executed { scopes: r.scopes, output, flow: Flow::Timeout, steps: 0 }
        } else {
            let x = exec(body, r.scopes, output, host, (fuel - 1) as nat);
            match x.flow {
                Flow::Normal => {
                    let rest = spin(cond, body, x.scopes, x.output, host, (fuel - 1) as nat);
                    Executed { steps: r.steps + 2 + x.steps + rest.steps, ..rest }
                },
                Flow::Break => Executed {
                    flow: Flow::Normal,
                    steps: r.steps + 2 + x.steps,
                    ..x
                },
                _ => Executed { steps: r.steps + 2 + x.steps, ..x },
            }
        },
        Err(msg) => Executed {
            scopes: r.scopes,
            output,
            flow: Flow::Fail(msg),
            steps: r.steps + 1,
        },
    }
}

/// The evaluator and its caller after the run `x` of a statement that was
/// planned when they were `c`. After a `break` what was left to do is given
/// up, down to the loop that encloses the statement; where none does, the
/// program has ended and the caller was told of the stray `break`.
pub open spec fn executed<'a>(c: Config<'a>, x: Executed) -> Config<'a> {
    let after = StateV { scopes: x.scopes, ..c.state };
    match x.flow {
        Flow::Normal => Config { state: after, output: x.output, ..c },
        Flow::Break => Config {
            state: unwind(after).state,
            output: x.output,
            failure: if unwind(after).action is Stray {
                Some(ActionV::Stray)
            } else {
                c.failure
            },
            ..c
        },
        Flow::Fail(msg) => Config {
            state: ended(after),
            output: x.output,
            failure: Some(ActionV::Failed(msg)),
            ..c
        },
        Flow::Timeout => c,
    }
}

/// A `break` asks nothing of the caller, or tells it that the `break` is stray.
proof fn lemma_unwind_action<'a>(s: StateV<'a>)
    ensures
        unwind(s).action is Continue || unwind(s).action is Stray,
    decreases s.tasks.len(),
{
    if s.tasks.len() > 0 {
        let rest = StateV { tasks: s.tasks.drop_last(), ..s };
        match s.tasks.last() {
            Task::Loop(_, _, _) => {},
            Task::EndBlock | Task::Return => {
                lemma_unwind_action(StateV { scopes: leave(s.scopes), ..rest });
            },
            _ => {
                lemma_unwind_action(rest);
            },
        }
    }
}

/// What a `break` gives up first of what is left to do.
proof fn lemma_unwind_first<'a>(s: StateV<'a>, task: Task<'a>)
    ensures
        unwind(plan(s, task)) == (match task {
            Task::Loop(_, _, height) => crate::interpreter::go(
                StateV {
                    values: if height <= s.values.len() {
                        s.values.take(height as int)
                    } else {
                        s.values
                    },
                    ..s
                },
            ),
            Task::EndBlock | Task::Return => unwind(StateV { scopes: leave(s.scopes), ..s }),
            _ => unwind(s),
        }),
{
    assert(plan(s, task).tasks.drop_last() =~= s.tasks);
    assert((StateV { tasks: plan(s, task).tasks.drop_last(), ..plan(s, task) }) == s);
}

/// The task after the evaluation of an expression finds the value on top.
proof fn lemma_after_eval<'a>(
    c: Config<'a>,
    task: Task<'a>,
    r: Evaluated,
    functions: &'a Vec<StaticFunction>,
    host: Host,
)
    requires
        !c.state.waiting,
        r.result is Ok,
    ensures
        evaluated(planned(c, task), r).state == plan(
            give(StateV { scopes: r.scopes, ..c.state }, r.result->Ok_0),
            task,
        ),
        step(evaluated(planned(c, task), r).state, functions, None) == perform(
            give(StateV { scopes: r.scopes, ..c.state }, r.result->Ok_0),
            functions,
            task,
        ),
        crate::interpreter::top(give(StateV { scopes: r.scopes, ..c.state }, r.result->Ok_0).values)
            == r.result->Ok_0,
        crate::interpreter::shed(give(StateV { scopes: r.scopes, ..c.state }, r.result->Ok_0))
            == (StateV { scopes: r.scopes, ..c.state }),
{
    let after = StateV { scopes: r.scopes, ..c.state };
    let v = r.result->Ok_0;
    lemma_given(after, v);
    let c2 = Config { state: give(after, v), ..c };
    lemma_next(c2, task, functions, host);
}

proof fn lemma_exec_print<'a>(
    c: Config<'a>,
    stmt: &'a Stmt,
    e: &'a Expr,
    functions: &'a Vec<StaticFunction>,
    host: Host,
    fuel: nat,
)
    requires
        !c.state.waiting,
        c.answer is None,
        functions@.len() == 0,
        c.state.values.len() <= usize::MAX,
        exec(*stmt, c.state.scopes, c.output, host, fuel).flow != Flow::Timeout,
        *stmt == Stmt::Print(*e),
    ensures
        run(
            planned(c, Task::Execute(stmt)),
            functions,
            host,
            exec(*stmt, c.state.scopes, c.output, host, fuel).steps,
        ) == executed(c, exec(*stmt, c.state.scopes, c.output, host, fuel)),
    decreases fuel, stmt, 0nat,
{
    let s = c.state;
    let start = planned(c, Task::Execute(stmt));
    lemma_next(c, Task::Execute(stmt), functions, host);
    let first = next(start, functions, host);
    let r = eval(*e, s.scopes, host);
    let c1 = planned(c, Task::Print);
    lemma_eval(c1, e, functions, host);
    assert(first == planned(c1, Task::Evaluate(e)));
    lemma_run_first(start, functions, host, r.steps);
    if r.result is Ok {
        lemma_after_eval(c, Task::Print, r, functions, host);
        lemma_run_last(start, functions, host, r.steps + 1);
    }
}

proof fn lemma_exec_expression<'a>(
    c: Config<'a>,
    stmt: &'a Stmt,
    e: &'a Expr,
    functions: &'a Vec<StaticFunction>,
    host: Host,
    fuel: nat,
)
    requires
        !c.state.waiting,
        c.answer is None,
        functions@.len() == 0,
        c.state.values.len() <= usize::MAX,
        exec(*stmt, c.state.scopes, c.output, host, fuel).flow != Flow::Timeout,
        *stmt == Stmt::Expr(*e),
    ensures
        run(
            planned(c, Task::Execute(stmt)),
            functions,
            host,
            exec(*stmt, c.state.scopes, c.output, host, fuel).steps,
        ) == executed(c, exec(*stmt, c.state.scopes, c.output, host, fuel)),
    decreases fuel, stmt, 0nat,
{
    let s = c.state;
    let start = planned(c, Task::Execute(stmt));
    lemma_next(c, Task::Execute(stmt), functions, host);
    let first = next(start, functions, host);
    let r = eval(*e, s.scopes, host);
    let c1 = planned(c, Task::Discard);
    lemma_eval(c1, e, functions, host);
    assert(first == planned(c1, Task::Evaluate(e)));
    lemma_run_first(start, functions, host, r.steps);
    if r.result is Ok {
        lemma_after_eval(c, Task::Discard, r, functions, host);
        lemma_run_last(start, functions, host, r.steps + 1);
    }
}

proof fn lemma_exec_declaration<'a>(
    c: Config<'a>,
    stmt: &'a Stmt,
    name: &'a Token,
    e: &'a Expr,
    functions: &'a Vec<StaticFunction>,
    host: Host,
    fuel: nat,
)
    requires
        !c.state.waiting,
        c.answer is None,
        functions@.len() == 0,
        c.state.values.len() <= usize::MAX,
        exec(*stmt, c.state.scopes, c.output, host, fuel).flow != Flow::Timeout,
        *stmt == Stmt::Var(*name, Some(*e)),
    ensures
        run(
            planned(c, Task::Execute(stmt)),
            functions,
            host,
            exec(*stmt, c.state.scopes, c.output, host, fuel).steps,
        ) == executed(c, exec(*stmt, c.state.scopes, c.output, host, fuel)),
    decreases fuel, stmt, 0nat,
{
    let s = c.state;
    let start = planned(c, Task::Execute(stmt));
    lemma_next(c, Task::Execute(stmt), functions, host);
    let first = next(start, functions, host);
    let r = eval(*e, s.scopes, host);
    let c1 = planned(c, Task::Define(name));
    lemma_eval(c1, e, functions, host);
    assert(first == planned(c1, Task::Evaluate(e)));
    lemma_run_first(start, functions, host, r.steps);
    if r.result is Ok {
        lemma_after_eval(c, Task::Define(name), r, functions, host);
        lemma_run_last(start, functions, host, r.steps + 1);
    }
}

proof fn lemma_exec_block<'a>(
    c: Config<'a>,
    stmt: &'a Stmt,
    list: &'a Vec<Stmt>,
    functions: &'a Vec<StaticFunction>,
    host: Host,
    fuel: nat,
)
    requires
        !c.state.waiting,
        c.answer is None,
        functions@.len() == 0,
        c.state.values.len() <= usize::MAX,
        exec(*stmt, c.state.scopes, c.output, host, fuel).flow != Flow::Timeout,
        *stmt == Stmt::Block(*list),
    ensures
        run(
            planned(c, Task::Execute(stmt)),
            functions,
            host,
            exec(*stmt, c.state.scopes, c.output, host, fuel).steps,
        ) == executed(c, exec(*stmt, c.state.scopes, c.output, host, fuel)),
    decreases fuel, stmt, 0nat,
{
    let s = c.state;
    let start = planned(c, Task::Execute(stmt));
    lemma_next(c, Task::Execute(stmt), functions, host);
    let first = next(start, functions, host);
    let opened = StateV {
        scopes: s.scopes.push(
            ScopeV { vars: Map::empty(), outer: (s.scopes.len() - 1) as usize },
        ),
        ..s
    };
    let inner = exec_list(list@, 0, opened.scopes, c.output, host, fuel);
    let c0 = Config { state: opened, ..c };
    let c1 = planned(c0, Task::EndBlock);
    lemma_exec_list(c1, list, 0, functions, host, fuel);
    assert(first == planned(c1, Task::Statements(list, 0)));
    lemma_run_first(start, functions, host, inner.steps);
    let second = run(start, functions, host, inner.steps + 1);
    assert(second == executed(c1, inner));
    let closed = StateV { scopes: inner.scopes, ..s };
    match inner.flow {
        Flow::Normal => {
            let c2 = Config { state: closed, output: inner.output, ..c };
            assert(second == planned(c2, Task::EndBlock));
            lemma_next(c2, Task::EndBlock, functions, host);
            lemma_run_last(start, functions, host, inner.steps + 1);
        },
        Flow::Break => {
            lemma_unwind_first(closed, Task::EndBlock);
            assert((StateV { scopes: inner.scopes, ..c1.state }) == plan(closed, Task::EndBlock));
        },
        _ => {},
    }
}

proof fn lemma_exec_if<'a>(
    c: Config<'a>,
    stmt: &'a Stmt,
    cond: &'a Expr,
    then: &'a Stmt,
    otherwise: &'a Option<Stmt>,
    functions: &'a Vec<StaticFunction>,
    host: Host,
    fuel: nat,
)
    requires
        !c.state.waiting,
        c.answer is None,
        functions@.len() == 0,
        c.state.values.len() <= usize::MAX,
        exec(*stmt, c.state.scopes, c.output, host, fuel).flow != Flow::Timeout,
        *stmt == Stmt::If(Box::new(*cond), Box::new(*then), Box::new(*otherwise)),
    ensures
        run(
            planned(c, Task::Execute(stmt)),
            functions,
            host,
            exec(*stmt, c.state.scopes, c.output, host, fuel).steps,
        ) == executed(c, exec(*stmt, c.state.scopes, c.output, host, fuel)),
    decreases fuel, stmt, 0nat,
{
    let s = c.state;
    let start = planned(c, Task::Execute(stmt));
    lemma_next(c, Task::Execute(stmt), functions, host);
    let first = next(start, functions, host);
    let r = eval(*cond, s.scopes, host);
    let c1 = planned(c, Task::Branch(then, otherwise));
    lemma_eval(c1, cond, functions, host);
    assert(first == planned(c1, Task::Evaluate(cond)));
    lemma_run_first(start, functions, host, r.steps);
    if r.result is Ok {
        let cv = r.result->Ok_0;
        lemma_after_eval(c, Task::Branch(then, otherwise), r, functions, host);
        lemma_run_last(start, functions, host, r.steps + 1);
        let third = run(start, functions, host, r.steps + 2);
        let c3 = Config { state: StateV { scopes: r.scopes, ..s }, ..c };
        if truthy(cv) {
            assert(third == planned(c3, Task::Execute(then)));
            let x = exec(*then, r.scopes, c.output, host, fuel);
            lemma_exec(c3, then, functions, host, fuel);
            lemma_run_add(start, functions, host, r.steps + 2, x.steps);
        } else {
            match otherwise {
                Some(other) => {
                    assert(third == planned(c3, Task::Execute(other)));
                    let x = exec(*other, r.scopes, c.output, host, fuel);
                    lemma_exec(c3, other, functions, host, fuel);
                    lemma_run_add(start, functions, host, r.steps + 2, x.steps);
                },
                None => {},
            }
        }
    }
}

proof fn lemma_exec_while<'a>(
    c: Config<'a>,
    stmt: &'a Stmt,
    cond: &'a Expr,
    body: &'a Stmt,
    functions: &'a Vec<StaticFunction>,
    host: Host,
    fuel: nat,
)
    requires
        !c.state.waiting,
        c.answer is None,
        functions@.len() == 0,
        c.state.values.len() <= usize::MAX,
        exec(*stmt, c.state.scopes, c.output, host, fuel).flow != Flow::Timeout,
        *stmt == Stmt::While(Box::new(*cond), Box::new(*body)),
    ensures
        run(
            planned(c, Task::Execute(stmt)),
            functions,
            host,
            exec(*stmt, c.state.scopes, c.output, host, fuel).steps,
        ) == executed(c, exec(*stmt, c.state.scopes, c.output, host, fuel)),
    decreases fuel, stmt, 0nat,
{
    let s = c.state;
    let start = planned(c, Task::Execute(stmt));
    lemma_next(c, Task::Execute(stmt), functions, host);
    let first = next(start, functions, host);
    let x = spin(*cond, *body, s.scopes, c.output, host, fuel);
    lemma_spin(c, cond, body, functions, host, fuel);
    assert(first == planned(c, Task::Loop(cond, body, s.values.len() as usize)));
    lemma_run_first(start, functions, host, x.steps);
}

/// The rounds of a loop, as the evaluator takes them.
proof fn lemma_spin<'a>(
    c: Config<'a>,
    cond: &'a Expr,
    body: &'a Stmt,
    functions: &'a Vec<StaticFunction>,
    host: Host,
    fuel: nat,
)
    requires
        !c.state.waiting,
        c.answer is None,
        functions@.len() == 0,
        c.state.values.len() <= usize::MAX,
        spin(*cond, *body, c.state.scopes, c.output, host, fuel).flow != Flow::Timeout,
    ensures
        run(
            planned(c, Task::Loop(cond, body, c.state.values.len() as usize)),
            functions,
            host,
            spin(*cond, *body, c.state.scopes, c.output, host, fuel).steps,
        ) == executed(c, spin(*cond, *body, c.state.scopes, c.output, host, fuel)),
    decreases fuel, body, 2nat,
{
    let s = c.state;
    let height = s.values.len() as usize;
    let around = Task::Loop(cond, body, height);
    let start = planned(c, around);
    lemma_next(c, around, functions, host);
    let first = next(start, functions, host);
    let r = eval(*cond, s.scopes, host);
    let test = Task::Test(cond, body, height);
    let c1 = planned(c, test);
    lemma_eval(c1, cond, functions, host);
    assert(first == planned(c1, Task::Evaluate(cond)));
    lemma_run_first(start, functions, host, r.steps);
    if r.result is Ok {
        let cv = r.result->Ok_0;
        lemma_after_eval(c, test, r, functions, host);
        lemma_run_last(start, functions, host, r.steps + 1);
        let third = run(start, functions, host, r.steps + 2);
        let after = StateV { scopes: r.scopes, ..s };
        if truthy(cv) {
            let c2 = planned(Config { state: after, ..c }, around);
            assert(third == planned(c2, Task::Execute(body)));
            let x = exec(*body, r.scopes, c.output, host, (fuel - 1) as nat);
            lemma_exec(c2, body, functions, host, (fuel - 1) as nat);
            lemma_run_add(start, functions, host, r.steps + 2, x.steps);
            let fourth = run(start, functions, host, r.steps + 2 + x.steps);
            assert(fourth == executed(c2, x));
            let closed = StateV { scopes: x.scopes, ..s };
            match x.flow {
                Flow::Normal => {
                    let c3 = Config { state: closed, output: x.output, ..c };
                    assert(fourth == planned(c3, around));
                    let rest = spin(*cond, *body, x.scopes, x.output, host, (fuel - 1) as nat);
                    lemma_spin(c3, cond, body, functions, host, (fuel - 1) as nat);
                    lemma_run_add(start, functions, host, r.steps + 2 + x.steps, rest.steps);
                },
                Flow::Break => {
                    lemma_unwind_first(closed, around);
                    assert((StateV { scopes: x.scopes, ..c2.state }) == plan(closed, around));
                    assert(closed.values.take(height as int) =~= closed.values);
                },
                _ => {},
            }
        }
    }
}

/// The statements of a list, as the evaluator runs them.
proof fn lemma_exec_list<'a>(
    c: Config<'a>,
    list: &'a Vec<Stmt>,
    from: usize,
    functions: &'a Vec<StaticFunction>,
    host: Host,
    fuel: nat,
)
    requires
        !c.state.waiting,
        c.answer is None,
        functions@.len() == 0,
        c.state.values.len() <= usize::MAX,
        from <= list@.len(),
        exec_list(list@, from as nat, c.state.scopes, c.output, host, fuel).flow != Flow::Timeout,
    ensures
        run(
            planned(c, Task::Statements(list, from)),
            functions,
            host,
            exec_list(list@, from as nat, c.state.scopes, c.output, host, fuel).steps,
        ) == executed(c, exec_list(list@, from as nat, c.state.scopes, c.output, host, fuel)),
    decreases fuel, list, list@.len() - from,
{
    let s = c.state;
    let start = planned(c, Task::Statements(list, from));
    lemma_next(c, Task::Statements(list, from), functions, host);
    let first = next(start, functions, host);
    assert(list@.len() == list.len());
    if from >= list@.len() {
        lemma_run_one(start, functions, host);
    } else {
        let later = Task::Statements(list, (from + 1) as usize);
        let c1 = planned(c, later);
        let x = exec(list@[from as int], s.scopes, c.output, host, fuel);
        lemma_exec(c1, &list[from as int], functions, host, fuel);
        assert(first == planned(c1, Task::Execute(&list[from as int])));
        lemma_run_first(start, functions, host, x.steps);
        let second = run(start, functions, host, x.steps + 1);
        assert(second == executed(c1, x));
        let closed = StateV { scopes: x.scopes, ..s };
        match x.flow {
            Flow::Normal => {
                let c2 = Config { state: closed, output: x.output, ..c };
                assert(second == planned(c2, later));
                let rest = exec_list(list@, (from + 1) as nat, x.scopes, x.output, host, fuel);
                lemma_exec_list(c2, list, (from + 1) as usize, functions, host, fuel);
                lemma_run_add(start, functions, host, x.steps + 1, rest.steps);
            },
            Flow::Break => {
                lemma_unwind_first(closed, later);
                assert((StateV { scopes: x.scopes, ..c1.state }) == plan(closed, later));
            },
            _ => {},
        }
    }
}

/// The evaluator takes the steps of `exec` for a statement and comes to what
/// `exec` says, in a program without functions and for any statement that
/// `exec` runs to an end: the scopes and the output are as `exec` leaves
/// them; after a `break` the loop around the statement has ended; after a
/// failure the program has ended with the error.
pub proof fn lemma_exec<'a>(
    c: Config<'a>,
    stmt: &'a Stmt,
    functions: &'a Vec<StaticFunction>,
    host: Host,
    fuel: nat,
)
    requires
        !c.state.waiting,
        c.answer is None,
        functions@.len() == 0,
        c.state.values.len() <= usize::MAX,
        exec(*stmt, c.state.scopes, c.output, host, fuel).flow != Flow::Timeout,
    ensures
        run(
            planned(c, Task::Execute(stmt)),
            functions,
            host,
            exec(*stmt, c.state.scopes, c.output, host, fuel).steps,
        ) == executed(c, exec(*stmt, c.state.scopes, c.output, host, fuel)),
    decreases fuel, stmt, 1nat,
{
    let start = planned(c, Task::Execute(stmt));
    match stmt {
        Stmt::Print(e) => lemma_exec_print(c, stmt, e, functions, host, fuel),
        Stmt::Expr(e) => lemma_exec_expression(c, stmt, e, functions, host, fuel),
        Stmt::Var(name, Some(init)) => lemma_exec_declaration(
            c,
            stmt,
            name,
            init,
            functions,
            host,
            fuel,
        ),
        Stmt::Var(name, None) => {
            lemma_next(c, Task::Execute(stmt), functions, host);
            lemma_run_one(start, functions, host);
        },
        Stmt::Block(list) => lemma_exec_block(c, stmt, list, functions, host, fuel),
        Stmt::If(cond, then, otherwise) => lemma_exec_if(
            c,
            stmt,
            &**cond,
            &**then,
            &**otherwise,
            functions,
            host,
            fuel,
        ),
        Stmt::While(cond, body) => lemma_exec_while(
            c,
            stmt,
            &**cond,
            &**body,
            functions,
            host,
            fuel,
        ),
        Stmt::Break(_) => {
            lemma_next(c, Task::Execute(stmt), functions, host);
            lemma_run_one(start, functions, host);
            lemma_unwind_action(c.state);
        },
    }
}

/// The scopes of a program before its first step: the global scope, empty.
pub open spec fn globals() -> Seq<ScopeV> {
    seq![ScopeV { vars: Map::empty(), outer: 0 }]
}

/// The run of a whole program that has no functions to call.
pub open spec fn exec_program(program: Seq<Stmt>, host: Host, fuel: nat) -> Executed {
    exec_list(program, 0, globals(), Seq::empty(), host, fuel)
}

/// The evaluator and its caller before the first step of `program`.
pub open spec fn beginning<'a>(program: &'a Vec<Stmt>, functions: &'a Vec<StaticFunction>) -> Config<
    'a,
> {
    Config {
        state: initial(program, functions),
        answer: None,
        output: Seq::empty(),
        failure: None,
    }
}

/// The evaluator runs a program as `exec_program` says. For a program
/// without functions that `exec_program` runs to an end, and a caller that
/// computes as `host` does, the evaluator has after the steps of
/// `exec_program` nothing left to do; the caller has shown the output of
/// `exec_program`; the global scope is as `exec_program` leaves it; and the
/// caller was told of a failure exactly if `exec_program` fails, with the
/// same error, a `break` that no loop encloses being told as stray.
pub proof fn lemma_exec_program<'a>(
    program: &'a Vec<Stmt>,
    functions: &'a Vec<StaticFunction>,
    host: Host,
    fuel: nat,
)
    requires
        functions@.len() == 0,
        exec_program(program@, host, fuel).flow != Flow::Timeout,
    ensures
        ({
            let x = exec_program(program@, host, fuel);
            let end = run(beginning(program, functions), functions, host, x.steps);
            &&& end.state.tasks.len() == 0
            &&& end.state.values.len() == 0
            &&& !end.state.waiting
            &&& end.output == x.output
            &&& end.failure == match x.flow {
                Flow::Fail(msg) => Some(ActionV::Failed(msg)),
                Flow::Break => Some(ActionV::Stray),
                _ => None,
            }
            &&& end.state.scopes == if x.flow is Normal {
                x.scopes
            } else {
                x.scopes.take(1)
            }
        }),
{
    let base = StateV {
        scopes: globals(),
        tasks: Seq::empty(),
        values: Seq::empty(),
        waiting: false,
    };
    let c = Config { state: base, answer: None, output: Seq::empty(), failure: None };
    assert(initial(program, functions).tasks =~= plan(base, Task::Statements(program, 0)).tasks);
    assert(beginning(program, functions) == planned(c, Task::Statements(program, 0)));
    lemma_exec_list(c, program, 0, functions, host, fuel);
}

/// The evaluation of an expression opens and closes no scope.
pub proof fn lemma_eval_depth(e: Expr, scopes: Seq<ScopeV>, host: Host)
    requires
        scopes.len() > 0,
    ensures
        eval(e, scopes, host).scopes.len() == scopes.len(),
    decreases e,
{
    match e {
        Expr::Literal(_) => {},
        Expr::Var(_) => {},
        Expr::Grouping(inner) => {
            lemma_eval_depth(*inner, scopes, host);
        },
        Expr::Unary(_, inner) => {
            lemma_eval_depth(*inner, scopes, host);
        },
        Expr::Binary(l, _, r) => {
            lemma_eval_depth(*l, scopes, host);
            lemma_eval_depth(*r, eval(*l, scopes, host).scopes, host);
        },
        Expr::Logical(l, _, r) => {
            lemma_eval_depth(*l, scopes, host);
            lemma_eval_depth(*r, eval(*l, scopes, host).scopes, host);
        },
        Expr::Ternary(_, c, t, f) => {
            lemma_eval_depth(*c, scopes, host);
            lemma_eval_depth(*t, eval(*c, scopes, host).scopes, host);
            lemma_eval_depth(*f, eval(*c, scopes, host).scopes, host);
        },
        Expr::Assignment(name, inner) => {
            lemma_eval_depth(*inner, scopes, host);
            let a = eval(*inner, scopes, host);
            crate::environment::lemma_resolve_within(a.scopes, a.scopes.len() - 1, name.lexeme@);
        },
        Expr::Call(c, _, _) => {
            lemma_eval_depth(*c, scopes, host);
        },
    }
}

/// Every statement leaves as many scopes as it found, however it ends: a
/// block leaves its scope when it has run to its end, when a `break` passes
/// through it, and when the program fails in it.
pub proof fn lemma_exec_depth(
    stmt: Stmt,
    scopes: Seq<ScopeV>,
    output: Seq<Seq<char>>,
    host: Host,
    fuel: nat,
)
    requires
        scopes.len() > 0,
    ensures
        exec(stmt, scopes, output, host, fuel).flow is Normal || exec(
            stmt,
            scopes,
            output,
            host,
            fuel,
        ).flow is Break ==> exec(stmt, scopes, output, host, fuel).scopes.len() == scopes.len(),
    decreases fuel, stmt, 0nat,
{
    match stmt {
        Stmt::Print(e) => {
            lemma_eval_depth(e, scopes, host);
        },
        Stmt::Expr(e) => {
            lemma_eval_depth(e, scopes, host);
        },
        Stmt::Var(_, Some(init)) => {
            lemma_eval_depth(init, scopes, host);
        },
        Stmt::Var(_, None) => {},
        Stmt::Block(list) => {
            lemma_exec_list_depth(
                list@,
                0,
                scopes.push(ScopeV { vars: Map::empty(), outer: (scopes.len() - 1) as usize }),
                output,
                host,
                fuel,
            );
        },
        Stmt::If(c, t, e) => {
            lemma_eval_depth(*c, scopes, host);
            let r = eval(*c, scopes, host);
            lemma_exec_depth(*t, r.scopes, output, host, fuel);
            match *e {
                Some(other) => {
                    lemma_exec_depth(other, r.scopes, output, host, fuel);
                },
                None => {},
            }
        },
        Stmt::While(c, b) => {
            lemma_spin_depth(*c, *b, scopes, output, host, fuel);
        },
        Stmt::Break(_) => {},
    }
}

/// The statements of a list leave as many scopes as they found.
proof fn lemma_exec_list_depth(
    list: Seq<Stmt>,
    from: nat,
    scopes: Seq<ScopeV>,
    output: Seq<Seq<char>>,
    host: Host,
    fuel: nat,
)
    requires
        scopes.len() > 0,
    ensures
        exec_list(list, from, scopes, output, host, fuel).flow is Normal || exec_list(
            list,
            from,
            scopes,
            output,
            host,
            fuel,
        ).flow is Break ==> exec_list(list, from, scopes, output, host, fuel).scopes.len()
            == scopes.len(),
    decreases fuel, list, list.len() - from,
{
    if from < list.len() {
        lemma_exec_depth(list[from as int], scopes, output, host, fuel);
        let x = exec(list[from as int], scopes, output, host, fuel);
        if x.flow is Normal {
            lemma_exec_list_depth(list, from + 1, x.scopes, x.output, host, fuel);
        }
    }
}

/// The rounds of a loop leave as many scopes as they found.
proof fn lemma_spin_depth(
    cond: Expr,
    body: Stmt,
    scopes: Seq<ScopeV>,
    output: Seq<Seq<char>>,
    host: Host,
    fuel: nat,
)
    requires
        scopes.len() > 0,
    ensures
        spin(cond, body, scopes, output, host, fuel).flow is Normal ==> spin(
            cond,
            body,
            scopes,
            output,
            host,
            fuel,
        ).scopes.len() == scopes.len(),
        !(spin(cond, body, scopes, output, host, fuel).flow is Break),
    decreases fuel, body, 1nat,
{
    lemma_eval_depth(cond, scopes, host);
    let r = eval(cond, scopes, host);
    if r.result is Ok && truthy(r.result->Ok_0) && fuel > 0 {
        lemma_exec_depth(body, r.scopes, output, host, (fuel - 1) as nat);
        let x = exec(body, r.scopes, output, host, (fuel - 1) as nat);
        if x.flow is Normal {
            lemma_spin_depth(cond, body, x.scopes, x.output, host, (fuel - 1) as nat);
        }
    }
}

} // verus!
