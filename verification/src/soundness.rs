use vstd::prelude::*;
use crate::functions::StaticFunction;
use crate::interpreter::ended;
use crate::interpreter::evaluate;
use crate::interpreter::execute;
use crate::interpreter::initial;
use crate::interpreter::invoke;
use crate::interpreter::perform;
use crate::interpreter::plan;
use crate::interpreter::step;
use crate::interpreter::unwind;
use crate::interpreter::StateV;
use crate::interpreter::Task;
use crate::number::NumberV;
use crate::syntax::Expr;
use crate::syntax::Stmt;
use crate::tokens::Token;

verus! {

/// What tasks need of the evaluator that is to do them.
pub struct Shape {
    /// The number of values.
    pub values: int,
    /// The number of scopes.
    pub scopes: int,
    /// The number of values that the tasks leave alone: those that were
    /// there when the innermost loop began.
    pub floor: int,
}

/// A shape that an evaluator can have: its floor lies between no value and
/// its values, and it has a global scope.
pub open spec fn valid(shape: Shape) -> bool {
    0 <= shape.floor <= shape.values && 1 <= shape.scopes
}

/// What `task` needs, if what is left to do after it needs `after`; `None` if
/// nothing would do. `count` is the number of functions.
pub open spec fn before<'a>(task: Task<'a>, count: nat, after: Shape) -> Option<Shape> {
    let made = after.values - 1 >= after.floor;
    match task {
        Task::Statements(_, _) | Task::Execute(_) => Some(after),
        Task::Evaluate(_) => if made {
            Some(Shape { values: after.values - 1, ..after })
        } else {
            None
        },
        Task::Print | Task::Discard | Task::Define(_) | Task::Branch(_, _) => Some(
            Shape { values: after.values + 1, ..after },
        ),
        Task::EndBlock => Some(Shape { scopes: after.scopes + 1, ..after }),
        Task::Loop(_, _, height) => if height == after.values {
            Some(Shape { floor: height as int, ..after })
        } else {
            None
        },
        Task::Test(_, _, height) => if height == after.values {
            Some(Shape { values: after.values + 1, ..after })
        } else {
            None
        },
        Task::Unary(_)
        | Task::Logical(_, _)
        | Task::Choose(_, _)
        | Task::Assign(_)
        | Task::Callee(_, _) => if made {
            Some(after)
        } else {
            None
        },
        Task::Binary(_) => if made {
            Some(Shape { values: after.values + 1, ..after })
        } else {
            None
        },
        Task::Arguments(_, args, next, f) => if made && next <= args@.len() && f < count {
            Some(Shape { values: after.values - 1 + next, ..after })
        } else {
            None
        },
        Task::Return => if made {
            Some(Shape { values: after.values - 1, scopes: after.scopes + 1, ..after })
        } else {
            None
        },
    }
}

/// What `tasks` need, the last first; nothing left to do needs no value and
/// the global scope.
pub open spec fn expects<'a>(tasks: Seq<Task<'a>>, count: nat) -> Option<Shape>
    decreases tasks.len(),
{
    if tasks.len() == 0 {
        Some(Shape { values: 0, scopes: 1, floor: 0 })
    } else {
        match expects(tasks.drop_last(), count) {
            Some(after) => before(tasks.last(), count, after),
            None => None,
        }
    }
}

/// The evaluator has what its tasks need: the values, counting the number
/// that the caller owes, and the scopes.
pub open spec fn sound<'a>(s: StateV<'a>, count: nat) -> bool {
    match expects(s.tasks, count) {
        Some(shape) => {
            &&& shape.scopes == s.scopes.len()
            &&& shape.values == s.values.len() + if s.waiting {
                1int
            } else {
                0int
            }
            &&& shape.floor <= s.values.len()
        },
        None => false,
    }
}

/// What tasks need is a number of values above the floor, and a scope.
pub proof fn lemma_expects_valid<'a>(tasks: Seq<Task<'a>>, count: nat)
    ensures
        expects(tasks, count) is Some ==> valid(expects(tasks, count)->0),
    decreases tasks.len(),
{
    if tasks.len() > 0 {
        lemma_expects_valid(tasks.drop_last(), count);
    }
}

/// What tasks and one more need.
pub proof fn lemma_expects_push<'a>(tasks: Seq<Task<'a>>, task: Task<'a>, count: nat)
    ensures
        expects(tasks.push(task), count) == match expects(tasks, count) {
            Some(after) => before(task, count, after),
            None => None,
        },
{
    assert(tasks.push(task).drop_last() =~= tasks);
}

/// The evaluator is sound before the first step of any program.
pub proof fn lemma_initial_sound<'a>(program: &'a Vec<Stmt>, functions: &'a Vec<StaticFunction>)
    ensures
        sound(initial(program, functions), functions@.len()),
{
    let s = initial(program, functions);
    lemma_expects_push(Seq::empty(), Task::Statements(program, 0), functions@.len());
    assert(s.tasks =~= Seq::empty().push(Task::Statements(program, 0)));
    lemma_declared_len(seq![crate::environment::ScopeV { vars: Map::empty(), outer: 0 }], functions@, 0);
}

/// Declaring functions opens and closes no scope.
pub proof fn lemma_declared_len(
    scopes: Seq<crate::environment::ScopeV>,
    functions: Seq<StaticFunction>,
    from: nat,
)
    requires
        scopes.len() > 0,
    ensures
        crate::interpreter::declared(scopes, functions, from).len() == scopes.len(),
    decreases functions.len() - from,
{
    if from < functions.len() {
        lemma_declared_len(
            crate::environment::bind(
                scopes,
                scopes.len() - 1,
                functions[from as int].name@,
                Some(crate::tokens::LiteralV::Function(from as usize)),
            ),
            functions,
            from + 1,
        );
    }
}

/// Binding parameters opens and closes no scope.
pub proof fn lemma_bound_len(
    scopes: Seq<crate::environment::ScopeV>,
    params: Seq<String>,
    args: Seq<crate::tokens::LiteralV>,
    from: nat,
)
    requires
        scopes.len() > 0,
    ensures
        crate::interpreter::bound(scopes, params, args, from).len() == scopes.len(),
    decreases params.len() - from,
{
    if from < params.len() && from < args.len() {
        lemma_bound_len(
            crate::environment::bind(
                scopes,
                scopes.len() - 1,
                params[from as int]@,
                Some(args[from as int]),
            ),
            params,
            args,
            from + 1,
        );
    }
}

/// The evaluator is sound after a program has ended.
pub proof fn lemma_ended_sound<'a>(s: StateV<'a>, count: nat)
    requires
        s.scopes.len() >= 1,
    ensures
        sound(ended(s), count),
{
}

/// A `break` leaves the evaluator sound.
pub proof fn lemma_unwind_sound<'a>(s: StateV<'a>, count: nat)
    requires
        sound(s, count),
        !s.waiting,
    ensures
        sound(unwind(s).state, count),
{
    lemma_unwinding(s, count);
}

/// A `break` leaves the evaluator sound, though it has more values than its
/// tasks need.
proof fn lemma_unwinding<'a>(s: StateV<'a>, count: nat)
    requires
        expects(s.tasks, count) is Some,
        expects(s.tasks, count)->0.scopes == s.scopes.len(),
        expects(s.tasks, count)->0.floor <= s.values.len(),
        !s.waiting,
    ensures
        sound(unwind(s).state, count),
    decreases s.tasks.len(),
{
    lemma_expects_valid(s.tasks, count);
    if s.tasks.len() > 0 {
        let rest = StateV { tasks: s.tasks.drop_last(), ..s };
        lemma_expects_valid(rest.tasks, count);
        match s.tasks.last() {
            Task::Loop(_, _, height) => {},
            Task::EndBlock | Task::Return => {
                lemma_unwinding(StateV { scopes: crate::interpreter::leave(s.scopes), ..rest }, count);
            },
            _ => {
                lemma_unwinding(rest, count);
            },
        }
    }
}

/// Planning a task for a sound evaluator.
proof fn lemma_plan<'a>(s: StateV<'a>, task: Task<'a>, count: nat)
    ensures
        expects(plan(s, task).tasks, count) == match expects(s.tasks, count) {
            Some(after) => before(task, count, after),
            None => None,
        },
{
    lemma_expects_push(s.tasks, task, count);
}

/// To begin a statement leaves the evaluator sound.
pub proof fn lemma_execute_sound<'a>(s: StateV<'a>, stmt: &'a Stmt, count: nat)
    requires
        sound(s, count),
        !s.waiting,
        s.values.len() <= usize::MAX,
    ensures
        sound(execute(s, stmt).state, count),
{
    lemma_expects_valid(s.tasks, count);
    match stmt {
        Stmt::Print(e) => {
            lemma_plan(s, Task::Print, count);
            lemma_plan(plan(s, Task::Print), Task::Evaluate(e), count);
        },
        Stmt::Expr(e) => {
            lemma_plan(s, Task::Discard, count);
            lemma_plan(plan(s, Task::Discard), Task::Evaluate(e), count);
        },
        Stmt::Var(name, Some(init)) => {
            lemma_plan(s, Task::Define(name), count);
            lemma_plan(plan(s, Task::Define(name)), Task::Evaluate(init), count);
        },
        Stmt::Var(name, None) => {},
        Stmt::Block(list) => {
            let inner = StateV {
                scopes: s.scopes.push(
                    crate::environment::ScopeV {
                        vars: Map::empty(),
                        outer: (s.scopes.len() - 1) as usize,
                    },
                ),
                ..s
            };
            lemma_plan(inner, Task::EndBlock, count);
            lemma_plan(plan(inner, Task::EndBlock), Task::Statements(list, 0), count);
        },
        Stmt::If(c, t, e) => {
            lemma_plan(s, Task::Branch(&**t, &**e), count);
            lemma_plan(plan(s, Task::Branch(&**t, &**e)), Task::Evaluate(&**c), count);
        },
        Stmt::While(c, b) => {
            lemma_plan(s, Task::Loop(&**c, &**b, s.values.len() as usize), count);
        },
        Stmt::Break(_) => {
            lemma_unwind_sound(s, count);
        },
    }
}

/// To begin the evaluation of an expression whose value is awaited leaves
/// the evaluator sound.
pub proof fn lemma_evaluate_sound<'a>(s: StateV<'a>, expr: &'a Expr, count: nat)
    requires
        sound(plan(s, Task::Evaluate(expr)), count),
        !s.waiting,
    ensures
        sound(evaluate(s, expr).state, count),
{
    lemma_plan(s, Task::Evaluate(expr), count);
    lemma_expects_valid(s.tasks, count);
    match expr {
        Expr::Literal(l) => {},
        Expr::Grouping(e) => {
            lemma_plan(s, Task::Evaluate(&**e), count);
        },
        Expr::Var(name) => {},
        Expr::Unary(op, e) => {
            lemma_plan(s, Task::Unary(op), count);
            lemma_plan(plan(s, Task::Unary(op)), Task::Evaluate(&**e), count);
        },
        Expr::Binary(l, op, r) => {
            lemma_plan(s, Task::Binary(op), count);
            lemma_plan(plan(s, Task::Binary(op)), Task::Evaluate(&**r), count);
            lemma_plan(
                plan(plan(s, Task::Binary(op)), Task::Evaluate(&**r)),
                Task::Evaluate(&**l),
                count,
            );
        },
        Expr::Logical(l, op, r) => {
            lemma_plan(s, Task::Logical(op, &**r), count);
            lemma_plan(plan(s, Task::Logical(op, &**r)), Task::Evaluate(&**l), count);
        },
        Expr::Ternary(_, c, t, e) => {
            lemma_plan(s, Task::Choose(&**t, &**e), count);
            lemma_plan(plan(s, Task::Choose(&**t, &**e)), Task::Evaluate(&**c), count);
        },
        Expr::Assignment(name, e) => {
            lemma_plan(s, Task::Assign(name), count);
            lemma_plan(plan(s, Task::Assign(name)), Task::Evaluate(&**e), count);
        },
        Expr::Call(c, paren, args) => {
            lemma_plan(s, Task::Callee(paren, args), count);
            lemma_plan(plan(s, Task::Callee(paren, args)), Task::Evaluate(&**c), count);
        },
    }
}

/// To call a function whose arguments are evaluated leaves the evaluator sound.
pub proof fn lemma_invoke_sound<'a>(
    s: StateV<'a>,
    functions: &'a Vec<StaticFunction>,
    paren: &'a Token,
    args: &'a Vec<Expr>,
    f: usize,
)
    requires
        sound(plan(s, Task::Arguments(paren, args, args@.len() as usize, f)), functions@.len()),
        !s.waiting,
    ensures
        sound(invoke(s, functions, paren, args, f).state, functions@.len()),
{
    let count = functions@.len();
    assert(args@.len() == args.len());
    lemma_plan(s, Task::Arguments(paren, args, args@.len() as usize, f), count);
    lemma_expects_valid(s.tasks, count);
    if f < count && args@.len() == functions@[f as int].params@.len() && s.values.len()
        >= args@.len() {
        let kept = s.values.len() - args@.len();
        let opened = s.scopes.push(crate::environment::ScopeV { vars: Map::empty(), outer: 0 });
        let entered = StateV {
            scopes: crate::interpreter::bound(
                opened,
                functions@[f as int].params@,
                s.values.subrange(kept, s.values.len() as int),
                0,
            ),
            values: s.values.take(kept),
            ..s
        };
        lemma_bound_len(
            opened,
            functions@[f as int].params@,
            s.values.subrange(kept, s.values.len() as int),
            0,
        );
        lemma_plan(entered, Task::Return, count);
        lemma_plan(
            plan(entered, Task::Return),
            Task::Statements(&functions[f as int].body, 0),
            count,
        );
    }
}

/// To do the next task leaves the evaluator sound.
pub proof fn lemma_perform_sound<'a>(
    s: StateV<'a>,
    functions: &'a Vec<StaticFunction>,
    task: Task<'a>,
)
    requires
        sound(plan(s, task), functions@.len()),
        !s.waiting,
        s.values.len() <= usize::MAX,
    ensures
        sound(perform(s, functions, task).state, functions@.len()),
{
    let count = functions@.len();
    lemma_plan(s, task, count);
    lemma_expects_valid(s.tasks, count);
    match task {
        Task::Statements(list, i) => {
            assert(list@.len() == list.len());
            if i < list@.len() {
                lemma_plan(s, Task::Statements(list, (i + 1) as usize), count);
                lemma_plan(
                    plan(s, Task::Statements(list, (i + 1) as usize)),
                    Task::Execute(&list[i as int]),
                    count,
                );
            }
        },
        Task::Execute(stmt) => {
            lemma_execute_sound(s, stmt, count);
        },
        Task::Evaluate(expr) => {
            lemma_evaluate_sound(s, expr, count);
        },
        Task::Print => {},
        Task::Discard => {},
        Task::Define(name) => {},
        Task::EndBlock => {},
        Task::Branch(then, otherwise) => {
            let shed = crate::interpreter::shed(s);
            lemma_plan(shed, Task::Execute(then), count);
            if let Some(other) = otherwise {
                lemma_plan(shed, Task::Execute(other), count);
            }
        },
        Task::Loop(cond, body, height) => {
            lemma_plan(s, Task::Test(cond, body, height), count);
            lemma_plan(plan(s, Task::Test(cond, body, height)), Task::Evaluate(cond), count);
        },
        Task::Test(cond, body, height) => {
            let shed = crate::interpreter::shed(s);
            lemma_plan(shed, Task::Loop(cond, body, height), count);
            lemma_plan(plan(shed, Task::Loop(cond, body, height)), Task::Execute(body), count);
        },
        Task::Unary(op) => {},
        Task::Binary(op) => {},
        Task::Logical(op, right) => {
            lemma_plan(crate::interpreter::shed(s), Task::Evaluate(right), count);
        },
        Task::Choose(then, otherwise) => {
            lemma_plan(crate::interpreter::shed(s), Task::Evaluate(then), count);
            lemma_plan(crate::interpreter::shed(s), Task::Evaluate(otherwise), count);
        },
        Task::Assign(name) => {
            crate::environment::lemma_resolve_within(s.scopes, s.scopes.len() - 1, name.lexeme@);
        },
        Task::Callee(paren, args) => {
            if let Some(f) = crate::functions::callee(crate::interpreter::top(s.values), count) {
                lemma_plan(crate::interpreter::shed(s), Task::Arguments(paren, args, 0, f), count);
            }
        },
        Task::Arguments(paren, args, i, f) => {
            assert(args@.len() == args.len());
            if i < args@.len() {
                lemma_plan(s, Task::Arguments(paren, args, (i + 1) as usize, f), count);
                lemma_plan(
                    plan(s, Task::Arguments(paren, args, (i + 1) as usize, f)),
                    Task::Evaluate(&args[i as int]),
                    count,
                );
            } else {
                assert(i == args@.len() as usize);
                lemma_invoke_sound(s, functions, paren, args, f);
            }
        },
        Task::Return => {},
    }
}

/// Every step leaves a sound evaluator sound: whatever the program, and
/// whatever the caller answers, the evaluator has the values that its next
/// task takes, and a scope to leave where the task leaves one.
pub proof fn lemma_step_sound<'a>(
    s: StateV<'a>,
    functions: &'a Vec<StaticFunction>,
    answer: Option<NumberV>,
)
    requires
        sound(s, functions@.len()),
        s.values.len() <= usize::MAX,
    ensures
        sound(step(s, functions, answer).state, functions@.len()),
{
    if !s.waiting && s.tasks.len() > 0 {
        let rest = StateV { tasks: s.tasks.drop_last(), ..s };
        assert(plan(rest, s.tasks.last()).tasks =~= s.tasks);
        lemma_perform_sound(rest, functions, s.tasks.last());
    }
}

/// The number of values that `task` takes.
pub open spec fn takes<'a>(task: Task<'a>) -> nat {
    match task {
        Task::Print
        | Task::Discard
        | Task::Define(_)
        | Task::Branch(_, _)
        | Task::Test(_, _, _)
        | Task::Unary(_)
        | Task::Logical(_, _)
        | Task::Choose(_, _)
        | Task::Assign(_)
        | Task::Callee(_, _) => 1,
        Task::Binary(_) => 2,
        Task::Arguments(_, args, next, _) => if next >= args@.len() {
            args@.len()
        } else {
            0
        },
        _ => 0,
    }
}

/// A sound evaluator never lacks what its next task takes: the values are
/// there, there is a scope to leave besides the global one where the task
/// leaves a scope, and the function is there where the task calls one.
pub proof fn lemma_sound_suffices<'a>(s: StateV<'a>, count: nat)
    requires
        sound(s, count),
        !s.waiting,
        s.tasks.len() > 0,
    ensures
        s.values.len() >= takes(s.tasks.last()),
        s.tasks.last() is EndBlock || s.tasks.last() is Return ==> s.scopes.len() > 1,
        s.tasks.last() is Arguments ==> s.tasks.last()->Arguments_3 < count,
{
    lemma_expects_valid(s.tasks.drop_last(), count);
}

} // verus!
