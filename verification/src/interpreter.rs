use vstd::prelude::*;
use vstd::string::StringExecFns;
use crate::text::decimal;
use crate::text::decimal_string;
use crate::environment::bind;
use crate::environment::lookup;
use crate::environment::resolve;
use crate::environment::ScopeV;
use crate::environment::Stack;
use crate::functions::callee;
use crate::functions::not_callable;
use crate::functions::Callable;
use crate::functions::StaticFunction;
use crate::number;
use crate::soundness::lemma_initial_sound;
use crate::soundness::lemma_step_sound;
use crate::soundness::sound;
use crate::syntax::Expr;
use crate::syntax::Stmt;
use crate::tokens::display;
use crate::number::Number;
use crate::number::NumberV;
use crate::tokens::Literal;
use crate::tokens::LiteralV;
use crate::tokens::Token;
use crate::tokens::TokenType;

verus! {

/// An error that ends the evaluation of a program.
pub struct InterpreterError {
    msg: String,
}

/// The text of a runtime error: what went wrong, at which lexeme, on which line.
pub open spec fn runtime_message(err: Seq<char>, lexeme: Seq<char>, line: nat) -> Seq<char> {
    "Error: "@ + err + ", at: '"@ + lexeme + "' on line "@ + decimal(line)
}

impl InterpreterError {
    /// The text of the error.
    pub closed spec fn view(&self) -> Seq<char> {
        self.msg@
    }

    pub fn get_msg(&self) -> (s: &str)
        ensures
            s@ == self@,
    {
        self.msg.as_str()
    }

    /// The error `err`, found at the token `tk`.
    pub fn new(tk: &Token, err: &str) -> (e: InterpreterError)
        ensures
            e@ == runtime_message(err@, tk.lexeme@, tk.line as nat),
    {
        Self::from(tk.get_line(), tk.get_lexeme(), err)
    }

    /// The error `msg`, found at `lexeme` on `line`.
    pub fn from(line: usize, lexeme: &str, msg: &str) -> (e: InterpreterError)
        ensures
            e@ == runtime_message(msg@, lexeme@, line as nat),
    {
        let mut text = String::from_str("Error: ");
        text.append(msg);
        text.append(", at: '");
        text.append(lexeme);
        text.append("' on line ");
        text.append(decimal_string(line).as_str());
        InterpreterError { msg: text }
    }
}

/// Why the evaluation of a statement did not run to its end.
pub enum RuntimeError {
    /// A `break` is on its way to the loop that encloses it.
    BreakSentinel,
    /// The program failed.
    InterpreterError(InterpreterError),
}

/// What is said of a `break` that no loop took up.
pub open spec fn stray_break() -> Seq<char> {
    "Break ran without encapsulating loop. Report this bug in the interpreter."@
}

impl RuntimeError {
    /// The text of the error.
    pub open spec fn view(&self) -> Seq<char> {
        match self {
            RuntimeError::BreakSentinel => stray_break(),
            RuntimeError::InterpreterError(ie) => ie@,
        }
    }

    pub fn get_msg(&self) -> (s: &str)
        ensures
            s@ == self@,
    {
        match self {
            RuntimeError::BreakSentinel => {
                "Break ran without encapsulating loop. Report this bug in the interpreter."
            },
            RuntimeError::InterpreterError(ie) => ie.get_msg(),
        }
    }

    /// The failure `err`, found at the token `tk`.
    pub fn at(tk: &Token, err: &str) -> (e: RuntimeError)
        ensures
            e is InterpreterError,
            e@ == runtime_message(err@, tk.lexeme@, tk.line as nat),
    {
        RuntimeError::InterpreterError(InterpreterError::new(tk, err))
    }
}

/// Whether a value counts as true: every value does but `nil` and `false`.
pub open spec fn truthy(v: LiteralV) -> bool {
    match v {
        LiteralV::Nil => false,
        LiteralV::Boolean(b) => b,
        _ => true,
    }
}

/// Whether two values are equal: values of different kinds never are.
pub open spec fn equal(a: LiteralV, b: LiteralV) -> bool {
    match (a, b) {
        (LiteralV::Number(x), LiteralV::Number(y)) => number::equal(x.bits, y.bits),
        (LiteralV::Boolean(x), LiteralV::Boolean(y)) => x == y,
        (LiteralV::String(x), LiteralV::String(y)) => x == y,
        (LiteralV::Nil, LiteralV::Nil) => true,
        (LiteralV::Function(x), LiteralV::Function(y)) => x == y,
        _ => false,
    }
}

/// Equality does not depend on the order of its operands.
pub proof fn lemma_equal_symmetric(a: LiteralV, b: LiteralV)
    ensures
        equal(a, b) == equal(b, a),
{
}

pub fn is_equal(f: &Literal, s: &Literal) -> (r: bool)
    ensures
        r == equal(f@, s@),
{
    match f {
        Literal::Number(f) => if let Literal::Number(s) = s {
            f.equals(s)
        } else {
            false
        },
        Literal::Boolean(f) => if let Literal::Boolean(s) = s {
            *f == *s
        } else {
            false
        },
        Literal::String(f) => if let Literal::String(s) = s {
            *f == *s
        } else {
            false
        },
        Literal::Nil => if let Literal::Nil = s {
            true
        } else {
            false
        },
        Literal::Function(f) => if let Literal::Function(s) = s {
            *f == *s
        } else {
            false
        },
    }
}

pub fn is_truthy(ltl: &Literal) -> (r: bool)
    ensures
        r == truthy(ltl@),
{
    match ltl {
        Literal::Nil => false,
        Literal::Boolean(x) => *x,
        _ => true,
    }
}

/// The number that `ltl` is; any other value fails the operation at `tk`.
pub fn unpack_number(ltl: Literal, tk: &Token) -> (r: Result<Number, RuntimeError>)
    ensures
        match r {
            Ok(n) => ltl == Literal::Number(n),
            Err(e) => !(ltl is Number) && e is InterpreterError && e@ == runtime_message(
                "Expected number"@,
                tk.lexeme@,
                tk.line as nat,
            ),
        },
{
    match ltl {
        Literal::Number(x) => Ok(x),
        _ => Err(RuntimeError::at(tk, "Expected number")),
    }
}

/// The string that `ltl` is; any other value fails the operation at `tk`.
pub fn unpack_string(ltl: Literal, tk: &Token) -> (r: Result<String, RuntimeError>)
    ensures
        match r {
            Ok(s) => ltl == Literal::String(s),
            Err(e) => !(ltl is String) && e is InterpreterError && e@ == runtime_message(
                "Expected String"@,
                tk.lexeme@,
                tk.line as nat,
            ),
        },
{
    match ltl {
        Literal::String(x) => Ok(x),
        _ => Err(RuntimeError::at(tk, "Expected String")),
    }
}

/// The text that stands for a string or a number when it is joined to
/// another; no other value has one.
pub open spec fn joinable(v: LiteralV) -> Option<Seq<char>> {
    match v {
        LiteralV::String(s) => Some(s),
        LiteralV::Number(n) => Some(n.text),
        _ => None,
    }
}

/// The text of `ltl`, a string or a number; any other value fails the
/// operation at `tk`.
pub fn unpack_into_string(ltl: Literal, tk: &Token) -> (r: Result<String, RuntimeError>)
    ensures
        match r {
            Ok(s) => joinable(ltl@) == Some(s@),
            Err(e) => joinable(ltl@) is None && e is InterpreterError && e@ == runtime_message(
                "Expected value that can be a String"@,
                tk.lexeme@,
                tk.line as nat,
            ),
        },
{
    match ltl {
        Literal::String(x) => Ok(x),
        Literal::Number(x) => Ok(x.text),
        _ => Err(RuntimeError::at(tk, "Expected value that can be a String")),
    }
}

/// The truth value that `ltl` is; any other value fails the operation at `tk`.
pub fn unpack_bool(ltl: Literal, tk: &Token) -> (r: Result<bool, RuntimeError>)
    ensures
        match r {
            Ok(b) => ltl == Literal::Boolean(b),
            Err(e) => !(ltl is Boolean) && e is InterpreterError && e@ == runtime_message(
                "Expected boolean"@,
                tk.lexeme@,
                tk.line as nat,
            ),
        },
{
    match ltl {
        Literal::Boolean(x) => Ok(x),
        _ => Err(RuntimeError::at(tk, "Expected boolean")),
    }
}

/// The arithmetic that the library leaves to its caller.
#[derive(Clone, Copy, Debug, PartialEq, Eq, Structural)]
pub enum Operator {
    Add,
    Subtract,
    Multiply,
    Divide,
}

/// What an operator makes of its operands.
pub enum Applied {
    /// This value.
    Value(LiteralV),
    /// The number that the caller computes from these two.
    Ask(Operator, NumberV, NumberV),
    /// Nothing: the operation fails with this text.
    Error(Seq<char>),
}

/// Whether a token of type `t` is an operator on two numbers.
pub open spec fn numeric(t: TokenType) -> bool {
    t is Minus || t is Slash || t is Star || t is Greater || t is GreaterEqual || t is LessEqual
        || t is Less
}

/// What the operator `op` makes of two numbers.
pub open spec fn calculate(op: TokenType, l: NumberV, r: NumberV) -> Applied {
    match op {
        TokenType::Minus => Applied::Ask(Operator::Subtract, l, r),
        TokenType::Slash => if number::is_zero(r.bits) {
            Applied::Error("Division by zero"@)
        } else {
            Applied::Ask(Operator::Divide, l, r)
        },
        TokenType::Star => Applied::Ask(Operator::Multiply, l, r),
        TokenType::Greater => Applied::Value(LiteralV::Boolean(number::less(r.bits, l.bits))),
        TokenType::GreaterEqual => Applied::Value(
            LiteralV::Boolean(number::less_equal(r.bits, l.bits)),
        ),
        TokenType::Less => Applied::Value(LiteralV::Boolean(number::less(l.bits, r.bits))),
        _ => Applied::Value(LiteralV::Boolean(number::less_equal(l.bits, r.bits))),
    }
}

/// What `+` makes of its operands: the sum of two numbers, else the texts of
/// strings and numbers joined.
pub open spec fn plus(l: LiteralV, r: LiteralV) -> Applied {
    match (l, r) {
        (LiteralV::Number(a), LiteralV::Number(b)) => Applied::Ask(Operator::Add, a, b),
        _ => match (joinable(l), joinable(r)) {
            (Some(a), Some(b)) => Applied::Value(LiteralV::String(a + b)),
            _ => Applied::Error("Expected value that can be a String"@),
        },
    }
}

/// What the binary operator `op` makes of the values `l` and `r`.
pub open spec fn binary(op: TokenType, l: LiteralV, r: LiteralV) -> Applied {
    if numeric(op) {
        match (l, r) {
            (LiteralV::Number(a), LiteralV::Number(b)) => calculate(op, a, b),
            _ => Applied::Error("Expected number"@),
        }
    } else {
        match op {
            TokenType::Plus => plus(l, r),
            TokenType::EqualEqual => Applied::Value(LiteralV::Boolean(equal(l, r))),
            TokenType::BangEqual => Applied::Value(LiteralV::Boolean(!equal(l, r))),
            TokenType::Comma => Applied::Value(r),
            _ => Applied::Error("Unknown operator"@),
        }
    }
}

/// What an operation gave, before the machine takes it up.
pub enum Computed {
    Value(Literal),
    Ask(Operator, Number, Number),
}

impl Computed {
    pub open spec fn view(&self) -> Applied {
        match self {
            Computed::Value(v) => Applied::Value(v@),
            Computed::Ask(op, l, r) => Applied::Ask(*op, l@, r@),
        }
    }
}

/// Applies the binary operator `op` to the values `left` and `right`.
pub fn visit_binary(left: Literal, op: &Token, right: Literal) -> (r: Result<
    Computed,
    RuntimeError,
>)
    ensures
        match r {
            Ok(c) => binary(op.t_type, left@, right@) == c@,
            Err(e) => binary(op.t_type, left@, right@) is Error && e is InterpreterError && e@
                == runtime_message(
                binary(op.t_type, left@, right@)->Error_0,
                op.lexeme@,
                op.line as nat,
            ),
        },
{
    match op.get_type() {
        TokenType::Minus
        | TokenType::Slash
        | TokenType::Star
        | TokenType::Greater
        | TokenType::GreaterEqual
        | TokenType::LessEqual
        | TokenType::Less => {
            let left = match unpack_number(left, op) {
                Ok(n) => n,
                Err(e) => return Err(e),
            };
            let right = match unpack_number(right, op) {
                Ok(n) => n,
                Err(e) => return Err(e),
            };
            match op.get_type() {
                TokenType::Minus => Ok(Computed::Ask(Operator::Subtract, left, right)),
                TokenType::Slash => if right.is_zero() {
                    Err(RuntimeError::at(op, "Division by zero"))
                } else {
                    Ok(Computed::Ask(Operator::Divide, left, right))
                },
                TokenType::Star => Ok(Computed::Ask(Operator::Multiply, left, right)),
                TokenType::Greater => Ok(Computed::Value(Literal::Boolean(right.less(&left)))),
                TokenType::GreaterEqual => Ok(
                    Computed::Value(Literal::Boolean(right.less_equal(&left))),
                ),
                TokenType::Less => Ok(Computed::Value(Literal::Boolean(left.less(&right)))),
                _ => Ok(Computed::Value(Literal::Boolean(left.less_equal(&right)))),
            }
        },
        TokenType::Plus => {
            match (left, right) {
                (Literal::Number(nl), Literal::Number(nr)) => Ok(
                    Computed::Ask(Operator::Add, nl, nr),
                ),
                (left, right) => {
                    let mut sl = match unpack_into_string(left, op) {
                        Ok(s) => s,
                        Err(e) => return Err(e),
                    };
                    let sr = match unpack_into_string(right, op) {
                        Ok(s) => s,
                        Err(e) => return Err(e),
                    };
                    sl.append(sr.as_str());
                    Ok(Computed::Value(Literal::String(sl)))
                },
            }
        },
        TokenType::EqualEqual => Ok(Computed::Value(Literal::Boolean(is_equal(&left, &right)))),
        TokenType::BangEqual => Ok(Computed::Value(Literal::Boolean(!is_equal(&left, &right)))),
        TokenType::Comma => Ok(Computed::Value(right)),
        _ => Err(RuntimeError::at(op, "Unknown operator")),
    }
}

/// What the prefix operator `op` makes of the value `v`; a number to negate
/// is left to the caller.
pub open spec fn unary(op: TokenType, v: LiteralV) -> Option<Result<LiteralV, Seq<char>>> {
    match op {
        TokenType::Minus => match v {
            LiteralV::Number(_) => None,
            _ => Some(Err("Expected number"@)),
        },
        TokenType::Bang => Some(Ok(LiteralV::Boolean(!truthy(v)))),
        _ => Some(Err("Unknown operator"@)),
    }
}

/// What is left to do of a program. The evaluator keeps these on a stack,
/// the one to do next on top.
pub enum Task<'a> {
    /// Run the statements of the list from this place on.
    Statements(&'a Vec<Stmt>, usize),
    /// Run the statement.
    Execute(&'a Stmt),
    /// Evaluate the expression and put its value on the values.
    Evaluate(&'a Expr),
    /// Print the top value.
    Print,
    /// Drop the top value.
    Discard,
    /// Declare the variable with the top value.
    Define(&'a Token),
    /// Leave the scope of a block.
    EndBlock,
    /// Run the first statement if the top value is true, else the second.
    Branch(&'a Stmt, &'a Option<Stmt>),
    /// Test the condition of the loop once more. A `break` in the body comes
    /// back to here, and leaves as many values as the loop began with.
    Loop(&'a Expr, &'a Stmt, usize),
    /// Run the body and come back to the loop if the top value is true.
    Test(&'a Expr, &'a Stmt, usize),
    /// Apply the prefix operator to the top value.
    Unary(&'a Token),
    /// Apply the binary operator to the two top values.
    Binary(&'a Token),
    /// Keep the top value or evaluate the right operand, as the operator says.
    Logical(&'a Token, &'a Expr),
    /// Evaluate the first expression if the top value is true, else the second.
    Choose(&'a Expr, &'a Expr),
    /// Assign the top value to the variable.
    Assign(&'a Token),
    /// Call the top value with the arguments, once they are evaluated.
    Callee(&'a Token, &'a Vec<Expr>),
    /// Evaluate the arguments from this place on, then call the function at
    /// the last place.
    Arguments(&'a Token, &'a Vec<Expr>, usize, usize),
    /// Leave the scope of a function and put its result on the values.
    Return,
}

/// What the evaluator asks of its caller when it returns from a step.
pub enum Action {
    /// Nothing: take the next step.
    Continue,
    /// Show this line of output.
    Print(String),
    /// Apply the operator to the two numbers and hand the result to the next step.
    Arithmetic(Operator, Number, Number),
    /// Negate the number and hand the result to the next step.
    Negate(Number),
    /// Nothing: the program has run to its end.
    Done,
    /// Report the error: the program has failed.
    Failed(RuntimeError),
}

/// An `Action` as the contracts see it.
pub enum ActionV {
    Continue,
    Print(Seq<char>),
    Arithmetic(Operator, NumberV, NumberV),
    Negate(NumberV),
    Done,
    /// The program failed with an error of this text.
    Failed(Seq<char>),
    /// A `break` ran that no loop encloses.
    Stray,
}

impl Action {
    pub open spec fn view(&self) -> ActionV {
        match self {
            Action::Continue => ActionV::Continue,
            Action::Print(s) => ActionV::Print(s@),
            Action::Arithmetic(op, l, r) => ActionV::Arithmetic(*op, l@, r@),
            Action::Negate(n) => ActionV::Negate(n@),
            Action::Done => ActionV::Done,
            Action::Failed(RuntimeError::BreakSentinel) => ActionV::Stray,
            Action::Failed(RuntimeError::InterpreterError(e)) => ActionV::Failed(e@),
        }
    }
}

/// The evaluator as the contracts see it.
pub struct StateV<'a> {
    /// The scopes, the global scope first.
    pub scopes: Seq<ScopeV>,
    /// What is left to do, the next task last.
    pub tasks: Seq<Task<'a>>,
    /// The values of the expressions under evaluation, the newest last.
    pub values: Seq<LiteralV>,
    /// Whether the caller owes the evaluator a number.
    pub waiting: bool,
}

/// The evaluator after a step, and what the step asks of the caller.
pub struct Outcome<'a> {
    pub state: StateV<'a>,
    pub action: ActionV,
}

/// The top value; `nil` when there is none.
pub open spec fn top(values: Seq<LiteralV>) -> LiteralV {
    if values.len() > 0 {
        values.last()
    } else {
        LiteralV::Nil
    }
}

/// The values without the top one.
pub open spec fn below(values: Seq<LiteralV>) -> Seq<LiteralV> {
    if values.len() > 0 {
        values.drop_last()
    } else {
        values
    }
}

/// The scopes without the current one; the global scope is never left.
pub open spec fn leave(scopes: Seq<ScopeV>) -> Seq<ScopeV> {
    if scopes.len() > 1 {
        scopes.drop_last()
    } else {
        scopes
    }
}

/// The step leaves the evaluator as `s` and asks nothing of the caller.
pub open spec fn go<'a>(s: StateV<'a>) -> Outcome<'a> {
    Outcome { state: s, action: ActionV::Continue }
}

/// The evaluator after the program has ended: nothing is left to do, and no
/// scope is open but the global one.
pub open spec fn ended<'a>(s: StateV<'a>) -> StateV<'a> {
    StateV {
        scopes: s.scopes.take(1),
        tasks: Seq::empty(),
        values: Seq::empty(),
        waiting: false,
    }
}

/// The program fails with the error `err`, found at `tk`.
pub open spec fn failure<'a>(s: StateV<'a>, err: Seq<char>, tk: Token) -> Outcome<'a> {
    Outcome {
        state: ended(s),
        action: ActionV::Failed(runtime_message(err, tk.lexeme@, tk.line as nat)),
    }
}

/// The program fails with an error of the text `msg`.
pub open spec fn fails<'a>(s: StateV<'a>, msg: Seq<char>) -> Outcome<'a> {
    Outcome { state: ended(s), action: ActionV::Failed(msg) }
}

/// The evaluator with `task` to do next.
pub open spec fn plan<'a>(s: StateV<'a>, task: Task<'a>) -> StateV<'a> {
    StateV { tasks: s.tasks.push(task), ..s }
}

/// The evaluator with `v` as the top value.
pub open spec fn give<'a>(s: StateV<'a>, v: LiteralV) -> StateV<'a> {
    StateV { values: s.values.push(v), ..s }
}

/// The evaluator without its top value.
pub open spec fn shed<'a>(s: StateV<'a>) -> StateV<'a> {
    StateV { values: below(s.values), ..s }
}

/// A `break`: what is left to do is given up, and the scopes that it would
/// have left are left, down to the loop that encloses the `break`, which
/// then ends. Where no loop does, the program ends with all given up.
pub open spec fn unwind<'a>(s: StateV<'a>) -> Outcome<'a>
    decreases s.tasks.len(),
{
    if s.tasks.len() == 0 {
        Outcome { state: ended(s), action: ActionV::Stray }
    } else {
        let rest = StateV { tasks: s.tasks.drop_last(), ..s };
        match s.tasks.last() {
            Task::Loop(_, _, height) => go(
                StateV {
                    values: if height <= s.values.len() {
                        s.values.take(height as int)
                    } else {
                        s.values
                    },
                    ..rest
                },
            ),
            Task::EndBlock | Task::Return => unwind(StateV { scopes: leave(s.scopes), ..rest }),
            _ => unwind(rest),
        }
    }
}

/// The step that begins the statement `stmt`.
pub open spec fn execute<'a>(s: StateV<'a>, stmt: &'a Stmt) -> Outcome<'a> {
    match stmt {
        Stmt::Print(e) => go(plan(plan(s, Task::Print), Task::Evaluate(e))),
        Stmt::Expr(e) => go(plan(plan(s, Task::Discard), Task::Evaluate(e))),
        Stmt::Var(name, Some(init)) => go(plan(plan(s, Task::Define(name)), Task::Evaluate(init))),
        Stmt::Var(name, None) => go(
            StateV { scopes: bind(s.scopes, s.scopes.len() - 1, name.lexeme@, None), ..s },
        ),
        Stmt::Block(list) => go(
            plan(
                plan(
                    StateV {
                        scopes: s.scopes.push(
                            ScopeV { vars: Map::empty(), outer: (s.scopes.len() - 1) as usize },
                        ),
                        ..s
                    },
                    Task::EndBlock,
                ),
                Task::Statements(list, 0),
            ),
        ),
        Stmt::If(c, t, e) => go(plan(plan(s, Task::Branch(&**t, &**e)), Task::Evaluate(&**c))),
        Stmt::While(c, b) => go(plan(s, Task::Loop(&**c, &**b, s.values.len() as usize))),
        Stmt::Break(_) => unwind(s),
    }
}

/// The step that begins the evaluation of `expr`.
pub open spec fn evaluate<'a>(s: StateV<'a>, expr: &'a Expr) -> Outcome<'a> {
    match expr {
        Expr::Literal(l) => go(give(s, l@)),
        Expr::Grouping(e) => go(plan(s, Task::Evaluate(&**e))),
        Expr::Var(name) => match lookup(s.scopes, name.lexeme@, name.line as nat) {
            Ok(v) => go(give(s, v)),
            Err(msg) => fails(s, msg),
        },
        Expr::Unary(op, e) => go(plan(plan(s, Task::Unary(op)), Task::Evaluate(&**e))),
        Expr::Binary(l, op, r) => go(
            plan(plan(plan(s, Task::Binary(op)), Task::Evaluate(&**r)), Task::Evaluate(&**l)),
        ),
        Expr::Logical(l, op, r) => go(plan(plan(s, Task::Logical(op, &**r)), Task::Evaluate(&**l))),
        Expr::Ternary(_, c, t, e) => go(
            plan(plan(s, Task::Choose(&**t, &**e)), Task::Evaluate(&**c)),
        ),
        Expr::Assignment(name, e) => go(plan(plan(s, Task::Assign(name)), Task::Evaluate(&**e))),
        Expr::Call(c, paren, args) => go(
            plan(plan(s, Task::Callee(paren, args)), Task::Evaluate(&**c)),
        ),
    }
}

/// What is said of a call with `actual` arguments of a function that takes `expected`.
pub open spec fn arity_message(expected: nat, actual: nat) -> Seq<char> {
    "Expected "@ + decimal(expected) + " arguments but got "@ + decimal(actual)
}

/// The scopes after the parameters from `from` on were declared in the
/// current scope, each with the argument at its place.
pub open spec fn bound(scopes: Seq<ScopeV>, params: Seq<String>, args: Seq<LiteralV>, from: nat)
    -> Seq<ScopeV>
    decreases params.len() - from,
{
    if from >= params.len() || from >= args.len() {
        scopes
    } else {
        bound(
            bind(scopes, scopes.len() - 1, params[from as int]@, Some(args[from as int])),
            params,
            args,
            from + 1,
        )
    }
}

/// The step that calls the function at `f` with the top values as arguments:
/// as many as `args` holds, which must be as many as the function takes. Its
/// body runs in a scope of its own inside the global scope.
pub open spec fn invoke<'a>(
    s: StateV<'a>,
    functions: &'a Vec<StaticFunction>,
    paren: &'a Token,
    args: &'a Vec<Expr>,
    f: usize,
) -> Outcome<'a> {
    if f >= functions@.len() {
        failure(s, not_callable(), *paren)
    } else if args@.len() != functions@[f as int].params@.len() || s.values.len() < args@.len() {
        failure(
            s,
            arity_message(functions@[f as int].params@.len(), args@.len()),
            *paren,
        )
    } else {
        let kept = s.values.len() - args@.len();
        go(
            plan(
                plan(
                    StateV {
                        scopes: bound(
                            s.scopes.push(ScopeV { vars: Map::empty(), outer: 0 }),
                            functions@[f as int].params@,
                            s.values.subrange(kept, s.values.len() as int),
                            0,
                        ),
                        values: s.values.take(kept),
                        ..s
                    },
                    Task::Return,
                ),
                Task::Statements(&functions[f as int].body, 0),
            ),
        )
    }
}

/// The step that does `task`, which was taken from the tasks of `s`.
pub open spec fn perform<'a>(s: StateV<'a>, functions: &'a Vec<StaticFunction>, task: Task<'a>)
    -> Outcome<'a> {
    match task {
        Task::Statements(list, i) => if i < list@.len() {
            go(plan(plan(s, Task::Statements(list, (i + 1) as usize)), Task::Execute(&list[i as int])))
        } else {
            go(s)
        },
        Task::Execute(stmt) => execute(s, stmt),
        Task::Evaluate(expr) => evaluate(s, expr),
        Task::Print => Outcome { state: shed(s), action: ActionV::Print(display(top(s.values))) },
        Task::Discard => go(shed(s)),
        Task::Define(name) => go(
            StateV {
                scopes: bind(s.scopes, s.scopes.len() - 1, name.lexeme@, Some(top(s.values))),
                ..shed(s)
            },
        ),
        Task::EndBlock => go(StateV { scopes: leave(s.scopes), ..s }),
        Task::Branch(then, otherwise) => if truthy(top(s.values)) {
            go(plan(shed(s), Task::Execute(then)))
        } else {
            match otherwise {
                Some(other) => go(plan(shed(s), Task::Execute(other))),
                None => go(shed(s)),
            }
        },
        Task::Loop(cond, body, height) => go(
            plan(plan(s, Task::Test(cond, body, height)), Task::Evaluate(cond)),
        ),
        Task::Test(cond, body, height) => if truthy(top(s.values)) {
            go(plan(plan(shed(s), Task::Loop(cond, body, height)), Task::Execute(body)))
        } else {
            go(shed(s))
        },
        Task::Unary(op) => match unary(op.t_type, top(s.values)) {
            None => Outcome {
                state: StateV { waiting: true, ..shed(s) },
                action: ActionV::Negate(top(s.values)->Number_0),
            },
            Some(Ok(v)) => go(give(shed(s), v)),
            Some(Err(err)) => failure(s, err, *op),
        },
        Task::Binary(op) => match binary(op.t_type, top(below(s.values)), top(s.values)) {
            Applied::Value(v) => go(give(shed(shed(s)), v)),
            Applied::Ask(o, l, r) => Outcome {
                state: StateV { waiting: true, ..shed(shed(s)) },
                action: ActionV::Arithmetic(o, l, r),
            },
            Applied::Error(err) => failure(s, err, *op),
        },
        Task::Logical(op, right) => if (op.t_type is Or) == truthy(top(s.values)) {
            go(give(shed(s), top(s.values)))
        } else {
            go(plan(shed(s), Task::Evaluate(right)))
        },
        Task::Choose(then, otherwise) => if truthy(top(s.values)) {
            go(plan(shed(s), Task::Evaluate(then)))
        } else {
            go(plan(shed(s), Task::Evaluate(otherwise)))
        },
        Task::Assign(name) => match resolve(s.scopes, s.scopes.len() - 1, name.lexeme@) {
            Some(i) => go(
                StateV {
                    scopes: bind(s.scopes, i, name.lexeme@, Some(top(s.values))),
                    ..give(shed(s), top(s.values))
                },
            ),
            None => failure(s, " Undefined variable"@, *name),
        },
        Task::Callee(paren, args) => match callee(top(s.values), functions@.len()) {
            Some(f) => go(plan(shed(s), Task::Arguments(paren, args, 0, f))),
            None => failure(s, not_callable(), *paren),
        },
        Task::Arguments(paren, args, i, f) => if i < args@.len() {
            go(
                plan(
                    plan(s, Task::Arguments(paren, args, (i + 1) as usize, f)),
                    Task::Evaluate(&args[i as int]),
                ),
            )
        } else {
            invoke(s, functions, paren, args, f)
        },
        Task::Return => go(give(StateV { scopes: leave(s.scopes), ..s }, LiteralV::Nil)),
    }
}

/// One step of the evaluator. While the caller owes it a number it waits for
/// `answer`, which becomes the top value; else it does the next task, and has
/// run to its end when none is left.
pub open spec fn step<'a>(
    s: StateV<'a>,
    functions: &'a Vec<StaticFunction>,
    answer: Option<NumberV>,
) -> Outcome<'a> {
    if s.waiting {
        match answer {
            Some(n) => go(StateV { waiting: false, ..give(s, LiteralV::Number(n)) }),
            None => go(s),
        }
    } else if s.tasks.len() == 0 {
        Outcome { state: s, action: ActionV::Done }
    } else {
        perform(StateV { tasks: s.tasks.drop_last(), ..s }, functions, s.tasks.last())
    }
}

/// The views of a sequence of values.
pub open spec fn views(values: Seq<Literal>) -> Seq<LiteralV> {
    Seq::new(values.len(), |i: int| values[i]@)
}

/// The scopes after the functions from `from` on were declared in the
/// current scope, each under its name.
pub open spec fn declared(scopes: Seq<ScopeV>, functions: Seq<StaticFunction>, from: nat) -> Seq<
    ScopeV,
>
    decreases functions.len() - from,
{
    if from >= functions.len() {
        scopes
    } else {
        declared(
            bind(
                scopes,
                scopes.len() - 1,
                functions[from as int].name@,
                Some(LiteralV::Function(from as usize)),
            ),
            functions,
            from + 1,
        )
    }
}

/// The evaluator before the first step of `program`: the functions are
/// declared in the global scope, and the statements are still to run.
pub open spec fn initial<'a>(program: &'a Vec<Stmt>, functions: &'a Vec<StaticFunction>) -> StateV<
    'a,
> {
    StateV {
        scopes: declared(seq![ScopeV { vars: Map::empty(), outer: 0 }], functions@, 0),
        tasks: seq![Task::Statements(program, 0)],
        values: Seq::empty(),
        waiting: false,
    }
}

/// Runs a program step by step. It leaves to its caller what it cannot do
/// itself, which each step says in the `Action` that it returns: to show
/// output, and to compute with numbers.
pub struct Interpreter<'a> {
    env: Stack,
    functions: &'a Vec<StaticFunction>,
    tasks: Vec<Task<'a>>,
    values: Vec<Literal>,
    waiting: bool,
}

impl<'a> Interpreter<'a> {
    pub closed spec fn view(&self) -> StateV<'a> {
        StateV {
            scopes: self.env@,
            tasks: self.tasks@,
            values: views(self.values@),
            waiting: self.waiting,
        }
    }

    /// The functions that the program can call.
    pub closed spec fn functions(&self) -> &'a Vec<StaticFunction> {
        self.functions
    }

    /// The evaluator's invariant: its scopes are well formed, and it has the
    /// values and the scopes that its tasks need.
    pub closed spec fn wf(&self) -> bool {
        self.env.wf() && sound(self@, self.functions@.len())
    }

    /// An evaluator for `program`, which can call the functions of `functions`.
    pub fn new(program: &'a Vec<Stmt>, functions: &'a Vec<StaticFunction>) -> (i: Interpreter<'a>)
        ensures
            i.wf(),
            i.functions() == functions,
            i@ == initial(program, functions),
    {
        let mut env = Stack::new();
        let mut f: usize = 0;
        while f < functions.len()
            invariant
                env.wf(),
                f <= functions@.len(),
                declared(env@, functions@, f as nat) == declared(
                    seq![ScopeV { vars: Map::empty(), outer: 0 }],
                    functions@,
                    0,
                ),
            decreases functions@.len() - f,
        {
            env.define(functions[f].name.clone(), Some(Literal::Function(f)));
            f += 1;
        }
        let mut tasks: Vec<Task<'a>> = Vec::new();
        tasks.push(Task::Statements(program, 0));
        let i = Interpreter { env, functions, tasks, values: Vec::new(), waiting: false };
        assert(i@.values =~= Seq::empty());
        assert(i@.tasks =~= seq![Task::Statements(program, 0)]);
        proof {
            lemma_initial_sound(program, functions);
        }
        i
    }

    /// Whether the program has run to its end.
    pub fn is_done(&self) -> (r: bool)
        ensures
            r == (!self@.waiting && self@.tasks.len() == 0),
    {
        !self.waiting && self.tasks.len() == 0
    }

    /// Takes the top value.
    fn take(&mut self) -> (v: Literal)
        ensures
            v@ == top(old(self)@.values),
            final(self)@ == shed(old(self)@),
            final(self).env == old(self).env,
            final(self).functions == old(self).functions,
    {
        match self.values.pop() {
            Some(v) => {
                assert(views(self.values@) =~= views(old(self).values@).drop_last());
                v
            },
            None => Literal::Nil,
        }
    }

    /// Puts `v` on the values.
    fn give(&mut self, v: Literal)
        ensures
            final(self)@ == give(old(self)@, v@),
            final(self).env == old(self).env,
            final(self).functions == old(self).functions,
    {
        self.values.push(v);
        assert(views(self.values@) =~= views(old(self).values@).push(v@));
    }

    /// Puts `task` on the tasks.
    fn plan(&mut self, task: Task<'a>)
        ensures
            final(self)@ == plan(old(self)@, task),
            final(self).env == old(self).env,
            final(self).functions == old(self).functions,
    {
        self.tasks.push(task);
    }

    /// Ends the program with the error `e`.
    fn fail(&mut self, e: RuntimeError) -> (action: Action)
        requires
            old(self).env.wf(),
        ensures
            final(self).env.wf(),
            final(self)@ == ended(old(self)@),
            final(self).functions == old(self).functions,
            action == Action::Failed(e),
    {
        self.env.reset();
        self.tasks.clear();
        self.values.clear();
        self.waiting = false;
        assert(views(self.values@) =~= Seq::empty());
        Action::Failed(e)
    }

    /// Ends the loop that encloses a `break`.
    fn visit_break(&mut self) -> (action: Action)
        requires
            old(self).env.wf(),
        ensures
            final(self).env.wf(),
            final(self).functions == old(self).functions,
            (Outcome { state: final(self)@, action: action@ }) == unwind(old(self)@),
    {
        while self.tasks.len() > 0
            invariant
                self.env.wf(),
                self.functions == old(self).functions,
                unwind(self@) == unwind(old(self)@),
            decreases self.tasks@.len(),
        {
            let ghost before = self@;
            match self.tasks.pop() {
                Some(Task::Loop(_, _, height)) => {
                    if height <= self.values.len() {
                        self.values.truncate(height);
                        assert(views(self.values@) =~= before.values.take(height as int));
                    }
                    return Action::Continue;
                },
                Some(Task::EndBlock) | Some(Task::Return) => {
                    if self.env.depth() > 1 {
                        self.env.restore_old();
                    }
                },
                _ => {},
            }
        }
        self.fail(RuntimeError::BreakSentinel)
    }

    /// Begins the statement `stmt`.
    fn execute(&mut self, stmt: &'a Stmt) -> (action: Action)
        requires
            old(self).env.wf(),
        ensures
            final(self).env.wf(),
            final(self).functions == old(self).functions,
            (Outcome { state: final(self)@, action: action@ }) == execute(old(self)@, stmt),
    {
        match stmt {
            Stmt::Print(e) => {
                self.plan(Task::Print);
                self.plan(Task::Evaluate(e));
                Action::Continue
            },
            Stmt::Expr(e) => {
                self.plan(Task::Discard);
                self.plan(Task::Evaluate(e));
                Action::Continue
            },
            Stmt::Var(name, Some(init)) => {
                self.plan(Task::Define(name));
                self.plan(Task::Evaluate(init));
                Action::Continue
            },
            Stmt::Var(name, None) => {
                self.env.define(name.lexeme.clone(), None);
                Action::Continue
            },
            Stmt::Block(list) => {
                self.env.push_new();
                self.plan(Task::EndBlock);
                self.plan(Task::Statements(list, 0));
                Action::Continue
            },
            Stmt::If(c, t, e) => {
                self.plan(Task::Branch(&**t, &**e));
                self.plan(Task::Evaluate(&**c));
                Action::Continue
            },
            Stmt::While(c, b) => {
                let height = self.values.len();
                self.plan(Task::Loop(&**c, &**b, height));
                Action::Continue
            },
            Stmt::Break(_) => self.visit_break(),
        }
    }

    /// Begins the evaluation of `expr`.
    fn evaluate(&mut self, expr: &'a Expr) -> (action: Action)
        requires
            old(self).env.wf(),
        ensures
            final(self).env.wf(),
            final(self).functions == old(self).functions,
            (Outcome { state: final(self)@, action: action@ }) == evaluate(old(self)@, expr),
    {
        match expr {
            Expr::Literal(l) => {
                self.give(l.clone());
                Action::Continue
            },
            Expr::Grouping(e) => {
                self.plan(Task::Evaluate(&**e));
                Action::Continue
            },
            Expr::Var(name) => match self.env.get(name) {
                Ok(v) => {
                    self.give(v);
                    Action::Continue
                },
                Err(e) => self.fail(e),
            },
            Expr::Unary(op, e) => {
                self.plan(Task::Unary(op));
                self.plan(Task::Evaluate(&**e));
                Action::Continue
            },
            Expr::Binary(l, op, r) => {
                self.plan(Task::Binary(op));
                self.plan(Task::Evaluate(&**r));
                self.plan(Task::Evaluate(&**l));
                Action::Continue
            },
            Expr::Logical(l, op, r) => {
                self.plan(Task::Logical(op, &**r));
                self.plan(Task::Evaluate(&**l));
                Action::Continue
            },
            Expr::Ternary(_, c, t, e) => {
                self.plan(Task::Choose(&**t, &**e));
                self.plan(Task::Evaluate(&**c));
                Action::Continue
            },
            Expr::Assignment(name, e) => {
                self.plan(Task::Assign(name));
                self.plan(Task::Evaluate(&**e));
                Action::Continue
            },
            Expr::Call(c, paren, args) => {
                self.plan(Task::Callee(paren, args));
                self.plan(Task::Evaluate(&**c));
                Action::Continue
            },
        }
    }

    /// Runs the statement of `stmts` at `from`, and plans those after it.
    fn visit_block_stmt(&mut self, stmts: &'a Vec<Stmt>, from: usize) -> (action: Action)
        requires
            old(self).env.wf(),
        ensures
            final(self).env.wf(),
            final(self).functions == old(self).functions,
            (Outcome { state: final(self)@, action: action@ }) == perform(
                old(self)@,
                old(self).functions,
                Task::Statements(stmts, from),
            ),
    {
        if from < stmts.len() {
            self.plan(Task::Statements(stmts, from + 1));
            self.plan(Task::Execute(&stmts[from]));
        }
        Action::Continue
    }

    /// Prints the value of the expression of a `print`.
    fn visit_print(&mut self) -> (action: Action)
        requires
            old(self).env.wf(),
        ensures
            final(self).env.wf(),
            final(self).functions == old(self).functions,
            (Outcome { state: final(self)@, action: action@ }) == perform(
                old(self)@,
                old(self).functions,
                Task::Print,
            ),
    {
        let val = self.take();
        Action::Print(val.to_string())
    }

    /// Drops the value of the expression of an expression statement.
    fn visit_expr_statement(&mut self) -> (action: Action)
        requires
            old(self).env.wf(),
        ensures
            final(self).env.wf(),
            final(self).functions == old(self).functions,
            (Outcome { state: final(self)@, action: action@ }) == perform(
                old(self)@,
                old(self).functions,
                Task::Discard,
            ),
    {
        let _ = self.take();
        Action::Continue
    }

    /// Declares the variable `name` with the value of its initializer.
    fn visit_variable(&mut self, name: &'a Token) -> (action: Action)
        requires
            old(self).env.wf(),
        ensures
            final(self).env.wf(),
            final(self).functions == old(self).functions,
            (Outcome { state: final(self)@, action: action@ }) == perform(
                old(self)@,
                old(self).functions,
                Task::Define(name),
            ),
    {
        let value = self.take();
        self.env.define(name.lexeme.clone(), Some(value));
        Action::Continue
    }

    /// Leaves the scope of a block or of a function.
    fn leave(&mut self)
        requires
            old(self).env.wf(),
        ensures
            final(self).env.wf(),
            final(self).functions == old(self).functions,
            final(self)@ == (StateV { scopes: leave(old(self)@.scopes), ..old(self)@ }),
    {
        if self.env.depth() > 1 {
            self.env.restore_old();
        }
    }

    /// Runs the branch of an `if` that the value of its condition selects.
    fn visit_if(&mut self, then: &'a Stmt, otherwise: &'a Option<Stmt>) -> (action: Action)
        requires
            old(self).env.wf(),
        ensures
            final(self).env.wf(),
            final(self).functions == old(self).functions,
            (Outcome { state: final(self)@, action: action@ }) == perform(
                old(self)@,
                old(self).functions,
                Task::Branch(then, otherwise),
            ),
    {
        let cond = self.take();
        if is_truthy(&cond) {
            self.plan(Task::Execute(then));
        } else {
            if let Some(other) = otherwise {
                self.plan(Task::Execute(other));
            }
        }
        Action::Continue
    }

    /// Runs the body of a `while` once more if the value of its condition is true.
    fn visit_while(&mut self, cond: &'a Expr, then: &'a Stmt, height: usize) -> (action: Action)
        requires
            old(self).env.wf(),
        ensures
            final(self).env.wf(),
            final(self).functions == old(self).functions,
            (Outcome { state: final(self)@, action: action@ }) == perform(
                old(self)@,
                old(self).functions,
                Task::Test(cond, then, height),
            ),
    {
        let test = self.take();
        if is_truthy(&test) {
            self.plan(Task::Loop(cond, then, height));
            self.plan(Task::Execute(then));
        }
        Action::Continue
    }

    /// Applies the prefix operator `op` to the value of its operand.
    fn visit_unary(&mut self, op: &'a Token) -> (action: Action)
        requires
            old(self).env.wf(),
        ensures
            final(self).env.wf(),
            final(self).functions == old(self).functions,
            (Outcome { state: final(self)@, action: action@ }) == perform(
                old(self)@,
                old(self).functions,
                Task::Unary(op),
            ),
    {
        let ghost before = self@;
        let right = self.take();
        match op.get_type() {
            TokenType::Minus => match unpack_number(right, op) {
                Ok(x) => {
                    self.waiting = true;
                    Action::Negate(x)
                },
                Err(e) => {
                    let action = self.fail(e);
                    assert(ended(shed(before)) == ended(before));
                    action
                },
            },
            TokenType::Bang => {
                self.give(Literal::Boolean(!is_truthy(&right)));
                Action::Continue
            },
            _ => {
                let action = self.fail(RuntimeError::at(op, "Unknown operator"));
                assert(ended(shed(before)) == ended(before));
                action
            },
        }
    }

    /// Applies the binary operator `op` to the values of its operands.
    fn apply(&mut self, op: &'a Token) -> (action: Action)
        requires
            old(self).env.wf(),
        ensures
            final(self).env.wf(),
            final(self).functions == old(self).functions,
            (Outcome { state: final(self)@, action: action@ }) == perform(
                old(self)@,
                old(self).functions,
                Task::Binary(op),
            ),
    {
        let ghost before = self@;
        let right = self.take();
        let left = self.take();
        match visit_binary(left, op, right) {
            Ok(Computed::Value(v)) => {
                self.give(v);
                Action::Continue
            },
            Ok(Computed::Ask(o, l, r)) => {
                self.waiting = true;
                Action::Arithmetic(o, l, r)
            },
            Err(e) => {
                let action = self.fail(e);
                assert(ended(shed(shed(before))) == ended(before));
                action
            },
        }
    }

    /// Keeps the value of the left operand of `and` or `or`, or evaluates the
    /// right operand in its place.
    fn visit_logical(&mut self, op: &'a Token, right: &'a Expr) -> (action: Action)
        requires
            old(self).env.wf(),
        ensures
            final(self).env.wf(),
            final(self).functions == old(self).functions,
            (Outcome { state: final(self)@, action: action@ }) == perform(
                old(self)@,
                old(self).functions,
                Task::Logical(op, right),
            ),
    {
        let ghost before = self@;
        let left = self.take();
        let keep = if let TokenType::Or = op.get_type() {
            is_truthy(&left)
        } else {
            !is_truthy(&left)
        };
        if keep {
            self.give(left);
        } else {
            self.plan(Task::Evaluate(right));
        }
        Action::Continue
    }

    /// Evaluates the branch of a conditional expression that the value of
    /// its condition selects.
    fn visit_ternary(&mut self, middle: &'a Expr, right: &'a Expr) -> (action: Action)
        requires
            old(self).env.wf(),
        ensures
            final(self).env.wf(),
            final(self).functions == old(self).functions,
            (Outcome { state: final(self)@, action: action@ }) == perform(
                old(self)@,
                old(self).functions,
                Task::Choose(middle, right),
            ),
    {
        let left = self.take();
        if is_truthy(&left) {
            self.plan(Task::Evaluate(middle));
        } else {
            self.plan(Task::Evaluate(right));
        }
        Action::Continue
    }

    /// Assigns the value of the right side to the variable `name`; the value
    /// stays, as that of the assignment.
    fn visit_assignment(&mut self, name: &'a Token) -> (action: Action)
        requires
            old(self).env.wf(),
        ensures
            final(self).env.wf(),
            final(self).functions == old(self).functions,
            (Outcome { state: final(self)@, action: action@ }) == perform(
                old(self)@,
                old(self).functions,
                Task::Assign(name),
            ),
    {
        let ghost before = self@;
        let value = self.take();
        match self.env.assign(name, value.clone()) {
            Ok(_) => {
                self.give(value);
                Action::Continue
            },
            Err(e) => {
                let action = self.fail(e);
                assert(ended(shed(before)) == ended(before));
                action
            },
        }
    }

    /// Takes the value of the callee of a call, which must be a function, and
    /// plans the evaluation of the arguments.
    fn visit_call(&mut self, tk: &'a Token, args: &'a Vec<Expr>) -> (action: Action)
        requires
            old(self).env.wf(),
        ensures
            final(self).env.wf(),
            final(self).functions == old(self).functions,
            (Outcome { state: final(self)@, action: action@ }) == perform(
                old(self)@,
                old(self).functions,
                Task::Callee(tk, args),
            ),
    {
        let ghost before = self@;
        let callee = self.take();
        match Callable::from(&callee, self.functions, tk) {
            Ok(Callable::Static(f)) => {
                self.plan(Task::Arguments(tk, args, 0, f));
                Action::Continue
            },
            Err(e) => {
                let action = self.fail(e);
                assert(ended(shed(before)) == ended(before));
                action
            },
        }
    }

    /// Evaluates the argument of a call at `next`, or, when none is left,
    /// calls the function at `f`.
    fn arguments(&mut self, tk: &'a Token, args: &'a Vec<Expr>, next: usize, f: usize) -> (action:
        Action)
        requires
            old(self).env.wf(),
        ensures
            final(self).env.wf(),
            final(self).functions == old(self).functions,
            (Outcome { state: final(self)@, action: action@ }) == perform(
                old(self)@,
                old(self).functions,
                Task::Arguments(tk, args, next, f),
            ),
    {
        if next < args.len() {
            self.plan(Task::Arguments(tk, args, next + 1, f));
            self.plan(Task::Evaluate(&args[next]));
            Action::Continue
        } else {
            self.call(tk, args, f)
        }
    }

    /// Calls the function at `f` with the top values as arguments.
    fn call(&mut self, tk: &'a Token, args: &'a Vec<Expr>, f: usize) -> (action: Action)
        requires
            old(self).env.wf(),
        ensures
            final(self).env.wf(),
            final(self).functions == old(self).functions,
            (Outcome { state: final(self)@, action: action@ }) == invoke(
                old(self)@,
                old(self).functions,
                tk,
                args,
                f,
            ),
    {
        let functions = self.functions;
        if f >= functions.len() {
            return self.fail(RuntimeError::at(tk, "Can only call functions"));
        }
        let function = &functions[f];
        let expected = Callable::Static(f).arity(functions);
        let actual = args.len();
        if actual != expected || self.values.len() < actual {
            let mut text = String::from_str("Expected ");
            text.append(decimal_string(expected).as_str());
            text.append(" arguments but got ");
            text.append(decimal_string(actual).as_str());
            return self.fail(RuntimeError::at(tk, text.as_str()));
        }
        let ghost before = self@;
        let kept = self.values.len() - actual;
        let given = self.values.split_off(kept);
        assert(views(self.values@) =~= before.values.take(kept as int));
        assert(views(given@) =~= before.values.subrange(kept as int, before.values.len() as int));
        proof {
            self.env.lemma_has_global();
        }
        self.env.push_inside(0);
        let ghost entered = self@;
        let mut i: usize = 0;
        while i < expected
            invariant
                self.env.wf(),
                self.functions == old(self).functions,
                self@ == (StateV { scopes: self.env@, ..entered }),
                i <= expected,
                expected == function.params@.len(),
                expected == given@.len(),
                bound(self.env@, function.params@, views(given@), i as nat) == bound(
                    before.scopes.push(ScopeV { vars: Map::empty(), outer: 0 }),
                    function.params@,
                    views(given@),
                    0,
                ),
            decreases expected - i,
        {
            self.env.define(function.params[i].clone(), Some(given[i].clone()));
            i += 1;
        }
        self.plan(Task::Return);
        self.plan(Task::Statements(&function.body, 0));
        Action::Continue
    }

    /// Leaves a function whose body has run, with `nil` as its result.
    fn finish(&mut self) -> (action: Action)
        requires
            old(self).env.wf(),
        ensures
            final(self).env.wf(),
            final(self).functions == old(self).functions,
            (Outcome { state: final(self)@, action: action@ }) == perform(
                old(self)@,
                old(self).functions,
                Task::Return,
            ),
    {
        self.leave();
        self.give(Literal::Nil);
        Action::Continue
    }

    /// Takes one step: hands `answer` to the evaluation if it waits for a
    /// number, else does the next thing that the program needs done. The
    /// action returned tells the caller what it has to do before the next
    /// step.
    pub fn step(&mut self, answer: Option<Number>) -> (action: Action)
        requires
            old(self).wf(),
        ensures
            final(self).wf(),
            final(self).functions() == old(self).functions(),
            (Outcome { state: final(self)@, action: action@ }) == step(
                old(self)@,
                old(self).functions(),
                match answer {
                    Some(n) => Some(n@),
                    None => None,
                },
            ),
    {
        let ghost given = if answer is Some {
            Some(answer->0@)
        } else {
            None
        };
        let held = self.values.len();
        let action = self.advance(answer);
        proof {
            assert(old(self)@.values.len() == held);
            lemma_step_sound(old(self)@, old(self).functions, given);
        }
        action
    }

    /// Takes one step.
    fn advance(&mut self, answer: Option<Number>) -> (action: Action)
        requires
            old(self).env.wf(),
        ensures
            final(self).env.wf(),
            final(self).functions() == old(self).functions(),
            (Outcome { state: final(self)@, action: action@ }) == step(
                old(self)@,
                old(self).functions(),
                match answer {
                    Some(n) => Some(n@),
                    None => None,
                },
            ),
    {
        if self.waiting {
            if let Some(n) = answer {
                self.give(Literal::Number(n));
                self.waiting = false;
            }
            return Action::Continue;
        }
        let task = match self.tasks.pop() {
            Some(t) => t,
            None => return Action::Done,
        };
        match task {
            Task::Statements(list, i) => self.visit_block_stmt(list, i),
            Task::Execute(stmt) => self.execute(stmt),
            Task::Evaluate(expr) => self.evaluate(expr),
            Task::Print => self.visit_print(),
            Task::Discard => self.visit_expr_statement(),
            Task::Define(name) => self.visit_variable(name),
            Task::EndBlock => {
                self.leave();
                Action::Continue
            },
            Task::Branch(then, otherwise) => self.visit_if(then, otherwise),
            Task::Loop(cond, body, height) => {
                self.plan(Task::Test(cond, body, height));
                self.plan(Task::Evaluate(cond));
                Action::Continue
            },
            Task::Test(cond, body, height) => self.visit_while(cond, body, height),
            Task::Unary(op) => self.visit_unary(op),
            Task::Binary(op) => self.apply(op),
            Task::Logical(op, right) => self.visit_logical(op, right),
            Task::Choose(then, otherwise) => self.visit_ternary(then, otherwise),
            Task::Assign(name) => self.visit_assignment(name),
            Task::Callee(paren, args) => self.visit_call(paren, args),
            Task::Arguments(paren, args, i, f) => self.arguments(paren, args, i, f),
            Task::Return => self.finish(),
        }
    }
}

} // verus!
