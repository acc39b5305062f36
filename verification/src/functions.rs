use vstd::prelude::*;
use crate::interpreter::runtime_message;
use crate::interpreter::RuntimeError;
use crate::syntax::Stmt;
use crate::tokens::Literal;
use crate::tokens::LiteralV;
use crate::tokens::Token;

verus! {

/// A function of the program: its parameters and its body. It sees the
/// global scope, in which every function is declared.
pub struct StaticFunction {
    pub name: String,
    pub params: Vec<String>,
    pub body: Vec<Stmt>,
}

/// A value that can be called.
#[derive(Clone, Copy, Debug, PartialEq, Eq, Structural)]
pub enum Callable {
    /// The function at this place in the table of functions.
    Static(usize),
}

/// What is said of a call of a value that is no function.
pub open spec fn not_callable() -> Seq<char> {
    "Can only call functions"@
}

/// The place in a table of `count` functions of the function that `value`
/// is, if it is one.
pub open spec fn callee(value: LiteralV, count: nat) -> Option<usize> {
    match value {
        LiteralV::Function(f) if f < count => Some(f),
        _ => None,
    }
}

impl Callable {
    /// The callable that `value` is, among the functions of `functions`; a
    /// value that is none fails the call at `paren`.
    pub fn from(value: &Literal, functions: &Vec<StaticFunction>, paren: &Token) -> (r: Result<
        Callable,
        RuntimeError,
    >)
        ensures
            match r {
                Ok(c) => callee(value@, functions@.len()) == Some(c->Static_0),
                Err(e) => callee(value@, functions@.len()) is None && e is InterpreterError && e@
                    == runtime_message(not_callable(), paren.lexeme@, paren.line as nat),
            },
    {
        match value {
            Literal::Function(f) => {
                if *f < functions.len() {
                    return Ok(Callable::Static(*f));
                }
            },
            _ => {},
        }
        Err(RuntimeError::at(paren, "Can only call functions"))
    }

    /// The number of arguments that the callable takes.
    pub fn arity(&self, functions: &Vec<StaticFunction>) -> (n: usize)
        requires
            self->Static_0 < functions@.len(),
        ensures
            n == functions@[self->Static_0 as int].params@.len(),
    {
        match self {
            Callable::Static(f) => functions[*f].params.len(),
        }
    }
}

} // verus!
