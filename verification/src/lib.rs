//! The front end and the evaluator of a small dynamically typed scripting
//! language: a scanner, a recursive-descent parser, a check of the places where
//! `break` may stand, and an evaluator with lexical scopes.
//!
//! The library computes with integers and text only. A number of the language
//! is a double, which the library carries as its bit pattern and its decimal
//! text (`number::Number`). It compares numbers by their bits; the
//! arithmetic, and the reading of number literals, are left to the caller:
//! the scanner stops at each number literal and goes on when the caller has
//! supplied its value (`tokens::Scanner`), and the evaluator runs step by
//! step and says in the `interpreter::Action` that a step returns what the
//! caller has to compute or to show before the next step
//! (`interpreter::Interpreter`).
//!
//! Every function has a contract over a mathematical model of what it works
//! on, and is proved to meet it. Beyond the contracts, `progress` proves that
//! the parser always comes to an end and never fails in silence, `soundness`
//! that the evaluator never lacks a value or a scope that a step needs, and
//! `semantics` that the steps of the evaluator come to what a recursive
//! definition of the language says.
use vstd::prelude::*;
use vstd::string::StringExecFns;
use crate::context::misplaced_in;
use crate::context::ContextError;
use crate::parser::program;
use crate::parser::Parser;
use crate::parser::PS;
use crate::syntax::stmt_views;
use crate::syntax::Stmt;
use crate::tokens::Token;

pub mod text;
pub mod number;
pub mod tokens;
pub mod syntax;
pub mod parser;
pub mod progress;
pub mod context;
pub mod environment;
pub mod functions;
pub mod interpreter;
pub mod soundness;
pub mod semantics;

verus! {

/// Collects the diagnostics of one run.
pub struct ErrorReporter {
    lines: Vec<String>,
}

/// The text of one diagnostic: the line, a hint at the place, and the message.
pub open spec fn diagnostic(line: nat, place: Seq<char>, msg: Seq<char>) -> Seq<char> {
    "[line "@ + text::decimal(line) + "] Error "@ + place + ": "@ + msg
}

impl ErrorReporter {
    /// The diagnostics reported so far, oldest first.
    pub closed spec fn view(&self) -> Seq<Seq<char>> {
        Seq::new(self.lines@.len(), |i: int| self.lines@[i]@)
    }

    pub fn new() -> (r: ErrorReporter)
        ensures
            r@ == Seq::<Seq<char>>::empty(),
    {
        let r = ErrorReporter { lines: Vec::new() };
        assert(r@ =~= Seq::<Seq<char>>::empty());
        r
    }

    /// Reports `message` for `line` with no hint at the place.
    pub fn error(&mut self, line: usize, message: &str)
        ensures
            final(self)@ == old(self)@.push(diagnostic(line as nat, Seq::empty(), message@)),
    {
        self.report(line, "", message);
        proof {
            reveal_strlit("");
            assert(""@ =~= Seq::<char>::empty());
        }
    }

    /// Reports `msg` for `line`, found at `place`.
    pub fn report(&mut self, line: usize, place: &str, msg: &str)
        ensures
            final(self)@ == old(self)@.push(diagnostic(line as nat, place@, msg@)),
    {
        let mut s = String::from_str("[line ");
        let digits = text::decimal_string(line);
        s.append(digits.as_str());
        s.append("] Error ");
        s.append(place);
        s.append(": ");
        s.append(msg);
        self.lines.push(s);
        assert(self@ =~= old(self)@.push(diagnostic(line as nat, place@, msg@)));
    }

    /// Whether any diagnostic was reported.
    pub fn had_error(&self) -> (r: bool)
        ensures
            r == (self@.len() > 0),
    {
        self.lines.len() > 0
    }

    /// The number of diagnostics held.
    pub fn count(&self) -> (n: usize)
        ensures
            n == self@.len(),
    {
        self.lines.len()
    }

    /// The diagnostic at `index`, oldest first.
    pub fn line(&self, index: usize) -> (s: &str)
        requires
            index < self@.len(),
        ensures
            s@ == self@[index as int],
    {
        self.lines[index].as_str()
    }
}

/// The diagnostics after the errors of `found` from `from` on were reported.
pub open spec fn reported(diags: Seq<Seq<char>>, found: Seq<ContextError>, from: nat) -> Seq<
    Seq<char>,
>
    decreases found.len() - from,
{
    if from >= found.len() {
        diags
    } else {
        reported(
            diags.push(
                diagnostic(
                    match found[from as int] {
                        ContextError::BreakOutsideLoop(line) => line as nat,
                    },
                    Seq::empty(),
                    "Break found outside of loop body."@,
                ),
            ),
            found,
            from + 1,
        )
    }
}

/// The diagnostics after the tokens `ts` were parsed and, if they parsed, the
/// statements were checked, beside a reporter that held `diags`.
pub open spec fn analysed(ts: Seq<Token>, diags: Seq<Seq<char>>) -> Seq<Seq<char>> {
    let parsed = program(PS { ts, diags }, Seq::empty(), true);
    match parsed.value {
        Some(list) => reported(parsed.st.diags, misplaced_in(list, 0, false, Seq::empty()), 0),
        None => parsed.st.diags,
    }
}

/// Runs the stages that come before evaluation on the tokens of a program:
/// parses them and, if they parse, checks the statements. Every error is
/// reported. The statements are returned for evaluation only if the reporter
/// holds no diagnostic afterwards, be it of these stages or of the scanner
/// before them.
pub fn run(tokens: Vec<Token>, err_rep: &mut ErrorReporter) -> (r: Option<Vec<Stmt>>)
    ensures
        final(err_rep)@ == analysed(tokens@, old(err_rep)@),
        r is Some <==> final(err_rep)@.len() == 0,
        r is Some ==> program(
            PS { ts: tokens@, diags: old(err_rep)@ },
            Seq::empty(),
            true,
        ).value == Some(stmt_views(r->0@, r->0@.len())),
{
    proof {
        crate::progress::lemma_program(
            PS { ts: tokens@, diags: old(err_rep)@ },
            Seq::empty(),
            true,
        );
    }
    let mut parser = Parser::new(tokens);
    let stmts = match parser.parse(err_rep) {
        Ok(stmts) => stmts,
        Err(_) => return None,
    };
    let context_errors = context::check(&stmts);
    let ghost parsed = err_rep@;
    let mut i: usize = 0;
    while i < context_errors.len()
        invariant
            i <= context_errors.len(),
            reported(err_rep@, context_errors@, i as nat) == reported(
                parsed,
                context_errors@,
                0,
            ),
        decreases context_errors.len() - i,
    {
        context_errors[i].report(err_rep);
        i += 1;
    }
    if err_rep.had_error() {
        None
    } else {
        Some(stmts)
    }
}

} // verus!
