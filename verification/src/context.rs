use vstd::prelude::*;
use crate::syntax::lemma_stmt_views_index;
use crate::syntax::stmt_views;
use crate::syntax::Stmt;
use crate::syntax::StmtV;
use crate::ErrorReporter;
use crate::diagnostic;

verus! {

/// A statement that stands where the language does not allow it.
#[derive(Clone, Copy, Debug, PartialEq, Eq, Structural)]
pub enum ContextError {
    /// A `break`, on this line, that no loop encloses.
    BreakOutsideLoop(usize),
}

impl ContextError {
    /// Hands the error to the reporter as a diagnostic for its line.
    pub fn report(&self, err_rep: &mut ErrorReporter)
        ensures
            final(err_rep)@ == old(err_rep)@.push(
                diagnostic(
                    match *self {
                        ContextError::BreakOutsideLoop(line) => line as nat,
                    },
                    Seq::empty(),
                    "Break found outside of loop body."@,
                ),
            ),
    {
        match self {
            ContextError::BreakOutsideLoop(line) => err_rep.error(
                *line,
                "Break found outside of loop body.",
            ),
        }
    }
}

/// Walks statements and knows whether a loop encloses the one it is at.
#[derive(Clone, Copy)]
pub struct ContextCheck {
    inside_loop: bool,
}

/// The errors in `found` and, after them, those of `stmt` in the order of the
/// source: one for each `break` that no loop encloses, `inside` saying whether
/// a loop encloses `stmt` itself.
pub open spec fn misplaced(stmt: StmtV, inside: bool, found: Seq<ContextError>) -> Seq<
    ContextError,
>
    decreases stmt,
{
    match stmt {
        StmtV::Break(line) => if inside {
            found
        } else {
            found.push(ContextError::BreakOutsideLoop(line))
        },
        StmtV::While(_, body) => misplaced(*body, true, found),
        StmtV::If(_, then, otherwise) => {
            let first = misplaced(*then, inside, found);
            match otherwise {
                Some(other) => misplaced(*other, inside, first),
                None => first,
            }
        },
        StmtV::Block(list) => misplaced_in(list, 0, inside, found),
        _ => found,
    }
}

/// The errors in `found` and, after them, those of the statements of `list`
/// from `from` on.
pub open spec fn misplaced_in(list: Seq<StmtV>, from: nat, inside: bool, found: Seq<ContextError>)
    -> Seq<ContextError>
    decreases list, list.len() - from,
{
    if from >= list.len() {
        found
    } else {
        misplaced_in(list, from + 1, inside, misplaced(list[from as int], inside, found))
    }
}

/// Inside a loop no `break` is misplaced, however deep it stands in blocks
/// and branches.
pub proof fn lemma_inside_loop(stmt: StmtV, found: Seq<ContextError>)
    ensures
        misplaced(stmt, true, found) == found,
    decreases stmt,
{
    match stmt {
        StmtV::While(_, body) => {
            lemma_inside_loop(*body, found);
        },
        StmtV::If(_, then, otherwise) => {
            lemma_inside_loop(*then, found);
            match otherwise {
                Some(other) => {
                    lemma_inside_loop(*other, found);
                },
                None => {},
            }
        },
        StmtV::Block(list) => {
            lemma_inside_loop_list(list, 0, found);
        },
        _ => {},
    }
}

/// Inside a loop no `break` of a list of statements is misplaced.
pub proof fn lemma_inside_loop_list(list: Seq<StmtV>, from: nat, found: Seq<ContextError>)
    ensures
        misplaced_in(list, from, true, found) == found,
    decreases list, list.len() - from,
{
    if from < list.len() {
        lemma_inside_loop(list[from as int], found);
        lemma_inside_loop_list(list, from + 1, found);
    }
}

/// A loop holds no misplaced `break`, wherever the loop itself stands.
pub proof fn lemma_loop_is_sound(cond: crate::syntax::ExprV, body: StmtV, inside: bool)
    ensures
        misplaced(StmtV::While(cond, Box::new(body)), inside, Seq::empty()) == Seq::<
            ContextError,
        >::empty(),
{
    lemma_inside_loop(body, Seq::empty());
}

impl ContextCheck {
    pub fn new(inside_loop: bool) -> (c: ContextCheck)
        ensures
            c.inside() == inside_loop,
    {
        ContextCheck { inside_loop }
    }

    /// Whether a loop encloses the statement that the walk is at.
    pub closed spec fn inside(&self) -> bool {
        self.inside_loop
    }

    pub fn get_inside_loop(&self) -> (r: bool)
        ensures
            r == self.inside(),
    {
        self.inside_loop
    }

    /// Adds the errors of `stmt` to `found`.
    fn visit(self, stmt: &Stmt, found: &mut Vec<ContextError>)
        ensures
            final(found)@ == misplaced(stmt.view(), self.inside_loop, old(found)@),
        decreases stmt, 1nat,
    {
        match stmt {
            Stmt::Break(line) => {
                if !self.get_inside_loop() {
                    found.push(ContextError::BreakOutsideLoop(*line));
                }
            },
            Stmt::While(_cond, body) => {
                let inner = ContextCheck::new(true);
                inner.visit(body, found);
            },
            Stmt::If(_cond, then, otherwise) => {
                self.visit(then, found);
                if let Some(other) = &**otherwise {
                    self.visit(other, found);
                }
            },
            Stmt::Block(stmts) => {
                self.visit_block_stmt(stmts, 0, found);
            },
            _ => {},
        }
    }

    /// Adds the errors of the statements of `stmts` from `from` on to `found`.
    fn visit_block_stmt(self, stmts: &Vec<Stmt>, from: usize, found: &mut Vec<ContextError>)
        ensures
            final(found)@ == misplaced_in(
                stmt_views(stmts@, stmts@.len()),
                from as nat,
                self.inside_loop,
                old(found)@,
            ),
        decreases stmts, 0nat,
    {
        proof {
            crate::syntax::lemma_stmt_views_len(stmts@, stmts@.len());
        }
        let mut i = from;
        while i < stmts.len()
            invariant
                stmt_views(stmts@, stmts@.len()).len() == stmts@.len(),
                misplaced_in(
                    stmt_views(stmts@, stmts@.len()),
                    i as nat,
                    self.inside_loop,
                    found@,
                ) == misplaced_in(
                    stmt_views(stmts@, stmts@.len()),
                    from as nat,
                    self.inside_loop,
                    old(found)@,
                ),
            decreases stmts.len() - i,
        {
            proof {
                lemma_stmt_views_index(stmts@, stmts@.len(), i as int);
            }
            self.visit(&stmts[i], found);
            i += 1;
        }
    }
}

impl Stmt {
    /// Hands the statement to the walker, which returns its errors.
    pub fn accept(&self, visitor: ContextCheck) -> (found: Vec<ContextError>)
        ensures
            found@ == misplaced(self.view(), visitor.inside(), Seq::empty()),
    {
        let mut found: Vec<ContextError> = Vec::new();
        visitor.visit(self, &mut found);
        found
    }
}

/// Checks a program before it runs: returns an error for every `break`
/// that no loop encloses, in the order of the source.
pub fn check(stmts: &Vec<Stmt>) -> (found: Vec<ContextError>)
    ensures
        found@ == misplaced_in(stmt_views(stmts@, stmts@.len()), 0, false, Seq::empty()),
{
    let mut found: Vec<ContextError> = Vec::new();
    ContextCheck::new(false).visit_block_stmt(stmts, 0, &mut found);
    found
}

} // verus!
