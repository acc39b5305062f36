use vstd::prelude::*;
use vstd::string::StringExecFns;
use crate::tokens::Literal;
use crate::tokens::Token;
use crate::tokens::display;

verus! {

/// An expression of the language.
pub enum Expr {
    Binary(Box<Expr>, Token, Box<Expr>),
    Ternary(Token, Box<Expr>, Box<Expr>, Box<Expr>),
    Grouping(Box<Expr>),
    Literal(Literal),
    Var(Token),
    Unary(Token, Box<Expr>),
    Assignment(Token, Box<Expr>),
    Logical(Box<Expr>, Token, Box<Expr>),
    Call(Box<Expr>, Token, Vec<Expr>),
}

/// A statement of the language.
pub enum Stmt {
    Print(Expr),
    Expr(Expr),
    Var(Token, Option<Expr>),
    Block(Vec<Stmt>),
    If(Box<Expr>, Box<Stmt>, Box<Option<Stmt>>),
    While(Box<Expr>, Box<Stmt>),
    Break(usize),
}

/// An expression as a tree over sequences: what the parser is specified to build.
pub enum ExprV {
    Binary(Box<ExprV>, Token, Box<ExprV>),
    Ternary(Token, Box<ExprV>, Box<ExprV>, Box<ExprV>),
    Grouping(Box<ExprV>),
    Literal(Literal),
    Var(Token),
    Unary(Token, Box<ExprV>),
    Assignment(Token, Box<ExprV>),
    Logical(Box<ExprV>, Token, Box<ExprV>),
    Call(Box<ExprV>, Token, Seq<ExprV>),
}

/// A statement as a tree over sequences.
pub enum StmtV {
    Print(ExprV),
    Expr(ExprV),
    Var(Token, Option<ExprV>),
    Block(Seq<StmtV>),
    If(ExprV, Box<StmtV>, Option<Box<StmtV>>),
    While(ExprV, Box<StmtV>),
    Break(usize),
}

/// The views of the first `n` expressions of `list`.
pub open spec fn expr_views(list: Seq<Expr>, n: nat) -> Seq<ExprV>
    decreases list, n,
{
    if n == 0 || n > list.len() {
        Seq::empty()
    } else {
        expr_views(list, (n - 1) as nat).push(list[n - 1].view())
    }
}

/// The views of the first `n` statements of `list`.
pub open spec fn stmt_views(list: Seq<Stmt>, n: nat) -> Seq<StmtV>
    decreases list, n,
{
    if n == 0 || n > list.len() {
        Seq::empty()
    } else {
        stmt_views(list, (n - 1) as nat).push(list[n - 1].view())
    }
}

impl Expr {
    pub open spec fn view(&self) -> ExprV
        decreases self,
    {
        match self {
            Expr::Binary(l, op, r) => ExprV::Binary(Box::new(l.view()), *op, Box::new(r.view())),
            Expr::Ternary(op, c, t, e) => ExprV::Ternary(
                *op,
                Box::new(c.view()),
                Box::new(t.view()),
                Box::new(e.view()),
            ),
            Expr::Grouping(e) => ExprV::Grouping(Box::new(e.view())),
            Expr::Literal(l) => ExprV::Literal(*l),
            Expr::Var(t) => ExprV::Var(*t),
            Expr::Unary(op, e) => ExprV::Unary(*op, Box::new(e.view())),
            Expr::Assignment(t, e) => ExprV::Assignment(*t, Box::new(e.view())),
            Expr::Logical(l, op, r) => ExprV::Logical(Box::new(l.view()), *op, Box::new(r.view())),
            Expr::Call(c, t, args) => ExprV::Call(
                Box::new(c.view()),
                *t,
                expr_views(args@, args@.len()),
            ),
        }
    }
}

impl Stmt {
    pub open spec fn view(&self) -> StmtV
        decreases self,
    {
        match self {
            Stmt::Print(e) => StmtV::Print(e.view()),
            Stmt::Expr(e) => StmtV::Expr(e.view()),
            Stmt::Var(t, e) => StmtV::Var(
                *t,
                match e {
                    Some(e) => Some(e.view()),
                    None => None,
                },
            ),
            Stmt::Block(list) => StmtV::Block(stmt_views(list@, list@.len())),
            Stmt::If(c, t, e) => StmtV::If(
                c.view(),
                Box::new(t.view()),
                match **e {
                    Some(s) => Some(Box::new(s.view())),
                    None => None,
                },
            ),
            Stmt::While(c, b) => StmtV::While(c.view(), Box::new(b.view())),
            Stmt::Break(line) => StmtV::Break(*line),
        }
    }
}

/// The first `n` views of a list are `n` views.
pub proof fn lemma_expr_views_len(list: Seq<Expr>, n: nat)
    requires
        n <= list.len(),
    ensures
        expr_views(list, n).len() == n,
    decreases n,
{
    if n > 0 {
        lemma_expr_views_len(list, (n - 1) as nat);
    }
}

/// The first `n` views of a list are those of any list that begins alike.
pub proof fn lemma_expr_views_prefix(a: Seq<Expr>, b: Seq<Expr>, n: nat)
    requires
        n <= a.len(),
        n <= b.len(),
        forall|i: int| 0 <= i < n ==> a[i] == b[i],
    ensures
        expr_views(a, n) == expr_views(b, n),
    decreases n,
{
    if n > 0 {
        lemma_expr_views_prefix(a, b, (n - 1) as nat);
    }
}

/// The views of a list with one more expression are the views of the list
/// with one more view.
pub proof fn lemma_expr_views_push(list: Seq<Expr>, e: Expr)
    ensures
        expr_views(list.push(e), list.len() + 1) == expr_views(list, list.len()).push(e.view()),
{
    lemma_expr_views_prefix(list, list.push(e), list.len());
}

/// The first `n` views of a list of statements are `n` views.
pub proof fn lemma_stmt_views_len(list: Seq<Stmt>, n: nat)
    requires
        n <= list.len(),
    ensures
        stmt_views(list, n).len() == n,
    decreases n,
{
    if n > 0 {
        lemma_stmt_views_len(list, (n - 1) as nat);
    }
}

/// The view at `i` among the first `n` views of a list is the view of the
/// statement at `i`.
pub proof fn lemma_stmt_views_index(list: Seq<Stmt>, n: nat, i: int)
    requires
        n <= list.len(),
        0 <= i < n,
    ensures
        stmt_views(list, n).len() == n,
        stmt_views(list, n)[i] == list[i].view(),
    decreases n,
{
    lemma_stmt_views_len(list, n);
    if i < n - 1 {
        lemma_stmt_views_index(list, (n - 1) as nat, i);
    }
}

/// The first `n` views of a list are those of any list that begins alike.
pub proof fn lemma_stmt_views_prefix(a: Seq<Stmt>, b: Seq<Stmt>, n: nat)
    requires
        n <= a.len(),
        n <= b.len(),
        forall|i: int| 0 <= i < n ==> a[i] == b[i],
    ensures
        stmt_views(a, n) == stmt_views(b, n),
    decreases n,
{
    if n > 0 {
        lemma_stmt_views_prefix(a, b, (n - 1) as nat);
    }
}

/// The views of a list with one more statement are the views of the list with
/// one more view.
pub proof fn lemma_stmt_views_push(list: Seq<Stmt>, s: Stmt)
    ensures
        stmt_views(list.push(s), list.len() + 1) == stmt_views(list, list.len()).push(s.view()),
{
    lemma_stmt_views_prefix(list, list.push(s), list.len());
}

/// Writes an expression as a parenthesised prefix form.
pub struct PrettyPrint;

/// The prefix form of an expression.
pub open spec fn pretty(e: Expr) -> Seq<char>
    decreases e,
{
    match e {
        Expr::Binary(l, op, r) => "("@ + op.lexeme@ + " "@ + pretty(*l) + " "@ + pretty(*r) + ")"@,
        Expr::Ternary(op, c, t, f) => "("@ + op.lexeme@ + " "@ + pretty(*c) + " "@ + pretty(*t)
            + " "@ + pretty(*f) + ")"@,
        Expr::Grouping(e) => "(group"@ + pretty(*e) + ")"@,
        Expr::Literal(l) => display(l@),
        Expr::Var(name) => name.lexeme@,
        Expr::Unary(op, e) => "("@ + op.lexeme@ + " "@ + pretty(*e) + ")"@,
        Expr::Assignment(name, e) => "(="@ + name.lexeme@ + " "@ + pretty(*e) + ")"@,
        Expr::Logical(l, op, r) => "("@ + op.lexeme@ + " "@ + pretty(*l) + " "@ + pretty(*r)
            + ")"@,
        Expr::Call(c, _paren, args) => "("@ + pretty(*c) + " "@ + pretty_list(args@, 0),
    }
}

/// The prefix forms of the expressions of `list` from `from` on, each followed
/// by a space.
pub open spec fn pretty_list(list: Seq<Expr>, from: nat) -> Seq<char>
    decreases list, list.len() - from,
{
    if from >= list.len() {
        Seq::empty()
    } else {
        pretty(list[from as int]) + " "@ + pretty_list(list, from + 1)
    }
}

impl PrettyPrint {
    /// Writes the expressions of `list` from `from` on, each followed by a space.
    fn visit_all(&self, list: &Vec<Expr>, from: usize) -> (s: String)
        ensures
            s@ == pretty_list(list@, from as nat),
        decreases list, list.len() - from,
    {
        if from >= list.len() {
            String::new()
        } else {
            let mut total = list[from].accept(self);
            total.append(" ");
            let rest = self.visit_all(list, from + 1);
            total.append(rest.as_str());
            total
        }
    }
}

impl Expr {
    /// Hands the expression to the printer, which writes its prefix form.
    pub fn accept(&self, visitor: &PrettyPrint) -> (s: String)
        ensures
            s@ == pretty(*self),
        decreases self,
    {
        match self {
            Expr::Binary(left, op, right) => {
                let mut total = String::new();
                total.append("(");
                total.append(op.get_lexeme());
                total.append(" ");
                total.append(left.accept(visitor).as_str());
                total.append(" ");
                total.append(right.accept(visitor).as_str());
                total.append(")");
                assert(total@ =~= pretty(*self));
                total
            },
            Expr::Ternary(op, left, middle, right) => {
                let mut total = String::new();
                total.append("(");
                total.append(op.get_lexeme());
                total.append(" ");
                total.append(left.accept(visitor).as_str());
                total.append(" ");
                total.append(middle.accept(visitor).as_str());
                total.append(" ");
                total.append(right.accept(visitor).as_str());
                total.append(")");
                assert(total@ =~= pretty(*self));
                total
            },
            Expr::Grouping(exp) => {
                let mut total = String::new();
                total.append("(group");
                total.append(exp.accept(visitor).as_str());
                total.append(")");
                assert(total@ =~= pretty(*self));
                total
            },
            Expr::Literal(lit) => lit.to_string(),
            Expr::Var(name) => name.to_string(),
            Expr::Unary(op, exp) => {
                let mut total = String::new();
                total.append("(");
                total.append(op.get_lexeme());
                total.append(" ");
                total.append(exp.accept(visitor).as_str());
                total.append(")");
                assert(total@ =~= pretty(*self));
                total
            },
            Expr::Assignment(name, value) => {
                let mut total = String::new();
                total.append("(=");
                total.append(name.get_lexeme());
                total.append(" ");
                total.append(value.accept(visitor).as_str());
                total.append(")");
                assert(total@ =~= pretty(*self));
                total
            },
            Expr::Logical(left, op, right) => {
                let mut total = String::new();
                total.append("(");
                total.append(op.get_lexeme());
                total.append(" ");
                total.append(left.accept(visitor).as_str());
                total.append(" ");
                total.append(right.accept(visitor).as_str());
                total.append(")");
                assert(total@ =~= pretty(*self));
                total
            },
            Expr::Call(callee, _paren, args) => {
                let mut total = String::new();
                total.append("(");
                total.append(callee.accept(visitor).as_str());
                total.append(" ");
                total.append(visitor.visit_all(args, 0).as_str());
                assert(total@ =~= pretty(*self));
                total
            },
        }
    }
}

} // verus!
