use vstd::prelude::*;
use std::collections::VecDeque;
use crate::syntax::expr_views;
use crate::syntax::lemma_expr_views_len;
use crate::syntax::lemma_expr_views_push;
use crate::syntax::Expr;
use crate::syntax::ExprV;
use crate::syntax::Stmt;
use crate::syntax::StmtV;
use crate::tokens::Literal;
use crate::tokens::Token;
use crate::tokens::TokenType;
use crate::tokens::same_type;
use crate::ErrorReporter;
use crate::diagnostic;

verus! {

/// The parser could not make a statement or an expression of the tokens.
pub struct ParserError;

/// The parser as the contracts see it: the tokens still to be read, and the
/// diagnostics of the reporter that it writes to.
pub struct PS {
    pub ts: Seq<Token>,
    pub diags: Seq<Seq<char>>,
}

/// What a parsing function leaves: the parser after it, and what it made, if
/// it could.
pub struct PR<T> {
    pub st: PS,
    pub value: Option<T>,
}

/// The binary operators by precedence, lowest first.
#[derive(Clone, Copy, PartialEq, Eq, Structural)]
pub enum Level {
    Comma,
    Or,
    And,
    Equality,
    Comparison,
    Addition,
    Multiplication,
}

/// The place of a level among the parsing functions: a function calls, on
/// the same tokens, only functions of a lower place.
pub open spec fn rank(level: Level) -> nat {
    match level {
        Level::Comma => 16,
        Level::Or => 13,
        Level::And => 12,
        Level::Equality => 11,
        Level::Comparison => 10,
        Level::Addition => 9,
        Level::Multiplication => 8,
    }
}

/// Whether a token of type `t` is an operator of `level`.
pub open spec fn is_operator(level: Level, t: TokenType) -> bool {
    match level {
        Level::Comma => t is Comma,
        Level::Or => t is Or,
        Level::And => t is And,
        Level::Equality => t is BangEqual || t is EqualEqual,
        Level::Comparison => t is Less || t is LessEqual || t is Greater || t is GreaterEqual,
        Level::Addition => t is Plus || t is Minus,
        Level::Multiplication => t is Star || t is Slash,
    }
}

/// The node that an operator of `level` makes of its operands.
pub open spec fn combine(level: Level, left: ExprV, op: Token, right: ExprV) -> ExprV {
    match level {
        Level::Or | Level::And => ExprV::Logical(Box::new(left), op, Box::new(right)),
        _ => ExprV::Binary(Box::new(left), op, Box::new(right)),
    }
}

/// Whether a token of type `t` is a prefix operator.
pub open spec fn is_prefix(t: TokenType) -> bool {
    t is Bang || t is Minus
}

/// Whether a token of type `t` is a binary operator that cannot begin an
/// expression.
pub open spec fn is_stray(t: TokenType) -> bool {
    t is EqualEqual || t is BangEqual || t is Plus || t is LessEqual || t is Less
        || t is GreaterEqual || t is Greater || t is Star || t is Slash
}

/// Whether a token of type `t` begins a statement, so that parsing can resume there.
pub open spec fn begins_statement(t: TokenType) -> bool {
    t is Class || t is Fun || t is Var || t is For || t is If || t is While || t is Print
        || t is Return
}

/// The tokens after the first.
pub open spec fn rest(ts: Seq<Token>) -> Seq<Token> {
    ts.subrange(1, ts.len() as int)
}

/// Whether the next token is of type `ty`.
pub open spec fn check(ts: Seq<Token>, ty: TokenType) -> bool {
    ts.len() > 0 && same_type(ts[0].t_type@, ty@)
}

/// The hint at the place of an error at the end of the tokens.
pub open spec fn at_end() -> Seq<char> {
    "at end"@
}

/// The diagnostics after `msg` was reported at `token`.
pub open spec fn error_at(diags: Seq<Seq<char>>, token: Token, msg: Seq<char>) -> Seq<Seq<char>> {
    if token.t_type is Eof {
        diags.push(diagnostic(token.line as nat, at_end(), msg))
    } else {
        diags.push(diagnostic(token.line as nat, token.lexeme@, msg))
    }
}

/// The diagnostics after `msg` was reported at the next token, or at the end
/// on line 0 when none is left.
pub open spec fn error_here(st: PS, msg: Seq<char>) -> Seq<Seq<char>> {
    if st.ts.len() > 0 {
        error_at(st.diags, st.ts[0], msg)
    } else {
        st.diags.push(diagnostic(0, at_end(), msg))
    }
}

/// Nothing was made.
pub open spec fn fail<T>(st: PS) -> PR<T> {
    PR { st, value: None }
}

/// `value` was made.
pub open spec fn done<T>(st: PS, value: T) -> PR<T> {
    PR { st, value: Some(value) }
}

/// The parser after the next token was taken.
pub open spec fn skip(st: PS) -> PS {
    PS { ts: rest(st.ts), ..st }
}

/// Takes the next token if it is of type `ty`, and reports `msg` if it is not.
pub open spec fn consume(st: PS, ty: TokenType, msg: Seq<char>) -> PR<Token> {
    if check(st.ts, ty) {
        done(skip(st), st.ts[0])
    } else {
        fail(PS { diags: error_here(st, msg), ..st })
    }
}

/// The operand of an operator of `level`.
pub open spec fn operand(st: PS, level: Level) -> PR<ExprV>
    decreases st.ts.len(), rank(level), 0nat,
{
    match level {
        Level::Comma => assignment(st),
        Level::Or => infix(st, Level::And),
        Level::And => infix(st, Level::Equality),
        Level::Equality => infix(st, Level::Comparison),
        Level::Comparison => infix(st, Level::Addition),
        Level::Addition => infix(st, Level::Multiplication),
        Level::Multiplication => unary(st),
    }
}

/// A chain of operands joined by operators of `level`, grouped to the left.
pub open spec fn infix(st: PS, level: Level) -> PR<ExprV>
    decreases st.ts.len(), rank(level), 2nat,
{
    let l = operand(st, level);
    match l.value {
        Some(e) if l.st.ts.len() <= st.ts.len() => infix_rest(l.st, level, e),
        _ => l,
    }
}

/// What follows the operand `left` in a chain of `level`.
pub open spec fn infix_rest(st: PS, level: Level, left: ExprV) -> PR<ExprV>
    decreases st.ts.len(), rank(level), 1nat,
{
    if st.ts.len() > 0 && is_operator(level, st.ts[0].t_type) {
        let r = operand(skip(st), level);
        match r.value {
            Some(right) if r.st.ts.len() < st.ts.len() => infix_rest(
                r.st,
                level,
                combine(level, left, st.ts[0], right),
            ),
            _ => r,
        }
    } else {
        done(st, left)
    }
}

/// An expression: a sequence of assignments joined by commas.
pub open spec fn expression(st: PS) -> PR<ExprV>
    decreases st.ts.len(), 17nat, 0nat,
{
    infix(st, Level::Comma)
}

/// An assignment, or a conditional expression. The target of an
/// assignment must be a variable; for any other the error is reported, the
/// value is dropped and the target stands alone.
pub open spec fn assignment(st: PS) -> PR<ExprV>
    decreases st.ts.len(), 15nat, 0nat,
{
    let l = ternary(st);
    match l.value {
        Some(e) if l.st.ts.len() <= st.ts.len() && check(l.st.ts, TokenType::Equal) => {
            let equals = l.st.ts[0];
            let r = assignment(skip(l.st));
            match r.value {
                Some(value) => match e {
                    ExprV::Var(name) => done(r.st, ExprV::Assignment(name, Box::new(value))),
                    _ => done(
                        PS {
                            diags: error_at(r.st.diags, equals, "Invalid assignment target."@),
                            ..r.st
                        },
                        e,
                    ),
                },
                None => r,
            }
        },
        _ => l,
    }
}

/// A conditional expression `c ? a : b`, which groups to the right, or a
/// chain of `or`.
pub open spec fn ternary(st: PS) -> PR<ExprV>
    decreases st.ts.len(), 14nat, 0nat,
{
    let c = infix(st, Level::Or);
    match c.value {
        Some(cond) if c.st.ts.len() <= st.ts.len() && check(c.st.ts, TokenType::QuestionMark) => {
            let mark = c.st.ts[0];
            let t = infix(skip(c.st), Level::Or);
            match t.value {
                Some(then) if t.st.ts.len() < c.st.ts.len() => {
                    let colon = consume(t.st, TokenType::Colon, "Expected to find ':' after expr"@);
                    match colon.value {
                        Some(_) => {
                            let f = ternary(colon.st);
                            match f.value {
                                Some(other) => done(
                                    f.st,
                                    ExprV::Ternary(
                                        mark,
                                        Box::new(cond),
                                        Box::new(then),
                                        Box::new(other),
                                    ),
                                ),
                                None => f,
                            }
                        },
                        None => fail(colon.st),
                    }
                },
                _ => t,
            }
        },
        _ => c,
    }
}

/// A prefix operator with its operand, or a call. A binary operator that
/// stands where an operand should is reported and passed over.
pub open spec fn unary(st: PS) -> PR<ExprV>
    decreases st.ts.len(), 7nat, 0nat,
{
    if st.ts.len() > 0 && is_prefix(st.ts[0].t_type) {
        let r = unary(skip(st));
        match r.value {
            Some(right) => done(r.st, ExprV::Unary(st.ts[0], Box::new(right))),
            None => r,
        }
    } else if st.ts.len() > 0 && is_stray(st.ts[0].t_type) {
        unary(
            PS {
                diags: error_at(
                    st.diags,
                    st.ts[0],
                    "Expression expected before binary operator"@,
                ),
                ..skip(st)
            },
        )
    } else {
        call(st)
    }
}

/// A primary expression with the calls that follow it.
pub open spec fn call(st: PS) -> PR<ExprV>
    decreases st.ts.len(), 6nat, 0nat,
{
    let p = primary(st);
    match p.value {
        Some(e) if p.st.ts.len() <= st.ts.len() => calls(p.st, e),
        _ => p,
    }
}

/// The calls that follow the callee `callee`, each on the result of the one before.
pub open spec fn calls(st: PS, callee: ExprV) -> PR<ExprV>
    decreases st.ts.len(), 5nat, 3nat,
{
    if check(st.ts, TokenType::LeftParen) {
        let c = finish_call(skip(st), callee);
        match c.value {
            Some(e) if c.st.ts.len() < st.ts.len() => calls(c.st, e),
            _ => c,
        }
    } else {
        done(st, callee)
    }
}

/// The arguments and the closing parenthesis of a call of `callee`.
pub open spec fn finish_call(st: PS, callee: ExprV) -> PR<ExprV>
    decreases st.ts.len(), 21nat, 0nat,
{
    if check(st.ts, TokenType::RightParen) {
        done(skip(st), ExprV::Call(Box::new(callee), st.ts[0], Seq::empty()))
    } else {
        let a = arguments(st, Seq::empty());
        match a.value {
            Some(args) => {
                let paren = consume(a.st, TokenType::RightParen, "Expected ')' after arguments."@);
                match paren.value {
                    Some(p) => done(paren.st, ExprV::Call(Box::new(callee), p, args)),
                    None => fail(paren.st),
                }
            },
            None => fail(a.st),
        }
    }
}

/// The arguments of a call, after those in `before`, separated by commas.
pub open spec fn arguments(st: PS, before: Seq<ExprV>) -> PR<Seq<ExprV>>
    decreases st.ts.len(), 20nat, 0nat,
{
    let warned = if before.len() >= 8 {
        PS { diags: error_here(st, "Cannot have more than 8 arguments."@), ..st }
    } else {
        st
    };
    let a = assignment(warned);
    match a.value {
        Some(e) => if check(a.st.ts, TokenType::Comma) && a.st.ts.len() <= st.ts.len() {
            arguments(skip(a.st), before.push(e))
        } else {
            done(a.st, before.push(e))
        },
        None => fail(a.st),
    }
}

/// A literal, a variable, or an expression in parentheses.
pub open spec fn primary(st: PS) -> PR<ExprV>
    decreases st.ts.len(), 5nat, 0nat,
{
    if st.ts.len() > 0 && st.ts[0].t_type is Literal {
        done(skip(st), ExprV::Literal(st.ts[0].t_type->Literal_0))
    } else if check(st.ts, TokenType::Identifier) {
        done(skip(st), ExprV::Var(st.ts[0]))
    } else if check(st.ts, TokenType::LeftParen) {
        let e = expression(skip(st));
        match e.value {
            Some(inner) => {
                let paren = consume(e.st, TokenType::RightParen, "Expected ')' after expr"@);
                match paren.value {
                    Some(_) => done(paren.st, ExprV::Grouping(Box::new(inner))),
                    None => fail(paren.st),
                }
            },
            None => e,
        }
    } else {
        fail(PS { diags: error_here(st, "Unexpected token"@), ..st })
    }
}

/// The tokens from which parsing resumes after an error: those after the
/// first semicolon, or from the first token that begins a statement; at least
/// one token is given up.
pub open spec fn synchronize(ts: Seq<Token>) -> Seq<Token> {
    if ts.len() == 0 {
        ts
    } else {
        resume(rest(ts), ts[0])
    }
}

/// The tokens from which parsing resumes, `previous` being the token given up last.
pub open spec fn resume(ts: Seq<Token>, previous: Token) -> Seq<Token>
    decreases ts.len(),
{
    if ts.len() == 0 || previous.t_type is Semicolon || begins_statement(ts[0].t_type) {
        ts
    } else {
        resume(rest(ts), ts[0])
    }
}

/// Closes a statement whose semicolon is still to come.
pub open spec fn terminated(st: PS, msg: Seq<char>, made: StmtV) -> PR<StmtV> {
    let semi = consume(st, TokenType::Semicolon, msg);
    match semi.value {
        Some(_) => done(semi.st, made),
        None => fail(semi.st),
    }
}

/// A `print`, whose keyword was taken.
pub open spec fn print_statement(st: PS) -> PR<StmtV> {
    let e = expression(st);
    match e.value {
        Some(value) => terminated(e.st, "Expected ';' after value"@, StmtV::Print(value)),
        None => fail(e.st),
    }
}

/// An expression with its semicolon.
pub open spec fn expression_statement(st: PS) -> PR<StmtV> {
    let e = expression(st);
    match e.value {
        Some(value) => terminated(e.st, "Expected ';' after value"@, StmtV::Expr(value)),
        None => fail(e.st),
    }
}

/// A `break`, found on `line`.
pub open spec fn break_statement(st: PS, line: usize) -> PR<StmtV> {
    terminated(st, "Expected ';' after break."@, StmtV::Break(line))
}

/// A declaration of a variable, whose keyword was taken: the name, an
/// initializer if `=` follows, and the semicolon.
pub open spec fn var_declaration(st: PS) -> PR<StmtV> {
    let name = consume(st, TokenType::Identifier, "Expected variable name."@);
    match name.value {
        Some(n) => if check(name.st.ts, TokenType::Equal) {
            let init = expression(skip(name.st));
            match init.value {
                Some(e) => terminated(
                    init.st,
                    "Expected ';' after the variable declaration"@,
                    StmtV::Var(n, Some(e)),
                ),
                None => fail(init.st),
            }
        } else {
            terminated(
                name.st,
                "Expected ';' after the variable declaration"@,
                StmtV::Var(n, None),
            )
        },
        None => fail(name.st),
    }
}

/// A condition in parentheses; `opening` and `closing` are the messages for a
/// missing parenthesis.
pub open spec fn condition(st: PS, opening: Seq<char>, closing: Seq<char>) -> PR<ExprV> {
    let open = consume(st, TokenType::LeftParen, opening);
    match open.value {
        Some(_) => {
            let cond = expression(open.st);
            match cond.value {
                Some(c) => {
                    let close = consume(cond.st, TokenType::RightParen, closing);
                    match close.value {
                        Some(_) => done(close.st, c),
                        None => fail(close.st),
                    }
                },
                None => fail(cond.st),
            }
        },
        None => fail(open.st),
    }
}

/// The first clause of a `for`: nothing, a declaration or an expression, with
/// its semicolon.
pub open spec fn for_initializer(st: PS) -> PR<Option<StmtV>> {
    if check(st.ts, TokenType::Semicolon) {
        done(skip(st), None)
    } else {
        let init = if check(st.ts, TokenType::Var) {
            var_declaration(skip(st))
        } else {
            expression_statement(st)
        };
        match init.value {
            Some(s) => done(init.st, Some(s)),
            None => fail(init.st),
        }
    }
}

/// A later clause of a `for`: an expression, unless a token of type `closer`
/// comes next.
pub open spec fn for_clause(st: PS, closer: TokenType) -> PR<Option<ExprV>> {
    if check(st.ts, closer) {
        done(st, None)
    } else {
        let e = expression(st);
        match e.value {
            Some(value) => done(e.st, Some(value)),
            None => fail(e.st),
        }
    }
}

/// The three clauses of a `for` and the parentheses around them.
pub open spec fn for_clauses(st: PS) -> PR<(Option<StmtV>, Option<ExprV>, Option<ExprV>)> {
    let open = consume(st, TokenType::LeftParen, "Expected '(' after 'for'."@);
    match open.value {
        Some(_) => {
            let init = for_initializer(open.st);
            match init.value {
                Some(i) => {
                    let cond = for_clause(init.st, TokenType::Semicolon);
                    match cond.value {
                        Some(c) => {
                            let semi = consume(
                                cond.st,
                                TokenType::Semicolon,
                                "Expected ';' after loop condition"@,
                            );
                            match semi.value {
                                Some(_) => {
                                    let inc = for_clause(semi.st, TokenType::RightParen);
                                    match inc.value {
                                        Some(n) => {
                                            let close = consume(
                                                inc.st,
                                                TokenType::RightParen,
                                                "Expected ')' after for clauses."@,
                                            );
                                            match close.value {
                                                Some(_) => done(close.st, (i, c, n)),
                                                None => fail(close.st),
                                            }
                                        },
                                        None => fail(inc.st),
                                    }
                                },
                                None => fail(semi.st),
                            }
                        },
                        None => fail(cond.st),
                    }
                },
                None => fail(init.st),
            }
        },
        None => fail(open.st),
    }
}

/// The loop that a `for` stands for: the body and the increment in a block,
/// under a `while` with the condition, or with `true` where there is none,
/// after the initializer in a block of their own.
pub open spec fn desugar(
    init: Option<StmtV>,
    cond: Option<ExprV>,
    increment: Option<ExprV>,
    body: StmtV,
) -> StmtV {
    let inner = match increment {
        Some(inc) => StmtV::Block(seq![body, StmtV::Expr(inc)]),
        None => body,
    };
    let test = match cond {
        Some(c) => c,
        None => ExprV::Literal(Literal::Boolean(true)),
    };
    let looped = StmtV::While(test, Box::new(inner));
    match init {
        Some(i) => StmtV::Block(seq![i, looped]),
        None => looped,
    }
}

/// An `if`, whose keyword was taken: the condition, a statement, and
/// another after `else`, which belongs to the nearest `if`.
pub open spec fn if_statement(st: PS) -> PR<StmtV>
    decreases st.ts.len(), 0nat,
{
    let c = condition(st, "Expected '(' after if"@, "Expected ')' after condition"@);
    match c.value {
        Some(cond) if c.st.ts.len() < st.ts.len() => {
            let t = statement(c.st);
            match t.value {
                Some(then) => if check(t.st.ts, TokenType::Else) && t.st.ts.len() <= st.ts.len() {
                    let e = statement(skip(t.st));
                    match e.value {
                        Some(other) => done(
                            e.st,
                            StmtV::If(cond, Box::new(then), Some(Box::new(other))),
                        ),
                        None => fail(e.st),
                    }
                } else {
                    done(t.st, StmtV::If(cond, Box::new(then), None))
                },
                None => fail(t.st),
            }
        },
        _ => fail(c.st),
    }
}

/// A `while`, whose keyword was taken: the condition and the body.
pub open spec fn while_statement(st: PS) -> PR<StmtV>
    decreases st.ts.len(), 0nat,
{
    let c = condition(st, "Expected '(' after while"@, "Expected ')' after condition"@);
    match c.value {
        Some(cond) if c.st.ts.len() < st.ts.len() => {
            let b = statement(c.st);
            match b.value {
                Some(body) => done(b.st, StmtV::While(cond, Box::new(body))),
                None => fail(b.st),
            }
        },
        _ => fail(c.st),
    }
}

/// A `for`, whose keyword was taken: the clauses and the body, made into
/// the loop that they stand for.
pub open spec fn for_statement(st: PS) -> PR<StmtV>
    decreases st.ts.len(), 0nat,
{
    let c = for_clauses(st);
    match c.value {
        Some((init, cond, increment)) if c.st.ts.len() < st.ts.len() => {
            let b = statement(c.st);
            match b.value {
                Some(body) => done(b.st, desugar(init, cond, increment, body)),
                None => fail(b.st),
            }
        },
        _ => fail(c.st),
    }
}

/// A statement, told by its first token; an expression statement where
/// the token begins no other.
pub open spec fn statement(st: PS) -> PR<StmtV>
    decreases st.ts.len(), 1nat,
{
    if check(st.ts, TokenType::Print) {
        print_statement(skip(st))
    } else if check(st.ts, TokenType::LeftBrace) {
        block(skip(st), Seq::empty())
    } else if check(st.ts, TokenType::If) {
        if_statement(skip(st))
    } else if check(st.ts, TokenType::While) {
        while_statement(skip(st))
    } else if check(st.ts, TokenType::For) {
        for_statement(skip(st))
    } else if check(st.ts, TokenType::Break) {
        break_statement(skip(st), st.ts[0].line)
    } else {
        expression_statement(st)
    }
}

/// The declarations of a block after those in `before`, up to its closing brace.
pub open spec fn block(st: PS, before: Seq<StmtV>) -> PR<StmtV>
    decreases st.ts.len(), 3nat,
{
    if st.ts.len() > 0 && !check(st.ts, TokenType::RightBrace) {
        let d = declaration(st);
        match d.value {
            Some(s) if d.st.ts.len() < st.ts.len() => block(d.st, before.push(s)),
            _ => fail(d.st),
        }
    } else {
        let close = consume(st, TokenType::RightBrace, "Expected '}' ater block."@);
        match close.value {
            Some(_) => done(close.st, StmtV::Block(before)),
            None => fail(close.st),
        }
    }
}

/// A declaration or a statement; after an error, the tokens up to the place
/// where parsing can resume are given up.
pub open spec fn declaration(st: PS) -> PR<StmtV>
    decreases st.ts.len(), 2nat,
{
    let r = if check(st.ts, TokenType::Var) {
        var_declaration(skip(st))
    } else {
        statement(st)
    };
    match r.value {
        Some(_) => r,
        None => fail(PS { ts: synchronize(r.st.ts), ..r.st }),
    }
}

/// The declarations up to the end of the tokens, after those in `before`;
/// `sound` says whether all before were made without error. Nothing is made
/// unless every declaration is.
pub open spec fn program(st: PS, before: Seq<StmtV>, sound: bool) -> PR<Seq<StmtV>>
    decreases st.ts.len(),
{
    if st.ts.len() == 0 || check(st.ts, TokenType::Eof) {
        let end = if st.ts.len() == 0 {
            st
        } else {
            skip(st)
        };
        if sound {
            done(end, before)
        } else {
            fail(end)
        }
    } else {
        let d = declaration(st);
        if d.st.ts.len() < st.ts.len() {
            match d.value {
                Some(s) => program(d.st, before.push(s), sound),
                None => program(d.st, before, false),
            }
        } else {
            fail(d.st)
        }
    }
}

/// What a parsing function for statements returned, as the contracts see it.
pub open spec fn stated(r: Result<Stmt, ParserError>) -> Option<StmtV> {
    match r {
        Ok(s) => Some(s.view()),
        Err(_) => None,
    }
}

/// What a parsing function returned, as the contracts see it.
pub open spec fn made(r: Result<Expr, ParserError>) -> Option<ExprV> {
    match r {
        Ok(e) => Some(e.view()),
        Err(_) => None,
    }
}

impl Level {
    /// Whether a token of type `t` is an operator of this level.
    fn has(&self, t: &TokenType) -> (r: bool)
        ensures
            r == is_operator(*self, *t),
    {
        match self {
            Level::Comma => matches!(t, TokenType::Comma),
            Level::Or => matches!(t, TokenType::Or),
            Level::And => matches!(t, TokenType::And),
            Level::Equality => matches!(t, TokenType::BangEqual | TokenType::EqualEqual),
            Level::Comparison => matches!(
                t,
                TokenType::Less | TokenType::LessEqual | TokenType::Greater
                    | TokenType::GreaterEqual
            ),
            Level::Addition => matches!(t, TokenType::Plus | TokenType::Minus),
            Level::Multiplication => matches!(t, TokenType::Star | TokenType::Slash),
        }
    }
}

/// Turns a sequence of tokens into statements.
pub struct Parser {
    tokens: VecDeque<Token>,
    previous: Option<Token>,
}

impl Parser {
    /// The tokens still to be read.
    pub closed spec fn remaining(&self) -> Seq<Token> {
        self.tokens@
    }

    /// The parser beside the reporter that it writes to.
    pub open spec fn state(&self, err_rep: &ErrorReporter) -> PS {
        PS { ts: self.remaining(), diags: err_rep@ }
    }

    /// A parser for `tokens`.
    pub fn new(tokens: Vec<Token>) -> (p: Parser)
        ensures
            p.remaining() == tokens@,
    {
        let mut tokens = tokens;
        let ghost all = tokens@;
        let mut queue: VecDeque<Token> = VecDeque::new();
        while tokens.len() > 0
            invariant
                tokens@ + queue@ == all,
            decreases tokens.len(),
        {
            let ghost before = tokens@;
            let ghost queued = queue@;
            if let Some(t) = tokens.pop() {
                queue.push_front(t);
                assert(tokens@ + queue@ =~= before + queued);
            }
        }
        assert(queue@ =~= all);
        Parser { tokens: queue, previous: None }
    }

    fn is_at_end(&self) -> (r: bool)
        ensures
            r == (self.tokens@.len() == 0),
    {
        self.tokens.len() == 0
    }

    fn peek(&self) -> (r: Option<&Token>)
        ensures
            match r {
                Some(t) => self.tokens@.len() > 0 && *t == self.tokens@[0],
                None => self.tokens@.len() == 0,
            },
    {
        if self.tokens.len() > 0 {
            Some(&self.tokens[0])
        } else {
            None
        }
    }

    /// Takes the next token, if there is one, and keeps it as the previous one.
    fn advance(&mut self)
        ensures
            old(self).tokens@.len() > 0 ==> final(self).tokens@ == rest(old(self).tokens@)
                && final(self).previous == Some(old(self).tokens@[0]),
            old(self).tokens@.len() == 0 ==> final(self).tokens@ == old(self).tokens@
                && final(self).previous is None,
    {
        self.previous = self.tokens.pop_front();
    }

    /// Gives up the token that was taken last.
    fn previous(&mut self) -> (t: Token)
        requires
            old(self).previous is Some,
        ensures
            t == old(self).previous->0,
            final(self).tokens == old(self).tokens,
    {
        self.previous.take().unwrap()
    }

    fn check(&self, ty: &TokenType) -> (r: bool)
        ensures
            r == check(self.tokens@, *ty),
    {
        if let Some(x) = self.peek() {
            return ty.same(x.get_type());
        }
        false
    }

    /// Takes the next token if it is of type `ty`.
    fn curr_match(&mut self, ty: &TokenType) -> (r: bool)
        ensures
            r == check(old(self).tokens@, *ty),
            r ==> final(self).tokens@ == rest(old(self).tokens@) && final(self).previous == Some(
                old(self).tokens@[0],
            ),
            !r ==> final(self).tokens@ == old(self).tokens@,
    {
        if self.check(ty) {
            self.advance();
            return true;
        }
        false
    }

    /// Takes the next token if it is an operator of `level`.
    fn match_operator(&mut self, level: Level) -> (r: bool)
        ensures
            r == (old(self).tokens@.len() > 0 && is_operator(
                level,
                old(self).tokens@[0].t_type,
            )),
            r ==> final(self).tokens@ == rest(old(self).tokens@) && final(self).previous == Some(
                old(self).tokens@[0],
            ),
            !r ==> final(self).tokens@ == old(self).tokens@,
    {
        if let Some(x) = self.peek() {
            if level.has(x.get_type()) {
                self.advance();
                return true;
            }
        }
        false
    }

    fn is_ident(&mut self) -> (r: bool)
        ensures
            r == check(old(self).tokens@, TokenType::Identifier),
            r ==> final(self).tokens@ == rest(old(self).tokens@) && final(self).previous == Some(
                old(self).tokens@[0],
            ),
            !r ==> final(self).tokens@ == old(self).tokens@,
    {
        self.curr_match(&TokenType::Identifier)
    }

    fn is_literal(&mut self) -> (r: bool)
        ensures
            r == (old(self).tokens@.len() > 0 && old(self).tokens@[0].t_type is Literal),
            r ==> final(self).tokens@ == rest(old(self).tokens@) && final(self).previous == Some(
                old(self).tokens@[0],
            ),
            !r ==> final(self).tokens@ == old(self).tokens@,
    {
        if let Some(x) = self.peek() {
            if let TokenType::Literal(_) = x.get_type() {
                self.advance();
                return true;
            }
        }
        false
    }

    /// Reports `msg` at `token`.
    fn error(&self, err_rep: &mut ErrorReporter, token: &Token, msg: &str)
        ensures
            final(err_rep)@ == error_at(old(err_rep)@, *token, msg@),
    {
        if let TokenType::Eof = token.get_type() {
            err_rep.report(token.get_line(), "at end", msg)
        } else {
            err_rep.report(token.get_line(), token.get_lexeme(), msg)
        }
    }

    /// Reports `msg` at the next token.
    fn error_here(&self, err_rep: &mut ErrorReporter, msg: &str)
        ensures
            final(err_rep)@ == error_here(self.state(old(err_rep)), msg@),
    {
        if let Some(t) = self.peek() {
            self.error(err_rep, t, msg)
        } else {
            err_rep.report(0, "at end", msg)
        }
    }

    fn consume(&mut self, err_rep: &mut ErrorReporter, ty: TokenType, msg: &str) -> (r: Result<
        Token,
        ParserError,
    >)
        ensures
            consume(old(self).state(old(err_rep)), ty, msg@) == (PR {
                st: final(self).state(final(err_rep)),
                value: match r {
                    Ok(t) => Some(t),
                    Err(_) => None,
                },
            }),
            final(self).tokens@.len() <= old(self).tokens@.len(),
            r is Ok ==> final(self).tokens@.len() < old(self).tokens@.len(),
    {
        if self.check(&ty) {
            self.advance();
            Ok(self.previous())
        } else {
            self.error_here(err_rep, msg);
            Err(ParserError)
        }
    }

    fn expression(&mut self, err_rep: &mut ErrorReporter) -> (r: Result<Expr, ParserError>)
        ensures
            expression(old(self).state(old(err_rep))) == (PR {
                st: final(self).state(final(err_rep)),
                value: made(r),
            }),
            final(self).tokens@.len() <= old(self).tokens@.len(),
            r is Ok ==> final(self).tokens@.len() < old(self).tokens@.len(),
        decreases old(self).tokens@.len(), 17nat, 0nat,
    {
        self.comma(err_rep)
    }

    fn comma(&mut self, err_rep: &mut ErrorReporter) -> (r: Result<Expr, ParserError>)
        ensures
            infix(old(self).state(old(err_rep)), Level::Comma) == (PR {
                st: final(self).state(final(err_rep)),
                value: made(r),
            }),
            final(self).tokens@.len() <= old(self).tokens@.len(),
            r is Ok ==> final(self).tokens@.len() < old(self).tokens@.len(),
        decreases old(self).tokens@.len(), 16nat, 4nat,
    {
        self.match_left_asoc(err_rep, Level::Comma)
    }

    fn logic_or(&mut self, err_rep: &mut ErrorReporter) -> (r: Result<Expr, ParserError>)
        ensures
            infix(old(self).state(old(err_rep)), Level::Or) == (PR {
                st: final(self).state(final(err_rep)),
                value: made(r),
            }),
            final(self).tokens@.len() <= old(self).tokens@.len(),
            r is Ok ==> final(self).tokens@.len() < old(self).tokens@.len(),
        decreases old(self).tokens@.len(), 13nat, 4nat,
    {
        self.match_two_operand(err_rep, Level::Or)
    }

    fn logic_and(&mut self, err_rep: &mut ErrorReporter) -> (r: Result<Expr, ParserError>)
        ensures
            infix(old(self).state(old(err_rep)), Level::And) == (PR {
                st: final(self).state(final(err_rep)),
                value: made(r),
            }),
            final(self).tokens@.len() <= old(self).tokens@.len(),
            r is Ok ==> final(self).tokens@.len() < old(self).tokens@.len(),
        decreases old(self).tokens@.len(), 12nat, 4nat,
    {
        self.match_two_operand(err_rep, Level::And)
    }

    fn equality(&mut self, err_rep: &mut ErrorReporter) -> (r: Result<Expr, ParserError>)
        ensures
            infix(old(self).state(old(err_rep)), Level::Equality) == (PR {
                st: final(self).state(final(err_rep)),
                value: made(r),
            }),
            final(self).tokens@.len() <= old(self).tokens@.len(),
            r is Ok ==> final(self).tokens@.len() < old(self).tokens@.len(),
        decreases old(self).tokens@.len(), 11nat, 4nat,
    {
        self.match_left_asoc(err_rep, Level::Equality)
    }

    fn comparison(&mut self, err_rep: &mut ErrorReporter) -> (r: Result<Expr, ParserError>)
        ensures
            infix(old(self).state(old(err_rep)), Level::Comparison) == (PR {
                st: final(self).state(final(err_rep)),
                value: made(r),
            }),
            final(self).tokens@.len() <= old(self).tokens@.len(),
            r is Ok ==> final(self).tokens@.len() < old(self).tokens@.len(),
        decreases old(self).tokens@.len(), 10nat, 4nat,
    {
        self.match_left_asoc(err_rep, Level::Comparison)
    }

    fn addition(&mut self, err_rep: &mut ErrorReporter) -> (r: Result<Expr, ParserError>)
        ensures
            infix(old(self).state(old(err_rep)), Level::Addition) == (PR {
                st: final(self).state(final(err_rep)),
                value: made(r),
            }),
            final(self).tokens@.len() <= old(self).tokens@.len(),
            r is Ok ==> final(self).tokens@.len() < old(self).tokens@.len(),
        decreases old(self).tokens@.len(), 9nat, 4nat,
    {
        self.match_left_asoc(err_rep, Level::Addition)
    }

    fn multiplication(&mut self, err_rep: &mut ErrorReporter) -> (r: Result<Expr, ParserError>)
        ensures
            infix(old(self).state(old(err_rep)), Level::Multiplication) == (PR {
                st: final(self).state(final(err_rep)),
                value: made(r),
            }),
            final(self).tokens@.len() <= old(self).tokens@.len(),
            r is Ok ==> final(self).tokens@.len() < old(self).tokens@.len(),
        decreases old(self).tokens@.len(), 8nat, 4nat,
    {
        self.match_left_asoc(err_rep, Level::Multiplication)
    }

    /// A chain of operands joined by the operators of `level`, which make
    /// binary nodes.
    fn match_left_asoc(&mut self, err_rep: &mut ErrorReporter, level: Level) -> (r: Result<
        Expr,
        ParserError,
    >)
        ensures
            infix(old(self).state(old(err_rep)), level) == (PR {
                st: final(self).state(final(err_rep)),
                value: made(r),
            }),
            final(self).tokens@.len() <= old(self).tokens@.len(),
            r is Ok ==> final(self).tokens@.len() < old(self).tokens@.len(),
        decreases old(self).tokens@.len(), rank(level), 3nat,
    {
        self.match_two_operand(err_rep, level)
    }

    /// A chain of operands joined by the operators of `level`.
    fn match_two_operand(&mut self, err_rep: &mut ErrorReporter, level: Level) -> (r: Result<
        Expr,
        ParserError,
    >)
        ensures
            infix(old(self).state(old(err_rep)), level) == (PR {
                st: final(self).state(final(err_rep)),
                value: made(r),
            }),
            final(self).tokens@.len() <= old(self).tokens@.len(),
            r is Ok ==> final(self).tokens@.len() < old(self).tokens@.len(),
        decreases old(self).tokens@.len(), rank(level), 2nat,
    {
        let mut expr = match self.higher_precedence(err_rep, level) {
            Ok(e) => e,
            Err(e) => return Err(e),
        };
        loop
            invariant
                infix_rest(self.state(err_rep), level, expr.view()) == infix(
                    old(self).state(old(err_rep)),
                    level,
                ),
                self.tokens@.len() < old(self).tokens@.len(),
            ensures
                (PR { st: self.state(err_rep), value: Some(expr.view()) }) == infix(
                    old(self).state(old(err_rep)),
                    level,
                ),
                self.tokens@.len() < old(self).tokens@.len(),
            decreases self.tokens@.len(),
        {
            if !self.match_operator(level) {
                break ;
            }
            let op = self.previous();
            let right = match self.higher_precedence(err_rep, level) {
                Ok(e) => e,
                Err(e) => return Err(e),
            };
            expr = Self::combinator(level, expr, op, right);
        }
        Ok(expr)
    }

    /// The node that an operator of `level` makes of its operands.
    fn combinator(level: Level, left: Expr, op: Token, right: Expr) -> (e: Expr)
        ensures
            e.view() == combine(level, left.view(), op, right.view()),
    {
        match level {
            Level::Or | Level::And => Expr::Logical(Box::new(left), op, Box::new(right)),
            _ => Expr::Binary(Box::new(left), op, Box::new(right)),
        }
    }

    /// An operand of an operator of `level`: an expression of the next level.
    fn higher_precedence(&mut self, err_rep: &mut ErrorReporter, level: Level) -> (r: Result<
        Expr,
        ParserError,
    >)
        ensures
            operand(old(self).state(old(err_rep)), level) == (PR {
                st: final(self).state(final(err_rep)),
                value: made(r),
            }),
            final(self).tokens@.len() <= old(self).tokens@.len(),
            r is Ok ==> final(self).tokens@.len() < old(self).tokens@.len(),
        decreases old(self).tokens@.len(), rank(level), 0nat,
    {
        match level {
            Level::Comma => self.assignment(err_rep),
            Level::Or => self.logic_and(err_rep),
            Level::And => self.equality(err_rep),
            Level::Equality => self.comparison(err_rep),
            Level::Comparison => self.addition(err_rep),
            Level::Addition => self.multiplication(err_rep),
            Level::Multiplication => self.unary(err_rep),
        }
    }

    fn assignment(&mut self, err_rep: &mut ErrorReporter) -> (r: Result<Expr, ParserError>)
        ensures
            assignment(old(self).state(old(err_rep))) == (PR {
                st: final(self).state(final(err_rep)),
                value: made(r),
            }),
            final(self).tokens@.len() <= old(self).tokens@.len(),
            r is Ok ==> final(self).tokens@.len() < old(self).tokens@.len(),
        decreases old(self).tokens@.len(), 15nat, 0nat,
    {
        let expr = match self.ternary(err_rep) {
            Ok(e) => e,
            Err(e) => return Err(e),
        };
        if self.curr_match(&TokenType::Equal) {
            let equals = self.previous();
            let value = match self.assignment(err_rep) {
                Ok(e) => e,
                Err(e) => return Err(e),
            };
            if let Expr::Var(nm) = expr {
                let lval = Expr::Assignment(nm, Box::new(value));
                return Ok(lval);
            }
            self.error(err_rep, &equals, "Invalid assignment target.");
        }
        Ok(expr)
    }

    fn ternary(&mut self, err_rep: &mut ErrorReporter) -> (r: Result<Expr, ParserError>)
        ensures
            ternary(old(self).state(old(err_rep))) == (PR {
                st: final(self).state(final(err_rep)),
                value: made(r),
            }),
            final(self).tokens@.len() <= old(self).tokens@.len(),
            r is Ok ==> final(self).tokens@.len() < old(self).tokens@.len(),
        decreases old(self).tokens@.len(), 14nat, 0nat,
    {
        let left = match self.logic_or(err_rep) {
            Ok(e) => e,
            Err(e) => return Err(e),
        };
        if self.curr_match(&TokenType::QuestionMark) {
            let tk = self.previous();
            let t_cond = match self.logic_or(err_rep) {
                Ok(e) => e,
                Err(e) => return Err(e),
            };
            if let Err(e) = self.consume(
                err_rep,
                TokenType::Colon,
                "Expected to find ':' after expr",
            ) {
                return Err(e);
            }
            let f_cond = match self.ternary(err_rep) {
                Ok(e) => e,
                Err(e) => return Err(e),
            };
            Ok(Expr::Ternary(tk, Box::new(left), Box::new(t_cond), Box::new(f_cond)))
        } else {
            Ok(left)
        }
    }

    /// Takes the next token if it is a prefix operator.
    fn match_prefix(&mut self) -> (r: bool)
        ensures
            r == (old(self).tokens@.len() > 0 && is_prefix(old(self).tokens@[0].t_type)),
            r ==> final(self).tokens@ == rest(old(self).tokens@) && final(self).previous == Some(
                old(self).tokens@[0],
            ),
            !r ==> final(self).tokens@ == old(self).tokens@,
    {
        if let Some(x) = self.peek() {
            if matches!(x.get_type(), TokenType::Bang | TokenType::Minus) {
                self.advance();
                return true;
            }
        }
        false
    }

    /// Takes the next token if it is a binary operator that cannot begin an
    /// expression.
    fn match_stray(&mut self) -> (r: bool)
        ensures
            r == (old(self).tokens@.len() > 0 && is_stray(old(self).tokens@[0].t_type)),
            r ==> final(self).tokens@ == rest(old(self).tokens@) && final(self).previous == Some(
                old(self).tokens@[0],
            ),
            !r ==> final(self).tokens@ == old(self).tokens@,
    {
        if let Some(x) = self.peek() {
            if matches!(
                x.get_type(),
                TokenType::EqualEqual | TokenType::BangEqual | TokenType::Plus
                    | TokenType::LessEqual | TokenType::Less | TokenType::GreaterEqual
                    | TokenType::Greater | TokenType::Star | TokenType::Slash
            ) {
                self.advance();
                return true;
            }
        }
        false
    }

    fn unary(&mut self, err_rep: &mut ErrorReporter) -> (r: Result<Expr, ParserError>)
        ensures
            unary(old(self).state(old(err_rep))) == (PR {
                st: final(self).state(final(err_rep)),
                value: made(r),
            }),
            final(self).tokens@.len() <= old(self).tokens@.len(),
            r is Ok ==> final(self).tokens@.len() < old(self).tokens@.len(),
        decreases old(self).tokens@.len(), 7nat, 0nat,
    {
        if self.match_prefix() {
            let op = self.previous();
            let right = match self.unary(err_rep) {
                Ok(e) => e,
                Err(e) => return Err(e),
            };
            Ok(Expr::Unary(op, Box::new(right)))
        } else if self.match_stray() {
            let op = self.previous();
            self.error(err_rep, &op, "Expression expected before binary operator");
            self.unary(err_rep)
        } else {
            self.call(err_rep)
        }
    }

    fn call(&mut self, err_rep: &mut ErrorReporter) -> (r: Result<Expr, ParserError>)
        ensures
            call(old(self).state(old(err_rep))) == (PR {
                st: final(self).state(final(err_rep)),
                value: made(r),
            }),
            final(self).tokens@.len() <= old(self).tokens@.len(),
            r is Ok ==> final(self).tokens@.len() < old(self).tokens@.len(),
        decreases old(self).tokens@.len(), 6nat, 0nat,
    {
        let mut expr = match self.primary(err_rep) {
            Ok(e) => e,
            Err(e) => return Err(e),
        };
        loop
            invariant
                calls(self.state(err_rep), expr.view()) == call(old(self).state(old(err_rep))),
                self.tokens@.len() < old(self).tokens@.len(),
            ensures
                (PR { st: self.state(err_rep), value: Some(expr.view()) }) == call(
                    old(self).state(old(err_rep)),
                ),
                self.tokens@.len() < old(self).tokens@.len(),
            decreases self.tokens@.len(),
        {
            if !self.curr_match(&TokenType::LeftParen) {
                break ;
            }
            expr = match self.finish_call(err_rep, expr) {
                Ok(e) => e,
                Err(e) => return Err(e),
            };
        }
        Ok(expr)
    }

    fn finish_call(&mut self, err_rep: &mut ErrorReporter, expr: Expr) -> (r: Result<
        Expr,
        ParserError,
    >)
        ensures
            finish_call(old(self).state(old(err_rep)), expr.view()) == (PR {
                st: final(self).state(final(err_rep)),
                value: made(r),
            }),
            final(self).tokens@.len() <= old(self).tokens@.len(),
            r is Ok ==> final(self).tokens@.len() < old(self).tokens@.len(),
        decreases old(self).tokens@.len(), 21nat, 0nat,
    {
        let mut args: Vec<Expr> = Vec::new();
        if !self.check(&TokenType::RightParen) {
            args = match self.arguments(err_rep, args) {
                Ok(a) => a,
                Err(e) => return Err(e),
            };
        }
        let token = match self.consume(
            err_rep,
            TokenType::RightParen,
            "Expected ')' after arguments.",
        ) {
            Ok(t) => t,
            Err(e) => return Err(e),
        };
        Ok(Expr::Call(Box::new(expr), token, args))
    }

    /// The arguments of a call after those in `before`, separated by commas.
    fn arguments(&mut self, err_rep: &mut ErrorReporter, before: Vec<Expr>) -> (r: Result<
        Vec<Expr>,
        ParserError,
    >)
        ensures
            arguments(old(self).state(old(err_rep)), expr_views(before@, before@.len())) == (PR {
                st: final(self).state(final(err_rep)),
                value: match r {
                    Ok(v) => Some(expr_views(v@, v@.len())),
                    Err(_) => None,
                },
            }),
            final(self).tokens@.len() <= old(self).tokens@.len(),
            r is Ok ==> final(self).tokens@.len() < old(self).tokens@.len(),
        decreases old(self).tokens@.len(), 20nat, 0nat,
    {
        let mut args = before;
        if args.len() >= 8 {
            self.error_here(err_rep, "Cannot have more than 8 arguments.");
        }
        proof {
            lemma_expr_views_len(before@, before@.len());
        }
        let arg = match self.assignment(err_rep) {
            Ok(e) => e,
            Err(e) => return Err(e),
        };
        args.push(arg);
        proof {
            lemma_expr_views_push(before@, arg);
        }
        if self.curr_match(&TokenType::Comma) {
            self.arguments(err_rep, args)
        } else {
            Ok(args)
        }
    }

    fn primary(&mut self, err_rep: &mut ErrorReporter) -> (r: Result<Expr, ParserError>)
        ensures
            primary(old(self).state(old(err_rep))) == (PR {
                st: final(self).state(final(err_rep)),
                value: made(r),
            }),
            final(self).tokens@.len() <= old(self).tokens@.len(),
            r is Ok ==> final(self).tokens@.len() < old(self).tokens@.len(),
        decreases old(self).tokens@.len(), 5nat, 0nat,
    {
        if self.is_literal() {
            let token = self.previous();
            if let TokenType::Literal(lt) = token.t_type {
                return Ok(Expr::Literal(lt));
            }
        }
        if self.is_ident() {
            return Ok(Expr::Var(self.previous()));
        }
        if self.curr_match(&TokenType::LeftParen) {
            let expr = match self.expression(err_rep) {
                Ok(e) => e,
                Err(e) => return Err(e),
            };
            if let Err(e) = self.consume(err_rep, TokenType::RightParen, "Expected ')' after expr") {
                return Err(e);
            }
            return Ok(Expr::Grouping(Box::new(expr)));
        }
        self.error_here(err_rep, "Unexpected token");
        Err(ParserError)
    }

    /// Gives up tokens until parsing can resume.
    fn synchronize(&mut self)
        ensures
            final(self).tokens@ == synchronize(old(self).tokens@),
            final(self).tokens@.len() <= old(self).tokens@.len(),
            old(self).tokens@.len() > 0 ==> final(self).tokens@.len() < old(self).tokens@.len(),
    {
        if self.tokens.len() == 0 {
            return ;
        }
        self.advance();
        while self.tokens.len() > 0
            invariant
                self.previous is Some,
                resume(self.tokens@, self.previous->0) == synchronize(old(self).tokens@),
                self.tokens@.len() < old(self).tokens@.len(),
            decreases self.tokens@.len(),
        {
            if let Some(y) = &self.previous {
                if let TokenType::Semicolon = y.get_type() {
                    return ;
                }
            }
            match self.tokens[0].get_type() {
                TokenType::Class
                | TokenType::Fun
                | TokenType::Var
                | TokenType::For
                | TokenType::If
                | TokenType::While
                | TokenType::Print
                | TokenType::Return => return ,
                _ => (),
            }
            self.advance();
        }
    }

    /// Closes the statement `made` with its semicolon.
    fn terminated(&mut self, err_rep: &mut ErrorReporter, msg: &str, made: Stmt) -> (r: Result<
        Stmt,
        ParserError,
    >)
        ensures
            terminated(old(self).state(old(err_rep)), msg@, made.view()) == (PR {
                st: final(self).state(final(err_rep)),
                value: stated(r),
            }),
            final(self).tokens@.len() <= old(self).tokens@.len(),
            r is Ok ==> final(self).tokens@.len() < old(self).tokens@.len(),
    {
        match self.consume(err_rep, TokenType::Semicolon, msg) {
            Ok(_) => Ok(made),
            Err(e) => Err(e),
        }
    }

    fn print_statement(&mut self, err_rep: &mut ErrorReporter) -> (r: Result<Stmt, ParserError>)
        ensures
            print_statement(old(self).state(old(err_rep))) == (PR {
                st: final(self).state(final(err_rep)),
                value: stated(r),
            }),
            final(self).tokens@.len() <= old(self).tokens@.len(),
            r is Ok ==> final(self).tokens@.len() < old(self).tokens@.len(),
    {
        let value = match self.expression(err_rep) {
            Ok(e) => e,
            Err(e) => return Err(e),
        };
        self.terminated(err_rep, "Expected ';' after value", Stmt::Print(value))
    }

    fn expression_statement(&mut self, err_rep: &mut ErrorReporter) -> (r: Result<
        Stmt,
        ParserError,
    >)
        ensures
            expression_statement(old(self).state(old(err_rep))) == (PR {
                st: final(self).state(final(err_rep)),
                value: stated(r),
            }),
            final(self).tokens@.len() <= old(self).tokens@.len(),
            r is Ok ==> final(self).tokens@.len() < old(self).tokens@.len(),
    {
        let value = match self.expression(err_rep) {
            Ok(e) => e,
            Err(e) => return Err(e),
        };
        self.terminated(err_rep, "Expected ';' after value", Stmt::Expr(value))
    }

    fn break_statement(&mut self, err_rep: &mut ErrorReporter) -> (r: Result<Stmt, ParserError>)
        requires
            old(self).previous is Some,
        ensures
            break_statement(old(self).state(old(err_rep)), old(self).previous->0.line) == (PR {
                st: final(self).state(final(err_rep)),
                value: stated(r),
            }),
            final(self).tokens@.len() <= old(self).tokens@.len(),
    {
        let line = self.previous().get_line();
        self.terminated(err_rep, "Expected ';' after break.", Stmt::Break(line))
    }

    fn var_declaration(&mut self, err_rep: &mut ErrorReporter) -> (r: Result<Stmt, ParserError>)
        ensures
            var_declaration(old(self).state(old(err_rep))) == (PR {
                st: final(self).state(final(err_rep)),
                value: stated(r),
            }),
            final(self).tokens@.len() <= old(self).tokens@.len(),
            r is Ok ==> final(self).tokens@.len() < old(self).tokens@.len(),
    {
        let name = match self.consume(err_rep, TokenType::Identifier, "Expected variable name.") {
            Ok(t) => t,
            Err(e) => return Err(e),
        };
        let mut init = None;
        if self.curr_match(&TokenType::Equal) {
            init = match self.expression(err_rep) {
                Ok(e) => Some(e),
                Err(e) => return Err(e),
            };
        }
        self.terminated(
            err_rep,
            "Expected ';' after the variable declaration",
            Stmt::Var(name, init),
        )
    }

    /// A condition in parentheses; `opening` and `closing` are the messages
    /// for a missing parenthesis.
    fn condition(&mut self, err_rep: &mut ErrorReporter, opening: &str, closing: &str) -> (r:
        Result<Expr, ParserError>)
        ensures
            condition(old(self).state(old(err_rep)), opening@, closing@) == (PR {
                st: final(self).state(final(err_rep)),
                value: made(r),
            }),
            final(self).tokens@.len() <= old(self).tokens@.len(),
            r is Ok ==> final(self).tokens@.len() < old(self).tokens@.len(),
    {
        if let Err(e) = self.consume(err_rep, TokenType::LeftParen, opening) {
            return Err(e);
        }
        let cond = match self.expression(err_rep) {
            Ok(e) => e,
            Err(e) => return Err(e),
        };
        match self.consume(err_rep, TokenType::RightParen, closing) {
            Ok(_) => Ok(cond),
            Err(e) => Err(e),
        }
    }

    fn while_statement(&mut self, err_rep: &mut ErrorReporter) -> (r: Result<Stmt, ParserError>)
        ensures
            while_statement(old(self).state(old(err_rep))) == (PR {
                st: final(self).state(final(err_rep)),
                value: stated(r),
            }),
            final(self).tokens@.len() <= old(self).tokens@.len(),
            r is Ok ==> final(self).tokens@.len() < old(self).tokens@.len(),
        decreases old(self).tokens@.len(), 0nat,
    {
        let cond = match self.condition(
            err_rep,
            "Expected '(' after while",
            "Expected ')' after condition",
        ) {
            Ok(e) => e,
            Err(e) => return Err(e),
        };
        let then = match self.statement(err_rep) {
            Ok(s) => s,
            Err(e) => return Err(e),
        };
        Ok(Stmt::While(Box::new(cond), Box::new(then)))
    }

    fn if_statement(&mut self, err_rep: &mut ErrorReporter) -> (r: Result<Stmt, ParserError>)
        ensures
            if_statement(old(self).state(old(err_rep))) == (PR {
                st: final(self).state(final(err_rep)),
                value: stated(r),
            }),
            final(self).tokens@.len() <= old(self).tokens@.len(),
            r is Ok ==> final(self).tokens@.len() < old(self).tokens@.len(),
        decreases old(self).tokens@.len(), 0nat,
    {
        let cond = match self.condition(
            err_rep,
            "Expected '(' after if",
            "Expected ')' after condition",
        ) {
            Ok(e) => e,
            Err(e) => return Err(e),
        };
        let then = match self.statement(err_rep) {
            Ok(s) => s,
            Err(e) => return Err(e),
        };
        let otherwise = if self.curr_match(&TokenType::Else) {
            match self.statement(err_rep) {
                Ok(s) => Some(s),
                Err(e) => return Err(e),
            }
        } else {
            None
        };
        Ok(Stmt::If(Box::new(cond), Box::new(then), Box::new(otherwise)))
    }

    /// The first clause of a `for`.
    fn for_initializer(&mut self, err_rep: &mut ErrorReporter) -> (r: Result<
        Option<Stmt>,
        ParserError,
    >)
        ensures
            for_initializer(old(self).state(old(err_rep))) == (PR {
                st: final(self).state(final(err_rep)),
                value: match r {
                    Ok(Some(s)) => Some(Some(s.view())),
                    Ok(None) => Some(None),
                    Err(_) => None,
                },
            }),
            final(self).tokens@.len() <= old(self).tokens@.len(),
    {
        if self.curr_match(&TokenType::Semicolon) {
            Ok(None)
        } else if self.curr_match(&TokenType::Var) {
            match self.var_declaration(err_rep) {
                Ok(s) => Ok(Some(s)),
                Err(e) => Err(e),
            }
        } else {
            match self.expression_statement(err_rep) {
                Ok(s) => Ok(Some(s)),
                Err(e) => Err(e),
            }
        }
    }

    /// A later clause of a `for`, which a token of type `closer` ends.
    fn for_clause(&mut self, err_rep: &mut ErrorReporter, closer: TokenType) -> (r: Result<
        Option<Expr>,
        ParserError,
    >)
        ensures
            for_clause(old(self).state(old(err_rep)), closer) == (PR {
                st: final(self).state(final(err_rep)),
                value: match r {
                    Ok(Some(e)) => Some(Some(e.view())),
                    Ok(None) => Some(None),
                    Err(_) => None,
                },
            }),
            final(self).tokens@.len() <= old(self).tokens@.len(),
    {
        if !self.check(&closer) {
            match self.expression(err_rep) {
                Ok(e) => Ok(Some(e)),
                Err(e) => Err(e),
            }
        } else {
            Ok(None)
        }
    }

    fn for_statement(&mut self, err_rep: &mut ErrorReporter) -> (r: Result<Stmt, ParserError>)
        ensures
            for_statement(old(self).state(old(err_rep))) == (PR {
                st: final(self).state(final(err_rep)),
                value: stated(r),
            }),
            final(self).tokens@.len() <= old(self).tokens@.len(),
            r is Ok ==> final(self).tokens@.len() < old(self).tokens@.len(),
        decreases old(self).tokens@.len(), 0nat,
    {
        if let Err(e) = self.consume(err_rep, TokenType::LeftParen, "Expected '(' after 'for'.") {
            return Err(e);
        }
        let init = match self.for_initializer(err_rep) {
            Ok(i) => i,
            Err(e) => return Err(e),
        };
        let cond = match self.for_clause(err_rep, TokenType::Semicolon) {
            Ok(c) => c,
            Err(e) => return Err(e),
        };
        if let Err(e) = self.consume(
            err_rep,
            TokenType::Semicolon,
            "Expected ';' after loop condition",
        ) {
            return Err(e);
        }
        let increment = match self.for_clause(err_rep, TokenType::RightParen) {
            Ok(c) => c,
            Err(e) => return Err(e),
        };
        if let Err(e) = self.consume(
            err_rep,
            TokenType::RightParen,
            "Expected ')' after for clauses.",
        ) {
            return Err(e);
        }
        let body = match self.statement(err_rep) {
            Ok(s) => s,
            Err(e) => return Err(e),
        };
        Ok(Self::desugar(init, cond, increment, body))
    }

    /// The two statements in a list.
    fn pair(first: Stmt, second: Stmt) -> (both: Vec<Stmt>)
        ensures
            crate::syntax::stmt_views(both@, both@.len()) == seq![first.view(), second.view()],
    {
        let mut both: Vec<Stmt> = Vec::new();
        both.push(first);
        proof {
            crate::syntax::lemma_stmt_views_push(Seq::empty(), first);
            assert(both@ =~= Seq::<Stmt>::empty().push(first));
        }
        both.push(second);
        proof {
            crate::syntax::lemma_stmt_views_push(seq![first], second);
            assert(both@ =~= seq![first].push(second));
            assert(seq![first] =~= Seq::<Stmt>::empty().push(first));
            assert(crate::syntax::stmt_views(both@, both@.len()) =~= seq![
                first.view(),
                second.view(),
            ]);
        }
        both
    }

    /// The loop that a `for` with these clauses and this body stands for.
    fn desugar(init: Option<Stmt>, cond: Option<Expr>, increment: Option<Expr>, body: Stmt) -> (s:
        Stmt)
        ensures
            s.view() == desugar(
                match init {
                    Some(i) => Some(i.view()),
                    None => None,
                },
                match cond {
                    Some(c) => Some(c.view()),
                    None => None,
                },
                match increment {
                    Some(n) => Some(n.view()),
                    None => None,
                },
                body.view(),
            ),
    {
        let ghost inner_view = if increment is Some {
            StmtV::Block(seq![body.view(), StmtV::Expr(increment->0.view())])
        } else {
            body.view()
        };
        let inner = if let Some(increment) = increment {
            Stmt::Block(Self::pair(body, Stmt::Expr(increment)))
        } else {
            body
        };
        assert(inner.view() == inner_view);
        let test = match cond {
            Some(c) => c,
            None => Expr::Literal(Literal::Boolean(true)),
        };
        let wstmt = Stmt::While(Box::new(test), Box::new(inner));
        assert(wstmt.view() == StmtV::While(test.view(), Box::new(inner_view)));
        if let Some(init) = init {
            let full = Stmt::Block(Self::pair(init, wstmt));
            assert(full.view() == StmtV::Block(seq![init.view(), wstmt.view()]));
            full
        } else {
            wstmt
        }
    }

    fn statement(&mut self, err_rep: &mut ErrorReporter) -> (r: Result<Stmt, ParserError>)
        ensures
            statement(old(self).state(old(err_rep))) == (PR {
                st: final(self).state(final(err_rep)),
                value: stated(r),
            }),
            final(self).tokens@.len() <= old(self).tokens@.len(),
            r is Ok ==> final(self).tokens@.len() < old(self).tokens@.len(),
        decreases old(self).tokens@.len(), 1nat,
    {
        if self.curr_match(&TokenType::Print) {
            self.print_statement(err_rep)
        } else if self.curr_match(&TokenType::LeftBrace) {
            self.block(err_rep)
        } else if self.curr_match(&TokenType::If) {
            self.if_statement(err_rep)
        } else if self.curr_match(&TokenType::While) {
            self.while_statement(err_rep)
        } else if self.curr_match(&TokenType::For) {
            self.for_statement(err_rep)
        } else if self.curr_match(&TokenType::Break) {
            self.break_statement(err_rep)
        } else {
            self.expression_statement(err_rep)
        }
    }

    fn block(&mut self, err_rep: &mut ErrorReporter) -> (r: Result<Stmt, ParserError>)
        ensures
            block(old(self).state(old(err_rep)), Seq::empty()) == (PR {
                st: final(self).state(final(err_rep)),
                value: stated(r),
            }),
            final(self).tokens@.len() <= old(self).tokens@.len(),
        decreases old(self).tokens@.len(), 3nat,
    {
        let mut statements: Vec<Stmt> = Vec::new();
        while !self.check(&TokenType::RightBrace) && !self.is_at_end()
            invariant
                block(self.state(err_rep), crate::syntax::stmt_views(statements@, statements@.len()))
                    == block(old(self).state(old(err_rep)), Seq::empty()),
                self.tokens@.len() <= old(self).tokens@.len(),
            decreases self.tokens@.len(),
        {
            let ghost before = statements@;
            match self.declaration(err_rep) {
                Ok(s) => {
                    statements.push(s);
                    proof {
                        crate::syntax::lemma_stmt_views_push(before, s);
                    }
                },
                Err(e) => return Err(e),
            }
        }
        match self.consume(err_rep, TokenType::RightBrace, "Expected '}' ater block.") {
            Ok(_) => Ok(Stmt::Block(statements)),
            Err(e) => Err(e),
        }
    }

    fn declaration(&mut self, err_rep: &mut ErrorReporter) -> (r: Result<Stmt, ParserError>)
        ensures
            declaration(old(self).state(old(err_rep))) == (PR {
                st: final(self).state(final(err_rep)),
                value: stated(r),
            }),
            final(self).tokens@.len() <= old(self).tokens@.len(),
            r is Ok ==> final(self).tokens@.len() < old(self).tokens@.len(),
            old(self).tokens@.len() > 0 ==> final(self).tokens@.len() < old(self).tokens@.len(),
        decreases old(self).tokens@.len(), 2nat,
    {
        let res = if self.curr_match(&TokenType::Var) {
            self.var_declaration(err_rep)
        } else {
            self.statement(err_rep)
        };
        if res.is_err() {
            self.synchronize();
        }
        res
    }

    /// Parses the tokens to their end. Every syntax error is reported, and
    /// after each the parser goes on with the next statement that it can
    /// find; the statements are returned if there was no such error.
    pub fn parse(&mut self, err_rep: &mut ErrorReporter) -> (r: Result<Vec<Stmt>, ParserError>)
        ensures
            program(old(self).state(old(err_rep)), Seq::empty(), true) == (PR {
                st: final(self).state(final(err_rep)),
                value: match r {
                    Ok(stmts) => Some(crate::syntax::stmt_views(stmts@, stmts@.len())),
                    Err(_) => None,
                },
            }),
    {
        let mut stmts: Vec<Stmt> = Vec::new();
        let mut sound = true;
        while !self.is_at_end() && !self.check(&TokenType::Eof)
            invariant
                program(
                    self.state(err_rep),
                    crate::syntax::stmt_views(stmts@, stmts@.len()),
                    sound,
                ) == program(old(self).state(old(err_rep)), Seq::empty(), true),
            decreases self.tokens@.len(),
        {
            let ghost before = stmts@;
            match self.declaration(err_rep) {
                Ok(s) => {
                    stmts.push(s);
                    proof {
                        crate::syntax::lemma_stmt_views_push(before, s);
                    }
                },
                Err(_) => {
                    sound = false;
                },
            }
        }
        self.curr_match(&TokenType::Eof);
        if sound {
            Ok(stmts)
        } else {
            Err(ParserError)
        }
    }
}

} // verus!
