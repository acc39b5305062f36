use vstd::prelude::*;
use crate::parser::Level;
use crate::parser::PR;
use crate::parser::PS;
use crate::parser::arguments;
use crate::parser::assignment;
use crate::parser::begins_statement;
use crate::parser::block;
use crate::parser::call;
use crate::parser::calls;
use crate::parser::check;
use crate::parser::combine;
use crate::parser::condition;
use crate::parser::consume;
use crate::parser::declaration;
use crate::parser::error_at;
use crate::parser::error_here;
use crate::parser::expression;
use crate::parser::expression_statement;
use crate::parser::finish_call;
use crate::parser::for_clause;
use crate::parser::for_clauses;
use crate::parser::for_initializer;
use crate::parser::for_statement;
use crate::parser::if_statement;
use crate::parser::infix;
use crate::parser::infix_rest;
use crate::parser::is_operator;
use crate::parser::is_prefix;
use crate::parser::is_stray;
use crate::parser::operand;
use crate::parser::primary;
use crate::parser::print_statement;
use crate::parser::program;
use crate::parser::rank;
use crate::parser::rest;
use crate::parser::resume;
use crate::parser::skip;
use crate::parser::statement;
use crate::parser::synchronize;
use crate::parser::terminated;
use crate::parser::ternary;
use crate::parser::unary;
use crate::parser::var_declaration;
use crate::parser::while_statement;
use crate::syntax::ExprV;
use crate::syntax::StmtV;
use crate::tokens::Token;
use crate::tokens::TokenType;

verus! {

/// A parsing function that went from `st` to `r` read on without going back,
/// kept every diagnostic, and reported one if it made nothing.
pub open spec fn orderly<T>(st: PS, r: PR<T>) -> bool {
    &&& r.st.ts.len() <= st.ts.len()
    &&& r.st.diags.len() >= st.diags.len()
    &&& r.value is None ==> r.st.diags.len() > st.diags.len()
}

/// An orderly parsing function that took a token if it made something.
pub open spec fn taking<T>(st: PS, r: PR<T>) -> bool {
    &&& orderly(st, r)
    &&& r.value is Some ==> r.st.ts.len() < st.ts.len()
}

proof fn lemma_consume(st: PS, ty: TokenType, msg: Seq<char>)
    ensures
        taking(st, consume(st, ty, msg)),
{
}

proof fn lemma_operand(st: PS, level: Level)
    ensures
        taking(st, operand(st, level)),
    decreases st.ts.len(), rank(level), 0nat,
{
    match level {
        Level::Comma => lemma_assignment(st),
        Level::Or => lemma_infix(st, Level::And),
        Level::And => lemma_infix(st, Level::Equality),
        Level::Equality => lemma_infix(st, Level::Comparison),
        Level::Comparison => lemma_infix(st, Level::Addition),
        Level::Addition => lemma_infix(st, Level::Multiplication),
        Level::Multiplication => lemma_unary(st),
    }
}

proof fn lemma_infix(st: PS, level: Level)
    ensures
        taking(st, infix(st, level)),
    decreases st.ts.len(), rank(level), 2nat,
{
    lemma_operand(st, level);
    let l = operand(st, level);
    if l.value is Some {
        lemma_infix_rest(l.st, level, l.value->0);
    }
}

proof fn lemma_infix_rest(st: PS, level: Level, left: ExprV)
    ensures
        orderly(st, infix_rest(st, level, left)),
        infix_rest(st, level, left).value is None || infix_rest(st, level, left).st.ts.len()
            <= st.ts.len(),
    decreases st.ts.len(), rank(level), 1nat,
{
    if st.ts.len() > 0 && is_operator(level, st.ts[0].t_type) {
        lemma_operand(skip(st), level);
        let r = operand(skip(st), level);
        if r.value is Some {
            lemma_infix_rest(r.st, level, combine(level, left, st.ts[0], r.value->0));
        }
    }
}

/// An expression is parsed in order, and takes a token if it is made.
pub proof fn lemma_expression(st: PS)
    ensures
        taking(st, expression(st)),
    decreases st.ts.len(), 17nat, 0nat,
{
    lemma_infix(st, Level::Comma);
}

proof fn lemma_assignment(st: PS)
    ensures
        taking(st, assignment(st)),
    decreases st.ts.len(), 15nat, 0nat,
{
    lemma_ternary(st);
    let l = ternary(st);
    if l.value is Some && check(l.st.ts, TokenType::Equal) {
        lemma_assignment(skip(l.st));
    }
}

proof fn lemma_ternary(st: PS)
    ensures
        taking(st, ternary(st)),
    decreases st.ts.len(), 14nat, 0nat,
{
    lemma_infix(st, Level::Or);
    let c = infix(st, Level::Or);
    if c.value is Some && check(c.st.ts, TokenType::QuestionMark) {
        lemma_infix(skip(c.st), Level::Or);
        let t = infix(skip(c.st), Level::Or);
        if t.value is Some {
            let colon = consume(t.st, TokenType::Colon, "Expected to find ':' after expr"@);
            if colon.value is Some {
                lemma_ternary(colon.st);
            }
        }
    }
}

proof fn lemma_unary(st: PS)
    ensures
        taking(st, unary(st)),
    decreases st.ts.len(), 7nat, 0nat,
{
    if st.ts.len() > 0 && is_prefix(st.ts[0].t_type) {
        lemma_unary(skip(st));
    } else if st.ts.len() > 0 && is_stray(st.ts[0].t_type) {
        lemma_unary(
            PS {
                diags: error_at(
                    st.diags,
                    st.ts[0],
                    "Expression expected before binary operator"@,
                ),
                ..skip(st)
            },
        );
    } else {
        lemma_call(st);
    }
}

proof fn lemma_call(st: PS)
    ensures
        taking(st, call(st)),
    decreases st.ts.len(), 6nat, 0nat,
{
    lemma_primary(st);
    let p = primary(st);
    if p.value is Some {
        lemma_calls(p.st, p.value->0);
    }
}

proof fn lemma_calls(st: PS, callee: ExprV)
    ensures
        orderly(st, calls(st, callee)),
    decreases st.ts.len(), 5nat, 3nat,
{
    if check(st.ts, TokenType::LeftParen) {
        lemma_finish_call(skip(st), callee);
        let c = finish_call(skip(st), callee);
        if c.value is Some {
            lemma_calls(c.st, c.value->0);
        }
    }
}

proof fn lemma_finish_call(st: PS, callee: ExprV)
    ensures
        taking(st, finish_call(st, callee)),
    decreases st.ts.len(), 21nat, 0nat,
{
    if !check(st.ts, TokenType::RightParen) {
        lemma_arguments(st, Seq::empty());
    }
}

proof fn lemma_arguments(st: PS, before: Seq<ExprV>)
    ensures
        taking(st, arguments(st, before)),
    decreases st.ts.len(), 20nat, 0nat,
{
    let warned = if before.len() >= 8 {
        PS { diags: error_here(st, "Cannot have more than 8 arguments."@), ..st }
    } else {
        st
    };
    lemma_assignment(warned);
    let a = assignment(warned);
    if a.value is Some && check(a.st.ts, TokenType::Comma) {
        lemma_arguments(skip(a.st), before.push(a.value->0));
    }
}

proof fn lemma_primary(st: PS)
    ensures
        taking(st, primary(st)),
    decreases st.ts.len(), 5nat, 0nat,
{
    if st.ts.len() > 0 && st.ts[0].t_type is Literal {
    } else if check(st.ts, TokenType::Identifier) {
    } else if check(st.ts, TokenType::LeftParen) {
        lemma_expression(skip(st));
    }
}

proof fn lemma_terminated(st: PS, msg: Seq<char>, made: StmtV)
    ensures
        taking(st, terminated(st, msg, made)),
{
}

proof fn lemma_print_statement(st: PS)
    ensures
        taking(st, print_statement(st)),
{
    lemma_expression(st);
}

proof fn lemma_expression_statement(st: PS)
    ensures
        taking(st, expression_statement(st)),
{
    lemma_expression(st);
}

proof fn lemma_var_declaration(st: PS)
    ensures
        taking(st, var_declaration(st)),
{
    let name = consume(st, TokenType::Identifier, "Expected variable name."@);
    if name.value is Some && check(name.st.ts, TokenType::Equal) {
        lemma_expression(skip(name.st));
    }
}

proof fn lemma_condition(st: PS, opening: Seq<char>, closing: Seq<char>)
    ensures
        taking(st, condition(st, opening, closing)),
{
    let open = consume(st, TokenType::LeftParen, opening);
    if open.value is Some {
        lemma_expression(open.st);
    }
}

proof fn lemma_for_clauses(st: PS)
    ensures
        taking(st, for_clauses(st)),
{
    let open = consume(st, TokenType::LeftParen, "Expected '(' after 'for'."@);
    if open.value is Some {
        if !check(open.st.ts, TokenType::Semicolon) {
            if check(open.st.ts, TokenType::Var) {
                lemma_var_declaration(skip(open.st));
            } else {
                lemma_expression_statement(open.st);
            }
        }
        let init = for_initializer(open.st);
        if init.value is Some {
            if !check(init.st.ts, TokenType::Semicolon) {
                lemma_expression(init.st);
            }
            let cond = for_clause(init.st, TokenType::Semicolon);
            if cond.value is Some {
                let semi = consume(
                    cond.st,
                    TokenType::Semicolon,
                    "Expected ';' after loop condition"@,
                );
                if semi.value is Some {
                    if !check(semi.st.ts, TokenType::RightParen) {
                        lemma_expression(semi.st);
                    }
                }
            }
        }
    }
}

proof fn lemma_if_statement(st: PS)
    ensures
        taking(st, if_statement(st)),
    decreases st.ts.len(), 0nat,
{
    lemma_condition(st, "Expected '(' after if"@, "Expected ')' after condition"@);
    let c = condition(st, "Expected '(' after if"@, "Expected ')' after condition"@);
    if c.value is Some {
        lemma_statement(c.st);
        let t = statement(c.st);
        if t.value is Some && check(t.st.ts, TokenType::Else) {
            lemma_statement(skip(t.st));
        }
    }
}

proof fn lemma_while_statement(st: PS)
    ensures
        taking(st, while_statement(st)),
    decreases st.ts.len(), 0nat,
{
    lemma_condition(st, "Expected '(' after while"@, "Expected ')' after condition"@);
    let c = condition(st, "Expected '(' after while"@, "Expected ')' after condition"@);
    if c.value is Some {
        lemma_statement(c.st);
    }
}

proof fn lemma_for_statement(st: PS)
    ensures
        taking(st, for_statement(st)),
    decreases st.ts.len(), 0nat,
{
    lemma_for_clauses(st);
    let c = for_clauses(st);
    if c.value is Some {
        lemma_statement(c.st);
    }
}

/// A statement is parsed in order, and takes a token if it is made.
pub proof fn lemma_statement(st: PS)
    ensures
        taking(st, statement(st)),
    decreases st.ts.len(), 1nat,
{
    if check(st.ts, TokenType::Print) {
        lemma_print_statement(skip(st));
    } else if check(st.ts, TokenType::LeftBrace) {
        lemma_block(skip(st), Seq::empty());
    } else if check(st.ts, TokenType::If) {
        lemma_if_statement(skip(st));
    } else if check(st.ts, TokenType::While) {
        lemma_while_statement(skip(st));
    } else if check(st.ts, TokenType::For) {
        lemma_for_statement(skip(st));
    } else if check(st.ts, TokenType::Break) {
    } else {
        lemma_expression_statement(st);
    }
}

proof fn lemma_block(st: PS, before: Seq<StmtV>)
    ensures
        taking(st, block(st, before)),
    decreases st.ts.len(), 3nat,
{
    if st.ts.len() > 0 && !check(st.ts, TokenType::RightBrace) {
        lemma_declaration(st);
        let d = declaration(st);
        if d.value is Some {
            lemma_block(d.st, before.push(d.value->0));
        }
    }
}

/// Resuming after an error gives up at least one token, if one is left.
pub proof fn lemma_synchronize(ts: Seq<Token>)
    ensures
        synchronize(ts).len() <= ts.len(),
        ts.len() > 0 ==> synchronize(ts).len() < ts.len(),
{
    if ts.len() > 0 {
        lemma_resume(rest(ts), ts[0]);
    }
}

proof fn lemma_resume(ts: Seq<Token>, previous: Token)
    ensures
        resume(ts, previous).len() <= ts.len(),
    decreases ts.len(),
{
    if !(ts.len() == 0 || previous.t_type is Semicolon || begins_statement(ts[0].t_type)) {
        lemma_resume(rest(ts), ts[0]);
    }
}

/// A declaration is parsed in order, and takes a token, made or not, if
/// one is left: so the parser always comes to the end of the tokens.
pub proof fn lemma_declaration(st: PS)
    ensures
        taking(st, declaration(st)),
        st.ts.len() > 0 ==> declaration(st).st.ts.len() < st.ts.len(),
    decreases st.ts.len(), 2nat,
{
    let r = if check(st.ts, TokenType::Var) {
        lemma_var_declaration(skip(st));
        var_declaration(skip(st))
    } else {
        lemma_statement(st);
        statement(st)
    };
    lemma_synchronize(r.st.ts);
}

/// The parser reads on without going back, keeps every diagnostic, and, when
/// it does not make a program of tokens that were sound so far, has reported
/// why: it never fails in silence.
pub proof fn lemma_program(st: PS, before: Seq<StmtV>, sound: bool)
    ensures
        program(st, before, sound).st.ts.len() <= st.ts.len(),
        program(st, before, sound).st.diags.len() >= st.diags.len(),
        sound && program(st, before, sound).value is None ==> program(
            st,
            before,
            sound,
        ).st.diags.len() > st.diags.len(),
        !sound ==> program(st, before, sound).value is None,
    decreases st.ts.len(),
{
    if !(st.ts.len() == 0 || check(st.ts, TokenType::Eof)) {
        lemma_declaration(st);
        let d = declaration(st);
        match d.value {
            Some(s) => lemma_program(d.st, before.push(s), sound),
            None => lemma_program(d.st, before, false),
        }
    }
}

} // verus!
