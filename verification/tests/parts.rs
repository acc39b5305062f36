use libjlox::context::check;
use libjlox::context::ContextCheck;
use libjlox::context::ContextError;
use libjlox::environment::Environment;
use libjlox::environment::Stack;
use libjlox::functions::Callable;
use libjlox::functions::StaticFunction;
use libjlox::interpreter::is_equal;
use libjlox::interpreter::is_truthy;
use libjlox::interpreter::unpack_bool;
use libjlox::interpreter::unpack_into_string;
use libjlox::interpreter::unpack_number;
use libjlox::interpreter::unpack_string;
use libjlox::interpreter::visit_binary;
use libjlox::interpreter::Action;
use libjlox::interpreter::Computed;
use libjlox::interpreter::Interpreter;
use libjlox::interpreter::InterpreterError;
use libjlox::interpreter::Operator;
use libjlox::interpreter::RuntimeError;
use libjlox::number::Number;
use libjlox::syntax::Expr;
use libjlox::syntax::Stmt;
use libjlox::text::chars_of;
use libjlox::text::decimal_string;
use libjlox::tokens::is_alpha;
use libjlox::tokens::is_alpha_numeric;
use libjlox::tokens::is_digit;
use libjlox::tokens::keyword_type;
use libjlox::tokens::Literal;
use libjlox::tokens::Token;
use libjlox::tokens::TokenType;
use libjlox::ErrorReporter;

fn number(x: f64) -> Number {
    Number::new(x.to_bits(), x.to_string())
}

fn num(x: f64) -> Literal {
    Literal::Number(number(x))
}

fn text(s: &str) -> Literal {
    Literal::String(s.to_string())
}

fn token(t: TokenType, lexeme: &str, line: usize) -> Token {
    Token::new(t, lexeme.to_string(), line)
}

fn name(lexeme: &str) -> Token {
    token(TokenType::Identifier, lexeme, 7)
}

fn message(r: Result<Literal, RuntimeError>) -> String {
    match r {
        Ok(_) => panic!("an error was expected"),
        Err(e) => e.get_msg().to_string(),
    }
}

#[test]
fn decimal_writes_every_digit() {
    assert_eq!(decimal_string(0), "0");
    assert_eq!(decimal_string(7), "7");
    assert_eq!(decimal_string(10), "10");
    assert_eq!(decimal_string(1234567890), "1234567890");
    assert_eq!(decimal_string(usize::MAX), usize::MAX.to_string());
    assert_eq!(decimal_string(9), "9");
}

#[test]
fn characters_come_in_order() {
    assert_eq!(chars_of("aé\n"), vec!['a', 'é', '\n']);
    assert_eq!(chars_of(""), Vec::<char>::new());
}

#[test]
fn character_classes() {
    assert!(is_alpha('a') && is_alpha('z') && is_alpha('A') && is_alpha('Z') && is_alpha('_'));
    assert!(!is_alpha('0') && !is_alpha('-') && !is_alpha('é') && !is_alpha('{') && !is_alpha('@'));
    assert!(is_digit('0') && is_digit('9') && !is_digit('a') && !is_digit('/') && !is_digit(':'));
    assert!(is_alpha_numeric('a') && is_alpha_numeric('5') && is_alpha_numeric('_'));
    assert!(!is_alpha_numeric(' ') && !is_alpha_numeric('.'));
}

#[test]
fn keywords_are_looked_up() {
    assert!(matches!(keyword_type(&"while".to_string()), Some(TokenType::While)));
    assert!(matches!(keyword_type(&"nil".to_string()), Some(TokenType::Literal(Literal::Nil))));
    assert!(matches!(
        keyword_type(&"true".to_string()),
        Some(TokenType::Literal(Literal::Boolean(true)))
    ));
    assert!(keyword_type(&"While".to_string()).is_none());
    assert!(keyword_type(&"".to_string()).is_none());
}

#[test]
fn token_types_are_told_apart() {
    assert!(TokenType::Plus.same(&TokenType::Plus));
    assert!(!TokenType::Plus.same(&TokenType::Minus));
    assert!(TokenType::Literal(num(1.0)).same(&TokenType::Literal(num(2.0))));
    assert!(!TokenType::Literal(num(1.0)).same(&TokenType::Literal(Literal::Nil)));
    assert!(!TokenType::Literal(Literal::Nil).same(&TokenType::Identifier));
    assert!(num(1.0).same_kind(&num(5.0)));
    assert!(!text("a").same_kind(&Literal::Boolean(true)));
}

#[test]
fn tokens_keep_what_they_were_made_of() {
    let t = token(TokenType::Var, "var", 3);
    assert!(matches!(t.get_type(), TokenType::Var));
    assert_eq!(t.get_line(), 3);
    assert_eq!(t.get_lexeme(), "var");
    assert_eq!(t.to_string(), "var");
    let copy = t.clone();
    assert_eq!(copy.get_lexeme(), "var");
    assert_eq!(copy.get_line(), 3);
}

#[test]
fn values_are_shown() {
    assert_eq!(num(2.0).to_string(), "2");
    assert_eq!(num(-0.5).to_string(), "-0.5");
    assert_eq!(text("a b").to_string(), "a b");
    assert_eq!(Literal::Nil.to_string(), "nil");
    assert_eq!(Literal::Boolean(true).to_string(), "true");
    assert_eq!(Literal::Boolean(false).to_string(), "false");
    assert_eq!(Literal::Function(0).to_string(), "<fn>");
}

#[test]
fn truth_of_values() {
    assert!(!is_truthy(&Literal::Nil));
    assert!(!is_truthy(&Literal::Boolean(false)));
    assert!(is_truthy(&Literal::Boolean(true)));
    assert!(is_truthy(&num(0.0)));
    assert!(is_truthy(&text("")));
    assert!(is_truthy(&Literal::Function(0)));
}

#[test]
fn equality_of_values() {
    assert!(is_equal(&num(1.0), &num(1.0)));
    assert!(!is_equal(&num(1.0), &num(2.0)));
    assert!(!is_equal(&num(f64::NAN), &num(f64::NAN)));
    assert!(is_equal(&num(0.0), &num(-0.0)));
    assert!(is_equal(&text("a"), &text("a")));
    assert!(!is_equal(&text("a"), &text("b")));
    assert!(is_equal(&Literal::Nil, &Literal::Nil));
    assert!(!is_equal(&Literal::Nil, &Literal::Boolean(false)));
    assert!(!is_equal(&num(1.0), &text("1")));
    assert!(is_equal(&Literal::Boolean(true), &Literal::Boolean(true)));
    assert!(!is_equal(&Literal::Boolean(true), &Literal::Boolean(false)));
    assert!(is_equal(&Literal::Function(1), &Literal::Function(1)));
    assert!(!is_equal(&Literal::Function(1), &Literal::Function(2)));
}

#[test]
fn errors_name_their_place() {
    let e = InterpreterError::from(12, "x", "Undefined variable");
    assert_eq!(e.get_msg(), "Error: Undefined variable, at: 'x' on line 12");
    let e = InterpreterError::new(&token(TokenType::Plus, "+", 3), "Expected number");
    assert_eq!(e.get_msg(), "Error: Expected number, at: '+' on line 3");
    assert_eq!(
        RuntimeError::BreakSentinel.get_msg(),
        "Break ran without encapsulating loop. Report this bug in the interpreter."
    );
    assert_eq!(
        RuntimeError::InterpreterError(e).get_msg(),
        "Error: Expected number, at: '+' on line 3"
    );
    assert_eq!(
        RuntimeError::at(&name("v"), "Expected boolean").get_msg(),
        "Error: Expected boolean, at: 'v' on line 7"
    );
}

#[test]
fn values_are_unpacked_by_kind() {
    let at = token(TokenType::Minus, "-", 2);
    assert!(matches!(unpack_number(num(3.0), &at), Ok(n) if n.bits() == 3.0f64.to_bits()));
    assert!(matches!(unpack_number(text("3"), &at), Err(e) if e.get_msg() == "Error: Expected number, at: '-' on line 2"));
    assert!(matches!(unpack_string(text("s"), &at), Ok(s) if s == "s"));
    assert!(matches!(unpack_string(num(1.0), &at), Err(e) if e.get_msg() == "Error: Expected String, at: '-' on line 2"));
    assert!(matches!(unpack_into_string(text("s"), &at), Ok(s) if s == "s"));
    assert!(matches!(unpack_into_string(num(1.5), &at), Ok(s) if s == "1.5"));
    assert!(matches!(unpack_into_string(Literal::Nil, &at), Err(e) if e.get_msg() == "Error: Expected value that can be a String, at: '-' on line 2"));
    assert!(matches!(unpack_bool(Literal::Boolean(true), &at), Ok(true)));
    assert!(matches!(unpack_bool(Literal::Nil, &at), Err(e) if e.get_msg() == "Error: Expected boolean, at: '-' on line 2"));
}

#[test]
fn binary_operators_decide_or_ask() {
    let less = token(TokenType::Less, "<", 1);
    assert!(matches!(
        visit_binary(num(1.0), &less, num(2.0)),
        Ok(Computed::Value(Literal::Boolean(true)))
    ));
    let minus = token(TokenType::Minus, "-", 1);
    assert!(matches!(
        visit_binary(num(5.0), &minus, num(2.0)),
        Ok(Computed::Ask(Operator::Subtract, l, r)) if l.text() == "5" && r.text() == "2"
    ));
    let slash = token(TokenType::Slash, "/", 4);
    assert!(matches!(
        visit_binary(num(5.0), &slash, num(2.0)),
        Ok(Computed::Ask(Operator::Divide, _, _))
    ));
    assert!(matches!(
        visit_binary(num(5.0), &slash, num(-0.0)),
        Err(e) if e.get_msg() == "Error: Division by zero, at: '/' on line 4"
    ));
    let star = token(TokenType::Star, "*", 1);
    assert!(matches!(
        visit_binary(num(5.0), &star, num(2.0)),
        Ok(Computed::Ask(Operator::Multiply, _, _))
    ));
    let plus = token(TokenType::Plus, "+", 1);
    assert!(matches!(
        visit_binary(num(5.0), &plus, num(2.0)),
        Ok(Computed::Ask(Operator::Add, _, _))
    ));
    assert!(matches!(
        visit_binary(text("a"), &plus, num(2.0)),
        Ok(Computed::Value(Literal::String(s))) if s == "a2"
    ));
    let bang = token(TokenType::Bang, "!", 9);
    assert!(matches!(
        visit_binary(num(5.0), &bang, num(2.0)),
        Err(e) if e.get_msg() == "Error: Unknown operator, at: '!' on line 9"
    ));
    let differs = token(TokenType::BangEqual, "!=", 1);
    assert!(matches!(
        visit_binary(num(5.0), &differs, text("5")),
        Ok(Computed::Value(Literal::Boolean(true)))
    ));
}

#[test]
fn a_scope_binds_names() {
    let mut env = Environment::new();
    assert!(!env.has(&name("a")));
    assert!(matches!(env.get(&name("a")), Err(e) if e.get_msg() == "Error: Undefined variable, at: 'a' on line 7"));
    assert!(matches!(env.assign(&name("a"), num(1.0)), Err(e) if e.get_msg() == "Error:  Undefined variable, at: 'a' on line 7"));
    env.define("a".to_string(), None);
    assert!(env.has(&name("a")));
    assert!(matches!(env.get(&name("a")), Ok(None)));
    assert!(env.assign(&name("a"), num(1.0)).is_ok());
    assert!(matches!(env.get(&name("a")), Ok(Some(Literal::Number(n))) if n.text() == "1"));
    env.define("a".to_string(), Some(text("again")));
    env.define("b".to_string(), Some(Literal::Nil));
    assert!(matches!(env.get(&name("a")), Ok(Some(Literal::String(s))) if s == "again"));
    assert!(matches!(env.get(&name("b")), Ok(Some(Literal::Nil))));
}

#[test]
fn scopes_nest() {
    let mut stack = Stack::new();
    assert_eq!(stack.depth(), 1);
    stack.define("a".to_string(), Some(num(1.0)));
    stack.define("b".to_string(), None);
    stack.push_new();
    assert_eq!(stack.depth(), 2);
    assert!(matches!(stack.get(&name("a")), Ok(Literal::Number(n)) if n.text() == "1"));
    stack.define("a".to_string(), Some(num(2.0)));
    assert!(matches!(stack.get(&name("a")), Ok(Literal::Number(n)) if n.text() == "2"));
    assert!(stack.assign(&name("b"), text("set")).is_ok());
    assert!(stack.assign(&name("a"), num(3.0)).is_ok());
    assert!(matches!(stack.get(&name("a")), Ok(Literal::Number(n)) if n.text() == "3"));
    stack.restore_old();
    assert_eq!(stack.depth(), 1);
    assert!(matches!(stack.get(&name("a")), Ok(Literal::Number(n)) if n.text() == "1"));
    assert!(matches!(stack.get(&name("b")), Ok(Literal::String(s)) if s == "set"));
    assert_eq!(message(stack.get(&name("c"))), "Error: Undefined variable, at: 'c' on line 7");
    assert!(matches!(stack.assign(&name("c"), Literal::Nil), Err(e) if e.get_msg() == "Error:  Undefined variable, at: 'c' on line 7"));
    stack.define("u".to_string(), None);
    assert_eq!(message(stack.get(&name("u"))), "Error: Uninitialized variable, at: 'u' on line 7");
}

#[test]
fn a_scope_may_stand_inside_any_scope_below() {
    let mut stack = Stack::new();
    stack.define("g".to_string(), Some(num(0.0)));
    stack.push_new();
    stack.define("local".to_string(), Some(num(1.0)));
    stack.push_inside(0);
    assert!(stack.get(&name("g")).is_ok());
    assert_eq!(message(stack.get(&name("local"))), "Error: Undefined variable, at: 'local' on line 7");
    stack.push_new();
    assert!(stack.get(&name("g")).is_ok());
    assert!(stack.get(&name("local")).is_err());
    stack.reset();
    assert_eq!(stack.depth(), 1);
    assert!(stack.get(&name("g")).is_ok());
}

#[test]
fn only_functions_of_the_table_are_callable() {
    let functions = vec![StaticFunction {
        name: "f".to_string(),
        params: vec!["a".to_string(), "b".to_string()],
        body: Vec::new(),
    }];
    let paren = token(TokenType::RightParen, ")", 5);
    let found = Callable::from(&Literal::Function(0), &functions, &paren);
    assert!(matches!(found, Ok(Callable::Static(0))));
    assert_eq!(Callable::Static(0).arity(&functions), 2);
    assert!(matches!(
        Callable::from(&Literal::Function(1), &functions, &paren),
        Err(e) if e.get_msg() == "Error: Can only call functions, at: ')' on line 5"
    ));
    assert!(matches!(Callable::from(&num(0.0), &functions, &paren), Err(_)));
    assert!(matches!(Callable::from(&Literal::Nil, &functions, &paren), Err(_)));
}

#[test]
fn the_walk_knows_where_it_is() {
    assert!(ContextCheck::new(true).get_inside_loop());
    assert!(!ContextCheck::new(false).get_inside_loop());
    let stray = Stmt::Break(4);
    assert_eq!(
        stray.accept(ContextCheck::new(false)),
        vec![ContextError::BreakOutsideLoop(4)]
    );
    assert_eq!(stray.accept(ContextCheck::new(true)), Vec::<ContextError>::new());
    let looped = Stmt::While(
        Box::new(Expr::Literal(Literal::Boolean(true))),
        Box::new(Stmt::Block(vec![Stmt::Break(1), Stmt::Print(Expr::Literal(Literal::Nil))])),
    );
    assert_eq!(looped.accept(ContextCheck::new(false)), Vec::<ContextError>::new());
    assert_eq!(check(&vec![looped, Stmt::Break(9)]), vec![ContextError::BreakOutsideLoop(9)]);
    assert_eq!(check(&Vec::new()), Vec::<ContextError>::new());
}

#[test]
fn a_context_error_is_reported_with_its_line() {
    let mut reporter = ErrorReporter::new();
    ContextError::BreakOutsideLoop(31).report(&mut reporter);
    assert_eq!(reporter.count(), 1);
    assert_eq!(reporter.line(0), "[line 31] Error : Break found outside of loop body.");
}

#[test]
fn a_stray_break_ends_the_program() {
    let program = vec![
        Stmt::Print(Expr::Literal(text("before"))),
        Stmt::Block(vec![Stmt::Break(1)]),
        Stmt::Print(Expr::Literal(text("after"))),
    ];
    let functions = Vec::new();
    let mut machine = Interpreter::new(&program, &functions);
    let mut output = Vec::new();
    let mut failure = None;
    let mut steps = 0;
    while steps < 100 {
        steps += 1;
        match machine.step(None) {
            Action::Print(line) => output.push(line),
            Action::Failed(e) => {
                failure = Some(e);
                break;
            }
            Action::Done => break,
            _ => {}
        }
    }
    assert_eq!(output, vec!["before"]);
    assert!(matches!(failure, Some(RuntimeError::BreakSentinel)));
    assert!(machine.is_done());
    assert!(matches!(machine.step(None), Action::Done));
}

#[test]
fn negation_is_asked_of_the_caller() {
    let program = vec![Stmt::Print(Expr::Unary(
        token(TokenType::Minus, "-", 1),
        Box::new(Expr::Literal(num(4.0))),
    ))];
    let functions = Vec::new();
    let mut machine = Interpreter::new(&program, &functions);
    let mut asked = None;
    let mut steps = 0;
    while steps < 100 && asked.is_none() {
        steps += 1;
        if let Action::Negate(n) = machine.step(None) {
            asked = Some(n);
        }
    }
    assert_eq!(asked.map(|n| n.bits()), Some(4.0f64.to_bits()));
    assert!(matches!(machine.step(Some(number(-4.0))), Action::Continue));
    assert!(matches!(machine.step(None), Action::Print(line) if line == "-4"));
}

#[test]
fn an_unknown_prefix_operator_fails() {
    let program = vec![Stmt::Expr(Expr::Unary(
        token(TokenType::Star, "*", 2),
        Box::new(Expr::Literal(num(4.0))),
    ))];
    let functions = Vec::new();
    let mut machine = Interpreter::new(&program, &functions);
    let mut failure = None;
    let mut steps = 0;
    while steps < 100 && failure.is_none() {
        steps += 1;
        if let Action::Failed(e) = machine.step(None) {
            failure = Some(e.get_msg().to_string());
        }
    }
    assert_eq!(failure.unwrap(), "Error: Unknown operator, at: '*' on line 2");
}
