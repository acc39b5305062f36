use libjlox::context::check;
use libjlox::context::ContextError;
use libjlox::functions::StaticFunction;
use libjlox::interpreter::Action;
use libjlox::interpreter::Interpreter;
use libjlox::interpreter::Operator;
use libjlox::number::Number;
use libjlox::parser::Parser;
use libjlox::syntax::Stmt;
use libjlox::tokens::Literal;
use libjlox::tokens::Scanner;
use libjlox::tokens::Token;
use libjlox::tokens::TokenType;
use libjlox::ErrorReporter;

fn number(x: f64) -> Number {
    Number::new(x.to_bits(), x.to_string())
}

fn value(n: &Number) -> f64 {
    f64::from_bits(n.bits())
}

fn scan(src: &str, reporter: &mut ErrorReporter) -> Vec<Token> {
    let mut scanner = Scanner::new(src.to_string());
    while let Some(text) = scanner.scan_tokens(reporter) {
        let parsed: f64 = text.parse().unwrap();
        scanner.add_number(number(parsed));
    }
    scanner.into_tokens()
}

fn diagnostics(reporter: &ErrorReporter) -> Vec<String> {
    let mut lines = Vec::new();
    let mut i = 0;
    while i < reporter.count() {
        lines.push(reporter.line(i).to_string());
        i += 1;
    }
    lines
}

struct Run {
    output: Vec<String>,
    failure: Option<String>,
    finished: bool,
}

fn compute(op: Operator, l: &Number, r: &Number) -> Number {
    let (a, b) = (value(l), value(r));
    number(match op {
        Operator::Add => a + b,
        Operator::Subtract => a - b,
        Operator::Multiply => a * b,
        Operator::Divide => a / b,
    })
}

fn interpret(stmts: &Vec<Stmt>, functions: &Vec<StaticFunction>, limit: usize) -> Run {
    let mut machine = Interpreter::new(stmts, functions);
    let mut run = Run { output: Vec::new(), failure: None, finished: false };
    let mut answer: Option<Number> = None;
    let mut steps = 0;
    while steps < limit {
        steps += 1;
        match machine.step(answer.take()) {
            Action::Continue => {}
            Action::Print(line) => run.output.push(line),
            Action::Arithmetic(op, l, r) => answer = Some(compute(op, &l, &r)),
            Action::Negate(n) => answer = Some(number(-value(&n))),
            Action::Done => {
                run.finished = true;
                break;
            }
            Action::Failed(e) => {
                run.failure = Some(e.get_msg().to_string());
                run.finished = true;
                break;
            }
        }
    }
    run
}

struct Whole {
    diagnostics: Vec<String>,
    run: Option<Run>,
}

fn run_with(src: &str, functions: &Vec<StaticFunction>) -> Whole {
    let mut reporter = ErrorReporter::new();
    let tokens = scan(src, &mut reporter);
    let stmts = libjlox::run(tokens, &mut reporter);
    let run = match &stmts {
        Some(stmts) => Some(interpret(stmts, functions, 100_000)),
        None => None,
    };
    Whole { diagnostics: diagnostics(&reporter), run }
}

fn run(src: &str) -> Whole {
    run_with(src, &Vec::new())
}

fn output(src: &str) -> Vec<String> {
    let whole = run(src);
    assert_eq!(whole.diagnostics, Vec::<String>::new());
    let run = whole.run.unwrap();
    assert_eq!(run.failure, None);
    assert!(run.finished);
    run.output
}

fn failure(src: &str) -> String {
    let whole = run(src);
    assert_eq!(whole.diagnostics, Vec::<String>::new());
    whole.run.unwrap().failure.unwrap()
}

fn kinds(tokens: &Vec<Token>) -> Vec<String> {
    tokens
        .iter()
        .map(|t| match t.get_type() {
            TokenType::Literal(Literal::Number(n)) => format!("Number({})", value(n)),
            TokenType::Literal(Literal::String(s)) => format!("String({})", s),
            TokenType::Literal(Literal::Boolean(b)) => format!("Boolean({})", b),
            TokenType::Literal(Literal::Nil) => "Nil".to_string(),
            TokenType::Literal(Literal::Function(_)) => "Function".to_string(),
            TokenType::Plus => "Plus".to_string(),
            TokenType::Star => "Star".to_string(),
            TokenType::Eof => "Eof".to_string(),
            TokenType::Identifier => format!("Identifier({})", t.get_lexeme()),
            TokenType::Dot => "Dot".to_string(),
            TokenType::Slash => "Slash".to_string(),
            TokenType::BangEqual => "BangEqual".to_string(),
            TokenType::Bang => "Bang".to_string(),
            TokenType::EqualEqual => "EqualEqual".to_string(),
            TokenType::Equal => "Equal".to_string(),
            TokenType::LessEqual => "LessEqual".to_string(),
            TokenType::Less => "Less".to_string(),
            TokenType::GreaterEqual => "GreaterEqual".to_string(),
            TokenType::Greater => "Greater".to_string(),
            TokenType::Semicolon => "Semicolon".to_string(),
            TokenType::Var => "Var".to_string(),
            TokenType::While => "While".to_string(),
            TokenType::Break => "Break".to_string(),
            TokenType::And => "And".to_string(),
            TokenType::Class => "Class".to_string(),
            TokenType::Else => "Else".to_string(),
            TokenType::For => "For".to_string(),
            TokenType::Fun => "Fun".to_string(),
            TokenType::If => "If".to_string(),
            TokenType::Or => "Or".to_string(),
            TokenType::Print => "Print".to_string(),
            TokenType::Return => "Return".to_string(),
            TokenType::Super => "Super".to_string(),
            TokenType::This => "This".to_string(),
            _ => format!("Other({})", t.get_lexeme()),
        })
        .collect()
}

#[test]
fn lexes_an_arithmetic_expression() {
    let mut reporter = ErrorReporter::new();
    let tokens = scan("1 + 2 * 3", &mut reporter);
    assert_eq!(
        kinds(&tokens),
        vec!["Number(1)", "Plus", "Number(2)", "Star", "Number(3)", "Eof"]
    );
    assert!(!reporter.had_error());
    assert_eq!(tokens[0].get_lexeme(), "1");
    assert_eq!(tokens[5].get_lexeme(), "");
    assert_eq!(tokens[5].get_line(), 1);
}

#[test]
fn multiplication_binds_tighter_than_addition() {
    assert_eq!(output("print 1 + 2 * 3;"), vec!["7"]);
    assert_eq!(output("print (1 + 2) * 3;"), vec!["9"]);
}

#[test]
fn plus_joins_strings_and_numbers() {
    assert_eq!(output("print \"foo\" + 1;"), vec!["foo1"]);
    assert_eq!(output("print 1 + \"foo\";"), vec!["1foo"]);
    assert_eq!(output("print 1 + 2;"), vec!["3"]);
    assert_eq!(output("print \"a\" + \"b\";"), vec!["ab"]);
}

#[test]
fn plus_rejects_other_values() {
    assert_eq!(
        failure("print true + 1;"),
        "Error: Expected value that can be a String, at: '+' on line 1"
    );
    assert_eq!(
        failure("print \"a\" + nil;"),
        "Error: Expected value that can be a String, at: '+' on line 1"
    );
}

#[test]
fn division_by_zero_fails() {
    assert_eq!(failure("print 1 / 0;"), "Error: Division by zero, at: '/' on line 1");
    assert_eq!(output("print 1 / 2;"), vec!["0.5"]);
}

#[test]
fn arithmetic_needs_numbers() {
    assert_eq!(failure("print 1 - \"a\";"), "Error: Expected number, at: '-' on line 1");
    assert_eq!(failure("print nil * 2;"), "Error: Expected number, at: '*' on line 1");
    assert_eq!(failure("\n\nprint 1 < true;"), "Error: Expected number, at: '<' on line 3");
    assert_eq!(failure("print -\"a\";"), "Error: Expected number, at: '-' on line 1");
}

#[test]
fn arithmetic_and_comparison() {
    assert_eq!(output("print 7 - 2 - 1;"), vec!["4"]);
    assert_eq!(output("print 8 / 2 / 2;"), vec!["2"]);
    assert_eq!(output("print -3 * 2;"), vec!["-6"]);
    assert_eq!(output("print 1 < 2; print 2 < 1; print 2 <= 2;"), vec!["true", "false", "true"]);
    assert_eq!(output("print 1 > 2; print 2 > 1; print 2 >= 3;"), vec!["false", "true", "false"]);
    assert_eq!(output("print -1 < 0; print -2 < -1; print -1 < -2;"), vec!["true", "true", "false"]);
    assert_eq!(output("print 0.1 + 0.2;"), vec!["0.30000000000000004"]);
}

#[test]
fn uninitialized_variable_fails() {
    assert_eq!(
        failure("var x; print x;"),
        "Error: Uninitialized variable, at: 'x' on line 1"
    );
    assert_eq!(output("var x; x = 1; print x;"), vec!["1"]);
}

#[test]
fn undefined_variable_fails() {
    assert_eq!(failure("print y;"), "Error: Undefined variable, at: 'y' on line 1");
    assert_eq!(failure("y = 1;"), "Error:  Undefined variable, at: 'y' on line 1");
}

#[test]
fn break_leaves_the_loop() {
    assert_eq!(output("while (true) { break; } print 1;"), vec!["1"]);
    assert_eq!(
        output("var i = 0; while (true) { i = i + 1; if (i > 2) break; print i; } print \"end\";"),
        vec!["1", "2", "end"]
    );
}

#[test]
fn break_outside_loop_is_rejected() {
    let whole = run("print 1; break;");
    assert_eq!(
        whole.diagnostics,
        vec!["[line 1] Error : Break found outside of loop body."]
    );
    assert!(whole.run.is_none());
}

#[test]
fn every_misplaced_break_is_found() {
    let mut reporter = ErrorReporter::new();
    let tokens = scan("break;\n{ break; if (true) break; else { break; } }\nwhile (true) { break; }", &mut reporter);
    let stmts = Parser::new(tokens).parse(&mut reporter);
    let stmts = match stmts {
        Ok(s) => s,
        Err(_) => panic!("the program has no syntax error"),
    };
    assert_eq!(
        check(&stmts),
        vec![
            ContextError::BreakOutsideLoop(1),
            ContextError::BreakOutsideLoop(2),
            ContextError::BreakOutsideLoop(2),
            ContextError::BreakOutsideLoop(2),
        ]
    );
}

#[test]
fn for_loop_counts() {
    assert_eq!(
        output("for (var i = 0; i < 3; i = i + 1) print i;"),
        vec!["0", "1", "2"]
    );
    assert_eq!(failure("for (var i = 0; i < 1; i = i + 1) print i; print i;"), "Error: Undefined variable, at: 'i' on line 1");
    assert_eq!(output("var i = 0; for (; i < 2;) i = i + 1; print i;"), vec!["2"]);
    assert_eq!(output("for (;;) { break; } print \"out\";"), vec!["out"]);
}

#[test]
fn inner_declaration_shadows() {
    assert_eq!(
        output("var a = 1; { var a = 2; print a; } print a;"),
        vec!["2", "1"]
    );
    assert_eq!(output("var a = 1; { a = 2; } print a;"), vec!["2"]);
}

#[test]
fn logical_operators_short_circuit() {
    assert_eq!(output("print nil or 2;"), vec!["2"]);
    assert_eq!(output("print 1 or x;"), vec!["1"]);
    assert_eq!(output("print nil and x;"), vec!["nil"]);
    assert_eq!(output("print 1 and 2;"), vec!["2"]);
    assert_eq!(output("print false or false;"), vec!["false"]);
}

#[test]
fn zero_and_empty_string_are_true() {
    assert_eq!(output("if (0) print \"yes\"; else print \"no\";"), vec!["yes"]);
    assert_eq!(output("if (\"\") print \"yes\"; else print \"no\";"), vec!["yes"]);
    assert_eq!(output("if (nil) print \"yes\"; else print \"no\";"), vec!["no"]);
    assert_eq!(output("if (false) print \"yes\";"), Vec::<String>::new());
    assert_eq!(output("print !nil; print !0;"), vec!["true", "false"]);
}

#[test]
fn equality_is_by_kind() {
    assert_eq!(output("print 1 == 1; print 1 == 2; print 1 != 2;"), vec!["true", "false", "true"]);
    assert_eq!(output("print 1 == \"1\"; print nil == false; print nil == nil;"), vec!["false", "false", "true"]);
    assert_eq!(output("print \"a\" == \"a\"; print true == true; print 0 == -0;"), vec!["true", "true", "true"]);
}

#[test]
fn conditional_expression_evaluates_one_branch() {
    assert_eq!(output("print true ? 1 : x;"), vec!["1"]);
    assert_eq!(output("print false ? x : 2;"), vec!["2"]);
    assert_eq!(output("print false ? 1 : false ? 2 : 3;"), vec!["3"]);
}

#[test]
fn assignment_is_an_expression() {
    assert_eq!(output("var a; var b; a = b = 3; print a; print b;"), vec!["3", "3"]);
    assert_eq!(output("var a; print a = 2;"), vec!["2"]);
}

#[test]
fn comma_yields_the_right_operand() {
    assert_eq!(output("var a; print (a = 1, a + 1);"), vec!["2"]);
}

fn function(name: &str, params: &[&str], body: &str) -> StaticFunction {
    let mut reporter = ErrorReporter::new();
    let tokens = scan(body, &mut reporter);
    let body = match Parser::new(tokens).parse(&mut reporter) {
        Ok(s) => s,
        Err(_) => panic!("the body has no syntax error"),
    };
    assert!(!reporter.had_error());
    StaticFunction {
        name: name.to_string(),
        params: params.iter().map(|p| p.to_string()).collect(),
        body,
    }
}

#[test]
fn calls_check_the_number_of_arguments() {
    let functions = vec![function("show", &["a", "b"], "print a; print b;")];
    let one = run_with("show(1);", &functions).run.unwrap();
    assert_eq!(
        one.failure.unwrap(),
        "Error: Expected 2 arguments but got 1, at: ')' on line 1"
    );
    let three = run_with("show(1, 2, 3);", &functions).run.unwrap();
    assert_eq!(
        three.failure.unwrap(),
        "Error: Expected 2 arguments but got 3, at: ')' on line 1"
    );
    let two = run_with("show(1, 2);", &functions).run.unwrap();
    assert_eq!(two.failure, None);
    assert_eq!(two.output, vec!["1", "2"]);
}

#[test]
fn functions_see_the_global_scope_only() {
    let functions = vec![function("get", &[], "print a;")];
    let run = run_with("var a = 1; { var a = 2; get(); }", &functions).run.unwrap();
    assert_eq!(run.failure, None);
    assert_eq!(run.output, vec!["1"]);
    let own = vec![function("set", &["a"], "a = 5; print a;")];
    let run = run_with("var a = 1; set(2); print a;", &own).run.unwrap();
    assert_eq!(run.output, vec!["5", "1"]);
}

#[test]
fn a_call_yields_nil() {
    let functions = vec![function("nothing", &[], "")];
    let run = run_with("print nothing(); print nothing;", &functions).run.unwrap();
    assert_eq!(run.output, vec!["nil", "<fn>"]);
}

#[test]
fn only_functions_can_be_called() {
    assert_eq!(failure("var a = 1; a();"), "Error: Can only call functions, at: ')' on line 1");
    assert_eq!(failure("\"text\"(1);"), "Error: Can only call functions, at: ')' on line 1");
}

#[test]
fn a_runtime_error_ends_the_program() {
    let whole = run("print 1; print x; print 2;");
    let run = whole.run.unwrap();
    assert_eq!(run.output, vec!["1"]);
    assert_eq!(run.failure.unwrap(), "Error: Undefined variable, at: 'x' on line 1");
}

#[test]
fn an_endless_loop_never_ends() {
    let mut reporter = ErrorReporter::new();
    let tokens = scan("while (true) print 1;", &mut reporter);
    let stmts = match Parser::new(tokens).parse(&mut reporter) {
        Ok(s) => s,
        Err(_) => panic!("the program has no syntax error"),
    };
    let run = interpret(&stmts, &Vec::new(), 1000);
    assert!(!run.finished);
    assert!(run.output.len() > 10);
}

#[test]
fn running_twice_gives_the_same() {
    let mut reporter = ErrorReporter::new();
    let tokens = scan("var a = 1; { var b = a + 1; print b; } print a;", &mut reporter);
    let stmts = match Parser::new(tokens).parse(&mut reporter) {
        Ok(s) => s,
        Err(_) => panic!("the program has no syntax error"),
    };
    let first = interpret(&stmts, &Vec::new(), 10_000);
    let second = interpret(&stmts, &Vec::new(), 10_000);
    assert_eq!(first.output, vec!["2", "1"]);
    assert_eq!(first.output, second.output);
}

#[test]
fn nothing_runs_after_a_lexical_error() {
    let whole = run("print 1; @");
    assert_eq!(whole.diagnostics, vec!["[line 1] Error : Unexpected character."]);
    assert!(whole.run.is_none());
}

#[test]
fn nothing_runs_after_a_syntax_error() {
    let whole = run("print 1; print ;\nwhile (true) { } break;");
    assert_eq!(whole.diagnostics, vec!["[line 1] Error ;: Unexpected token"]);
    assert!(whole.run.is_none());
}

#[test]
fn a_sound_program_is_handed_on() {
    let mut reporter = ErrorReporter::new();
    let tokens = scan("print 1; { var a; }", &mut reporter);
    let stmts = libjlox::run(tokens, &mut reporter);
    assert!(!reporter.had_error());
    assert_eq!(reporter.count(), 0);
    assert_eq!(stmts.map(|s| s.len()), Some(2));
}

#[test]
fn numbers_compare_as_doubles_do() {
    let samples = [
        0.0,
        -0.0,
        1.0,
        -1.0,
        0.5,
        -0.5,
        1e300,
        -1e300,
        5e-324,
        -5e-324,
        f64::INFINITY,
        f64::NEG_INFINITY,
        f64::NAN,
        -f64::NAN,
        f64::MAX,
        f64::MIN_POSITIVE,
    ];
    for a in samples {
        for b in samples {
            let (x, y) = (number(a), number(b));
            assert_eq!(x.equals(&y), a == b);
            assert_eq!(x.less(&y), a < b);
            assert_eq!(x.less_equal(&y), a <= b);
        }
        assert_eq!(number(a).is_zero(), a == 0.0);
        assert_eq!(number(a).is_nan(), a.is_nan());
    }
}

#[test]
fn the_evaluator_waits_for_its_answer() {
    let mut reporter = ErrorReporter::new();
    let tokens = scan("print 1 + 2;", &mut reporter);
    let stmts = libjlox::run(tokens, &mut reporter).unwrap();
    let functions = Vec::new();
    let mut machine = Interpreter::new(&stmts, &functions);
    let mut asked = false;
    let mut steps = 0;
    while steps < 100 {
        steps += 1;
        match machine.step(None) {
            Action::Arithmetic(Operator::Add, l, r) => {
                assert_eq!(value(&l), 1.0);
                assert_eq!(value(&r), 2.0);
                asked = true;
                break;
            }
            Action::Continue => {}
            _ => panic!("the sum was expected"),
        }
    }
    assert!(asked);
    assert!(matches!(machine.step(None), Action::Continue));
    assert!(matches!(machine.step(None), Action::Continue));
    assert!(!machine.is_done());
    assert!(matches!(machine.step(Some(number(40.0))), Action::Continue));
    assert!(matches!(machine.step(None), Action::Print(line) if line == "40"));
    assert!(matches!(machine.step(None), Action::Continue));
    assert!(matches!(machine.step(None), Action::Done));
    assert!(machine.is_done());
    assert!(matches!(machine.step(None), Action::Done));
}

#[test]
fn diagnostics_name_line_and_place() {
    let mut reporter = ErrorReporter::new();
    assert!(!reporter.had_error());
    reporter.error(12, "Message.");
    reporter.report(1045, "here", "Other.");
    assert!(reporter.had_error());
    assert_eq!(
        diagnostics(&reporter),
        vec!["[line 12] Error : Message.", "[line 1045] Error here: Other."]
    );
}
