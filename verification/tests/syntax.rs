use libjlox::number::Number;
use libjlox::parser::Parser;
use libjlox::syntax::Expr;
use libjlox::syntax::PrettyPrint;
use libjlox::syntax::Stmt;
use libjlox::tokens::Literal;
use libjlox::tokens::Scanner;
use libjlox::tokens::Token;
use libjlox::tokens::TokenType;
use libjlox::ErrorReporter;

fn number(x: f64) -> Number {
    Number::new(x.to_bits(), x.to_string())
}

fn scan(src: &str, reporter: &mut ErrorReporter) -> Vec<Token> {
    let mut scanner = Scanner::new(src.to_string());
    while let Some(text) = scanner.scan_tokens(reporter) {
        let parsed: f64 = text.parse().unwrap();
        scanner.add_number(number(parsed));
    }
    scanner.into_tokens()
}

fn diagnostics(reporter: &ErrorReporter) -> Vec<String> {
    let mut lines = Vec::new();
    let mut i = 0;
    while i < reporter.count() {
        lines.push(reporter.line(i).to_string());
        i += 1;
    }
    lines
}

fn parse(src: &str) -> (Option<Vec<Stmt>>, Vec<String>) {
    let mut reporter = ErrorReporter::new();
    let tokens = scan(src, &mut reporter);
    let stmts = Parser::new(tokens).parse(&mut reporter);
    (stmts.ok(), diagnostics(&reporter))
}

fn printed(src: &str) -> String {
    let (stmts, diags) = parse(src);
    assert_eq!(diags, Vec::<String>::new());
    let stmts = stmts.unwrap();
    assert_eq!(stmts.len(), 1);
    match &stmts[0] {
        Stmt::Expr(e) => e.accept(&PrettyPrint),
        _ => panic!("an expression statement was expected"),
    }
}

fn lexemes(src: &str) -> (Vec<String>, Vec<String>) {
    let mut reporter = ErrorReporter::new();
    let tokens = scan(src, &mut reporter);
    (
        tokens.iter().map(|t| t.get_lexeme().to_string()).collect(),
        diagnostics(&reporter),
    )
}

#[test]
fn simple_pretty_print() {
    let e = Expr::Binary(
        Box::new(Expr::Literal(Literal::Number(number(2.0)))),
        Token::new(TokenType::Plus, "+".to_owned(), 1),
        Box::new(Expr::Literal(Literal::Number(number(2.0)))),
    );
    let visitor = PrettyPrint {};
    let b = e.accept(&visitor);
    assert_eq!(b, "(+ 2 2)");
}

#[test]
fn printing_leaves_the_tree_as_it_was() {
    let e = Expr::Unary(
        Token::new(TokenType::Minus, "-".to_owned(), 1),
        Box::new(Expr::Grouping(Box::new(Expr::Literal(Literal::Boolean(true))))),
    );
    let first = e.accept(&PrettyPrint);
    let second = e.accept(&PrettyPrint);
    assert_eq!(first, "(- (grouptrue))");
    assert_eq!(first, second);
}

#[test]
fn precedence_climbs() {
    assert_eq!(printed("1 + 2 * 3;"), "(+ 1 (* 2 3))");
    assert_eq!(printed("1 * 2 + 3;"), "(+ (* 1 2) 3)");
    assert_eq!(printed("1 - 2 - 3;"), "(- (- 1 2) 3)");
    assert_eq!(printed("1 < 2 == 3 > 4;"), "(== (< 1 2) (> 3 4))");
    assert_eq!(printed("a or b and c;"), "(or a (and b c))");
    assert_eq!(printed("!-a;"), "(! (- a))");
    assert_eq!(printed("a = b = 1;"), "(=a (=b 1))");
    assert_eq!(printed("a = 1, b = 2;"), "(, (=a 1) (=b 2))");
    assert_eq!(printed("a ? b : c ? d : e;"), "(? a b (? c d e))");
    assert_eq!(printed("(1 + 2) * 3;"), "(* (group(+ 1 2)) 3)");
    assert_eq!(printed("f(1, 2)(3);"), "((f 1 2  3 ");
    assert_eq!(printed("nil == \"s\";"), "(== nil s)");
}

#[test]
fn for_is_a_while_in_blocks() {
    let (stmts, diags) = parse("for (var i = 0; i < 3; i = i + 1) print i;");
    assert_eq!(diags, Vec::<String>::new());
    let stmts = stmts.unwrap();
    assert_eq!(stmts.len(), 1);
    let outer = match &stmts[0] {
        Stmt::Block(list) => list,
        _ => panic!("a block was expected"),
    };
    assert_eq!(outer.len(), 2);
    assert!(matches!(&outer[0], Stmt::Var(name, Some(_)) if name.get_lexeme() == "i"));
    let (cond, body) = match &outer[1] {
        Stmt::While(cond, body) => (cond, body),
        _ => panic!("a loop was expected"),
    };
    assert_eq!(cond.accept(&PrettyPrint), "(< i 3)");
    let inner = match &**body {
        Stmt::Block(list) => list,
        _ => panic!("a block was expected"),
    };
    assert_eq!(inner.len(), 2);
    assert!(matches!(&inner[0], Stmt::Print(_)));
    match &inner[1] {
        Stmt::Expr(e) => assert_eq!(e.accept(&PrettyPrint), "(=i (+ i 1))"),
        _ => panic!("an expression statement was expected"),
    }
}

#[test]
fn for_without_clauses_loops_on_true() {
    let (stmts, _) = parse("for (;;) print 1;");
    let stmts = stmts.unwrap();
    match &stmts[0] {
        Stmt::While(cond, body) => {
            assert_eq!(cond.accept(&PrettyPrint), "true");
            assert!(matches!(&**body, Stmt::Print(_)));
        }
        _ => panic!("a loop was expected"),
    }
}

#[test]
fn break_keeps_its_line() {
    let (stmts, _) = parse("while (true)\n  break;");
    match &stmts.unwrap()[0] {
        Stmt::While(_, body) => assert!(matches!(&**body, Stmt::Break(2))),
        _ => panic!("a loop was expected"),
    }
}

#[test]
fn syntax_errors_are_all_reported() {
    let (stmts, diags) = parse("print 1\nvar = 2;\nprint 3;\nprint (4;");
    assert!(stmts.is_none());
    assert_eq!(
        diags,
        vec![
            "[line 2] Error var: Expected ';' after value",
            "[line 4] Error ;: Expected ')' after expr",
        ]
    );
}

#[test]
fn parsing_resumes_at_a_statement() {
    let (stmts, diags) = parse("var 1 = 2; var b = ; print 1;");
    assert!(stmts.is_none());
    assert_eq!(
        diags,
        vec![
            "[line 1] Error 1: Expected variable name.",
            "[line 1] Error ;: Unexpected token",
        ]
    );
}

#[test]
fn errors_at_the_end_say_so() {
    let (stmts, diags) = parse("print 1");
    assert!(stmts.is_none());
    assert_eq!(diags, vec!["[line 1] Error at end: Expected ';' after value"]);
    let (_, diags) = parse("{ print 1;");
    assert_eq!(diags, vec!["[line 1] Error at end: Unexpected token"]);
    let mut reporter = ErrorReporter::new();
    let open = vec![Token::new(TokenType::LeftBrace, "{".to_owned(), 3)];
    assert!(Parser::new(open).parse(&mut reporter).is_err());
    assert_eq!(
        diagnostics(&reporter),
        vec!["[line 0] Error at end: Expected '}' ater block."]
    );
}

#[test]
fn invalid_assignment_target_is_not_fatal() {
    let (stmts, diags) = parse("1 = 2; print 3;");
    assert_eq!(diags, vec!["[line 1] Error =: Invalid assignment target."]);
    let stmts = stmts.unwrap();
    assert_eq!(stmts.len(), 2);
    match &stmts[0] {
        Stmt::Expr(e) => assert_eq!(e.accept(&PrettyPrint), "1"),
        _ => panic!("an expression statement was expected"),
    }
}

#[test]
fn a_leading_binary_operator_is_passed_over() {
    let (stmts, diags) = parse("+ 1;");
    assert_eq!(
        diags,
        vec!["[line 1] Error +: Expression expected before binary operator"]
    );
    match &stmts.unwrap()[0] {
        Stmt::Expr(e) => assert_eq!(e.accept(&PrettyPrint), "1"),
        _ => panic!("an expression statement was expected"),
    }
}

#[test]
fn more_than_eight_arguments_are_reported() {
    let (stmts, diags) = parse("f(1, 2, 3, 4, 5, 6, 7, 8, 9);");
    assert_eq!(diags, vec!["[line 1] Error 9: Cannot have more than 8 arguments."]);
    match &stmts.unwrap()[0] {
        Stmt::Expr(Expr::Call(_, _, args)) => assert_eq!(args.len(), 9),
        _ => panic!("a call was expected"),
    }
    let (_, diags) = parse("f(1, 2, 3, 4, 5, 6, 7, 8);");
    assert_eq!(diags, Vec::<String>::new());
}

#[test]
fn missing_parentheses_are_reported() {
    assert_eq!(parse("if 1) print 1;").1, vec!["[line 1] Error 1: Expected '(' after if"]);
    assert_eq!(parse("while (1 print 1;").1, vec!["[line 1] Error print: Expected ')' after condition"]);
    assert_eq!(
        parse("for var i;;) print 1;").1,
        vec![
            "[line 1] Error var: Expected '(' after 'for'.",
            "[line 1] Error ;: Unexpected token",
            "[line 1] Error ): Unexpected token",
        ]
    );
    assert_eq!(parse("for (;; print 1;").1, vec!["[line 1] Error print: Unexpected token"]);
    assert_eq!(parse("for (; 1 print 1;").1, vec!["[line 1] Error print: Expected ';' after loop condition"]);
    assert_eq!(parse("for (;; 1 print 1;").1, vec!["[line 1] Error print: Expected ')' after for clauses."]);
    assert_eq!(parse("break").1, vec!["[line 1] Error at end: Expected ';' after break."]);
    assert_eq!(parse("a ? b;").1, vec!["[line 1] Error ;: Expected to find ':' after expr"]);
    assert_eq!(parse("f(1;").1, vec!["[line 1] Error ;: Expected ')' after arguments."]);
    assert_eq!(parse("var a = 1 print a;").1, vec!["[line 1] Error print: Expected ';' after the variable declaration"]);
}

#[test]
fn an_empty_token_list_parses_to_nothing() {
    let mut reporter = ErrorReporter::new();
    let stmts = Parser::new(Vec::new()).parse(&mut reporter);
    assert!(matches!(stmts, Ok(list) if list.is_empty()));
    assert!(!reporter.had_error());
}

#[test]
fn lexemes_are_the_source() {
    let (texts, diags) = lexemes("var x1 = (a_b >= 10.5) != !true; // done");
    assert_eq!(
        texts,
        vec!["var", "x1", "=", "(", "a_b", ">=", "10.5", ")", "!=", "!", "true", ";", ""]
    );
    assert_eq!(diags, Vec::<String>::new());
}

#[test]
fn a_trailing_point_is_no_part_of_a_number() {
    let (texts, _) = lexemes("12.");
    assert_eq!(texts, vec!["12", ".", ""]);
    let (texts, _) = lexemes("1.5.2");
    assert_eq!(texts, vec!["1.5", ".", "2", ""]);
    let (texts, _) = lexemes(".5");
    assert_eq!(texts, vec![".", "5", ""]);
}

#[test]
fn numbers_are_valued_by_the_caller() {
    let mut reporter = ErrorReporter::new();
    let mut scanner = Scanner::new("a 12.50 b".to_string());
    assert!(!scanner.is_pending());
    scanner.add_number(number(1.0));
    assert_eq!(scanner.scan_tokens(&mut reporter), Some("12.50".to_string()));
    assert!(scanner.is_pending());
    assert_eq!(scanner.scan_tokens(&mut reporter), Some("12.50".to_string()));
    scanner.add_number(number(12.5));
    assert_eq!(scanner.scan_tokens(&mut reporter), None);
    assert_eq!(scanner.scan_tokens(&mut reporter), None);
    let tokens = scanner.into_tokens();
    assert_eq!(tokens.len(), 4);
    match tokens[1].get_type() {
        TokenType::Literal(Literal::Number(n)) => {
            assert_eq!(n.bits(), 12.5f64.to_bits());
            assert_eq!(n.text(), "12.5");
        }
        _ => panic!("a number was expected"),
    }
    assert_eq!(tokens[1].get_lexeme(), "12.50");
}

#[test]
fn strings_may_span_lines() {
    let mut reporter = ErrorReporter::new();
    let tokens = scan("\"a\nb\" x", &mut reporter);
    assert_eq!(tokens.len(), 3);
    match tokens[0].get_type() {
        TokenType::Literal(Literal::String(s)) => assert_eq!(s, "a\nb"),
        _ => panic!("a string was expected"),
    }
    assert_eq!(tokens[0].get_lexeme(), "\"a\nb\"");
    assert_eq!(tokens[0].get_line(), 2);
    assert_eq!(tokens[1].get_line(), 2);
}

#[test]
fn an_unterminated_string_is_reported() {
    let (texts, diags) = lexemes("a \"bc\nd");
    assert_eq!(texts, vec!["a", ""]);
    assert_eq!(diags, vec!["[line 2] Error : Unterminated string."]);
}

#[test]
fn an_unexpected_character_is_passed_over() {
    let (texts, diags) = lexemes("a @ b\n#");
    assert_eq!(texts, vec!["a", "b", ""]);
    assert_eq!(
        diags,
        vec![
            "[line 1] Error : Unexpected character.",
            "[line 2] Error : Unexpected character.",
        ]
    );
}

#[test]
fn comments_are_passed_over() {
    let (texts, diags) = lexemes("a // b c\nd /* e /* f */ g\n */ h / i");
    assert_eq!(texts, vec!["a", "d", "h", "/", "i", ""]);
    assert_eq!(diags, Vec::<String>::new());
    let mut reporter = ErrorReporter::new();
    let tokens = scan("/* a\n\n */ b", &mut reporter);
    assert_eq!(tokens[0].get_line(), 3);
}

#[test]
fn an_unclosed_comment_is_reported() {
    let (texts, diags) = lexemes("a /* b /* c */ d");
    assert_eq!(texts, vec!["a", "d", ""]);
    assert_eq!(diags, vec!["[line 1] Error : Unclosed block comment."]);
    let (texts, diags) = lexemes("/*");
    assert_eq!(texts, vec![""]);
    assert_eq!(diags, vec!["[line 1] Error : Unclosed block comment."]);
}

#[test]
fn reserved_words_are_no_identifiers() {
    let mut reporter = ErrorReporter::new();
    let tokens = scan(
        "and class else false for fun if nil or print return super this true var while break android",
        &mut reporter,
    );
    assert_eq!(tokens.len(), 19);
    assert!(matches!(tokens[0].get_type(), TokenType::And));
    assert!(matches!(tokens[1].get_type(), TokenType::Class));
    assert!(matches!(tokens[2].get_type(), TokenType::Else));
    assert!(matches!(tokens[3].get_type(), TokenType::Literal(Literal::Boolean(false))));
    assert!(matches!(tokens[4].get_type(), TokenType::For));
    assert!(matches!(tokens[5].get_type(), TokenType::Fun));
    assert!(matches!(tokens[6].get_type(), TokenType::If));
    assert!(matches!(tokens[7].get_type(), TokenType::Literal(Literal::Nil)));
    assert!(matches!(tokens[8].get_type(), TokenType::Or));
    assert!(matches!(tokens[9].get_type(), TokenType::Print));
    assert!(matches!(tokens[10].get_type(), TokenType::Return));
    assert!(matches!(tokens[11].get_type(), TokenType::Super));
    assert!(matches!(tokens[12].get_type(), TokenType::This));
    assert!(matches!(tokens[13].get_type(), TokenType::Literal(Literal::Boolean(true))));
    assert!(matches!(tokens[14].get_type(), TokenType::Var));
    assert!(matches!(tokens[15].get_type(), TokenType::While));
    assert!(matches!(tokens[16].get_type(), TokenType::Break));
    assert!(matches!(tokens[17].get_type(), TokenType::Identifier));
    assert!(matches!(tokens[18].get_type(), TokenType::Eof));
}

#[test]
fn the_source_may_hold_any_character() {
    let (texts, diags) = lexemes("\"зима\" é x");
    assert_eq!(texts, vec!["\"зима\"", "x", ""]);
    assert_eq!(diags, vec!["[line 1] Error : Unexpected character."]);
}
