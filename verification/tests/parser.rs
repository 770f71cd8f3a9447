use cpl::lang::errors::Error;
use cpl::lang::lexer::{tokenize, Literal, Token, TokenType};
use cpl::lang::parser::{desugar_for, Expression, Parser, Statement};
use cpl::lang::{Cpl, MAX_ARGUMENTS, MAX_PARAMETERS};

fn parse(source: &str) -> Result<Vec<Statement>, Vec<Error>> {
    let tokens = tokenize(source);
    Parser::new(&tokens).parse()
}

fn literal(l: &Literal) -> String {
    match l {
        Literal::String(s) => format!("{:?}", s),
        Literal::Number(n) => n.clone(),
        Literal::Boolean(b) => format!("{}", b),
        Literal::Nil => String::from("nil"),
    }
}

fn expr(e: &Expression) -> String {
    match e {
        Expression::Binary { left, operator, right } => {
            format!("({} {} {})", operator.lexeme, expr(left), expr(right))
        }
        Expression::Logical { left, operator, right } => {
            format!("[{} {} {}]", operator.lexeme, expr(left), expr(right))
        }
        Expression::Grouping(inner) => format!("(group {})", expr(inner)),
        Expression::Literal(l) => literal(l),
        Expression::Unary { operator, right } => format!("({} {})", operator.lexeme, expr(right)),
        Expression::Variable(name) => name.lexeme.clone(),
        Expression::Assign { name, value } => format!("(= {} {})", name.lexeme, expr(value)),
        Expression::Call { callee, arguments, .. } => {
            let arguments: Vec<String> = arguments.iter().map(expr).collect();
            format!("(call {} [{}])", expr(callee), arguments.join(" "))
        }
    }
}

fn stmt(s: &Statement) -> String {
    match s {
        Statement::Expression(e) => format!("(expr {})", expr(e)),
        Statement::Print(e) => format!("(print {})", expr(e)),
        Statement::Variable { name, initializer } => match initializer {
            Some(e) => format!("(let {} {})", name.lexeme, expr(e)),
            None => format!("(let {})", name.lexeme),
        },
        Statement::Block(statements) => {
            let statements: Vec<String> = statements.iter().map(stmt).collect();
            format!("(block {})", statements.join(" "))
        }
        Statement::If { condition, then_branch, else_branch } => match else_branch {
            Some(e) => format!("(if {} {} {})", expr(condition), stmt(then_branch), stmt(e)),
            None => format!("(if {} {})", expr(condition), stmt(then_branch)),
        },
        Statement::While { condition, body } => {
            format!("(while {} {})", expr(condition), stmt(body))
        }
        Statement::Function { name, parameters, body } => {
            let parameters: Vec<String> = parameters.iter().map(|p| p.lexeme.clone()).collect();
            format!("(fn {} [{}] {})", name.lexeme, parameters.join(" "), stmt(body))
        }
        Statement::Return { value, .. } => match value {
            Some(e) => format!("(return {})", expr(e)),
            None => String::from("(return)"),
        },
        Statement::Break { .. } => String::from("(break)"),
        Statement::Continue { .. } => String::from("(continue)"),
    }
}

fn tree(source: &str) -> Vec<String> {
    match parse(source) {
        Ok(statements) => statements.iter().map(stmt).collect(),
        Err(errors) => panic!("{} does not parse: {:?}", source, errors),
    }
}

fn diagnostics(source: &str) -> Vec<(usize, usize, String)> {
    match parse(source) {
        Ok(_) => panic!("{} parses", source),
        Err(errors) => errors.into_iter().map(|e| (e.line, e.column, e.message)).collect(),
    }
}

#[test]
fn empty_program_has_no_statement() {
    assert_eq!(tree(""), Vec::<String>::new());
    assert_eq!(tree("  \n "), Vec::<String>::new());
}

#[test]
fn multiplication_binds_tighter_than_addition() {
    let statements = parse("let x = 1 + 2 * 3;").unwrap();
    assert_eq!(statements.len(), 1);
    match &statements[0] {
        Statement::Variable { name, initializer: Some(Expression::Binary { left, operator, right }) } => {
            assert_eq!(name.lexeme, "x");
            assert_eq!(operator.token_type, TokenType::Plus);
            assert!(matches!(&**left, Expression::Literal(Literal::Number(n)) if n == "1"));
            match &**right {
                Expression::Binary { left, operator, right } => {
                    assert_eq!(operator.token_type, TokenType::Star);
                    assert!(matches!(&**left, Expression::Literal(Literal::Number(n)) if n == "2"));
                    assert!(matches!(&**right, Expression::Literal(Literal::Number(n)) if n == "3"));
                }
                other => panic!("not a product: {:?}", other),
            }
        }
        other => panic!("not a declaration of a sum: {:?}", other),
    }
}

#[test]
fn equal_precedence_associates_to_the_left() {
    assert_eq!(tree("1 - 2 - 3;"), vec!["(expr (- (- 1 2) 3))"]);
    assert_eq!(tree("8 / 4 * 2;"), vec!["(expr (* (/ 8 4) 2))"]);
    assert_eq!(tree("1 < 2 <= 3 > 4 >= 5;"), vec!["(expr (>= (> (<= (< 1 2) 3) 4) 5))"]);
    assert_eq!(tree("1 == 2 != 3;"), vec!["(expr (!= (== 1 2) 3))"]);
}

#[test]
fn levels_nest_from_loosest_to_tightest() {
    assert_eq!(
        tree("a or b and c == d < e + f * -g;"),
        vec!["(expr [or a [and b (== c (< d (+ e (* f (- g)))))]])"]
    );
    assert_eq!(tree("a and b or c and d;"), vec!["(expr [or [and a b] [and c d]])"]);
}

#[test]
fn logical_operators_make_logical_nodes() {
    let statements = parse("a or b;").unwrap();
    assert!(matches!(
        &statements[0],
        Statement::Expression(Expression::Logical { operator, .. }) if operator.token_type == TokenType::Or
    ));
    let statements = parse("a and b;").unwrap();
    assert!(matches!(
        &statements[0],
        Statement::Expression(Expression::Logical { operator, .. }) if operator.token_type == TokenType::And
    ));
    let statements = parse("a + b;").unwrap();
    assert!(matches!(&statements[0], Statement::Expression(Expression::Binary { .. })));
}

#[test]
fn assignment_associates_to_the_right() {
    assert_eq!(tree("a = b = 1 + 2;"), vec!["(expr (= a (= b (+ 1 2))))"]);
}

#[test]
fn assignment_to_a_literal_is_rejected() {
    assert_eq!(
        diagnostics("1 = 2;"),
        vec![(1, 3, String::from("= at 'Invalid assignment target!'"))]
    );
}

#[test]
fn assignment_to_a_group_or_a_call_is_rejected() {
    assert_eq!(
        diagnostics("(a) = 2;"),
        vec![(1, 5, String::from("= at 'Invalid assignment target!'"))]
    );
    assert_eq!(
        diagnostics("f() = 2;"),
        vec![(1, 5, String::from("= at 'Invalid assignment target!'"))]
    );
    assert_eq!(
        diagnostics("a + b = 2;"),
        vec![(1, 7, String::from("= at 'Invalid assignment target!'"))]
    );
}

#[test]
fn unary_operators_nest_to_the_right() {
    assert_eq!(tree("!-!a;"), vec!["(expr (! (- (! a))))"]);
    assert_eq!(tree("-a - -b;"), vec!["(expr (- (- a) (- b)))"]);
}

#[test]
fn calls_chain_and_take_arguments() {
    assert_eq!(tree("f();"), vec!["(expr (call f []))"]);
    assert_eq!(tree("f(1, a + b)(c)();"), vec![
        "(expr (call (call (call f [1 (+ a b)]) [c]) []))"
    ]);
    let statements = parse("f(1);").unwrap();
    match &statements[0] {
        Statement::Expression(Expression::Call { parenthesis, .. }) => {
            assert_eq!(parenthesis.token_type, TokenType::RightParen);
            assert_eq!((parenthesis.line, parenthesis.column), (1, 4));
        }
        other => panic!("not a call: {:?}", other),
    }
}

#[test]
fn primary_expressions() {
    assert_eq!(
        tree("true; false; nil; 12.50; \"a\\b\"; name; (1);"),
        vec![
            "(expr true)",
            "(expr false)",
            "(expr nil)",
            "(expr 12.50)",
            "(expr \"a\\\\b\")",
            "(expr name)",
            "(expr (group 1))"
        ]
    );
}

#[test]
fn for_loop_becomes_block_and_while() {
    let statements = parse("for (let i = 0; i < 3; i = i + 1) print i;").unwrap();
    assert_eq!(statements.len(), 1);
    assert_eq!(
        stmt(&statements[0]),
        "(block (let i 0) (while (< i 3) (block (print i) (expr (= i (+ i 1))))))"
    );
    match &statements[0] {
        Statement::Block(items) => {
            assert_eq!(items.len(), 2);
            assert!(matches!(&items[0], Statement::Variable { .. }));
            match &items[1] {
                Statement::While { body, .. } => match &**body {
                    Statement::Block(inner) => {
                        assert_eq!(inner.len(), 2);
                        assert!(matches!(&inner[0], Statement::Print(_)));
                        assert!(matches!(
                            &inner[1],
                            Statement::Expression(Expression::Assign { .. })
                        ));
                    }
                    other => panic!("not a block: {:?}", other),
                },
                other => panic!("not a loop: {:?}", other),
            }
        }
        other => panic!("not a block: {:?}", other),
    }
}

#[test]
fn for_loop_clauses_may_be_left_out() {
    assert_eq!(tree("for (;;) print 1;"), vec!["(block (while true (print 1)))"]);
    assert_eq!(tree("for (i = 0;;) print 1;"), vec!["(block (expr (= i 0)) (while true (print 1)))"]);
    assert_eq!(tree("for (; i < 2;) print 1;"), vec!["(block (while (< i 2) (print 1)))"]);
    assert_eq!(
        tree("for (;; i = i + 1) { }"),
        vec!["(block (while true (block (block ) (expr (= i (+ i 1))))))"]
    );
}

#[test]
fn for_loop_rewriting_by_itself() {
    let body = parse("print 1;").unwrap().remove(0);
    assert_eq!(stmt(&desugar_for(None, None, None, body)), "(block (while true (print 1)))");
    let body = parse("print 1;").unwrap().remove(0);
    let initializer = parse("let i;").unwrap().remove(0);
    let condition = match parse("a;").unwrap().remove(0) {
        Statement::Expression(e) => e,
        other => panic!("not an expression: {:?}", other),
    };
    let increment = match parse("b;").unwrap().remove(0) {
        Statement::Expression(e) => e,
        other => panic!("not an expression: {:?}", other),
    };
    assert_eq!(
        stmt(&desugar_for(Some(initializer), Some(condition), Some(increment), body)),
        "(block (let i) (while a (block (print 1) (expr b))))"
    );
}

#[test]
fn statements_of_every_kind() {
    assert_eq!(
        tree(
            "let a; let b = 1; print b; { let c = b; } if (a) print 1; else print 2; \
             while (a) { break; continue; } fn f(x, y) { return x; return; } f(1, 2);"
        ),
        vec![
            "(let a)",
            "(let b 1)",
            "(print b)",
            "(block (let c b))",
            "(if a (print 1) (print 2))",
            "(while a (block (break) (continue)))",
            "(fn f [x y] (block (return x) (return)))",
            "(expr (call f [1 2]))"
        ]
    );
}

#[test]
fn return_keeps_its_keyword_and_an_absent_value() {
    let statements = parse("\n  return;").unwrap();
    match &statements[0] {
        Statement::Return { keyword, value } => {
            assert_eq!(keyword.token_type, TokenType::Return);
            assert_eq!((keyword.line, keyword.column), (2, 3));
            assert!(value.is_none());
        }
        other => panic!("not a return: {:?}", other),
    }
    let statements = parse("break; continue;").unwrap();
    assert!(matches!(&statements[0], Statement::Break { keyword } if keyword.column == 1));
    assert!(matches!(&statements[1], Statement::Continue { keyword } if keyword.column == 8));
}

#[test]
fn else_belongs_to_the_nearest_if() {
    assert_eq!(
        tree("if (a) if (b) print 1; else print 2;"),
        vec!["(if a (if b (print 1) (print 2)))"]
    );
}

#[test]
fn function_without_parameters_and_nested_blocks() {
    assert_eq!(tree("fn f() { { } }"), vec!["(fn f [] (block (block )))"]);
}

#[test]
fn missing_semicolon_at_the_end_is_reported_at_the_end() {
    assert_eq!(
        diagnostics("print 1"),
        vec![(1, 8, String::from("Expected ';' after value. at end"))]
    );
    assert_eq!(
        diagnostics("a + 1"),
        vec![(1, 6, String::from("Expected ';' after expression. at end"))]
    );
}

#[test]
fn each_expected_token_has_its_message() {
    let cases: Vec<(&str, usize, &str)> = vec![
        ("print ;", 7, "; at 'Expected expression ('false', 'true', 'nil', number, string, identifier or '(')!'"),
        ("(1 ;", 4, "; at 'Expected ')' after expression!'"),
        ("f(1 ;", 5, "; at 'Expected ')' after arguments.'"),
        ("let 1;", 5, "1 at 'Expected variable name.'"),
        ("let a = 1 }", 11, "} at 'Expected ';' after variable declaration.'"),
        ("fn 1", 4, "1 at 'Expected function name.'"),
        ("fn f {", 6, "{ at 'Expected '(' after function name.'"),
        ("fn f(1", 6, "1 at 'Expected parameter name.'"),
        ("fn f(a b", 8, "b at 'Expected ')' after parameters.'"),
        ("fn f() 1", 8, "1 at 'Expected '{' before block.'"),
        ("{ print 1; ", 12, "Expected '}' after block. at end"),
        ("return 1 }", 10, "} at 'Expected ';' after return value.'"),
        ("if a", 4, "a at 'Expected '(' after 'if'.'"),
        ("if (a b", 7, "b at 'Expected ')' after if condition.'"),
        ("while a", 7, "a at 'Expected '(' after 'while'.'"),
        ("while (a b", 10, "b at 'Expected ')' after while condition.'"),
        ("for a", 5, "a at 'Expected '(' after 'for'.'"),
        ("for (; a b", 10, "b at 'Expected ';' after loop condition.'"),
        ("for (;; a b", 11, "b at 'Expected ')' after for clauses.'"),
        ("break 1", 7, "1 at 'Expected ';' after 'break'.'"),
        ("continue 1", 10, "1 at 'Expected ';' after 'continue'.'"),
        ("a b", 3, "b at 'Expected ';' after expression.'"),
        ("print 1 2", 9, "2 at 'Expected ';' after value.'"),
    ];
    for (source, column, message) in cases {
        assert_eq!(diagnostics(source), vec![(1, column, String::from(message))], "{}", source);
    }
}

#[test]
fn parsing_stops_at_the_first_diagnostic() {
    assert_eq!(
        diagnostics("print 1;\nprint ;\nprint ;\n"),
        vec![(2, 7, String::from("; at 'Expected expression ('false', 'true', 'nil', number, string, identifier or '(')!'"))]
    );
    assert_eq!(
        diagnostics("{ print ; print ; }"),
        vec![(1, 9, String::from("; at 'Expected expression ('false', 'true', 'nil', number, string, identifier or '(')!'"))]
    );
}

#[test]
fn keywords_without_a_rule_begin_no_expression() {
    assert_eq!(diagnostics("class;"), vec![(1, 1, String::from("class at 'Expected expression ('false', 'true', 'nil', number, string, identifier or '(')!'"))]);
    assert_eq!(diagnostics("a.b;"), vec![(1, 2, String::from(". at 'Expected ';' after expression.'"))]);
}

fn call_with(count: usize) -> String {
    let arguments: Vec<String> = (0..count).map(|i| format!("{}", i)).collect();
    format!("f({});", arguments.join(", "))
}

#[test]
fn call_may_have_as_many_arguments_as_the_limit() {
    assert_eq!(MAX_ARGUMENTS, 255);
    let statements = parse(&call_with(255)).unwrap();
    match &statements[0] {
        Statement::Expression(Expression::Call { arguments, .. }) => {
            assert_eq!(arguments.len(), 255)
        }
        other => panic!("not a call: {:?}", other),
    }
}

#[test]
fn argument_beyond_the_limit_is_reported_and_parsing_goes_on() {
    let source = format!("{} print ;", call_with(256));
    let found = diagnostics(&source);
    assert_eq!(found.len(), 1);
    assert_eq!(found[0].2, "255 at 'Cannot have more than 255 arguments.'");
    let source = call_with(257);
    let found = diagnostics(&source);
    assert_eq!(found.len(), 2);
    assert_eq!(found[0].2, "255 at 'Cannot have more than 255 arguments.'");
    assert_eq!(found[1].2, "256 at 'Cannot have more than 255 arguments.'");
    let source = format!("{} a b", call_with(256).trim_end_matches(';'));
    let found = diagnostics(&source);
    assert_eq!(found.len(), 2);
    assert_eq!(found[1].2, "a at 'Expected ';' after expression.'");
}

fn function_with(count: usize) -> String {
    let parameters: Vec<String> = (0..count).map(|i| format!("x{}", i)).collect();
    format!("fn f({}) {{ }}", parameters.join(", "))
}

#[test]
fn parameter_beyond_the_limit_is_reported() {
    assert_eq!(MAX_PARAMETERS, 255);
    let statements = parse(&function_with(255)).unwrap();
    assert!(matches!(&statements[0], Statement::Function { parameters, .. } if parameters.len() == 255));
    let found = diagnostics(&function_with(256));
    assert_eq!(found.len(), 1);
    assert_eq!(found[0].2, "x255 at 'Cannot have more than 255 parameters.'");
}

fn token(token_type: TokenType, lexeme: &str, literal: Option<Literal>, column: u32) -> Token {
    Token { token_type, lexeme: String::from(lexeme), literal, line: 1, column }
}

#[test]
fn number_token_without_a_value_is_rejected() {
    let tokens = vec![
        token(TokenType::Number, "1", None, 1),
        token(TokenType::Semicolon, ";", None, 2),
        token(TokenType::Eof, "", None, 3),
    ];
    let errors = Parser::new(&tokens).parse().unwrap_err();
    assert_eq!(errors.len(), 1);
    assert_eq!((errors[0].line, errors[0].column), (1, 1));
    assert_eq!(errors[0].message, "1 at 'Expected literal!'");
}

#[test]
fn tokens_after_the_first_end_token_are_not_read() {
    let tokens = vec![
        token(TokenType::Number, "1", Some(Literal::Number(String::from("1"))), 1),
        token(TokenType::Semicolon, ";", None, 2),
        token(TokenType::Eof, "", None, 3),
        token(TokenType::Print, "print", None, 4),
        token(TokenType::Eof, "", None, 9),
    ];
    let statements = Parser::new(&tokens).parse().unwrap();
    assert_eq!(statements.len(), 1);
}

#[test]
fn parser_can_be_asked_again() {
    let tokens = tokenize("print 1;");
    let mut parser = Parser::new(&tokens);
    assert_eq!(parser.parse().unwrap().len(), 1);
    assert_eq!(parser.parse().unwrap().len(), 0);
    let tokens = tokenize("print ;");
    let mut parser = Parser::new(&tokens);
    assert_eq!(parser.parse().unwrap_err().len(), 1);
    assert_eq!(parser.parse().unwrap_err().len(), 1);
}

#[test]
fn run_scans_and_parses_and_remembers_failure() {
    let mut cpl = Cpl::new();
    assert!(!cpl.had_error);
    let (tokens, tree) = cpl.run("print 1 + 2;");
    assert_eq!(tokens.len(), 6);
    assert_eq!(stmt(&tree.unwrap()[0]), "(print (+ 1 2))");
    assert!(!cpl.had_error);
    let (tokens, tree) = cpl.run("print");
    assert_eq!(tokens.len(), 2);
    assert_eq!(tree.unwrap_err()[0].message, "Expected expression ('false', 'true', 'nil', number, string, identifier or '(')! at end");
    assert!(cpl.had_error);
    let (_, tree) = cpl.run("print 1;");
    assert!(tree.is_ok());
    assert!(cpl.had_error);
    assert!(!Cpl::default().had_error);
}

#[test]
fn trees_can_be_copied() {
    let statements = parse(
        "fn f(a, b) { if (a) return f(b, 1)(2); else { let c = -a or \"s\"; } } \
         for (;;) { while (true) break; continue; } print (nil);",
    )
    .unwrap();
    for statement in &statements {
        let copy = statement.clone();
        assert_eq!(stmt(&copy), stmt(statement));
        assert_eq!(format!("{:?}", copy), format!("{:?}", statement));
    }
    let statements = parse("a = f(1, (2 + 3) * !b);").unwrap();
    match &statements[0] {
        Statement::Expression(expression) => {
            let copy = expression.clone();
            assert_eq!(expr(&copy), expr(expression));
            assert_eq!(format!("{:?}", copy), format!("{:?}", expression));
        }
        other => panic!("not an expression: {:?}", other),
    }
}
