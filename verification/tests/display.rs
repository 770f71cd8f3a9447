use cpl::lang::lexer::tokenize;
use cpl::lang::parser::{Parser, Statement};

fn parse(source: &str) -> Vec<Statement> {
    let tokens = tokenize(source);
    match Parser::new(&tokens).parse() {
        Ok(statements) => statements,
        Err(errors) => panic!("{} does not parse: {:?}", source, errors),
    }
}

fn shown(source: &str) -> Vec<String> {
    parse(source).iter().map(|statement| statement.to_string()).collect()
}

#[test]
fn expressions_in_prefix_notation() {
    assert_eq!(shown("1 + 2 * 3;"), vec!["(+ 1 (* 2 3))"]);
    assert_eq!(shown("a or b and c;"), vec!["(or a (and b c))"]);
    assert_eq!(shown("(a);"), vec!["(group a)"]);
    assert_eq!(shown("-a; !b;"), vec!["(- a)", "(! b)"]);
    assert_eq!(shown("a = b = 1;"), vec!["(= a (= b 1))"]);
    assert_eq!(shown("f(); f(1); f(1, a + 2, g(3))(4);"), vec![
        "(f())",
        "(f(1))",
        "((f(1, (+ a 2), (g(3))))(4))"
    ]);
    assert_eq!(shown("true; false; nil; 01.50; \"a b\";"), vec![
        "true", "false", "nil", "01.50", "a b"
    ]);
}

#[test]
fn statements_in_prefix_notation() {
    assert_eq!(shown("print 1;"), vec!["(print 1)"]);
    assert_eq!(shown("let a; let b = a;"), vec!["(var a)", "(var b a)"]);
    assert_eq!(shown("{ } { a; } { a; b; c; }"), vec!["(block )", "(block a)", "(block a b c)"]);
    assert_eq!(shown("if (a) b; if (a) b; else c;"), vec!["(if a b )", "(if a b c)"]);
    assert_eq!(shown("while (a) b;"), vec!["(while a b)"]);
    assert_eq!(shown("fn f() { } fn g(a) { } fn h(a, b, c) { return a; return; }"), vec![
        "(fn f() (block ))",
        "(fn g(a) (block ))",
        "(fn h(a, b, c) (block (ret return a) (ret return)))"
    ]);
    assert_eq!(shown("while (a) { break; continue; }"), vec![
        "(while a (block (break break) (continue continue)))"
    ]);
    assert_eq!(shown("for (let i = 0; i < 3; i = i + 1) print i;"), vec![
        "(block (var i 0) (while (< i 3) (block (print i) (= i (+ i 1)))))"
    ]);
}

#[test]
fn expression_by_itself() {
    let mut statements = parse("a + f(1);");
    match statements.remove(0) {
        Statement::Expression(expression) => assert_eq!(expression.to_string(), "(+ a (f(1)))"),
        other => panic!("not an expression: {:?}", other),
    }
}
