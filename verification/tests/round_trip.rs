use cpl::lang::lexer::{tokenize, Literal};
use cpl::lang::parser::{Expression, Parser, Statement};
use cpl::lang::render::render;

fn parse(source: &str) -> Vec<Statement> {
    let tokens = tokenize(source);
    match Parser::new(&tokens).parse() {
        Ok(statements) => statements,
        Err(errors) => panic!("{} does not parse: {:?}", source, errors),
    }
}

fn literal_shape(l: &Literal) -> String {
    match l {
        Literal::String(s) => format!("{:?}", s),
        Literal::Number(n) => n.clone(),
        Literal::Boolean(b) => format!("{}", b),
        Literal::Nil => String::from("nil"),
    }
}

fn expression_shape(e: &Expression) -> String {
    match e {
        Expression::Binary { left, operator, right } => {
            format!("({} {} {})", operator.lexeme, expression_shape(left), expression_shape(right))
        }
        Expression::Logical { left, operator, right } => {
            format!("[{} {} {}]", operator.lexeme, expression_shape(left), expression_shape(right))
        }
        Expression::Grouping(inner) => format!("(group {})", expression_shape(inner)),
        Expression::Literal(l) => literal_shape(l),
        Expression::Unary { operator, right } => format!("({} {})", operator.lexeme, expression_shape(right)),
        Expression::Variable(name) => name.lexeme.clone(),
        Expression::Assign { name, value } => format!("(= {} {})", name.lexeme, expression_shape(value)),
        Expression::Call { callee, arguments, .. } => {
            let arguments: Vec<String> = arguments.iter().map(expression_shape).collect();
            format!("(call {} [{}])", expression_shape(callee), arguments.join(" "))
        }
    }
}

fn statement_shape(s: &Statement) -> String {
    match s {
        Statement::Expression(e) => format!("(expr {})", expression_shape(e)),
        Statement::Print(e) => format!("(print {})", expression_shape(e)),
        Statement::Variable { name, initializer } => match initializer {
            Some(e) => format!("(let {} {})", name.lexeme, expression_shape(e)),
            None => format!("(let {})", name.lexeme),
        },
        Statement::Block(statements) => {
            let statements: Vec<String> = statements.iter().map(statement_shape).collect();
            format!("(block {})", statements.join(" "))
        }
        Statement::If { condition, then_branch, else_branch } => match else_branch {
            Some(e) => format!("(if {} {} {})", expression_shape(condition), statement_shape(then_branch), statement_shape(e)),
            None => format!("(if {} {})", expression_shape(condition), statement_shape(then_branch)),
        },
        Statement::While { condition, body } => {
            format!("(while {} {})", expression_shape(condition), statement_shape(body))
        }
        Statement::Function { name, parameters, body } => {
            let parameters: Vec<String> = parameters.iter().map(|p| p.lexeme.clone()).collect();
            format!("(fn {} [{}] {})", name.lexeme, parameters.join(" "), statement_shape(body))
        }
        Statement::Return { value, .. } => match value {
            Some(e) => format!("(return {})", expression_shape(e)),
            None => String::from("(return)"),
        },
        Statement::Break { .. } => String::from("(break)"),
        Statement::Continue { .. } => String::from("(continue)"),
    }
}


fn shape(statements: &[Statement]) -> Vec<String> {
    statements.iter().map(statement_shape).collect()
}

fn assert_reads_back(source: &str) {
    let program = parse(source);
    let text = render(&program);
    let again = parse(&text);
    assert_eq!(shape(&again), shape(&program), "{} rendered as {}", source, text);
    assert_eq!(render(&again), text, "{}", source);
}

#[test]
fn rendering_writes_one_space_between_lexemes() {
    assert_eq!(render(&parse("")), "");
    assert_eq!(render(&parse("a;")), "a ;");
    assert_eq!(render(&parse("let x=1+2*3;")), "let x = 1 + 2 * 3 ;");
    assert_eq!(render(&parse("print(1+2)*-3;")), "print ( 1 + 2 ) * - 3 ;");
    assert_eq!(render(&parse("f(a,b)(c)();")), "f ( a , b ) ( c ) ( ) ;");
    assert_eq!(render(&parse("a=b=c or d and !e;")), "a = b = c or d and ! e ;");
    assert_eq!(
        render(&parse("fn f(a,b){return a;return;}")),
        "fn f ( a , b ) { return a ; return ; }"
    );
    assert_eq!(
        render(&parse("if(a)print 1;else{break;continue;}")),
        "if ( a ) print 1 ; else { break ; continue ; }"
    );
    assert_eq!(render(&parse("while(true)let_ = nil;")), "while ( true ) let_ = nil ;");
    assert_eq!(render(&parse("let a;let b=false;")), "let a ; let b = false ;");
}

#[test]
fn rendering_keeps_literals_as_written() {
    assert_eq!(render(&parse("print 01.50;")), "print 01.50 ;");
    assert_eq!(render(&parse("print 7.;")), "print 7. ;");
    assert_eq!(render(&parse("print \"a  b\";")), "print \"a  b\" ;");
    assert_eq!(render(&parse("print \"\";")), "print \"\" ;");
    assert_eq!(render(&parse("print \"x\ny\";")), "print \"x\ny\" ;");
}

#[test]
fn rendering_writes_a_for_loop_as_what_it_stands_for() {
    assert_eq!(
        render(&parse("for (let i = 0; i < 3; i = i + 1) print i;")),
        "{ let i = 0 ; while ( i < 3 ) { print i ; i = i + 1 ; } }"
    );
    assert_eq!(render(&parse("for (;;) print 1;")), "{ while ( true ) print 1 ; }");
    assert_eq!(render(&parse("for (a;;) { }")), "{ a ; while ( true ) { } }");
    assert_eq!(
        render(&parse("for (;;a) if (b) c;")),
        "{ while ( true ) { if ( b ) c ; a ; } }"
    );
}

#[test]
fn rendered_program_parses_back_as_the_same_program() {
    let sources = [
        "",
        "a;",
        "let x = 1 + 2 * 3;",
        "1 - 2 - 3; 8 / 4 * 2; 1 < 2 <= 3 > 4 >= 5; 1 == 2 != 3;",
        "a or b and c == d < e + f * -g;",
        "a = b = (c = d);",
        "!-!a; -a - -b; ((a));",
        "f(); f(1, a + b)(c)(); f(g(h(1)), (2));",
        "true; false; nil; 12.50; \"text\"; \"\"; name; (1);",
        "let a; let b = 1; print b; { let c = b; { } }",
        "if (a) print 1; else print 2;",
        "if (a) if (b) print 1; else print 2;",
        "if (a) { if (b) print 1; } else print 2;",
        "if (a) while (b) if (c) d; else e;",
        "while (a) { break; continue; }",
        "fn f() { } fn g(x) { return x; } fn h(x, y, z) { return; }",
        "for (let i = 0; i < 3; i = i + 1) print i;",
        "for (;;) print 1;",
        "for (i = 0;;) print 1;",
        "for (; i < 2;) print 1;",
        "for (;; i = i + 1) { }",
        "for (;;) for (let j = 0; j; j = j - 1) if (j) print j;",
        "for (;; a) if (b) c;",
        "while (a) for (;;) if (b) c; print d;",
        "print \"a b\nc\"; größe = ñ2;",
        "fn outer(a) { fn inner(b) { return a + b; } return inner; } outer(1)(2);",
    ];
    for source in sources {
        assert_reads_back(source);
    }
}

#[test]
fn rendering_forgets_places_only() {
    let program = parse("let   x\n=\n\t1 ;\n\nprint   x\n;");
    assert_eq!(render(&program), "let x = 1 ; print x ;");
    let again = parse(&render(&program));
    match (&program[1], &again[1]) {
        (Statement::Print(Expression::Variable(first)), Statement::Print(Expression::Variable(second))) => {
            assert_eq!((first.line, first.column), (5, 9));
            assert_eq!((second.line, second.column), (1, 19));
            assert_eq!(first.lexeme, second.lexeme);
        }
        other => panic!("not two print statements: {:?}", other),
    }
}
