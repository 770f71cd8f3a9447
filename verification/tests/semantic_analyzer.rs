use cpl::lang::errors::Error as Diagnostic;
use cpl::lang::lexer::tokenize;
use cpl::lang::parser::Parser;
use cpl::lang::semantic_analyzer::{Analyzer, Error};

fn analyze(source: &str) -> Result<(), Vec<(usize, usize, String)>> {
    let tokens = tokenize(source);
    let statements = match Parser::new(&tokens).parse() {
        Ok(statements) => statements,
        Err(errors) => panic!("{} does not parse: {:?}", source, errors),
    };
    match Analyzer::analyze(&statements) {
        Ok(()) => Ok(()),
        Err(errors) => Err(errors.into_iter().map(|e| (e.line, e.column, e.message)).collect()),
    }
}

fn one(line: usize, column: usize, message: &str) -> Result<(), Vec<(usize, usize, String)>> {
    Err(vec![(line, column, String::from(message))])
}

#[test]
fn empty_program_passes() {
    assert_eq!(analyze(""), Ok(()));
}

#[test]
fn use_of_a_variable_without_a_value_is_reported() {
    assert_eq!(
        analyze("{ let x; print x; }"),
        one(1, 16, "Variable 'x' is used before being initialized. (1:16)")
    );
}

#[test]
fn inner_declaration_shadows_the_outer_one() {
    assert_eq!(analyze("let x = 1; { let x = 2; print x; }"), Ok(()));
    assert_eq!(analyze("let x = 1; { let x; } print x;"), Ok(()));
    assert_eq!(
        analyze("let x = 1; { let x; print x; }"),
        one(1, 27, "Variable 'x' is used before being initialized. (1:27)")
    );
}

#[test]
fn second_declaration_in_one_scope_is_reported() {
    assert_eq!(
        analyze("let x = 1; let x = 2;"),
        one(1, 16, "Variable 'x' is already declared in this scope.")
    );
    assert_eq!(
        analyze("{ let y; {} let y; }"),
        one(1, 17, "Variable 'y' is already declared in this scope.")
    );
}

#[test]
fn use_of_an_undefined_variable_is_reported() {
    assert_eq!(analyze("print y;"), one(1, 7, "Variable 'y' is not defined. (1:7)"));
    assert_eq!(analyze("{ let y = 1; }\nprint y;"), one(2, 7, "Variable 'y' is not defined. (2:7)"));
}

#[test]
fn assignment_declares_nothing() {
    assert_eq!(analyze("y = 1;"), one(1, 1, "Variable 'y' is not defined. (1:1)"));
    assert_eq!(analyze("let y = 1; y = 2;"), Ok(()));
    assert_eq!(
        analyze("let y; y = 2;"),
        one(1, 8, "Variable 'y' is used before being initialized. (1:8)")
    );
}

#[test]
fn value_of_an_assignment_is_walked_before_its_target() {
    assert_eq!(analyze("a = b;"), one(1, 5, "Variable 'b' is not defined. (1:5)"));
}

#[test]
fn declaration_is_known_to_its_own_initializer() {
    assert_eq!(analyze("let a = a;"), Ok(()));
}

#[test]
fn every_operand_is_walked_from_left_to_right() {
    assert_eq!(analyze("let a = 1; print a + b * c;"), one(1, 22, "Variable 'b' is not defined. (1:22)"));
    assert_eq!(analyze("let a = 1; print a or b;"), one(1, 23, "Variable 'b' is not defined. (1:23)"));
    assert_eq!(analyze("let a = 1; print -(a and !b);"), one(1, 27, "Variable 'b' is not defined. (1:27)"));
    assert_eq!(analyze("let a = 1; print (a) == (a);"), Ok(()));
    assert_eq!(analyze("print 1 + \"a\" + true + nil;"), Ok(()));
}

#[test]
fn call_walks_callee_and_arguments() {
    assert_eq!(analyze("let f = 1; let a = 2; f(a, a)(a);"), Ok(()));
    assert_eq!(analyze("let a = 2; f(a);"), one(1, 12, "Variable 'f' is not defined. (1:12)"));
    assert_eq!(analyze("let f = 1; let a = 2; f(a, b, c);"), one(1, 28, "Variable 'b' is not defined. (1:28)"));
}

#[test]
fn parameters_hold_values_in_the_body() {
    assert_eq!(analyze("fn f(a, b) { print a + b; }"), Ok(()));
    assert_eq!(analyze("fn f(a) { let a = 1; print a; }"), Ok(()));
    assert_eq!(analyze("fn f(a) { } print a;"), one(1, 19, "Variable 'a' is not defined. (1:19)"));
    assert_eq!(
        analyze("fn f(a, b, a) { }"),
        one(1, 12, "Variable 'a' is already declared in this scope.")
    );
}

#[test]
fn function_name_is_declared_without_a_value() {
    assert_eq!(
        analyze("fn f() { } let f = 1;"),
        one(1, 16, "Variable 'f' is already declared in this scope.")
    );
    assert_eq!(
        analyze("fn f() { } f();"),
        one(1, 12, "Variable 'f' is used before being initialized. (1:12)")
    );
    assert_eq!(analyze("let f = 1; { fn f() { } }"), Ok(()));
}

#[test]
fn branches_and_loops_are_walked() {
    assert_eq!(analyze("let a = 1; if (a) print a; else print a;"), Ok(()));
    assert_eq!(analyze("if (a) print 1;"), one(1, 5, "Variable 'a' is not defined. (1:5)"));
    assert_eq!(analyze("let a = 1; if (a) print b;"), one(1, 25, "Variable 'b' is not defined. (1:25)"));
    assert_eq!(analyze("let a = 1; if (a) print a; else print b;"), one(1, 39, "Variable 'b' is not defined. (1:39)"));
    assert_eq!(analyze("while (a) { }"), one(1, 8, "Variable 'a' is not defined. (1:8)"));
    assert_eq!(analyze("let a = 1; while (a) { print b; }"), one(1, 30, "Variable 'b' is not defined. (1:30)"));
    assert_eq!(analyze("for (let i = 0; i < 3; i = i + 1) print i;"), Ok(()));
    assert_eq!(analyze("for (let i = 0; i < 3; i = i + 1) print i; print i;"), one(1, 50, "Variable 'i' is not defined. (1:50)"));
    assert_eq!(analyze("while (true) { break; continue; }"), Ok(()));
}

#[test]
fn return_value_is_walked() {
    assert_eq!(analyze("fn f(a) { return a; return; }"), Ok(()));
    assert_eq!(analyze("return a;"), one(1, 8, "Variable 'a' is not defined. (1:8)"));
}

#[test]
fn only_the_first_error_is_reported() {
    assert_eq!(analyze("print a; print b;"), one(1, 7, "Variable 'a' is not defined. (1:7)"));
}

#[test]
fn error_messages_and_diagnostics() {
    let error = Error::VariableRedeclaration(String::from("x"), 3, 4);
    assert_eq!(error.to_string(), "Variable 'x' is already declared in this scope.");
    let diagnostic: Diagnostic = error.to_diagnostic();
    assert_eq!((diagnostic.line, diagnostic.column), (3, 4));
    assert_eq!(
        diagnostic.to_string(),
        "[line 3:column 4]: Variable 'x' is already declared in this scope."
    );
    let error = Error::VariableNotFound(String::from("long_name"), 10, 200);
    assert_eq!(error.to_string(), "Variable 'long_name' is not defined. (10:200)");
    let error = Error::UninitializedVariable(String::from("y"), 4294967295, 0);
    assert_eq!(error.to_string(), "Variable 'y' is used before being initialized. (4294967295:0)");
    assert_eq!(error.to_diagnostic().line, 4294967295);
    let error = Error::NoActiveScope;
    assert_eq!(error.to_string(), "No active scope.");
    let diagnostic = error.to_diagnostic();
    assert_eq!((diagnostic.line, diagnostic.column, diagnostic.message.as_str()), (0, 0, "No active scope."));
}
