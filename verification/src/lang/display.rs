//! The syntax tree as text, in prefix notation: what a front end prints
//! to show a tree.

use vstd::prelude::*;
use vstd::string::*;
use crate::lang::lexer::{token_views, Literal, LiteralView, Token, TokenView};
use crate::lang::parser::{
    expression_views,
    statement_views,
    Expression,
    ExpressionView,
    Statement,
    StatementView,
};

verus! {

/// A literal value as text: a string as it is, a number as its numeral,
/// `true`, `false` or `nil`.
pub open spec fn literal_text(value: LiteralView) -> Seq<char> {
    match value {
        LiteralView::String(text) => text,
        LiteralView::Number(numeral) => numeral,
        LiteralView::Boolean(b) => if b {
            "true"@
        } else {
            "false"@
        },
        LiteralView::Nil => "nil"@,
    }
}

/// An expression as text, the operator first: `(+ 1 2)`, `(group x)`,
/// `(= x 1)`, `(f(1, 2))`.
pub open spec fn expression_text(e: ExpressionView) -> Seq<char>
    decreases e, 0int,
{
    match e {
        ExpressionView::Binary { left, operator, right } => "("@ + operator.lexeme + " "@
            + expression_text(*left) + " "@ + expression_text(*right) + ")"@,
        ExpressionView::Logical { left, operator, right } => "("@ + operator.lexeme + " "@
            + expression_text(*left) + " "@ + expression_text(*right) + ")"@,
        ExpressionView::Grouping(inner) => "(group "@ + expression_text(*inner) + ")"@,
        ExpressionView::Literal(value) => literal_text(value),
        ExpressionView::Unary { operator, right } => "("@ + operator.lexeme + " "@
            + expression_text(*right) + ")"@,
        ExpressionView::Variable(name) => name.lexeme,
        ExpressionView::Assign { name, value } => "(= "@ + name.lexeme + " "@ + expression_text(
            *value,
        ) + ")"@,
        ExpressionView::Call { callee, arguments, .. } => "("@ + expression_text(*callee) + "("@
            + arguments_text(arguments, 0) + "))"@,
    }
}

/// The expressions of `list` from index `i` on as text, with `, ` between
/// each two.
pub open spec fn arguments_text(list: Seq<ExpressionView>, i: int) -> Seq<char>
    decreases list, list.len() - i,
{
    if 0 <= i < list.len() {
        if i + 1 < list.len() {
            expression_text(list[i]) + ", "@ + arguments_text(list, i + 1)
        } else {
            expression_text(list[i])
        }
    } else {
        Seq::empty()
    }
}

/// The lexemes of the tokens of `list` from index `i` on, with `, `
/// between each two.
pub open spec fn names_text(list: Seq<TokenView>, i: int) -> Seq<char>
    decreases list.len() - i,
{
    if 0 <= i < list.len() {
        if i + 1 < list.len() {
            list[i].lexeme + ", "@ + names_text(list, i + 1)
        } else {
            list[i].lexeme
        }
    } else {
        Seq::empty()
    }
}

/// A statement as text, the keyword first: `(print x)`, `(var x 1)`,
/// `(block a b)`, `(if c a b)`, `(while c a)`, `(fn f(a, b) body)`,
/// `(ret return x)`. An expression statement is its expression.
pub open spec fn statement_text(s: StatementView) -> Seq<char>
    decreases s, 0int,
{
    match s {
        StatementView::Expression(e) => expression_text(e),
        StatementView::Print(e) => "(print "@ + expression_text(e) + ")"@,
        StatementView::Variable { name, initializer } => match initializer {
            Some(e) => "(var "@ + name.lexeme + " "@ + expression_text(e) + ")"@,
            None => "(var "@ + name.lexeme + ")"@,
        },
        StatementView::Block(statements) => "(block "@ + statements_text(statements, 0) + ")"@,
        StatementView::If { condition, then_branch, else_branch } => "(if "@ + expression_text(
            condition,
        ) + " "@ + statement_text(*then_branch) + " "@ + (match else_branch {
            Some(e) => statement_text(*e),
            None => Seq::empty(),
        }) + ")"@,
        StatementView::While { condition, body } => "(while "@ + expression_text(condition)
            + " "@ + statement_text(*body) + ")"@,
        StatementView::Function { name, parameters, body } => "(fn "@ + name.lexeme + "("@
            + names_text(parameters, 0) + ") "@ + statement_text(*body) + ")"@,
        StatementView::Return { keyword, value } => match value {
            Some(e) => "(ret "@ + keyword.lexeme + " "@ + expression_text(e) + ")"@,
            None => "(ret "@ + keyword.lexeme + ")"@,
        },
        StatementView::Break { keyword } => "(break "@ + keyword.lexeme + ")"@,
        StatementView::Continue { keyword } => "(continue "@ + keyword.lexeme + ")"@,
    }
}

/// The statements of `list` from index `i` on as text, with a space
/// between each two.
pub open spec fn statements_text(list: Seq<StatementView>, i: int) -> Seq<char>
    decreases list, list.len() - i,
{
    if 0 <= i < list.len() {
        if i + 1 < list.len() {
            statement_text(list[i]) + " "@ + statements_text(list, i + 1)
        } else {
            statement_text(list[i])
        }
    } else {
        Seq::empty()
    }
}

/// Appends a literal value to `out`.
fn push_literal(value: &Literal, out: &mut String)
    ensures
        final(out)@ == old(out)@ + literal_text(value@),
{
    match value {
        Literal::String(text) => out.append(text.as_str()),
        Literal::Number(numeral) => out.append(numeral.as_str()),
        Literal::Boolean(b) => {
            if *b {
                out.append("true");
            } else {
                out.append("false");
            }
        },
        Literal::Nil => out.append("nil"),
    }
}

/// Appends an expression to `out`.
fn push_expression(expression: &Expression, out: &mut String)
    ensures
        final(out)@ == old(out)@ + expression_text(expression@),
    decreases expression,
{
    let ghost start = out@;
    match expression {
        Expression::Binary { left, operator, right } => {
            out.append("(");
            out.append(operator.lexeme.as_str());
            out.append(" ");
            push_expression(left, out);
            out.append(" ");
            push_expression(right, out);
            out.append(")");
            assert(out@ =~= start + expression_text(expression@));
        },
        Expression::Logical { left, operator, right } => {
            out.append("(");
            out.append(operator.lexeme.as_str());
            out.append(" ");
            push_expression(left, out);
            out.append(" ");
            push_expression(right, out);
            out.append(")");
            assert(out@ =~= start + expression_text(expression@));
        },
        Expression::Grouping(inner) => {
            out.append("(group ");
            push_expression(inner, out);
            out.append(")");
            assert(out@ =~= start + expression_text(expression@));
        },
        Expression::Literal(value) => {
            push_literal(value, out);
        },
        Expression::Unary { operator, right } => {
            out.append("(");
            out.append(operator.lexeme.as_str());
            out.append(" ");
            push_expression(right, out);
            out.append(")");
            assert(out@ =~= start + expression_text(expression@));
        },
        Expression::Variable(name) => {
            out.append(name.lexeme.as_str());
        },
        Expression::Assign { name, value } => {
            out.append("(= ");
            out.append(name.lexeme.as_str());
            out.append(" ");
            push_expression(value, out);
            out.append(")");
            assert(out@ =~= start + expression_text(expression@));
        },
        Expression::Call { callee, arguments, .. } => {
            out.append("(");
            push_expression(callee, out);
            out.append("(");
            let ghost list = expression@->Call_arguments;
            assert(list =~= expression_views(arguments@));
            let ghost before = out@;
            let mut i: usize = 0;
            while i < arguments.len()
                invariant
                    i <= arguments.len(),
                    list == expression_views(arguments@),
                    before + arguments_text(list, 0) == out@ + arguments_text(list, i as int),
                    expression matches Expression::Call { arguments: a, .. } && a == arguments,
                decreases arguments.len() - i,
            {
                let ghost now = out@;
                push_expression(&arguments[i], out);
                if i + 1 < arguments.len() {
                    out.append(", ");
                }
                assert(out@ + arguments_text(list, i + 1) =~= now + arguments_text(list, i as int));
                i += 1;
            }
            assert(out@ =~= before + arguments_text(list, 0));
            out.append("))");
            assert(out@ =~= start + expression_text(expression@));
        },
    }
}

/// Appends a statement to `out`.
fn push_statement(statement: &Statement, out: &mut String)
    ensures
        final(out)@ == old(out)@ + statement_text(statement@),
    decreases statement,
{
    let ghost start = out@;
    match statement {
        Statement::Expression(expression) => {
            push_expression(expression, out);
        },
        Statement::Print(expression) => {
            out.append("(print ");
            push_expression(expression, out);
            out.append(")");
            assert(out@ =~= start + statement_text(statement@));
        },
        Statement::Variable { name, initializer } => {
            out.append("(var ");
            out.append(name.lexeme.as_str());
            if let Some(value) = initializer {
                out.append(" ");
                push_expression(value, out);
            }
            out.append(")");
            assert(out@ =~= start + statement_text(statement@));
        },
        Statement::Block(statements) => {
            out.append("(block ");
            let ghost list = statement@->Block_0;
            assert(list =~= statement_views(statements@));
            let ghost before = out@;
            let mut i: usize = 0;
            while i < statements.len()
                invariant
                    i <= statements.len(),
                    list == statement_views(statements@),
                    before + statements_text(list, 0) == out@ + statements_text(list, i as int),
                    statement matches Statement::Block(s) && s == statements,
                decreases statements.len() - i,
            {
                let ghost now = out@;
                push_statement(&statements[i], out);
                if i + 1 < statements.len() {
                    out.append(" ");
                }
                assert(out@ + statements_text(list, i + 1) =~= now + statements_text(
                    list,
                    i as int,
                ));
                i += 1;
            }
            assert(out@ =~= before + statements_text(list, 0));
            out.append(")");
            assert(out@ =~= start + statement_text(statement@));
        },
        Statement::If { condition, then_branch, else_branch } => {
            out.append("(if ");
            push_expression(condition, out);
            out.append(" ");
            push_statement(then_branch, out);
            out.append(" ");
            if let Some(other) = else_branch {
                push_statement(other, out);
            }
            out.append(")");
            assert(out@ =~= start + statement_text(statement@));
        },
        Statement::While { condition, body } => {
            out.append("(while ");
            push_expression(condition, out);
            out.append(" ");
            push_statement(body, out);
            out.append(")");
            assert(out@ =~= start + statement_text(statement@));
        },
        Statement::Function { name, parameters, body } => {
            out.append("(fn ");
            out.append(name.lexeme.as_str());
            out.append("(");
            let ghost list = token_views(parameters@);
            let ghost before = out@;
            let mut i: usize = 0;
            while i < parameters.len()
                invariant
                    i <= parameters.len(),
                    list == token_views(parameters@),
                    before + names_text(list, 0) == out@ + names_text(list, i as int),
                decreases parameters.len() - i,
            {
                let ghost now = out@;
                out.append(parameters[i].lexeme.as_str());
                if i + 1 < parameters.len() {
                    out.append(", ");
                }
                assert(out@ + names_text(list, i + 1) =~= now + names_text(list, i as int));
                i += 1;
            }
            assert(out@ =~= before + names_text(list, 0));
            out.append(") ");
            push_statement(body, out);
            out.append(")");
            assert(out@ =~= start + statement_text(statement@));
        },
        Statement::Return { keyword, value } => {
            out.append("(ret ");
            out.append(keyword.lexeme.as_str());
            if let Some(value) = value {
                out.append(" ");
                push_expression(value, out);
            }
            out.append(")");
            assert(out@ =~= start + statement_text(statement@));
        },
        Statement::Break { keyword } => {
            out.append("(break ");
            out.append(keyword.lexeme.as_str());
            out.append(")");
            assert(out@ =~= start + statement_text(statement@));
        },
        Statement::Continue { keyword } => {
            out.append("(continue ");
            out.append(keyword.lexeme.as_str());
            out.append(")");
            assert(out@ =~= start + statement_text(statement@));
        },
    }
}

impl Expression {
    /// The expression as text, in prefix notation.
    pub fn to_string(&self) -> (text: String)
        ensures
            text@ == expression_text(self@),
    {
        let mut text = String::new();
        push_expression(self, &mut text);
        assert(text@ =~= expression_text(self@));
        text
    }
}

impl Statement {
    /// The statement as text, in prefix notation.
    pub fn to_string(&self) -> (text: String)
        ensures
            text@ == statement_text(self@),
    {
        let mut text = String::new();
        push_statement(self, &mut text);
        assert(text@ =~= statement_text(self@));
        text
    }
}

} // verus!
