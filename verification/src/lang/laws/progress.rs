//! No grammar function moves backwards, reads the end token, or takes back
//! a diagnostic.

use vstd::prelude::*;
use crate::lang::errors::ErrorView;
use crate::lang::grammar::{
    at_end,
    binary_levels,
    binary_node,
    check,
    diagnostic,
    limit_checked,
    Parsed,
};
use crate::lang::lexer::{terminated, TokenType, TokenView};
use crate::lang::parser::{ExpressionView, StatementView};
use crate::lang::laws::reading::{
    arguments_at,
    assignment_at,
    binary_at,
    binary_rest_at,
    call_at,
    call_rest_at,
    continues,
    expression_at,
    finish_call_at,
    lemma_assignment_step,
    lemma_binary_rest_step,
    lemma_binary_step,
    lemma_call_rest_step,
    lemma_call_step,
    lemma_expression_step,
    lemma_operand_step,
    lemma_unary_step,
    negates,
    operand_at,
    primary_at,
    unary_at,
};
use crate::lang::laws::steps::{
    block_at,
    block_ends,
    block_items_at,
    clauses_at,
    declaration_at,
    expression_statement_at,
    for_at,
    function_declaration_at,
    if_at,
    initializer_at,
    lemma_block_items_step,
    lemma_declaration_step,
    lemma_parameter_list_grows,
    lemma_statement_step,
    optional_at,
    parameter_list_at,
    parameters_at,
    statement_at,
    variable_declaration_at,
    while_at,
};

verus! {

/// Whether the parse `r`, which began at `pos` with the diagnostics `errs`,
/// moved on: where it found a value, it read at least one token and not
/// the end token; and it took back no diagnostic.
pub open spec fn moved_on<T>(
    ts: Seq<TokenView>,
    pos: int,
    errs: Seq<ErrorView>,
    r: Parsed<T>,
) -> bool {
    &&& r.value is Some ==> pos < r.pos < ts.len()
    &&& r.errors.len() >= errs.len()
}

/// Behind a token that is no end token stands another token.
pub proof fn lemma_token_follows(ts: Seq<TokenView>, pos: int, kind: TokenType)
    requires
        terminated(ts),
        check(ts, pos, kind),
    ensures
        0 <= pos,
        pos + 1 < ts.len(),
{
}

/// How an argument list is parsed, whatever its length: an argument beyond
/// the limit is recorded, and the list goes on.
pub proof fn lemma_arguments_step_any(
    ts: Seq<TokenView>,
    list: Seq<ExpressionView>,
    pos: int,
    errs: Seq<ErrorView>,
)
    ensures
        ({
            let checked = limit_checked(
                errs,
                list.len(),
                255,
                ts[pos],
                "Cannot have more than 255 arguments."@,
            );
            let a = expression_at(ts, pos, checked);
            let r = arguments_at(ts, list, pos, errs);
            &&& a.value is None ==> r.value is None && r.errors == a.errors
            &&& a.value is Some && !(pos <= a.pos <= ts.len()) ==> r.value is None && r.errors
                == a.errors
            &&& a.value is Some && pos <= a.pos <= ts.len() ==> r == if check(
                ts,
                a.pos,
                TokenType::Comma,
            ) {
                arguments_at(ts, list.push(a.value->0), a.pos + 1, a.errors)
            } else {
                crate::lang::grammar::done(list.push(a.value->0), a.pos, a.errors)
            }
        }),
{
    reveal(arguments_at);
    reveal(expression_at);
}

/// An expression moves on.
pub proof fn lemma_expression_moves(ts: Seq<TokenView>, pos: int, errs: Seq<ErrorView>)
    requires
        terminated(ts),
        0 <= pos < ts.len(),
    ensures
        moved_on(ts, pos, errs, expression_at(ts, pos, errs)),
    decreases ts.len() - pos, 22int,
{
    lemma_expression_step(ts, pos, errs);
    lemma_assignment_moves(ts, pos, errs);
}

/// [`lemma_expression_moves`], of an assignment.
pub proof fn lemma_assignment_moves(ts: Seq<TokenView>, pos: int, errs: Seq<ErrorView>)
    requires
        terminated(ts),
        0 <= pos < ts.len(),
    ensures
        moved_on(ts, pos, errs, assignment_at(ts, pos, errs)),
    decreases ts.len() - pos, 21int,
{
    lemma_assignment_failing(ts, pos, errs);
    lemma_assignment_step(ts, pos, errs);
    lemma_binary_moves(ts, 0, pos, errs);
    let t = binary_at(ts, 0, pos, errs);
    if t.value is Some && check(ts, t.pos, TokenType::Equal) {
        lemma_token_follows(ts, t.pos, TokenType::Equal);
        lemma_assignment_moves(ts, t.pos + 1, t.errors);
    }
}

/// What an assignment records where it finds no value.
pub proof fn lemma_assignment_failing(ts: Seq<TokenView>, pos: int, errs: Seq<ErrorView>)
    ensures
        ({
            let t = binary_at(ts, 0, pos, errs);
            let v = assignment_at(ts, t.pos + 1, t.errors);
            let r = assignment_at(ts, pos, errs);
            r.value is None ==> r.errors.len() >= t.errors.len() || (t.value is Some && check(
                ts,
                t.pos,
                TokenType::Equal,
            ) && r.errors.len() >= v.errors.len())
        }),
{
    reveal(assignment_at);
    reveal(binary_at);
}

/// [`lemma_expression_moves`], of a chain of binary operators.
pub proof fn lemma_binary_moves(ts: Seq<TokenView>, level: int, pos: int, errs: Seq<ErrorView>)
    requires
        terminated(ts),
        0 <= pos < ts.len(),
    ensures
        moved_on(ts, pos, errs, binary_at(ts, level, pos, errs)),
    decreases ts.len() - pos, 20 - 2 * level,
{
    lemma_binary_failing(ts, level, pos, errs);
    lemma_binary_step(ts, level, pos, errs);
    if 0 <= level < binary_levels() {
        lemma_operand_moves(ts, level, pos, errs);
        let o = operand_at(ts, level, pos, errs);
        if o.value is Some {
            lemma_binary_rest_moves(ts, level, o.value->0, o.pos, o.errors);
        }
    }
}

/// What a chain records where it finds no value.
pub proof fn lemma_binary_failing(ts: Seq<TokenView>, level: int, pos: int, errs: Seq<ErrorView>)
    ensures
        ({
            let o = operand_at(ts, level, pos, errs);
            let r = binary_at(ts, level, pos, errs);
            &&& !(0 <= level < binary_levels()) ==> r.value is None && r.errors == errs
            &&& 0 <= level < binary_levels() && (o.value is None || !(pos <= o.pos <= ts.len()))
                ==> r.value is None && r.errors == o.errors
        }),
{
    reveal(binary_at);
    reveal(operand_at);
}

/// [`lemma_expression_moves`], of an operand.
pub proof fn lemma_operand_moves(ts: Seq<TokenView>, level: int, pos: int, errs: Seq<ErrorView>)
    requires
        terminated(ts),
        0 <= pos < ts.len(),
        0 <= level < binary_levels(),
    ensures
        moved_on(ts, pos, errs, operand_at(ts, level, pos, errs)),
    decreases ts.len() - pos, 19 - 2 * level,
{
    lemma_operand_step(ts, level, pos, errs);
    if level + 1 < binary_levels() {
        lemma_binary_moves(ts, level + 1, pos, errs);
    } else {
        lemma_unary_moves(ts, pos, errs);
    }
}

/// What the rest of a chain records where it finds no value.
pub proof fn lemma_binary_rest_failing(
    ts: Seq<TokenView>,
    level: int,
    left: ExpressionView,
    pos: int,
    errs: Seq<ErrorView>,
)
    ensures
        ({
            let o = operand_at(ts, level, pos + 1, errs);
            let r = binary_rest_at(ts, level, left, pos, errs);
            continues(ts, level, pos) && (o.value is None || !(pos + 1 <= o.pos <= ts.len()))
                ==> r.value is None && r.errors == o.errors
        }),
{
    reveal(binary_rest_at);
    reveal(operand_at);
}

/// [`lemma_expression_moves`], of the rest of a chain: it may read
/// nothing.
pub proof fn lemma_binary_rest_moves(
    ts: Seq<TokenView>,
    level: int,
    left: ExpressionView,
    pos: int,
    errs: Seq<ErrorView>,
)
    requires
        terminated(ts),
        0 <= pos < ts.len(),
    ensures
        binary_rest_at(ts, level, left, pos, errs).value is Some ==> pos <= binary_rest_at(
            ts,
            level,
            left,
            pos,
            errs,
        ).pos < ts.len(),
        binary_rest_at(ts, level, left, pos, errs).errors.len() >= errs.len(),
    decreases ts.len() - pos, 18 - 2 * level,
{
    lemma_binary_rest_failing(ts, level, left, pos, errs);
    lemma_binary_rest_step(ts, level, left, pos, errs);
    if continues(ts, level, pos) {
        lemma_operand_moves(ts, level, pos + 1, errs);
        let o = operand_at(ts, level, pos + 1, errs);
        if o.value is Some {
            lemma_binary_rest_moves(
                ts,
                level,
                binary_node(level, left, ts[pos], o.value->0),
                o.pos,
                o.errors,
            );
        }
    }
}

/// [`lemma_expression_moves`], of a unary expression.
pub proof fn lemma_unary_moves(ts: Seq<TokenView>, pos: int, errs: Seq<ErrorView>)
    requires
        terminated(ts),
        0 <= pos < ts.len(),
    ensures
        moved_on(ts, pos, errs, unary_at(ts, pos, errs)),
    decreases ts.len() - pos, 8int,
{
    lemma_unary_failing(ts, pos, errs);
    lemma_unary_step(ts, pos, errs);
    if negates(ts, pos) {
        lemma_unary_moves(ts, pos + 1, errs);
    } else {
        lemma_call_moves(ts, pos, errs);
    }
}

/// What a unary expression records where it finds no value.
pub proof fn lemma_unary_failing(ts: Seq<TokenView>, pos: int, errs: Seq<ErrorView>)
    ensures
        negates(ts, pos) && unary_at(ts, pos + 1, errs).value is None ==> unary_at(ts, pos, errs)
            == unary_at(ts, pos + 1, errs),
{
    reveal(unary_at);
}

/// [`lemma_expression_moves`], of a call.
pub proof fn lemma_call_moves(ts: Seq<TokenView>, pos: int, errs: Seq<ErrorView>)
    requires
        terminated(ts),
        0 <= pos < ts.len(),
    ensures
        moved_on(ts, pos, errs, call_at(ts, pos, errs)),
    decreases ts.len() - pos, 7int,
{
    lemma_call_failing(ts, pos, errs);
    lemma_call_step(ts, pos, errs);
    lemma_primary_moves(ts, pos, errs);
    let p = primary_at(ts, pos, errs);
    if p.value is Some {
        lemma_call_rest_moves(ts, p.value->0, p.pos, p.errors);
    }
}

/// What a call records where it finds no value.
pub proof fn lemma_call_failing(ts: Seq<TokenView>, pos: int, errs: Seq<ErrorView>)
    ensures
        ({
            let p = primary_at(ts, pos, errs);
            let r = call_at(ts, pos, errs);
            (p.value is None || !(pos <= p.pos <= ts.len())) ==> r.value is None && r.errors
                == p.errors
        }),
{
    reveal(call_at);
    reveal(primary_at);
}

/// What the argument lists behind a callee record where they find no
/// value.
pub proof fn lemma_call_rest_failing(
    ts: Seq<TokenView>,
    callee: ExpressionView,
    pos: int,
    errs: Seq<ErrorView>,
)
    ensures
        ({
            let c = finish_call_at(ts, callee, pos + 1, errs);
            let r = call_rest_at(ts, callee, pos, errs);
            check(ts, pos, TokenType::LeftParen) && (c.value is None || !(pos + 1 <= c.pos
                <= ts.len())) ==> r.value is None && r.errors == c.errors
        }),
{
    reveal(call_rest_at);
    reveal(finish_call_at);
}

/// [`lemma_expression_moves`], of the argument lists behind a callee: they
/// may read nothing.
pub proof fn lemma_call_rest_moves(
    ts: Seq<TokenView>,
    callee: ExpressionView,
    pos: int,
    errs: Seq<ErrorView>,
)
    requires
        terminated(ts),
        0 <= pos < ts.len(),
    ensures
        call_rest_at(ts, callee, pos, errs).value is Some ==> pos <= call_rest_at(
            ts,
            callee,
            pos,
            errs,
        ).pos < ts.len(),
        call_rest_at(ts, callee, pos, errs).errors.len() >= errs.len(),
    decreases ts.len() - pos, 6int,
{
    lemma_call_rest_failing(ts, callee, pos, errs);
    lemma_call_rest_step(ts, callee, pos, errs);
    if check(ts, pos, TokenType::LeftParen) {
        lemma_token_follows(ts, pos, TokenType::LeftParen);
        lemma_finish_call_moves(ts, callee, pos + 1, errs);
        let c = finish_call_at(ts, callee, pos + 1, errs);
        if c.value is Some {
            lemma_call_rest_moves(ts, c.value->0, c.pos, c.errors);
        }
    }
}

/// How an argument list and its closing parenthesis go on.
pub proof fn lemma_finish_call_any(
    ts: Seq<TokenView>,
    callee: ExpressionView,
    pos: int,
    errs: Seq<ErrorView>,
)
    ensures
        ({
            let l = arguments_at(ts, Seq::empty(), pos, errs);
            let r = finish_call_at(ts, callee, pos, errs);
            &&& check(ts, pos, TokenType::RightParen) ==> r.value is Some && r.pos == pos + 1
                && r.errors == errs
            &&& !check(ts, pos, TokenType::RightParen) ==> {
                &&& r.errors.len() >= l.errors.len()
                &&& r.value is Some ==> l.value is Some && check(
                    ts,
                    l.pos,
                    TokenType::RightParen,
                ) && r.pos == l.pos + 1
            }
        }),
{
    reveal(finish_call_at);
    reveal(arguments_at);
}

/// [`lemma_expression_moves`], of an argument list and its closing
/// parenthesis.
pub proof fn lemma_finish_call_moves(
    ts: Seq<TokenView>,
    callee: ExpressionView,
    pos: int,
    errs: Seq<ErrorView>,
)
    requires
        terminated(ts),
        0 <= pos < ts.len(),
    ensures
        moved_on(ts, pos, errs, finish_call_at(ts, callee, pos, errs)),
    decreases ts.len() - pos, 24int,
{
    lemma_finish_call_any(ts, callee, pos, errs);
    if check(ts, pos, TokenType::RightParen) {
        lemma_token_follows(ts, pos, TokenType::RightParen);
    } else {
        lemma_arguments_moves(ts, Seq::empty(), pos, errs);
        let l = arguments_at(ts, Seq::empty(), pos, errs);
        if check(ts, l.pos, TokenType::RightParen) {
            lemma_token_follows(ts, l.pos, TokenType::RightParen);
        }
    }
}

/// [`lemma_expression_moves`], of the arguments behind those of `list`.
pub proof fn lemma_arguments_moves(
    ts: Seq<TokenView>,
    list: Seq<ExpressionView>,
    pos: int,
    errs: Seq<ErrorView>,
)
    requires
        terminated(ts),
        0 <= pos < ts.len(),
    ensures
        moved_on(ts, pos, errs, arguments_at(ts, list, pos, errs)),
    decreases ts.len() - pos, 23int,
{
    let checked = limit_checked(
        errs,
        list.len(),
        255,
        ts[pos],
        "Cannot have more than 255 arguments."@,
    );
    lemma_arguments_step_any(ts, list, pos, errs);
    lemma_expression_moves(ts, pos, checked);
    let a = expression_at(ts, pos, checked);
    if a.value is Some && check(ts, a.pos, TokenType::Comma) {
        lemma_token_follows(ts, a.pos, TokenType::Comma);
        lemma_arguments_moves(ts, list.push(a.value->0), a.pos + 1, a.errors);
    }
}

/// How a primary expression goes on.
pub proof fn lemma_primary_any(ts: Seq<TokenView>, pos: int, errs: Seq<ErrorView>)
    ensures
        ({
            let e = expression_at(ts, pos + 1, errs);
            let r = primary_at(ts, pos, errs);
            &&& !check(ts, pos, TokenType::LeftParen) ==> r.errors.len() >= errs.len() && (
            r.value is Some ==> !at_end(ts, pos) && r.pos == pos + 1)
            &&& check(ts, pos, TokenType::LeftParen) ==> {
                &&& r.errors.len() >= e.errors.len()
                &&& r.value is Some ==> e.value is Some && check(
                    ts,
                    e.pos,
                    TokenType::RightParen,
                ) && r.pos == e.pos + 1
            }
        }),
{
    reveal(primary_at);
    reveal(expression_at);
}

/// [`lemma_expression_moves`], of a primary expression.
pub proof fn lemma_primary_moves(ts: Seq<TokenView>, pos: int, errs: Seq<ErrorView>)
    requires
        terminated(ts),
        0 <= pos < ts.len(),
    ensures
        moved_on(ts, pos, errs, primary_at(ts, pos, errs)),
    decreases ts.len() - pos, 5int,
{
    lemma_primary_any(ts, pos, errs);
    if check(ts, pos, TokenType::LeftParen) {
        lemma_token_follows(ts, pos, TokenType::LeftParen);
        lemma_expression_moves(ts, pos + 1, errs);
        let e = expression_at(ts, pos + 1, errs);
        if check(ts, e.pos, TokenType::RightParen) {
            lemma_token_follows(ts, e.pos, TokenType::RightParen);
        }
    }
}


// ---------------------------------------------------------------------------
// Statements
// ---------------------------------------------------------------------------

/// What stands behind an expression that must be closed by a token: the
/// token, or a diagnostic.
pub open spec fn closed_by(
    ts: Seq<TokenView>,
    e: Parsed<ExpressionView>,
    kind: TokenType,
    r_value: bool,
    r_pos: int,
    r_errors: Seq<ErrorView>,
) -> bool {
    &&& r_errors.len() >= e.errors.len()
    &&& r_value ==> e.value is Some && check(ts, e.pos, kind) && r_pos == e.pos + 1
}

/// How an expression statement goes on.
pub proof fn lemma_expression_statement_any(ts: Seq<TokenView>, pos: int, errs: Seq<ErrorView>)
    ensures
        ({
            let r = expression_statement_at(ts, pos, errs);
            closed_by(
                ts,
                expression_at(ts, pos, errs),
                TokenType::Semicolon,
                r.value is Some,
                r.pos,
                r.errors,
            )
        }),
{
    reveal(expression_statement_at);
    reveal(expression_at);
}

/// An expression statement moves on.
pub proof fn lemma_expression_statement_moves(ts: Seq<TokenView>, pos: int, errs: Seq<ErrorView>)
    requires
        terminated(ts),
        0 <= pos < ts.len(),
    ensures
        moved_on(ts, pos, errs, expression_statement_at(ts, pos, errs)),
{
    lemma_expression_statement_any(ts, pos, errs);
    lemma_expression_moves(ts, pos, errs);
    let e = expression_at(ts, pos, errs);
    if check(ts, e.pos, TokenType::Semicolon) {
        lemma_token_follows(ts, e.pos, TokenType::Semicolon);
    }
}

/// How a variable declaration goes on.
pub proof fn lemma_variable_declaration_any(ts: Seq<TokenView>, pos: int, errs: Seq<ErrorView>)
    ensures
        ({
            let r = variable_declaration_at(ts, pos, errs);
            let e = expression_at(ts, pos + 2, errs);
            &&& !check(ts, pos, TokenType::Identifier) ==> r.value is None && r.errors.len()
                >= errs.len()
            &&& check(ts, pos, TokenType::Identifier) && check(ts, pos + 1, TokenType::Equal)
                ==> closed_by(ts, e, TokenType::Semicolon, r.value is Some, r.pos, r.errors)
            &&& check(ts, pos, TokenType::Identifier) && !check(ts, pos + 1, TokenType::Equal)
                ==> r.errors.len() >= errs.len() && (r.value is Some ==> check(
                ts,
                pos + 1,
                TokenType::Semicolon,
            ) && r.pos == pos + 2)
        }),
{
    reveal(variable_declaration_at);
    reveal(expression_at);
}

/// A variable declaration moves on.
pub proof fn lemma_variable_declaration_moves(ts: Seq<TokenView>, pos: int, errs: Seq<ErrorView>)
    requires
        terminated(ts),
        0 <= pos < ts.len(),
    ensures
        moved_on(ts, pos, errs, variable_declaration_at(ts, pos, errs)),
{
    lemma_variable_declaration_any(ts, pos, errs);
    if check(ts, pos, TokenType::Identifier) {
        lemma_token_follows(ts, pos, TokenType::Identifier);
        if check(ts, pos + 1, TokenType::Equal) {
            lemma_token_follows(ts, pos + 1, TokenType::Equal);
            lemma_expression_moves(ts, pos + 2, errs);
            let e = expression_at(ts, pos + 2, errs);
            if check(ts, e.pos, TokenType::Semicolon) {
                lemma_token_follows(ts, e.pos, TokenType::Semicolon);
            }
        } else if check(ts, pos + 1, TokenType::Semicolon) {
            lemma_token_follows(ts, pos + 1, TokenType::Semicolon);
        }
    }
}

/// A list of parameters moves on.
pub proof fn lemma_parameter_list_moves(
    ts: Seq<TokenView>,
    list: Seq<TokenView>,
    pos: int,
    errs: Seq<ErrorView>,
)
    requires
        terminated(ts),
        0 <= pos < ts.len(),
    ensures
        moved_on(ts, pos, errs, parameter_list_at(ts, list, pos, errs)),
    decreases ts.len() - pos,
{
    reveal(parameter_list_at);
    lemma_parameter_list_grows(ts, list, pos, errs);
    let checked = limit_checked(
        errs,
        list.len(),
        255,
        ts[pos],
        "Cannot have more than 255 parameters."@,
    );
    if check(ts, pos, TokenType::Identifier) {
        lemma_token_follows(ts, pos, TokenType::Identifier);
        if check(ts, pos + 1, TokenType::Comma) {
            lemma_token_follows(ts, pos + 1, TokenType::Comma);
            lemma_parameter_list_moves(ts, list.push(ts[pos]), pos + 2, checked);
        }
    }
}

/// How the parameters of a function go on.
pub proof fn lemma_parameters_any(ts: Seq<TokenView>, pos: int, errs: Seq<ErrorView>)
    ensures
        ({
            let r = parameters_at(ts, pos, errs);
            let l = parameter_list_at(ts, Seq::empty(), pos + 1, errs);
            &&& !check(ts, pos, TokenType::LeftParen) ==> r.value is None && r.errors.len()
                >= errs.len()
            &&& check(ts, pos, TokenType::LeftParen) && check(ts, pos + 1, TokenType::RightParen)
                ==> r.value is Some && r.pos == pos + 2 && r.errors == errs
            &&& check(ts, pos, TokenType::LeftParen) && !check(ts, pos + 1, TokenType::RightParen)
                ==> r.errors.len() >= l.errors.len() && (r.value is Some ==> l.value is Some
                && check(ts, l.pos, TokenType::RightParen) && r.pos == l.pos + 1)
        }),
{
    reveal(parameters_at);
    reveal(parameter_list_at);
}

/// The parameters of a function move on.
pub proof fn lemma_parameters_moves(ts: Seq<TokenView>, pos: int, errs: Seq<ErrorView>)
    requires
        terminated(ts),
        0 <= pos < ts.len(),
    ensures
        moved_on(ts, pos, errs, parameters_at(ts, pos, errs)),
{
    lemma_parameters_any(ts, pos, errs);
    if check(ts, pos, TokenType::LeftParen) {
        lemma_token_follows(ts, pos, TokenType::LeftParen);
        if check(ts, pos + 1, TokenType::RightParen) {
            lemma_token_follows(ts, pos + 1, TokenType::RightParen);
        } else {
            lemma_parameter_list_moves(ts, Seq::empty(), pos + 1, errs);
            let l = parameter_list_at(ts, Seq::empty(), pos + 1, errs);
            if check(ts, l.pos, TokenType::RightParen) {
                lemma_token_follows(ts, l.pos, TokenType::RightParen);
            }
        }
    }
}

/// How an optional expression goes on.
pub proof fn lemma_optional_any(ts: Seq<TokenView>, pos: int, errs: Seq<ErrorView>, stop: TokenType)
    ensures
        ({
            let r = optional_at(ts, pos, errs, stop);
            let e = expression_at(ts, pos, errs);
            &&& check(ts, pos, stop) ==> r.value is Some && r.pos == pos && r.errors == errs
            &&& !check(ts, pos, stop) ==> r.errors == e.errors && r.pos == e.pos && (r.value
                is Some <==> e.value is Some)
        }),
{
    reveal(optional_at);
    reveal(expression_at);
}

/// An optional expression does not move backwards.
pub proof fn lemma_optional_moves(
    ts: Seq<TokenView>,
    pos: int,
    errs: Seq<ErrorView>,
    stop: TokenType,
)
    requires
        terminated(ts),
        0 <= pos < ts.len(),
    ensures
        optional_at(ts, pos, errs, stop).value is Some ==> pos <= optional_at(
            ts,
            pos,
            errs,
            stop,
        ).pos < ts.len(),
        optional_at(ts, pos, errs, stop).errors.len() >= errs.len(),
{
    lemma_optional_any(ts, pos, errs, stop);
    lemma_expression_moves(ts, pos, errs);
}

/// How the first clause of a `for` loop goes on.
pub proof fn lemma_initializer_any(ts: Seq<TokenView>, pos: int, errs: Seq<ErrorView>)
    ensures
        ({
            let r = initializer_at(ts, pos, errs);
            let s = if check(ts, pos, TokenType::Variable) {
                variable_declaration_at(ts, pos + 1, errs)
            } else {
                expression_statement_at(ts, pos, errs)
            };
            &&& check(ts, pos, TokenType::Semicolon) ==> r.value is Some && r.pos == pos + 1
                && r.errors == errs
            &&& !check(ts, pos, TokenType::Semicolon) ==> r.errors == s.errors && r.pos == s.pos
                && (r.value is Some <==> s.value is Some)
        }),
{
    reveal(initializer_at);
    reveal(variable_declaration_at);
    reveal(expression_statement_at);
}

/// The first clause of a `for` loop moves on.
pub proof fn lemma_initializer_moves(ts: Seq<TokenView>, pos: int, errs: Seq<ErrorView>)
    requires
        terminated(ts),
        0 <= pos < ts.len(),
    ensures
        moved_on(ts, pos, errs, initializer_at(ts, pos, errs)),
{
    lemma_initializer_any(ts, pos, errs);
    if check(ts, pos, TokenType::Semicolon) {
        lemma_token_follows(ts, pos, TokenType::Semicolon);
    } else if check(ts, pos, TokenType::Variable) {
        lemma_token_follows(ts, pos, TokenType::Variable);
        lemma_variable_declaration_moves(ts, pos + 1, errs);
    } else {
        lemma_expression_statement_moves(ts, pos, errs);
    }
}

/// How the clauses of a `for` loop go on.
pub proof fn lemma_clauses_any(ts: Seq<TokenView>, pos: int, errs: Seq<ErrorView>)
    ensures
        ({
            let r = clauses_at(ts, pos, errs);
            let i = initializer_at(ts, pos + 1, errs);
            let c = optional_at(ts, i.pos, i.errors, TokenType::Semicolon);
            let n = optional_at(ts, c.pos + 1, c.errors, TokenType::RightParen);
            &&& !check(ts, pos, TokenType::LeftParen) ==> r.value is None && r.errors.len()
                >= errs.len()
            &&& check(ts, pos, TokenType::LeftParen) && i.value is None ==> r.value is None
                && r.errors == i.errors
            &&& check(ts, pos, TokenType::LeftParen) && i.value is Some && c.value is None
                ==> r.value is None && r.errors == c.errors
            &&& check(ts, pos, TokenType::LeftParen) && i.value is Some && c.value is Some
                && !check(ts, c.pos, TokenType::Semicolon) ==> r.value is None && r.errors.len()
                >= c.errors.len()
            &&& check(ts, pos, TokenType::LeftParen) && i.value is Some && c.value is Some
                && check(ts, c.pos, TokenType::Semicolon) ==> r.errors.len() >= n.errors.len()
                && (r.value is Some ==> n.value is Some && check(
                ts,
                n.pos,
                TokenType::RightParen,
            ) && r.pos == n.pos + 1)
        }),
{
    reveal(clauses_at);
    reveal(initializer_at);
    reveal(optional_at);
}

/// The clauses of a `for` loop move on.
pub proof fn lemma_clauses_moves(ts: Seq<TokenView>, pos: int, errs: Seq<ErrorView>)
    requires
        terminated(ts),
        0 <= pos < ts.len(),
    ensures
        moved_on(ts, pos, errs, clauses_at(ts, pos, errs)),
{
    lemma_clauses_any(ts, pos, errs);
    if check(ts, pos, TokenType::LeftParen) {
        lemma_token_follows(ts, pos, TokenType::LeftParen);
        lemma_initializer_moves(ts, pos + 1, errs);
        let i = initializer_at(ts, pos + 1, errs);
        if i.value is Some {
            lemma_optional_moves(ts, i.pos, i.errors, TokenType::Semicolon);
            let c = optional_at(ts, i.pos, i.errors, TokenType::Semicolon);
            if c.value is Some && check(ts, c.pos, TokenType::Semicolon) {
                lemma_token_follows(ts, c.pos, TokenType::Semicolon);
                lemma_optional_moves(ts, c.pos + 1, c.errors, TokenType::RightParen);
                let n = optional_at(ts, c.pos + 1, c.errors, TokenType::RightParen);
                if check(ts, n.pos, TokenType::RightParen) {
                    lemma_token_follows(ts, n.pos, TokenType::RightParen);
                }
            }
        }
    }
}

/// How the statements that begin with a keyword of their own and hold one
/// expression at most go on.
pub proof fn lemma_simple_statement_any(ts: Seq<TokenView>, pos: int, errs: Seq<ErrorView>)
    ensures
        ({
            let r = statement_at(ts, pos, errs);
            let e = expression_at(ts, pos + 1, errs);
            &&& check(ts, pos, TokenType::Print) ==> closed_by(
                ts,
                e,
                TokenType::Semicolon,
                r.value is Some,
                r.pos,
                r.errors,
            )
            &&& check(ts, pos, TokenType::Return) && !check(ts, pos + 1, TokenType::Semicolon)
                ==> closed_by(ts, e, TokenType::Semicolon, r.value is Some, r.pos, r.errors)
            &&& check(ts, pos, TokenType::Return) && check(ts, pos + 1, TokenType::Semicolon)
                ==> r.value is Some && r.pos == pos + 2 && r.errors == errs
            &&& check(ts, pos, TokenType::Break) || check(ts, pos, TokenType::Continue)
                ==> r.errors.len() >= errs.len() && (r.value is Some ==> check(
                ts,
                pos + 1,
                TokenType::Semicolon,
            ) && r.pos == pos + 2)
        }),
{
    reveal(statement_at);
    reveal(expression_at);
}

/// A statement moves on.
pub proof fn lemma_statement_moves(ts: Seq<TokenView>, pos: int, errs: Seq<ErrorView>)
    requires
        terminated(ts),
        0 <= pos < ts.len(),
    ensures
        moved_on(ts, pos, errs, statement_at(ts, pos, errs)),
    decreases ts.len() - pos, 9int,
{
    lemma_statement_step(ts, pos, errs);
    lemma_simple_statement_any(ts, pos, errs);
    if check(ts, pos, TokenType::Print) || check(ts, pos, TokenType::Return) {
        lemma_token_follows(ts, pos, ts[pos].token_type);
        lemma_expression_moves(ts, pos + 1, errs);
        let e = expression_at(ts, pos + 1, errs);
        if check(ts, e.pos, TokenType::Semicolon) {
            lemma_token_follows(ts, e.pos, TokenType::Semicolon);
        }
        if check(ts, pos + 1, TokenType::Semicolon) {
            lemma_token_follows(ts, pos + 1, TokenType::Semicolon);
        }
    } else if check(ts, pos, TokenType::If) {
        lemma_token_follows(ts, pos, TokenType::If);
        lemma_if_moves(ts, pos + 1, errs);
    } else if check(ts, pos, TokenType::While) {
        lemma_token_follows(ts, pos, TokenType::While);
        lemma_while_moves(ts, pos + 1, errs);
    } else if check(ts, pos, TokenType::For) {
        lemma_token_follows(ts, pos, TokenType::For);
        lemma_for_moves(ts, pos + 1, errs);
    } else if check(ts, pos, TokenType::Break) || check(ts, pos, TokenType::Continue) {
        lemma_token_follows(ts, pos, ts[pos].token_type);
        if check(ts, pos + 1, TokenType::Semicolon) {
            lemma_token_follows(ts, pos + 1, TokenType::Semicolon);
        }
    } else if check(ts, pos, TokenType::LeftBrace) {
        lemma_block_moves(ts, pos, errs);
    } else {
        lemma_expression_statement_moves(ts, pos, errs);
    }
}

/// A declaration moves on.
pub proof fn lemma_declaration_moves(ts: Seq<TokenView>, pos: int, errs: Seq<ErrorView>)
    requires
        terminated(ts),
        0 <= pos < ts.len(),
    ensures
        moved_on(ts, pos, errs, declaration_at(ts, pos, errs)),
    decreases ts.len() - pos, 11int,
{
    lemma_declaration_step(ts, pos, errs);
    if check(ts, pos, TokenType::Variable) {
        lemma_token_follows(ts, pos, TokenType::Variable);
        lemma_variable_declaration_moves(ts, pos + 1, errs);
    } else if check(ts, pos, TokenType::Function) {
        lemma_token_follows(ts, pos, TokenType::Function);
        lemma_function_declaration_moves(ts, pos + 1, errs);
    } else {
        lemma_statement_moves(ts, pos, errs);
    }
}

/// How a function declaration goes on.
pub proof fn lemma_function_declaration_any(ts: Seq<TokenView>, pos: int, errs: Seq<ErrorView>)
    ensures
        ({
            let r = function_declaration_at(ts, pos, errs);
            let p = parameters_at(ts, pos + 1, errs);
            let b = block_at(ts, p.pos, p.errors);
            &&& !check(ts, pos, TokenType::Identifier) ==> r.value is None && r.errors.len()
                >= errs.len()
            &&& check(ts, pos, TokenType::Identifier) && (p.value is None || !(pos + 1 <= p.pos
                <= ts.len())) ==> r.value is None && r.errors == p.errors
            &&& check(ts, pos, TokenType::Identifier) && p.value is Some && pos + 1 <= p.pos
                <= ts.len() ==> r.errors == b.errors && r.pos == b.pos && (r.value is Some
                <==> b.value is Some)
        }),
{
    reveal(function_declaration_at);
    reveal(parameters_at);
    reveal(block_at);
}

/// A function declaration moves on.
pub proof fn lemma_function_declaration_moves(ts: Seq<TokenView>, pos: int, errs: Seq<ErrorView>)
    requires
        terminated(ts),
        0 <= pos < ts.len(),
    ensures
        moved_on(ts, pos, errs, function_declaration_at(ts, pos, errs)),
    decreases ts.len() - pos, 10int,
{
    lemma_function_declaration_any(ts, pos, errs);
    if check(ts, pos, TokenType::Identifier) {
        lemma_token_follows(ts, pos, TokenType::Identifier);
        lemma_parameters_moves(ts, pos + 1, errs);
        let p = parameters_at(ts, pos + 1, errs);
        if p.value is Some {
            lemma_block_moves(ts, p.pos, p.errors);
        }
    }
}

/// How a block goes on.
pub proof fn lemma_block_any(ts: Seq<TokenView>, pos: int, errs: Seq<ErrorView>)
    ensures
        ({
            let r = block_at(ts, pos, errs);
            let i = block_items_at(ts, Seq::empty(), pos + 1, errs);
            &&& !check(ts, pos, TokenType::LeftBrace) ==> r.value is None && r.errors.len()
                >= errs.len()
            &&& check(ts, pos, TokenType::LeftBrace) ==> r.errors.len() >= i.errors.len() && (
            r.value is Some ==> i.value is Some && check(ts, i.pos, TokenType::RightBrace)
                && r.pos == i.pos + 1)
        }),
{
    reveal(block_at);
    reveal(block_items_at);
}

/// A block moves on.
pub proof fn lemma_block_moves(ts: Seq<TokenView>, pos: int, errs: Seq<ErrorView>)
    requires
        terminated(ts),
        0 <= pos < ts.len(),
    ensures
        moved_on(ts, pos, errs, block_at(ts, pos, errs)),
    decreases ts.len() - pos, 8int,
{
    lemma_block_any(ts, pos, errs);
    if check(ts, pos, TokenType::LeftBrace) {
        lemma_token_follows(ts, pos, TokenType::LeftBrace);
        lemma_block_items_moves(ts, Seq::empty(), pos + 1, errs);
        let i = block_items_at(ts, Seq::empty(), pos + 1, errs);
        if check(ts, i.pos, TokenType::RightBrace) {
            lemma_token_follows(ts, i.pos, TokenType::RightBrace);
        }
    }
}

/// What the declarations of a block record where they find no value.
pub proof fn lemma_block_items_failing(
    ts: Seq<TokenView>,
    list: Seq<StatementView>,
    pos: int,
    errs: Seq<ErrorView>,
)
    ensures
        ({
            let d = declaration_at(ts, pos, errs);
            let r = block_items_at(ts, list, pos, errs);
            !block_ends(ts, pos) && (d.value is None || !(pos + 1 <= d.pos <= ts.len()))
                ==> r.value is None && r.errors == d.errors
        }),
{
    reveal(block_items_at);
    reveal(declaration_at);
}

/// The declarations of a block do not move backwards.
pub proof fn lemma_block_items_moves(
    ts: Seq<TokenView>,
    list: Seq<StatementView>,
    pos: int,
    errs: Seq<ErrorView>,
)
    requires
        terminated(ts),
        0 <= pos < ts.len(),
    ensures
        block_items_at(ts, list, pos, errs).value is Some ==> pos <= block_items_at(
            ts,
            list,
            pos,
            errs,
        ).pos < ts.len(),
        block_items_at(ts, list, pos, errs).errors.len() >= errs.len(),
    decreases ts.len() - pos, 12int,
{
    lemma_block_items_failing(ts, list, pos, errs);
    lemma_block_items_step(ts, list, pos, errs);
    if !block_ends(ts, pos) {
        lemma_declaration_moves(ts, pos, errs);
        let d = declaration_at(ts, pos, errs);
        if d.value is Some {
            lemma_block_items_moves(ts, list.push(d.value->0), d.pos, d.errors);
        }
    }
}

/// How the condition and the branches of an `if` go on.
pub proof fn lemma_if_any(ts: Seq<TokenView>, pos: int, errs: Seq<ErrorView>)
    ensures
        ({
            let r = if_at(ts, pos, errs);
            let c = expression_at(ts, pos + 1, errs);
            let t = statement_at(ts, c.pos + 1, c.errors);
            let e = statement_at(ts, t.pos + 1, t.errors);
            let conditioned = check(ts, pos, TokenType::LeftParen) && c.value is Some && check(
                ts,
                c.pos,
                TokenType::RightParen,
            ) && pos + 1 <= c.pos + 1 <= ts.len();
            &&& !check(ts, pos, TokenType::LeftParen) ==> r.value is None && r.errors.len()
                >= errs.len()
            &&& check(ts, pos, TokenType::LeftParen) && !conditioned ==> r.value is None
                && r.errors.len() >= c.errors.len()
            &&& conditioned && (t.value is None || !(c.pos + 1 <= t.pos <= ts.len()))
                ==> r.value is None && r.errors == t.errors
            &&& conditioned && t.value is Some && c.pos + 1 <= t.pos <= ts.len() && check(
                ts,
                t.pos,
                TokenType::Else,
            ) ==> r.errors == e.errors && r.pos == e.pos && (r.value is Some <==> e.value
                is Some)
            &&& conditioned && t.value is Some && c.pos + 1 <= t.pos <= ts.len() && !check(
                ts,
                t.pos,
                TokenType::Else,
            ) ==> r.errors == t.errors && r.pos == t.pos && r.value is Some
        }),
{
    reveal(if_at);
    reveal(statement_at);
    reveal(expression_at);
}

/// An `if` statement moves on.
pub proof fn lemma_if_moves(ts: Seq<TokenView>, pos: int, errs: Seq<ErrorView>)
    requires
        terminated(ts),
        0 <= pos < ts.len(),
    ensures
        moved_on(ts, pos, errs, if_at(ts, pos, errs)),
    decreases ts.len() - pos, 7int,
{
    lemma_if_any(ts, pos, errs);
    if check(ts, pos, TokenType::LeftParen) {
        lemma_token_follows(ts, pos, TokenType::LeftParen);
        lemma_expression_moves(ts, pos + 1, errs);
        let c = expression_at(ts, pos + 1, errs);
        if c.value is Some && check(ts, c.pos, TokenType::RightParen) {
            lemma_token_follows(ts, c.pos, TokenType::RightParen);
            lemma_statement_moves(ts, c.pos + 1, c.errors);
            let t = statement_at(ts, c.pos + 1, c.errors);
            if t.value is Some && check(ts, t.pos, TokenType::Else) {
                lemma_token_follows(ts, t.pos, TokenType::Else);
                lemma_statement_moves(ts, t.pos + 1, t.errors);
            }
        }
    }
}

/// How the condition and the body of a `while` go on.
pub proof fn lemma_while_any(ts: Seq<TokenView>, pos: int, errs: Seq<ErrorView>)
    ensures
        ({
            let r = while_at(ts, pos, errs);
            let c = expression_at(ts, pos + 1, errs);
            let b = statement_at(ts, c.pos + 1, c.errors);
            let conditioned = check(ts, pos, TokenType::LeftParen) && c.value is Some && check(
                ts,
                c.pos,
                TokenType::RightParen,
            ) && pos + 1 <= c.pos + 1 <= ts.len();
            &&& !check(ts, pos, TokenType::LeftParen) ==> r.value is None && r.errors.len()
                >= errs.len()
            &&& check(ts, pos, TokenType::LeftParen) && !conditioned ==> r.value is None
                && r.errors.len() >= c.errors.len()
            &&& conditioned ==> r.errors == b.errors && r.pos == b.pos && (r.value is Some
                <==> b.value is Some)
        }),
{
    reveal(while_at);
    reveal(statement_at);
    reveal(expression_at);
}

/// A `while` statement moves on.
pub proof fn lemma_while_moves(ts: Seq<TokenView>, pos: int, errs: Seq<ErrorView>)
    requires
        terminated(ts),
        0 <= pos < ts.len(),
    ensures
        moved_on(ts, pos, errs, while_at(ts, pos, errs)),
    decreases ts.len() - pos, 7int,
{
    lemma_while_any(ts, pos, errs);
    if check(ts, pos, TokenType::LeftParen) {
        lemma_token_follows(ts, pos, TokenType::LeftParen);
        lemma_expression_moves(ts, pos + 1, errs);
        let c = expression_at(ts, pos + 1, errs);
        if c.value is Some && check(ts, c.pos, TokenType::RightParen) {
            lemma_token_follows(ts, c.pos, TokenType::RightParen);
            lemma_statement_moves(ts, c.pos + 1, c.errors);
        }
    }
}

/// How the clauses and the body of a `for` go on.
pub proof fn lemma_for_any(ts: Seq<TokenView>, pos: int, errs: Seq<ErrorView>)
    ensures
        ({
            let r = for_at(ts, pos, errs);
            let c = clauses_at(ts, pos, errs);
            let b = statement_at(ts, c.pos, c.errors);
            &&& (c.value is None || !(pos + 1 <= c.pos <= ts.len())) ==> r.value is None
                && r.errors == c.errors
            &&& c.value is Some && pos + 1 <= c.pos <= ts.len() ==> r.errors == b.errors
                && r.pos == b.pos && (r.value is Some <==> b.value is Some)
        }),
{
    reveal(for_at);
    reveal(clauses_at);
    reveal(statement_at);
}

/// A `for` statement moves on.
pub proof fn lemma_for_moves(ts: Seq<TokenView>, pos: int, errs: Seq<ErrorView>)
    requires
        terminated(ts),
        0 <= pos < ts.len(),
    ensures
        moved_on(ts, pos, errs, for_at(ts, pos, errs)),
    decreases ts.len() - pos, 7int,
{
    lemma_for_any(ts, pos, errs);
    lemma_clauses_moves(ts, pos, errs);
    let c = clauses_at(ts, pos, errs);
    if c.value is Some {
        lemma_statement_moves(ts, c.pos, c.errors);
    }
}


/// No parse ends before the index where it began, nor beyond the tokens:
/// the guard that lets the grammar be seen to terminate changes no result.
pub proof fn law_forward_changes_nothing(ts: Seq<TokenView>, pos: int, errs: Seq<ErrorView>)
    requires
        terminated(ts),
        0 <= pos < ts.len(),
    ensures
        crate::lang::grammar::forward(
            ts,
            crate::lang::grammar::parse_expression(ts, pos, errs),
            pos,
        ) == crate::lang::grammar::parse_expression(ts, pos, errs),
        crate::lang::grammar::forward(
            ts,
            crate::lang::grammar::parse_statement(ts, pos, errs),
            pos,
        ) == crate::lang::grammar::parse_statement(ts, pos, errs),
        crate::lang::grammar::forward(
            ts,
            crate::lang::grammar::parse_declaration(ts, pos, errs),
            pos + 1,
        ) == crate::lang::grammar::parse_declaration(ts, pos, errs),
{
    reveal(expression_at);
    reveal(statement_at);
    reveal(declaration_at);
    lemma_expression_moves(ts, pos, errs);
    lemma_statement_moves(ts, pos, errs);
    lemma_declaration_moves(ts, pos, errs);
}


/// What the declarations of a program record where they find no value.
pub proof fn lemma_program_failing(
    ts: Seq<TokenView>,
    list: Seq<StatementView>,
    pos: int,
    errs: Seq<ErrorView>,
)
    ensures
        ({
            let d = declaration_at(ts, pos, errs);
            let r = crate::lang::laws::steps::program_at(ts, list, pos, errs);
            !(at_end(ts, pos) || errs.len() > 0) && (d.value is None || !(pos + 1 <= d.pos
                <= ts.len())) ==> r.value is None && r.errors == d.errors
        }),
{
    reveal(crate::lang::laws::steps::program_at);
    reveal(declaration_at);
}

/// The declarations of a program do not move backwards; and where they go
/// well, they end at the end token.
pub proof fn lemma_program_moves(
    ts: Seq<TokenView>,
    list: Seq<StatementView>,
    pos: int,
    errs: Seq<ErrorView>,
)
    requires
        terminated(ts),
        0 <= pos < ts.len(),
    ensures
        ({
            let r = crate::lang::laws::steps::program_at(ts, list, pos, errs);
            &&& r.value is Some ==> pos <= r.pos < ts.len()
            &&& r.errors.len() >= errs.len()
            &&& r.value is Some && r.errors.len() == 0 ==> at_end(ts, r.pos)
        }),
    decreases ts.len() - pos,
{
    lemma_program_failing(ts, list, pos, errs);
    crate::lang::laws::steps::lemma_program_step(ts, list, pos, errs);
    if !(at_end(ts, pos) || errs.len() > 0) {
        lemma_declaration_moves(ts, pos, errs);
        let d = declaration_at(ts, pos, errs);
        if d.value is Some {
            lemma_program_moves(ts, list.push(d.value->0), d.pos, d.errors);
        }
    }
}

/// A parse that succeeds has read every token: it ends at the end token.
pub proof fn law_parse_reads_every_token(ts: Seq<TokenView>)
    requires
        terminated(ts),
        crate::lang::grammar::parse_tokens(ts) is Ok,
    ensures
        at_end(
            ts,
            crate::lang::grammar::parse_program(ts, Seq::empty(), 0, Seq::empty()).pos,
        ),
{
    reveal(crate::lang::laws::steps::program_at);
    lemma_program_moves(ts, Seq::empty(), 0, Seq::empty());
}

} // verus!
